//! Fixed-capacity rings of bytes that overwrite their oldest byte when full.
use arraydeque::{ArrayDeque, Wrapping};
use rand::Rng;
use crate::error::{SerialComError, SerialComResult};
use vstd::prelude::*;

verus! {

/// The bytes after a push at the back of a ring of capacity `cap`: when the
/// ring is full, its front byte is dropped to make room.
pub open spec fn pushed_back(s: Seq<u8>, x: u8, cap: nat) -> Seq<u8> {
    if s.len() < cap {
        s.push(x)
    } else {
        s.drop_first().push(x)
    }
}

/// The bytes after a push at the front of a ring of capacity `cap`: when the
/// ring is full, its back byte is dropped to make room.
pub open spec fn pushed_front(s: Seq<u8>, x: u8, cap: nat) -> Seq<u8> {
    if s.len() < cap {
        seq![x] + s
    } else {
        seq![x] + s.drop_last()
    }
}

/// A fixed-capacity ring of bytes whose pushes overwrite the oldest byte
/// when it is full. Its view is the sequence of bytes held, front first.
pub trait RingBuffer: View<V = Seq<u8>> + Sized {
    /// The fixed number of bytes the ring can hold.
    spec fn cap() -> nat;

    fn new() -> (r: Self)
        ensures
            r@ == Seq::<u8>::empty(),
    ;

    fn capacity(&self) -> (r: usize)
        ensures
            r == Self::cap(),
            16 <= r <= 255,
    ;

    fn len(&self) -> (r: usize)
        ensures
            r == self@.len(),
            r <= Self::cap(),
    ;

    fn clear(&mut self)
        ensures
            final(self)@ == Seq::<u8>::empty(),
    ;

    fn push_back(&mut self, x: u8)
        ensures
            final(self)@ == pushed_back(old(self)@, x, Self::cap()),
    ;

    fn push_front(&mut self, x: u8)
        ensures
            final(self)@ == pushed_front(old(self)@, x, Self::cap()),
    ;

    fn pop_front(&mut self) -> (r: Option<u8>)
        ensures
            old(self)@.len() == 0 ==> r == None::<u8> && final(self)@ == old(self)@,
            old(self)@.len() > 0 ==> r == Some(old(self)@[0]) && final(self)@
                == old(self)@.drop_first(),
    ;

    fn pop_back(&mut self) -> (r: Option<u8>)
        ensures
            old(self)@.len() == 0 ==> r == None::<u8> && final(self)@ == old(self)@,
            old(self)@.len() > 0 ==> r == Some(old(self)@.last()) && final(self)@
                == old(self)@.drop_last(),
    ;

    fn get(&self, i: usize) -> (r: Option<u8>)
        ensures
            i < self@.len() ==> r == Some(self@[i as int]),
            i >= self@.len() ==> r == None::<u8>,
    ;

    fn set(&mut self, i: usize, x: u8)
        requires
            i < old(self)@.len(),
        ensures
            final(self)@ == old(self)@.update(i as int, x),
    ;

    fn as_slices(&self) -> (r: (&[u8], &[u8]))
        ensures
            r.0@ + r.1@ == self@,
    ;

    fn is_full(&self) -> (r: bool)
        ensures
            r == (self@.len() == Self::cap()),
    {
        self.len() == self.capacity()
    }
}

/// The last `cap` bytes of `s`, or all of them when there are no more.
pub open spec fn keep_last(s: Seq<u8>, cap: nat) -> Seq<u8> {
    if s.len() <= cap {
        s
    } else {
        s.subrange(s.len() - cap, s.len() as int)
    }
}

/// A push at the back keeps the last `cap` bytes.
pub proof fn lemma_pushed_back_keeps_last(u: Seq<u8>, x: u8, cap: nat)
    requires
        cap >= 1,
    ensures
        pushed_back(keep_last(u, cap), x, cap) == keep_last(u.push(x), cap),
{
    let k = keep_last(u, cap);
    if u.len() < cap {
        assert(k.push(x) =~= u.push(x));
    } else {
        assert(k.drop_first().push(x) =~= keep_last(u.push(x), cap));
    }
}

/// Overwriting: after `t` is pushed at the back of a ring of capacity `cap`
/// that held `s`, and `t` has at least `cap` bytes, the ring holds exactly
/// the last `cap` bytes of `t`, in order.
pub proof fn lemma_overwrite_keeps_last(s: Seq<u8>, t: Seq<u8>, cap: nat)
    requires
        s.len() <= cap,
        t.len() >= cap,
    ensures
        keep_last(s + t, cap) == t.subrange(t.len() - cap, t.len() as int),
        keep_last(s + t, cap).len() == cap,
{
    assert(keep_last(s + t, cap) =~= t.subrange(t.len() - cap, t.len() as int));
}

/// Relies on rand's `thread_rng` and `Rng::gen_ratio`: a random draw, true
/// with probability `numerator / denominator`, so always true when they are
/// equal. It panics on a zero denominator or a numerator above it.
#[verifier::external_body]
fn random_ratio(numerator: u32, denominator: u32) -> (r: bool)
    requires
        0 < denominator,
        numerator <= denominator,
    ensures
        numerator == denominator ==> r,
{
    rand::thread_rng().gen_ratio(numerator, denominator)
}

/// Relies on rand's `thread_rng` and `Rng::gen`: a uniformly random byte.
#[verifier::external_body]
fn random_byte() -> (r: u8) {
    rand::thread_rng().gen::<u8>()
}

/// Helpers for rings used on a serial link.
pub trait CircBufExt: RingBuffer {
    /// Pushes `n` random bytes at the back. Beyond the zeros a uniform draw
    /// gives, `perc_extra_zero` percent of them are zero.
    fn push_back_rand(&mut self, n: &usize, perc_extra_zero: &u32)
        requires
            *perc_extra_zero <= 100,
        ensures
            exists|added: Seq<u8>|
                {
                    &&& added.len() == *n
                    &&& final(self)@ == keep_last(old(self)@ + added, Self::cap())
                    &&& *perc_extra_zero == 100 ==> forall|i: int|
                        0 <= i < added.len() ==> added[i] == 0
                },
    {
        let cap = self.capacity();
        // Brings the bound on what the ring holds into the proof.
        let _ = self.len();
        let ghost added: Seq<u8> = Seq::empty();
        let mut i: usize = 0;
        while i < *n
            invariant
                cap == Self::cap(),
                1 <= cap,
                old(self)@.len() <= cap,
                added.len() == i,
                *perc_extra_zero == 100 ==> forall|k: int| 0 <= k < added.len() ==> added[k] == 0,
                i <= *n,
                *perc_extra_zero <= 100,
                self@ == keep_last(old(self)@ + added, cap as nat),
            decreases *n - i,
        {
            let x = if random_ratio(*perc_extra_zero, 100) {
                0u8
            } else {
                random_byte()
            };
            proof {
                lemma_pushed_back_keeps_last(old(self)@ + added, x, cap as nat);
                assert((old(self)@ + added).push(x) =~= old(self)@ + added.push(x));
                added = added.push(x);
            }
            self.push_back(x);
            i = i + 1;
        }
        assert(old(self)@ =~= old(self)@ + Seq::<u8>::empty());
    }

    /// Removes the first `n` bytes and returns how many are left. Fails,
    /// and removes nothing, when fewer than `n` are held.
    fn remove_front_n(&mut self, n: &usize) -> (r: SerialComResult<usize>)
        ensures
            *n <= old(self)@.len() ==> r == Ok::<usize, SerialComError>(
                (old(self)@.len() - *n) as usize,
            ) && final(self)@ == old(self)@.subrange(*n as int, old(self)@.len() as int),
            *n > old(self)@.len() ==> r == Err::<usize, _>(SerialComError::QueueIndexingError)
                && final(self)@ == old(self)@,
    {
        if *n > self.len() {
            return Err(SerialComError::QueueIndexingError);
        }
        let mut i: usize = 0;
        while i < *n
            invariant
                *n <= old(self)@.len(),
                i <= *n,
                self@ == old(self)@.subrange(i as int, old(self)@.len() as int),
            decreases *n - i,
        {
            self.pop_front();
            i = i + 1;
        }
        Ok(self.len())
    }

    /// Pushes `bytes` at the back in order, as bytes read from a stream
    /// arrive; when the ring fills up, the oldest bytes are overwritten.
    fn extend_back(&mut self, bytes: &[u8])
        ensures
            final(self)@ == keep_last(old(self)@ + bytes@, Self::cap()),
            final(self)@.len() <= Self::cap(),
    {
        let cap = self.capacity();
        // Brings the bound on what the ring holds into the proof.
        let _ = self.len();
        let mut i: usize = 0;
        while i < bytes.len()
            invariant
                cap == Self::cap(),
                1 <= cap,
                old(self)@.len() <= cap,
                i <= bytes.len(),
                self@ == keep_last(old(self)@ + bytes@.subrange(0, i as int), cap as nat),
            decreases bytes.len() - i,
        {
            proof {
                lemma_pushed_back_keeps_last(old(self)@ + bytes@.subrange(0, i as int), bytes@[i as int], cap as nat);
                assert((old(self)@ + bytes@.subrange(0, i as int)).push(bytes@[i as int])
                    =~= old(self)@ + bytes@.subrange(0, i + 1));
            }
            self.push_back(bytes[i]);
            i = i + 1;
        }
        assert(bytes@.subrange(0, i as int) =~= bytes@);
        assert(old(self)@ =~= old(self)@ + bytes@.subrange(0, 0));
    }

    /// Removes every byte held and returns them in order, as they are to be
    /// written to a stream.
    fn drain_to_vec(&mut self) -> (r: Vec<u8>)
        ensures
            r@ == old(self)@,
            final(self)@ == Seq::<u8>::empty(),
    {
        let mut out: Vec<u8> = Vec::new();
        let n = self.len();
        let mut i: usize = 0;
        while i < n
            invariant
                n == old(self)@.len(),
                i <= n,
                out@ == old(self)@.subrange(0, i as int),
                self@ == old(self)@.subrange(i as int, n as int),
            decreases n - i,
        {
            let x = self.pop_front().unwrap();
            out.push(x);
            i = i + 1;
        }
        out
    }
}

impl CircBufExt for CircBuf16 {

}

impl CircBufExt for CircBuf64 {

}

/// A wrapping ring of 16 bytes.
#[verifier::external_body]
pub struct CircBuf16 {
    inner: ArrayDeque<[u8; 16], Wrapping>,
}

/// The bytes that a [`CircBuf16`] holds, front first.
pub uninterp spec fn circbuf16_items(b: CircBuf16) -> Seq<u8>;

impl View for CircBuf16 {
    type V = Seq<u8>;

    open spec fn view(&self) -> Seq<u8> {
        circbuf16_items(*self)
    }
}

impl CircBuf16 {
    /// Relies on `ArrayDeque::new`: an empty deque.
    #[verifier::external_body]
    fn deque_new() -> (r: Self)
        ensures
            circbuf16_items(r) == Seq::<u8>::empty(),
    {
        CircBuf16 { inner: ArrayDeque::new() }
    }

    /// Relies on `ArrayDeque::len`: the number of bytes held, never above the capacity.
    #[verifier::external_body]
    fn deque_len(&self) -> (r: usize)
        ensures
            r == circbuf16_items(*self).len(),
            r <= 16,
    {
        self.inner.len()
    }

    /// Relies on `ArrayDeque::clear`: no byte is left.
    #[verifier::external_body]
    fn deque_clear(&mut self)
        ensures
            circbuf16_items(*final(self)) == Seq::<u8>::empty(),
    {
        self.inner.clear()
    }

    /// Relies on `ArrayDeque::push_back` of a wrapping deque: when full, the front byte leaves.
    #[verifier::external_body]
    fn deque_push_back(&mut self, x: u8)
        ensures
            circbuf16_items(*final(self)) == pushed_back(circbuf16_items(*old(self)), x, 16),
    {
        self.inner.push_back(x);
    }

    /// Relies on `ArrayDeque::push_front` of a wrapping deque: when full, the back byte leaves.
    #[verifier::external_body]
    fn deque_push_front(&mut self, x: u8)
        ensures
            circbuf16_items(*final(self)) == pushed_front(circbuf16_items(*old(self)), x, 16),
    {
        self.inner.push_front(x);
    }

    /// Relies on `ArrayDeque::pop_front`: the front byte leaves, if there is one.
    #[verifier::external_body]
    fn deque_pop_front(&mut self) -> (r: Option<u8>)
        ensures
            circbuf16_items(*old(self)).len() == 0 ==> r == None::<u8> && circbuf16_items(
                *final(self),
            ) == circbuf16_items(*old(self)),
            circbuf16_items(*old(self)).len() > 0 ==> r == Some(circbuf16_items(*old(self))[0])
                && circbuf16_items(*final(self)) == circbuf16_items(*old(self)).drop_first(),
    {
        self.inner.pop_front()
    }

    /// Relies on `ArrayDeque::pop_back`: the back byte leaves, if there is one.
    #[verifier::external_body]
    fn deque_pop_back(&mut self) -> (r: Option<u8>)
        ensures
            circbuf16_items(*old(self)).len() == 0 ==> r == None::<u8> && circbuf16_items(
                *final(self),
            ) == circbuf16_items(*old(self)),
            circbuf16_items(*old(self)).len() > 0 ==> r == Some(
                circbuf16_items(*old(self)).last(),
            ) && circbuf16_items(*final(self)) == circbuf16_items(*old(self)).drop_last(),
    {
        self.inner.pop_back()
    }

    /// Relies on `ArrayDeque::get`: the byte at an index from the front, if there is one.
    #[verifier::external_body]
    fn deque_get(&self, i: usize) -> (r: Option<u8>)
        ensures
            i < circbuf16_items(*self).len() ==> r == Some(circbuf16_items(*self)[i as int]),
            i >= circbuf16_items(*self).len() ==> r == None::<u8>,
    {
        self.inner.get(i).copied()
    }

    /// Relies on `ArrayDeque`'s `IndexMut`: overwrites the byte at an index held.
    #[verifier::external_body]
    fn deque_set(&mut self, i: usize, x: u8)
        requires
            i < circbuf16_items(*old(self)).len(),
        ensures
            circbuf16_items(*final(self)) == circbuf16_items(*old(self)).update(i as int, x),
    {
        self.inner[i] = x;
    }

    /// Relies on `ArrayDeque::as_slices`: two slices that hold the bytes in order.
    #[verifier::external_body]
    fn deque_as_slices(&self) -> (r: (&[u8], &[u8]))
        ensures
            r.0@ + r.1@ == circbuf16_items(*self),
    {
        self.inner.as_slices()
    }
}

impl RingBuffer for CircBuf16 {
    open spec fn cap() -> nat {
        16
    }

    fn new() -> (r: Self) {
        Self::deque_new()
    }

    fn capacity(&self) -> (r: usize) {
        16
    }

    fn len(&self) -> (r: usize) {
        self.deque_len()
    }

    fn clear(&mut self) {
        self.deque_clear()
    }

    fn push_back(&mut self, x: u8) {
        self.deque_push_back(x)
    }

    fn push_front(&mut self, x: u8) {
        self.deque_push_front(x)
    }

    fn pop_front(&mut self) -> (r: Option<u8>) {
        self.deque_pop_front()
    }

    fn pop_back(&mut self) -> (r: Option<u8>) {
        self.deque_pop_back()
    }

    fn get(&self, i: usize) -> (r: Option<u8>) {
        self.deque_get(i)
    }

    fn set(&mut self, i: usize, x: u8) {
        self.deque_set(i, x)
    }

    fn as_slices(&self) -> (r: (&[u8], &[u8])) {
        self.deque_as_slices()
    }
}

/// A wrapping ring of 64 bytes.
#[verifier::external_body]
pub struct CircBuf64 {
    inner: ArrayDeque<[u8; 64], Wrapping>,
}

/// The bytes that a [`CircBuf64`] holds, front first.
pub uninterp spec fn circbuf64_items(b: CircBuf64) -> Seq<u8>;

impl View for CircBuf64 {
    type V = Seq<u8>;

    open spec fn view(&self) -> Seq<u8> {
        circbuf64_items(*self)
    }
}

impl CircBuf64 {
    /// Relies on `ArrayDeque::new`: an empty deque.
    #[verifier::external_body]
    fn deque_new() -> (r: Self)
        ensures
            circbuf64_items(r) == Seq::<u8>::empty(),
    {
        CircBuf64 { inner: ArrayDeque::new() }
    }

    /// Relies on `ArrayDeque::len`: the number of bytes held, never above the capacity.
    #[verifier::external_body]
    fn deque_len(&self) -> (r: usize)
        ensures
            r == circbuf64_items(*self).len(),
            r <= 64,
    {
        self.inner.len()
    }

    /// Relies on `ArrayDeque::clear`: no byte is left.
    #[verifier::external_body]
    fn deque_clear(&mut self)
        ensures
            circbuf64_items(*final(self)) == Seq::<u8>::empty(),
    {
        self.inner.clear()
    }

    /// Relies on `ArrayDeque::push_back` of a wrapping deque: when full, the front byte leaves.
    #[verifier::external_body]
    fn deque_push_back(&mut self, x: u8)
        ensures
            circbuf64_items(*final(self)) == pushed_back(circbuf64_items(*old(self)), x, 64),
    {
        self.inner.push_back(x);
    }

    /// Relies on `ArrayDeque::push_front` of a wrapping deque: when full, the back byte leaves.
    #[verifier::external_body]
    fn deque_push_front(&mut self, x: u8)
        ensures
            circbuf64_items(*final(self)) == pushed_front(circbuf64_items(*old(self)), x, 64),
    {
        self.inner.push_front(x);
    }

    /// Relies on `ArrayDeque::pop_front`: the front byte leaves, if there is one.
    #[verifier::external_body]
    fn deque_pop_front(&mut self) -> (r: Option<u8>)
        ensures
            circbuf64_items(*old(self)).len() == 0 ==> r == None::<u8> && circbuf64_items(
                *final(self),
            ) == circbuf64_items(*old(self)),
            circbuf64_items(*old(self)).len() > 0 ==> r == Some(circbuf64_items(*old(self))[0])
                && circbuf64_items(*final(self)) == circbuf64_items(*old(self)).drop_first(),
    {
        self.inner.pop_front()
    }

    /// Relies on `ArrayDeque::pop_back`: the back byte leaves, if there is one.
    #[verifier::external_body]
    fn deque_pop_back(&mut self) -> (r: Option<u8>)
        ensures
            circbuf64_items(*old(self)).len() == 0 ==> r == None::<u8> && circbuf64_items(
                *final(self),
            ) == circbuf64_items(*old(self)),
            circbuf64_items(*old(self)).len() > 0 ==> r == Some(
                circbuf64_items(*old(self)).last(),
            ) && circbuf64_items(*final(self)) == circbuf64_items(*old(self)).drop_last(),
    {
        self.inner.pop_back()
    }

    /// Relies on `ArrayDeque::get`: the byte at an index from the front, if there is one.
    #[verifier::external_body]
    fn deque_get(&self, i: usize) -> (r: Option<u8>)
        ensures
            i < circbuf64_items(*self).len() ==> r == Some(circbuf64_items(*self)[i as int]),
            i >= circbuf64_items(*self).len() ==> r == None::<u8>,
    {
        self.inner.get(i).copied()
    }

    /// Relies on `ArrayDeque`'s `IndexMut`: overwrites the byte at an index held.
    #[verifier::external_body]
    fn deque_set(&mut self, i: usize, x: u8)
        requires
            i < circbuf64_items(*old(self)).len(),
        ensures
            circbuf64_items(*final(self)) == circbuf64_items(*old(self)).update(i as int, x),
    {
        self.inner[i] = x;
    }

    /// Relies on `ArrayDeque::as_slices`: two slices that hold the bytes in order.
    #[verifier::external_body]
    fn deque_as_slices(&self) -> (r: (&[u8], &[u8]))
        ensures
            r.0@ + r.1@ == circbuf64_items(*self),
    {
        self.inner.as_slices()
    }
}

impl RingBuffer for CircBuf64 {
    open spec fn cap() -> nat {
        64
    }

    fn new() -> (r: Self) {
        Self::deque_new()
    }

    fn capacity(&self) -> (r: usize) {
        64
    }

    fn len(&self) -> (r: usize) {
        self.deque_len()
    }

    fn clear(&mut self) {
        self.deque_clear()
    }

    fn push_back(&mut self, x: u8) {
        self.deque_push_back(x)
    }

    fn push_front(&mut self, x: u8) {
        self.deque_push_front(x)
    }

    fn pop_front(&mut self) -> (r: Option<u8>) {
        self.deque_pop_front()
    }

    fn pop_back(&mut self) -> (r: Option<u8>) {
        self.deque_pop_back()
    }

    fn get(&self, i: usize) -> (r: Option<u8>) {
        self.deque_get(i)
    }

    fn set(&mut self, i: usize, x: u8) {
        self.deque_set(i, x)
    }

    fn as_slices(&self) -> (r: (&[u8], &[u8])) {
        self.deque_as_slices()
    }
}

} // verus!
