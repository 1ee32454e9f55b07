//! Consistent overhead byte stuffing, in place, on a ring or a growable buffer.
use crate::circbuf::RingBuffer;
use crate::error::{SerialComError, SerialComResult};
use vstd::prelude::*;

verus! {

/// Index of the first zero byte of `s` at or after `i`, or `s.len()` when
/// there is none.
pub open spec fn zero_from(s: Seq<u8>, i: int) -> int
    decreases s.len() - i,
{
    if i < 0 || i >= s.len() {
        s.len() as int
    } else if s[i] == 0 {
        i
    } else {
        zero_from(s, i + 1)
    }
}

/// Byte stuffing of `z`, whose last byte is the comma: every zero but the
/// last becomes the distance to the next zero.
pub open spec fn stuffed(z: Seq<u8>) -> Seq<u8> {
    Seq::new(
        z.len(),
        |p: int|
            if z[p] != 0 {
                z[p]
            } else if p == z.len() - 1 {
                0u8
            } else {
                (zero_from(z, p + 1) - p) as u8
            },
    )
}

/// The message `m` framed by a leading overhead placeholder and a trailing
/// comma, before stuffing.
pub open spec fn framed(m: Seq<u8>) -> Seq<u8> {
    seq![0u8] + m + seq![0u8]
}

/// The COBS encoding of the message `m`, comma included.
pub open spec fn cobs_encoded(m: Seq<u8>) -> Seq<u8> {
    stuffed(framed(m))
}

/// Where the chain of offsets that starts at `p` meets a zero byte, or a
/// position at or past the end when it leaves the bytes first.
pub open spec fn chain_end(s: Seq<u8>, p: int) -> int
    decreases if p < s.len() { s.len() - p } else { 0 },
{
    if p < 0 || p >= s.len() || s[p] == 0 {
        p
    } else {
        chain_end(s, p + s[p])
    }
}

/// The bytes after every position on the chain from `p` up to its end has
/// been set to zero.
pub open spec fn chain_zeroed(s: Seq<u8>, p: int) -> Seq<u8>
    decreases if p < s.len() { s.len() - p } else { 0 },
{
    if p < 0 || p >= s.len() || s[p] == 0 {
        s
    } else {
        chain_zeroed(s.update(p, 0), p + s[p])
    }
}

pub proof fn lemma_zero_from(s: Seq<u8>, i: int)
    requires
        0 <= i <= s.len(),
    ensures
        i <= zero_from(s, i) <= s.len(),
        zero_from(s, i) < s.len() ==> s[zero_from(s, i)] == 0,
        forall|k: int| i <= k < zero_from(s, i) ==> s[k] != 0,
    decreases s.len() - i,
{
    if i < s.len() && s[i] != 0 {
        lemma_zero_from(s, i + 1);
    }
}

/// A zero at `q` with none in `[i, q)` is the first one from `i`.
pub proof fn lemma_zero_from_at(s: Seq<u8>, i: int, q: int)
    requires
        0 <= i <= q < s.len(),
        s[q] == 0,
        forall|k: int| i <= k < q ==> s[k] != 0,
    ensures
        zero_from(s, i) == q,
    decreases q - i,
{
    if i < q {
        lemma_zero_from_at(s, i + 1, q);
    }
}


/// A chain never ends before its start.
pub proof fn lemma_chain_end_ge(s: Seq<u8>, p: int)
    requires
        0 <= p,
    ensures
        chain_end(s, p) >= p,
    decreases if p < s.len() { s.len() - p } else { 0 },
{
    if p < s.len() && s[p] != 0 {
        lemma_chain_end_ge(s, p + s[p]);
    }
}

/// A chain does not read the bytes before its start.
pub proof fn lemma_chain_end_update(s: Seq<u8>, k: int, p: int)
    requires
        0 <= k < p,
        k < s.len(),
    ensures
        chain_end(s.update(k, 0), p) == chain_end(s, p),
    decreases if p < s.len() { s.len() - p } else { 0 },
{
    if p < s.len() && s[p] != 0 {
        lemma_chain_end_update(s, k, p + s[p]);
    }
}

/// The chain of a stuffed frame, started at a zero of the unstuffed bytes,
/// runs to the comma.
proof fn lemma_chain_end_stuffed(z: Seq<u8>, p: int)
    requires
        1 <= z.len() <= 256,
        z[z.len() - 1] == 0,
        0 <= p < z.len(),
        z[p] == 0,
    ensures
        chain_end(stuffed(z), p) == z.len() - 1,
    decreases z.len() - p,
{
    let e = stuffed(z);
    if p < z.len() - 1 {
        lemma_zero_from(z, p + 1);
        let q = zero_from(z, p + 1);
        assert(e[p] == (q - p) as u8);
        lemma_chain_end_stuffed(z, q);
    }
}

/// Zeroing along the chain of a stuffed frame gives the unstuffed bytes back.
proof fn lemma_chain_zeroed_stuffed(z: Seq<u8>, w: Seq<u8>, p: int)
    requires
        1 <= z.len() <= 256,
        z[z.len() - 1] == 0,
        0 <= p < z.len(),
        z[p] == 0,
        w.len() == z.len(),
        forall|k: int| 0 <= k < p ==> w[k] == z[k],
        forall|k: int| p <= k < z.len() ==> w[k] == stuffed(z)[k],
    ensures
        chain_zeroed(w, p) == z,
    decreases z.len() - p,
{
    if p == z.len() - 1 {
        assert(w =~= z);
    } else {
        lemma_zero_from(z, p + 1);
        let q = zero_from(z, p + 1);
        assert(w[p] == (q - p) as u8);
        let w2 = w.update(p, 0);
        assert forall|k: int| 0 <= k < q implies w2[k] == z[k] by {
            if p < k {
                assert(z[k] != 0);
            }
        }
        lemma_chain_zeroed_stuffed(z, w2, q);
    }
}

/// Decoding undoes encoding: the chain of an encoded message ends at its
/// comma, and zeroing along it restores the framed message.
pub proof fn lemma_cobs_round_trip(m: Seq<u8>)
    requires
        m.len() <= 254,
    ensures
        chain_end(cobs_encoded(m), 0) == m.len() + 1,
        chain_zeroed(cobs_encoded(m), 0) == framed(m),
        chain_zeroed(cobs_encoded(m), 0).drop_first() == m.push(0u8),
{
    let z = framed(m);
    lemma_chain_end_stuffed(z, 0);
    lemma_chain_zeroed_stuffed(z, stuffed(z), 0);
    assert(z.drop_first() =~= m.push(0u8));
}

/// An encoded message holds no zero byte but its final comma.
pub proof fn lemma_cobs_no_inner_zero(m: Seq<u8>)
    requires
        m.len() <= 254,
    ensures
        cobs_encoded(m).len() == m.len() + 2,
        cobs_encoded(m).last() == 0,
        forall|i: int| 0 <= i < m.len() + 1 ==> cobs_encoded(m)[i] != 0,
{
    let z = framed(m);
    assert(z.len() == m.len() + 2 && z[z.len() - 1] == 0);
    assert forall|i: int| 0 <= i < m.len() + 1 implies cobs_encoded(m)[i] != 0 by {
        if z[i] == 0 {
            lemma_zero_from(z, i + 1);
        }
    }
}

pub trait COBSExt: RingBuffer {
    /// Stuffs the message held into one COBS frame in place: an overhead
    /// byte in front, a comma behind, and no zero in between.
    ///
    /// Fails before any change when the ring is empty, or has no room for
    /// the two added bytes. Returns the length of the frame.
    fn cobs_encode(&mut self) -> (r: SerialComResult<usize>)
        ensures
            old(self)@.len() == 0 ==> r == Err::<usize, _>(SerialComError::COBSTooLittleData)
                && final(self)@ == old(self)@,
            old(self)@.len() > 0 && old(self)@.len() + 2 > Self::cap() ==> r == Err::<
                usize,
                _,
            >(SerialComError::QueueTooFull) && final(self)@ == old(self)@,
            old(self)@.len() > 0 && old(self)@.len() + 2 <= Self::cap() ==> r == Ok::<
                usize,
                SerialComError,
            >((old(self)@.len() + 2) as usize) && final(self)@ == cobs_encoded(old(self)@),
    {
        let n = self.len();
        let cap = self.capacity();
        if n == 0 {
            return Err(SerialComError::COBSTooLittleData);
        }
        if n + 2 > cap {
            return Err(SerialComError::QueueTooFull);
        }
        let ghost m = self@;
        self.push_front(0u8);
        self.push_back(0u8);
        let ghost z = self@;
        assert(z =~= framed(m));
        let qlen = n + 2;
        let mut last: usize = 0;
        let mut i: usize = 1;
        while i < qlen
            invariant
                qlen == z.len(),
                qlen <= cap <= 255,
                self@.len() == qlen,
                z[qlen - 1] == 0,
                0 <= last < i <= qlen,
                z[last as int] == 0,
                forall|k: int| last < k < i ==> z[k] != 0,
                forall|p: int| 0 <= p < last ==> self@[p] == stuffed(z)[p],
                forall|p: int| last <= p < qlen ==> self@[p] == z[p],
            decreases qlen - i,
        {
            let b = self.get(i);
            if b == Some(0u8) {
                proof {
                    lemma_zero_from_at(z, last + 1, i as int);
                }
                self.set(last, (i - last) as u8);
                last = i;
            }
            i = i + 1;
        }
        assert(last == qlen - 1);
        assert(self@ =~= stuffed(z));
        Ok(qlen)
    }

    /// Undoes the stuffing of the frame at the front, in place: walks the
    /// chain of offsets from the overhead byte, zeroes each byte on it, and
    /// drops the overhead byte. The comma stays at the front of what follows.
    /// Returns the message length, that is the comma's new index.
    ///
    /// Fails, and changes nothing, when fewer than three bytes are held, when
    /// the chain leaves the bytes before a comma, or when the frame is empty.
    fn cobs_decode(&mut self) -> (r: SerialComResult<usize>)
        ensures
            old(self)@.len() < 3 ==> r == Err::<usize, _>(SerialComError::COBSTooLittleData)
                && final(self)@ == old(self)@,
            old(self)@.len() >= 3 && chain_end(old(self)@, 0) >= old(self)@.len() ==> r == Err::<
                usize,
                _,
            >(SerialComError::COBSDecodeNoCommaFound) && final(self)@ == old(self)@,
            old(self)@.len() >= 3 && chain_end(old(self)@, 0) == 0 ==> r == Err::<usize, _>(
                SerialComError::COBSTooLittleData,
            ) && final(self)@ == old(self)@,
            old(self)@.len() >= 3 && 0 < chain_end(old(self)@, 0) < old(self)@.len() ==> r
                == Ok::<usize, SerialComError>((chain_end(old(self)@, 0) - 1) as usize)
                && final(self)@ == chain_zeroed(old(self)@, 0).drop_first(),
    {
        let q_len = self.len();
        let cap = self.capacity();
        if q_len < 3 {
            return Err(SerialComError::COBSTooLittleData);
        }
        let ghost s = self@;
        let mut i: usize = 0;
        while i < q_len
            invariant
                q_len == s.len(),
                q_len <= cap <= 255,
                self@ == s,
                chain_end(s, i as int) == chain_end(s, 0),
            ensures
                i < q_len ==> s[i as int] == 0,
                chain_end(s, i as int) == chain_end(s, 0),
            decreases if i < q_len { q_len - i } else { 0 },
        {
            let v = self.get(i).unwrap();
            if v == 0 {
                break;
            }
            i = i + v as usize;
        }
        if i >= q_len {
            return Err(SerialComError::COBSDecodeNoCommaFound);
        }
        if i == 0 {
            return Err(SerialComError::COBSTooLittleData);
        }
        let end = i;
        proof {
            lemma_chain_end_ge(s, 0);
        }
        let mut j: usize = 0;
        while j < end
            invariant
                q_len == s.len(),
                self@.len() == q_len,
                end < q_len <= cap <= 255,
                end == chain_end(s, 0),
                chain_end(self@, j as int) == end,
                chain_zeroed(self@, j as int) == chain_zeroed(s, 0),
                j <= end,
            decreases end - j,
        {
            let v = self.get(j).unwrap();
            proof {
                lemma_chain_end_ge(self@, j + v);
                lemma_chain_end_update(self@, j as int, j + v);
            }
            self.set(j, 0);
            j = j + v as usize;
        }
        proof {
            if self@[j as int] != 0 {
                lemma_chain_end_ge(self@, j + self@[j as int]);
            }
        }
        assert(chain_zeroed(self@, j as int) == self@);
        self.pop_front();
        Ok(end - 1)
    }
}

impl COBSExt for crate::circbuf::CircBuf16 {

}

impl COBSExt for crate::circbuf::CircBuf64 {

}

/// Whether every zero of `z` but the last lies at most 255 bytes before the
/// next zero, so that each stuffed offset fits in a byte.
pub open spec fn gaps_fit(z: Seq<u8>) -> bool {
    forall|p: int| 0 <= p < z.len() - 1 && z[p] == 0 ==> zero_from(z, p + 1) - p <= 255
}

/// COBS on a contiguous, growable buffer holding one message.
pub trait FlatCOBSExt: View<V = Seq<u8>> + Sized {
    /// Stuffs the message held into one COBS frame in place, as
    /// [`COBSExt::cobs_encode`] does, with no capacity to run out of. Fails,
    /// changing nothing, when the buffer is empty, or when two zeros of the
    /// framed message lie more than 255 bytes apart. Returns the frame's length.
    fn cobs_encode(&mut self) -> (r: SerialComResult<usize>)
        ensures
            old(self)@.len() == 0 ==> r == Err::<usize, _>(SerialComError::COBSTooLittleData)
                && final(self)@ == old(self)@,
            old(self)@.len() > 0 && !gaps_fit(framed(old(self)@)) ==> r is Err && r->Err_0 is TryFromInt
                && final(self)@ == old(self)@,
            old(self)@.len() > 0 && gaps_fit(framed(old(self)@)) ==> r == Ok::<
                usize,
                SerialComError,
            >((old(self)@.len() + 2) as usize) && final(self)@ == cobs_encoded(old(self)@),
    ;

    /// Undoes the stuffing of the frame at the front in place, as
    /// [`COBSExt::cobs_decode`] does, with the same results and failures.
    fn cobs_decode(&mut self) -> (r: SerialComResult<usize>)
        ensures
            old(self)@.len() < 3 ==> r == Err::<usize, _>(SerialComError::COBSTooLittleData)
                && final(self)@ == old(self)@,
            old(self)@.len() >= 3 && chain_end(old(self)@, 0) >= old(self)@.len() ==> r == Err::<
                usize,
                _,
            >(SerialComError::COBSDecodeNoCommaFound) && final(self)@ == old(self)@,
            old(self)@.len() >= 3 && chain_end(old(self)@, 0) == 0 ==> r == Err::<usize, _>(
                SerialComError::COBSTooLittleData,
            ) && final(self)@ == old(self)@,
            old(self)@.len() >= 3 && 0 < chain_end(old(self)@, 0) < old(self)@.len() ==> r
                == Ok::<usize, SerialComError>((chain_end(old(self)@, 0) - 1) as usize)
                && final(self)@ == chain_zeroed(old(self)@, 0).drop_first(),
    ;
}

impl FlatCOBSExt for Vec<u8> {
    fn cobs_encode(&mut self) -> (r: SerialComResult<usize>) {
        let n = self.len();
        if n == 0 {
            return Err(SerialComError::COBSTooLittleData);
        }
        let ghost m = self@;
        self.insert(0, 0u8);
        self.push(0u8);
        let ghost z = self@;
        assert(z =~= framed(m));
        let qlen = self.len();
        // First pass: every offset must fit in a byte before anything is written.
        let mut last: usize = 0;
        let mut i: usize = 1;
        while i < qlen
            invariant
                qlen == z.len(),
                self@ == z,
                z == framed(m),
                m == old(self)@,
                m.len() > 0,
                z[qlen - 1] == 0,
                0 <= last < i <= qlen,
                z[last as int] == 0,
                forall|k: int| last < k < i ==> z[k] != 0,
                forall|p: int| 0 <= p < last && z[p] == 0 ==> zero_from(z, p + 1) - p <= 255,
            decreases qlen - i,
        {
            if self[i] == 0u8 {
                proof {
                    lemma_zero_from_at(z, last + 1, i as int);
                }
                match u8::try_from(i - last) {
                    Ok(_) => {},
                    Err(e) => {
                        assert(zero_from(z, last + 1) - last > 255);
                        assert(!gaps_fit(z));
                        self.remove(0);
                        assert(self@ =~= m.push(0u8));
                        self.pop();
                        assert(self@ =~= m);
                        return Err(SerialComError::TryFromInt(e));
                    },
                }
                last = i;
            }
            i = i + 1;
        }
        assert(last == qlen - 1);
        assert(gaps_fit(z));
        // Second pass: each zero but the last becomes the offset to the next.
        let mut last: usize = 0;
        let mut i: usize = 1;
        while i < qlen
            invariant
                qlen == z.len(),
                gaps_fit(z),
                self@.len() == qlen,
                z[qlen - 1] == 0,
                0 <= last < i <= qlen,
                z[last as int] == 0,
                forall|k: int| last < k < i ==> z[k] != 0,
                forall|p: int| 0 <= p < last ==> self@[p] == stuffed(z)[p],
                forall|p: int| last <= p < qlen ==> self@[p] == z[p],
            decreases qlen - i,
        {
            if self[i] == 0u8 {
                proof {
                    lemma_zero_from_at(z, last + 1, i as int);
                }
                self.set(last, (i - last) as u8);
                last = i;
            }
            i = i + 1;
        }
        assert(last == qlen - 1);
        assert(self@ =~= stuffed(z));
        Ok(qlen)
    }

    fn cobs_decode(&mut self) -> (r: SerialComResult<usize>) {
        let q_len = self.len();
        if q_len < 3 {
            return Err(SerialComError::COBSTooLittleData);
        }
        let ghost s = self@;
        let mut i: usize = 0;
        while i < q_len
            invariant
                q_len == s.len(),
                self@ == s,
                i < q_len ==> chain_end(s, i as int) == chain_end(s, 0),
                i >= q_len ==> chain_end(s, 0) >= q_len,
            ensures
                i < q_len ==> s[i as int] == 0 && chain_end(s, i as int) == chain_end(s, 0),
                i >= q_len ==> chain_end(s, 0) >= q_len,
            decreases if i < q_len { q_len - i } else { 0 },
        {
            let v = self[i];
            let ghost at = i as int;
            if v == 0 {
                break;
            }
            // An offset past the end stops the chain wherever it lands.
            i = if (v as usize) < q_len - i {
                i + v as usize
            } else {
                q_len
            };
            proof {
                if i == q_len {
                    lemma_chain_end_ge(s, at + v);
                }
            }
        }
        if i >= q_len {
            return Err(SerialComError::COBSDecodeNoCommaFound);
        }
        if i == 0 {
            return Err(SerialComError::COBSTooLittleData);
        }
        let end = i;
        proof {
            lemma_chain_end_ge(s, 0);
        }
        let mut j: usize = 0;
        while j < end
            invariant
                q_len == s.len(),
                self@.len() == q_len,
                end < q_len,
                end == chain_end(s, 0),
                chain_end(self@, j as int) == end,
                chain_zeroed(self@, j as int) == chain_zeroed(s, 0),
                j <= end,
            decreases end - j,
        {
            let v = self[j];
            proof {
                lemma_chain_end_ge(self@, j + v);
                lemma_chain_end_update(self@, j as int, j + v);
            }
            self.set(j, 0);
            j = j + v as usize;
        }
        proof {
            if self@[j as int] != 0 {
                lemma_chain_end_ge(self@, j + self@[j as int]);
            }
        }
        assert(chain_zeroed(self@, j as int) == self@);
        self.remove(0);
        assert(self@ =~= chain_zeroed(s, 0).drop_first());
        Ok(end - 1)
    }
}

} // verus!
