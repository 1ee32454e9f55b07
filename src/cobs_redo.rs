//! Consistent overhead byte stuffing on a flat slice that holds a whole frame.
use crate::cobs::{chain_zeroed, lemma_zero_from, lemma_zero_from_at, zero_from};
use vstd::prelude::*;

verus! {

/// The stuffing that [`cobs_encode`] performs on `b`: the first byte counts
/// as a zero, each zero becomes the distance to the next one, and the last
/// zero, with none after it, becomes 0xFF.
pub open spec fn slice_stuffed(b: Seq<u8>) -> Seq<u8> {
    let z = b.update(0, 0);
    Seq::new(
        b.len(),
        |p: int|
            if z[p] != 0 {
                z[p]
            } else if zero_from(z, p + 1) == z.len() {
                0xFFu8
            } else {
                (zero_from(z, p + 1) - p) as u8
            },
    )
}

/// Stuffs a whole flat frame in place. The first byte is the overhead
/// byte: it gets the offset to the first zero. The last zero gets 0xFF, as
/// the end of the frame will follow it.
pub fn cobs_encode(buf: &mut [u8])
    requires
        old(buf)@.len() >= 1,
    ensures
        final(buf)@ == slice_stuffed(old(buf)@),
{
    let ghost b = buf@;
    let ghost z = b.update(0, 0);
    let n = buf.len();
    let mut last: usize = 0;
    let mut i: usize = 1;
    while i < n
        invariant
            n == b.len(),
            z == b.update(0, 0),
            buf@.len() == n,
            0 <= last < i <= n,
            z[last as int] == 0,
            forall|k: int| last < k < i ==> z[k] != 0,
            forall|p: int| 0 <= p < last ==> buf@[p] == slice_stuffed(b)[p],
            forall|p: int| last < p < n ==> buf@[p] == b[p],
        decreases n - i,
    {
        if buf[i] == 0u8 {
            proof {
                lemma_zero_from_at(z, last + 1, i as int);
            }
            buf[last] = (i - last) as u8;
            last = i;
        }
        i = i + 1;
    }
    proof {
        assert forall|k: int| last + 1 <= k < n implies z[k] != 0 by {}
        lemma_zero_from(z, last + 1);
    }
    buf[last] = 0xFFu8;
    assert(buf@ =~= slice_stuffed(b));
}

/// Undoes the stuffing of a flat frame in place: zeroes every byte on the
/// chain of offsets that starts at the overhead byte, up to a zero or the
/// end. The overhead byte is not part of the message: the message is what
/// follows it.
pub fn cobs_decode(buf: &mut [u8])
    ensures
        final(buf)@ == chain_zeroed(old(buf)@, 0),
{
    let ghost b = buf@;
    let n = buf.len();
    let mut next: usize = 0;
    let mut i: usize = 0;
    while i < n
        invariant
            n == b.len(),
            buf@.len() == n,
            next < i ==> buf@ == chain_zeroed(b, 0),
            next >= i ==> chain_zeroed(buf@, next as int) == chain_zeroed(b, 0),
        decreases n - i,
    {
        if i == next {
            let v = buf[i];
            // An offset past the end stops the chain wherever it lands.
            next = if (v as usize) < n - i {
                i + v as usize
            } else {
                n
            };
            let ghost before = buf@;
            buf[i] = 0u8;
            proof {
                if v != 0 {
                    assert(chain_zeroed(before, i as int) == chain_zeroed(buf@, i + v));
                    assert(chain_zeroed(buf@, i + v) == chain_zeroed(buf@, next as int));
                }
            }
        }
        i = i + 1;
    }
}

} // verus!
