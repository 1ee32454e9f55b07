//! CRC-16/DNP checksums over the first bytes of a ring.
use crate::circbuf::RingBuffer;
use crate::error::{SerialComError, SerialComResult};
use crc_any::CRC;
use vstd::prelude::*;
use vstd::slice::slice_subrange;

verus! {

/// The CRC-16/DNP checksum of a byte sequence.
pub uninterp spec fn crc16_dnp(bytes: Seq<u8>) -> u16;

/// Relies on crc_any's `CRC::crc16dnp`, `CRC::digest` and `CRC::get_crc`:
/// the CRC-16/DNP of `a` followed by `b` (digesting is incremental, so two
/// digests are one over the concatenation), returned widened to `u64`.
#[verifier::external_body]
fn crc16_dnp_of_parts(a: &[u8], b: &[u8]) -> (r: u64)
    ensures
        r == crc16_dnp(a@ + b@) as u64,
{
    let mut crc = CRC::crc16dnp();
    crc.digest(a);
    crc.digest(b);
    crc.get_crc()
}

/// The byte that goes first on the wire: the high half.
pub open spec fn crc_high(c: u16) -> u8 {
    (c / 256) as u8
}

/// The byte that goes second on the wire: the low half.
pub open spec fn crc_low(c: u16) -> u8 {
    (c % 256) as u8
}

/// The two checksum bytes, high first, that follow the bytes `s` on the wire.
pub open spec fn crc_bytes(s: Seq<u8>) -> Seq<u8> {
    seq![crc_high(crc16_dnp(s)), crc_low(crc16_dnp(s))]
}

pub trait CRCExt: RingBuffer {
    /// The CRC-16/DNP of the first `msg_len` bytes held, read across the
    /// ring's seam. Fails when fewer bytes are held.
    fn compute_crc(&mut self, msg_len: &usize) -> (r: SerialComResult<u16>)
        ensures
            final(self)@ == old(self)@,
            *msg_len <= old(self)@.len() ==> r == Ok::<u16, SerialComError>(
                crc16_dnp(old(self)@.subrange(0, *msg_len as int)),
            ),
            *msg_len > old(self)@.len() ==> r == Err::<u16, _>(SerialComError::QueueIndexingError),
    {
        if *msg_len > self.len() {
            return Err(SerialComError::QueueIndexingError);
        }
        let (first, second) = self.as_slices();
        let first_len = first.len();
        let crc = if *msg_len <= first_len {
            let part = slice_subrange(first, 0, *msg_len);
            let none = slice_subrange(second, 0, 0);
            assert(part@ + none@ =~= self@.subrange(0, *msg_len as int));
            crc16_dnp_of_parts(part, none)
        } else {
            let rest = slice_subrange(second, 0, *msg_len - first_len);
            assert(first@ + rest@ =~= self@.subrange(0, *msg_len as int));
            crc16_dnp_of_parts(first, rest)
        };
        Ok(crc as u16)
    }

    /// The checksum of the first `msg_len` bytes held, as its high and low
    /// bytes. Fails when fewer bytes are held.
    fn compute_crc_bytes(&mut self, msg_len: &usize) -> (r: SerialComResult<(u8, u8)>)
        ensures
            final(self)@ == old(self)@,
            *msg_len <= old(self)@.len() ==> r == Ok::<(u8, u8), SerialComError>(
                (
                    crc_high(crc16_dnp(old(self)@.subrange(0, *msg_len as int))),
                    crc_low(crc16_dnp(old(self)@.subrange(0, *msg_len as int))),
                ),
            ),
            *msg_len > old(self)@.len() ==> r == Err::<(u8, u8), _>(
                SerialComError::QueueIndexingError,
            ),
    {
        let crc_num = match self.compute_crc(msg_len) {
            Ok(c) => c,
            Err(e) => return Err(e),
        };
        Ok(((crc_num / 256) as u8, (crc_num % 256) as u8))
    }
}

impl CRCExt for crate::circbuf::CircBuf16 {

}

impl CRCExt for crate::circbuf::CircBuf64 {

}

} // verus!
