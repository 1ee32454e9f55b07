//! The host receiver's decisions: taking frames off the inbound ring and
//! routing their messages.
use crate::binarycom::packers::{
    be16, classify, command_class, host_read_reg_unpack, host_write_reg_unpack, read_response,
    CommandClass,
};
use crate::binarycom::{
    after_frame, crc_ok, frame_body, frame_error, lemma_chain_zeroed_len, lemma_frame_round_trip,
    max_payload, message, wire_frame, BinaryCom,
};
use crate::cobs::lemma_cobs_no_inner_zero;
use crate::crc::crc_bytes;
use crate::cobs::lemma_chain_end_ge;
use crate::error::{SerialComError, SerialComResult};
use vstd::prelude::*;
use vstd::slice::slice_subrange;

verus! {

/// Where a received message goes.
#[derive(Debug, PartialEq, Eq)]
pub enum Routed {
    /// A read response: the register number and its value.
    RegisterRead(u16, u32),
    /// A write acknowledgement: the register number.
    RegisterWrite(u16),
    /// Streamed samples: the command byte and the payload.
    Stream(u8, Vec<u8>),
    /// A reserved command, reported and skipped.
    Unexpected(u8),
}

/// Whether `r` is how a message with this command and payload is routed.
pub open spec fn routes_to(command: u8, data: Seq<u8>, r: SerialComResult<Routed>) -> bool {
    match command_class(command) {
        CommandClass::RegisterRead => match read_response(data) {
            Ok((n, v)) => r == Ok::<Routed, SerialComError>(Routed::RegisterRead(n, v)),
            Err(e) => r == Err::<Routed, _>(e),
        },
        CommandClass::RegisterWrite => if data.len() < 2 {
            r == Err::<Routed, _>(SerialComError::SliceTooSmall)
        } else {
            r == Ok::<Routed, SerialComError>(Routed::RegisterWrite(be16(data)))
        },
        CommandClass::Stream { .. } => match r {
            Ok(Routed::Stream(c, v)) => c == command && v@ == data,
            _ => false,
        },
        CommandClass::Reserved => r == Ok::<Routed, SerialComError>(Routed::Unexpected(command)),
    }
}

/// Routes a received message by its command: register read responses and
/// write acknowledgements are unpacked, streamed payloads are copied, and
/// reserved commands are reported as unexpected.
pub fn message_router(command: u8, data: &[u8]) -> (r: SerialComResult<Routed>)
    ensures
        routes_to(command, data@, r),
{
    match classify(command) {
        CommandClass::RegisterRead => match host_read_reg_unpack(data) {
            Ok((reg_num, reg_val)) => Ok(Routed::RegisterRead(reg_num, reg_val)),
            Err(e) => Err(e),
        },
        CommandClass::RegisterWrite => match host_write_reg_unpack(data) {
            Ok(reg_num) => Ok(Routed::RegisterWrite(reg_num)),
            Err(e) => Err(e),
        },
        CommandClass::Stream { .. } => {
            let mut v: Vec<u8> = Vec::new();
            let mut i: usize = 0;
            while i < data.len()
                invariant
                    i <= data@.len(),
                    v@ == data@.subrange(0, i as int),
                decreases data.len() - i,
            {
                v.push(data[i]);
                i = i + 1;
            }
            assert(v@ =~= data@);
            Ok(Routed::Stream(command, v))
        },
        CommandClass::Reserved => Ok(Routed::Unexpected(command)),
    }
}

/// `s` without the commas (zero bytes) at its front, left over from frames
/// already taken.
pub open spec fn strip_commas(s: Seq<u8>) -> Seq<u8>
    decreases s.len(),
{
    if s.len() > 0 && s[0] == 0 {
        strip_commas(s.drop_first())
    } else {
        s
    }
}

/// A frame that [`BinaryCom::send_message`] builds, for any command and any
/// payload the ring carries, reaches [`poll_frame`] whole: no comma is
/// stripped from its front, it has no framing error, its checksum holds,
/// and its message is that command and payload, so it is routed by them.
pub proof fn lemma_sent_frame_is_routed(command: u8, data: Seq<u8>, cap: nat)
    requires
        16 <= cap <= 255,
        data.len() <= max_payload(cap),
    ensures
        ({
            let s = wire_frame(command, data);
            let m = message(s);
            &&& strip_commas(s) == s
            &&& frame_error(s) is None
            &&& crc_ok(m, 1)
            &&& m[0] == command
            &&& m.subrange(1, m.len() - 2) == data
            &&& after_frame(s) == Seq::<u8>::empty()
        }),
{
    let body = frame_body(command, data);
    let f = body + crc_bytes(body);
    lemma_frame_round_trip(command, data, cap);
    lemma_cobs_no_inner_zero(f);
    assert(wire_frame(command, data)[0] != 0);
}

/// One step of the receiver: drops stray commas at the front of the
/// ring, then takes the next frame. Returns `None` when no whole frame is
/// there yet (nothing else changes: more bytes must be read first), the
/// routed message when the frame is sound, and the error when the frame was
/// dropped or its message could not be routed.
pub fn poll_frame<B: BinaryCom>(inbuf: &mut B) -> (r: Option<SerialComResult<Routed>>)
    ensures
        ({
            let t = strip_commas(old(inbuf)@);
            let m = message(t);
            &&& frame_error(t) is Some ==> r is None && final(inbuf)@ == t
            &&& frame_error(t) is None ==> final(inbuf)@ == after_frame(t)
            &&& frame_error(t) is None && m.len() < 3 ==> r == Some(
                Err::<Routed, _>(SerialComError::COBSTooLittleData),
            )
            &&& frame_error(t) is None && m.len() >= 3 && !crc_ok(m, 1) ==> r == Some(
                Err::<Routed, _>(SerialComError::CRCMismatch),
            )
            &&& frame_error(t) is None && crc_ok(m, 1) ==> r is Some && routes_to(
                m[0],
                m.subrange(1, m.len() - 2),
                r->0,
            )
        }),
{
    while inbuf.get(0) == Some(0u8)
        invariant
            strip_commas(inbuf@) == strip_commas(old(inbuf)@),
        decreases inbuf@.len(),
    {
        inbuf.pop_front();
    }
    let ghost t = inbuf@;
    assert(strip_commas(t) == t);
    let cap = inbuf.capacity();
    let before = inbuf.len();
    let mut data: Vec<u8> = vec![0u8; cap];
    let mut command: u8 = 0;
    proof {
        lemma_chain_end_ge(t, 0);
        lemma_chain_zeroed_len(t, 0);
    }
    match inbuf.receive_message(&mut command, data.as_mut_slice()) {
        Ok(n) => {
            let ghost m = message(t);
            assert(data@.subrange(0, n as int) =~= m.subrange(1, m.len() - 2));
            Some(message_router(command, slice_subrange(data.as_slice(), 0, n)))
        },
        Err(e) => {
            if inbuf.len() == before {
                None
            } else {
                Some(Err(e))
            }
        },
    }
}

} // verus!
