//! Frames on the wire: a header, a payload and a checksum, stuffed and ended
//! by a comma. This module holds the variant whose header is a command byte.
pub mod client;
pub mod hostreceiver;
pub mod packers;
pub mod versioned;

use crate::binarycom::packers::{
    host_read_reg_pack, host_write_reg32_pack, host_write_reg8_pack, reg_bytes, u32_bytes,
};
use crate::circbuf::CircBufExt;
use crate::cobs::{
    chain_end, chain_zeroed, cobs_encoded, lemma_chain_end_ge, lemma_cobs_round_trip, COBSExt,
};
use crate::crc::{crc_bytes, crc_high, crc_low, crc16_dnp, CRCExt};
use crate::error::{SerialComError, SerialComResult};
use vstd::prelude::*;

verus! {

/// The framing error that decoding the front of `s` meets, if any: too few
/// bytes, no comma at the end of the chain, or a comma in front.
pub open spec fn frame_error(s: Seq<u8>) -> Option<SerialComError> {
    if s.len() < 3 {
        Some(SerialComError::COBSTooLittleData)
    } else if chain_end(s, 0) >= s.len() {
        Some(SerialComError::COBSDecodeNoCommaFound)
    } else if chain_end(s, 0) == 0 {
        Some(SerialComError::COBSTooLittleData)
    } else {
        None
    }
}

/// The bytes after the frame at the front of `s` has been unstuffed and its
/// overhead byte dropped.
pub open spec fn decoded(s: Seq<u8>) -> Seq<u8> {
    chain_zeroed(s, 0).drop_first()
}

/// The message of the frame at the front of `s`: the bytes before its comma.
pub open spec fn message(s: Seq<u8>) -> Seq<u8> {
    decoded(s).subrange(0, chain_end(s, 0) - 1)
}

/// What follows the comma of the frame at the front of `s`.
pub open spec fn after_frame(s: Seq<u8>) -> Seq<u8> {
    decoded(s).subrange(chain_end(s, 0), decoded(s).len() as int)
}

/// A message of at least `header + 2` bytes whose last two bytes are the
/// checksum of the bytes before them.
pub open spec fn crc_ok(m: Seq<u8>, header: nat) -> bool {
    &&& m.len() >= header + 2
    &&& m.subrange(m.len() - 2, m.len() as int) == crc_bytes(m.subrange(0, m.len() - 2))
}

/// The largest payload a ring of capacity `cap` carries when the header is
/// the command byte alone: the overhead, command, two checksum bytes and
/// the comma take five.
pub open spec fn max_payload(cap: nat) -> int {
    cap - 5
}

/// A message with its header and payload, before the checksum is added.
pub open spec fn frame_body(command: u8, data: Seq<u8>) -> Seq<u8> {
    seq![command] + data
}

/// The bytes on the wire for a command and a payload.
pub open spec fn wire_frame(command: u8, data: Seq<u8>) -> Seq<u8> {
    cobs_encoded(frame_body(command, data) + crc_bytes(frame_body(command, data)))
}

pub proof fn lemma_chain_zeroed_len(s: Seq<u8>, p: int)
    ensures
        chain_zeroed(s, p).len() == s.len(),
    decreases if p < s.len() { s.len() - p } else { 0 },
{
    if 0 <= p < s.len() && s[p] != 0 {
        lemma_chain_zeroed_len(s.update(p, 0), p + s[p]);
    }
}

/// Round trip: the frame that [`BinaryCom::send_message`] builds for any
/// command and any payload the ring can carry decodes with no framing error
/// into the command, the payload and their checksum, with nothing left over.
pub proof fn lemma_frame_round_trip(command: u8, data: Seq<u8>, cap: nat)
    requires
        8 <= cap <= 255,
        data.len() <= max_payload(cap),
    ensures
        ({
            let s = wire_frame(command, data);
            let m = message(s);
            &&& frame_error(s) is None
            &&& m == frame_body(command, data) + crc_bytes(frame_body(command, data))
            &&& crc_ok(m, 1)
            &&& m[0] == command
            &&& m.subrange(1, m.len() - 2) == data
            &&& after_frame(s) == Seq::<u8>::empty()
        }),
{
    let body = frame_body(command, data);
    let f = body + crc_bytes(body);
    let s = wire_frame(command, data);
    lemma_cobs_round_trip(f);
    assert(decoded(s) == f.push(0u8));
    assert(message(s) =~= f);
    assert(f.subrange(0, f.len() - 2) =~= body);
    assert(f.subrange(f.len() - 2, f.len() as int) =~= crc_bytes(body));
    assert(f.subrange(1, f.len() - 2) =~= data);
    assert(after_frame(s) =~= Seq::<u8>::empty());
}

/// Truncated input: bytes fewer than the smallest frame (overhead, command,
/// two checksum bytes and comma) never yield a message; receiving them
/// fails with a framing error.
pub proof fn lemma_truncated_frame_fails(s: Seq<u8>)
    requires
        s.len() < 5,
    ensures
        frame_error(s) is Some || message(s).len() < 3,
{
    lemma_chain_end_ge(s, 0);
    lemma_chain_zeroed_len(s, 0);
}

/// Corrupted header or payload bytes under an intact checksum pass the
/// check only when their CRC-16 equals that of the bytes that were sent.
pub proof fn lemma_corruption_needs_collision(command: u8, data: Seq<u8>, m: Seq<u8>)
    requires
        m.len() == data.len() + 3,
        m.subrange(m.len() - 2, m.len() as int) == crc_bytes(frame_body(command, data)),
        crc_ok(m, 1),
    ensures
        crc16_dnp(m.subrange(0, m.len() - 2)) == crc16_dnp(frame_body(command, data)),
{
    let a = crc16_dnp(m.subrange(0, m.len() - 2));
    let b = crc16_dnp(frame_body(command, data));
    assert(crc_bytes(m.subrange(0, m.len() - 2)) == crc_bytes(frame_body(command, data)));
    assert(crc_high(a) == crc_bytes(m.subrange(0, m.len() - 2))[0]);
    assert(crc_high(b) == crc_bytes(frame_body(command, data))[0]);
    assert(crc_low(a) == crc_bytes(m.subrange(0, m.len() - 2))[1]);
    assert(crc_low(b) == crc_bytes(frame_body(command, data))[1]);
    assert(a / 256 == b / 256 && a % 256 == b % 256);
    assert(a == b) by (nonlinear_arith)
        requires
            a / 256 == b / 256,
            a % 256 == b % 256,
    ;
}

/// Framing of messages whose header is a single command byte.
pub trait BinaryCom: CircBufExt + COBSExt + CRCExt {
    /// Puts one frame in the ring, in place of what it held: the command,
    /// the payload and their checksum, stuffed. Returns the frame's length.
    /// Fails, changing nothing, when the payload is too large.
    fn send_message(&mut self, command: &u8, data: &[u8]) -> (r: SerialComResult<usize>)
        ensures
            data@.len() > max_payload(Self::cap()) ==> r == Err::<usize, _>(
                SerialComError::SliceTooBig,
            ) && final(self)@ == old(self)@,
            data@.len() <= max_payload(Self::cap()) ==> r == Ok::<usize, SerialComError>(
                (data@.len() + 5) as usize,
            ) && final(self)@ == wire_frame(*command, data@),
    {
        let cap = self.capacity();
        if data.len() > cap - 5 {
            return Err(SerialComError::SliceTooBig);
        }
        self.clear();
        self.push_back(*command);
        let mut i: usize = 0;
        while i < data.len()
            invariant
                cap == Self::cap(),
                16 <= cap <= 255,
                data@.len() <= cap - 5,
                i <= data@.len(),
                self@ == seq![*command] + data@.subrange(0, i as int),
            decreases data.len() - i,
        {
            self.push_back(data[i]);
            i = i + 1;
            assert(self@ =~= seq![*command] + data@.subrange(0, i as int));
        }
        let ghost body = self@;
        assert(body =~= frame_body(*command, data@));
        let body_len = self.len();
        let (crc_high_byte, crc_low_byte) = match self.compute_crc_bytes(&body_len) {
            Ok(b) => b,
            Err(e) => return Err(e),
        };
        assert(body.subrange(0, body_len as int) =~= body);
        self.push_back(crc_high_byte);
        self.push_back(crc_low_byte);
        assert(self@ =~= body + crc_bytes(body));
        match self.cobs_encode() {
            Ok(n) => Ok(n),
            Err(e) => Err(e),
        }
    }

    /// Takes the frame at the front of the ring apart: unstuffs it, writes
    /// its command and payload to `command` and `data`, and removes it with
    /// its comma. Returns the payload length.
    ///
    /// Fails, changing nothing, when `data` cannot hold the largest payload
    /// or the front holds no whole frame. Fails, having removed the frame but
    /// written nothing, when the frame is too short for a header and a
    /// checksum, or when its checksum does not match.
    fn receive_message(&mut self, command: &mut u8, data: &mut [u8]) -> (r: SerialComResult<
        usize,
    >)
        ensures
            old(data)@.len() < max_payload(Self::cap()) ==> r == Err::<usize, _>(
                SerialComError::SliceTooSmall,
            ) && final(self)@ == old(self)@ && *final(command) == *old(command) && final(data)@
                == old(data)@,
            old(data)@.len() >= max_payload(Self::cap()) && frame_error(old(self)@) is Some ==> r
                == Err::<usize, _>(frame_error(old(self)@)->0) && final(self)@ == old(self)@
                && *final(command) == *old(command) && final(data)@ == old(data)@,
            old(data)@.len() >= max_payload(Self::cap()) && frame_error(old(self)@) is None
                && message(old(self)@).len() < 3 ==> r == Err::<usize, _>(
                SerialComError::COBSTooLittleData,
            ) && final(self)@ == after_frame(old(self)@) && *final(command) == *old(command)
                && final(data)@ == old(data)@,
            old(data)@.len() >= max_payload(Self::cap()) && frame_error(old(self)@) is None
                && message(old(self)@).len() >= 3 && !crc_ok(message(old(self)@), 1) ==> r == Err::<
                usize,
                _,
            >(SerialComError::CRCMismatch) && final(self)@ == after_frame(old(self)@)
                && *final(command) == *old(command) && final(data)@ == old(data)@,
            old(data)@.len() >= max_payload(Self::cap()) && frame_error(old(self)@) is None
                && crc_ok(message(old(self)@), 1) ==> ({
                let m = message(old(self)@);
                &&& r == Ok::<usize, SerialComError>((m.len() - 3) as usize)
                &&& final(self)@ == after_frame(old(self)@)
                &&& *final(command) == m[0]
                &&& final(data)@ == m.subrange(1, m.len() - 2) + old(data)@.subrange(
                    m.len() - 3,
                    old(data)@.len() as int,
                )
            }),
    {
        let cap = self.capacity();
        if data.len() < cap - 5 {
            return Err(SerialComError::SliceTooSmall);
        }
        // Brings the bound on what the ring holds into the proof.
        let _ = self.len();
        let ghost s = self@;
        proof {
            lemma_chain_end_ge(s, 0);
        }
        let msg_chk_size = match self.cobs_decode() {
            Ok(n) => n,
            Err(e) => return Err(e),
        };
        let ghost d = self@;
        proof {
            lemma_chain_zeroed_len(s, 0);
            assert(d == decoded(s));
            assert(message(s) =~= d.subrange(0, msg_chk_size as int));
            assert(after_frame(s) =~= d.subrange(msg_chk_size + 1, d.len() as int));
        }
        if msg_chk_size < 3 {
            // The frame cannot hold a header and a checksum: drop it with its comma.
            let _ = self.remove_front_n(&(msg_chk_size + 1));
            return Err(SerialComError::COBSTooLittleData);
        }
        let msg_size = msg_chk_size - 2;
        let data_size = msg_size - 1;
        let (crc_high_byte, crc_low_byte) = match self.compute_crc_bytes(&msg_size) {
            Ok(b) => b,
            Err(e) => return Err(e),
        };
        let crc_rec_high_byte = self.get(msg_size).unwrap();
        let crc_rec_low_byte = self.get(msg_size + 1).unwrap();
        let ghost m = message(s);
        proof {
            assert(m =~= d.subrange(0, msg_chk_size as int));
            assert(m.subrange(0, m.len() - 2) =~= d.subrange(0, msg_size as int));
        }
        if crc_high_byte != crc_rec_high_byte || crc_low_byte != crc_rec_low_byte {
            proof {
                if crc_ok(m, 1) {
                    assert(m.subrange(m.len() - 2, m.len() as int)[0] == crc_rec_high_byte);
                    assert(m.subrange(m.len() - 2, m.len() as int)[1] == crc_rec_low_byte);
                }
            }
            // A corrupted frame is dropped whole, with its comma.
            let _ = self.remove_front_n(&(msg_chk_size + 1));
            return Err(SerialComError::CRCMismatch);
        }
        assert(m.subrange(m.len() - 2, m.len() as int) =~= crc_bytes(m.subrange(0, m.len() - 2)));
        *command = self.pop_front().unwrap();
        let ghost data0 = data@;
        let mut i: usize = 0;
        while i < data_size
            invariant
                data_size == m.len() - 3,
                data_size <= data0.len(),
                data@.len() == data0.len(),
                m =~= d.subrange(0, msg_chk_size as int),
                msg_chk_size < d.len(),
                i <= data_size,
                self@ == d.subrange(1 + i, d.len() as int),
                data@ == m.subrange(1, 1 + i) + data0.subrange(i as int, data0.len() as int),
            decreases data_size - i,
        {
            data[i] = self.pop_front().unwrap();
            i = i + 1;
            assert(data@ =~= m.subrange(1, 1 + i) + data0.subrange(i as int, data0.len() as int));
        }
        // The two checksum bytes and the comma.
        let _ = self.remove_front_n(&3);
        assert(self@ =~= after_frame(s));
        Ok(data_size)
    }

    /// Sends a request to read a register: command 1 with the register
    /// number. The value comes back later in the response frame, so this
    /// returns 0.
    fn host_read_reg(&mut self, reg_num: u16) -> (r: SerialComResult<u32>)
        ensures
            r == Ok::<u32, SerialComError>(0),
            final(self)@ == wire_frame(1, reg_bytes(reg_num)),
    {
        // Brings the bound on the capacity into the proof: every request fits.
        let _ = self.capacity();
        let command = 1u8;
        let mut data: Vec<u8> = vec![0u8, 0u8];
        match host_read_reg_pack(reg_num, data.as_mut_slice()) {
            Ok(_) => {},
            Err(e) => return Err(e),
        }
        assert(data@ =~= reg_bytes(reg_num));
        match self.send_message(&command, data.as_slice()) {
            Ok(_) => {},
            Err(e) => return Err(e),
        }
        Ok(0u32)
    }

    /// Sends a write of an 8-bit register: command 2 with the register
    /// number and the value.
    fn host_write_reg8(&mut self, reg_num: u16, reg_val: u8) -> (r: SerialComResult<()>)
        ensures
            r == Ok::<(), SerialComError>(()),
            final(self)@ == wire_frame(2, reg_bytes(reg_num) + seq![reg_val]),
    {
        // Brings the bound on the capacity into the proof: every request fits.
        let _ = self.capacity();
        let command = 2u8;
        let mut data: Vec<u8> = vec![0u8, 0u8, 0u8];
        match host_write_reg8_pack(reg_num, reg_val, data.as_mut_slice()) {
            Ok(_) => {},
            Err(e) => return Err(e),
        }
        assert(data@ =~= reg_bytes(reg_num) + seq![reg_val]);
        match self.send_message(&command, data.as_slice()) {
            Ok(_) => {},
            Err(e) => return Err(e),
        }
        Ok(())
    }

    /// Sends a write of a 32-bit register: command 2 with the register
    /// number and the value, most significant bytes first.
    fn host_write_reg32(&mut self, reg_num: u16, reg_val: u32) -> (r: SerialComResult<()>)
        ensures
            r == Ok::<(), SerialComError>(()),
            final(self)@ == wire_frame(2, reg_bytes(reg_num) + u32_bytes(reg_val)),
    {
        // Brings the bound on the capacity into the proof: every request fits.
        let _ = self.capacity();
        let command = 2u8;
        let mut data: Vec<u8> = vec![0u8, 0u8, 0u8, 0u8, 0u8, 0u8];
        match host_write_reg32_pack(reg_num, reg_val, data.as_mut_slice()) {
            Ok(_) => {},
            Err(e) => return Err(e),
        }
        assert(data@ =~= reg_bytes(reg_num) + u32_bytes(reg_val));
        match self.send_message(&command, data.as_slice()) {
            Ok(_) => {},
            Err(e) => return Err(e),
        }
        Ok(())
    }
}

impl BinaryCom for crate::circbuf::CircBuf16 {

}

impl BinaryCom for crate::circbuf::CircBuf64 {

}

} // verus!
