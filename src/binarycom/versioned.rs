//! The frame variant whose header is a version byte and a command byte.
use crate::binarycom::{
    after_frame, crc_ok, decoded, frame_error, lemma_chain_zeroed_len, message,
};
use crate::circbuf::CircBufExt;
use crate::cobs::{cobs_encoded, lemma_chain_end_ge, lemma_cobs_round_trip, COBSExt};
use crate::crc::{crc_bytes, CRCExt};
use crate::error::{SerialComError, SerialComResult};
use vstd::prelude::*;

verus! {

/// The largest payload a ring of capacity `cap` carries when the header is
/// a version byte and a command byte: the overhead, header, two checksum
/// bytes and the comma take six.
pub open spec fn max_payload(cap: nat) -> int {
    cap - 6
}

/// A versioned message with its header and payload, before the checksum.
pub open spec fn frame_body(version: u8, command: u8, data: Seq<u8>) -> Seq<u8> {
    seq![version, command] + data
}

/// The bytes on the wire for a version, a command and a payload.
pub open spec fn wire_frame(version: u8, command: u8, data: Seq<u8>) -> Seq<u8> {
    cobs_encoded(frame_body(version, command, data) + crc_bytes(frame_body(version, command, data)))
}

/// Round trip: the versioned frame that [`BinaryCom::send_message`] builds
/// for any version, command and payload the ring can carry decodes with no
/// framing error into them and their checksum, with nothing left over.
pub proof fn lemma_frame_round_trip(version: u8, command: u8, data: Seq<u8>, cap: nat)
    requires
        8 <= cap <= 255,
        data.len() <= max_payload(cap),
    ensures
        ({
            let s = wire_frame(version, command, data);
            let m = message(s);
            &&& frame_error(s) is None
            &&& m == frame_body(version, command, data) + crc_bytes(
                frame_body(version, command, data),
            )
            &&& crc_ok(m, 2)
            &&& m[0] == version
            &&& m[1] == command
            &&& m.subrange(2, m.len() - 2) == data
            &&& after_frame(s) == Seq::<u8>::empty()
        }),
{
    let body = frame_body(version, command, data);
    let f = body + crc_bytes(body);
    let s = wire_frame(version, command, data);
    lemma_cobs_round_trip(f);
    assert(decoded(s) == f.push(0u8));
    assert(message(s) =~= f);
    assert(f.subrange(0, f.len() - 2) =~= body);
    assert(f.subrange(f.len() - 2, f.len() as int) =~= crc_bytes(body));
    assert(f.subrange(2, f.len() - 2) =~= data);
    assert(after_frame(s) =~= Seq::<u8>::empty());
}

/// Framing of messages whose header is a version byte and a command byte.
pub trait BinaryCom: CircBufExt + COBSExt + CRCExt {
    /// Puts one frame in the ring, in place of what it held: the version,
    /// the command, the payload and their checksum, stuffed. Returns the
    /// frame's length. Fails, changing nothing, when the payload is too large.
    fn send_message(&mut self, version: &u8, command: &u8, data: &[u8]) -> (r: SerialComResult<
        usize,
    >)
        ensures
            data@.len() > max_payload(Self::cap()) ==> r == Err::<usize, _>(
                SerialComError::SliceTooBig,
            ) && final(self)@ == old(self)@,
            data@.len() <= max_payload(Self::cap()) ==> r == Ok::<usize, SerialComError>(
                (data@.len() + 6) as usize,
            ) && final(self)@ == wire_frame(*version, *command, data@),
    {
        let cap = self.capacity();
        if data.len() > cap - 6 {
            return Err(SerialComError::SliceTooBig);
        }
        self.clear();
        self.push_back(*version);
        self.push_back(*command);
        let mut i: usize = 0;
        while i < data.len()
            invariant
                cap == Self::cap(),
                16 <= cap <= 255,
                data@.len() <= cap - 6,
                i <= data@.len(),
                self@ == seq![*version, *command] + data@.subrange(0, i as int),
            decreases data.len() - i,
        {
            self.push_back(data[i]);
            i = i + 1;
            assert(self@ =~= seq![*version, *command] + data@.subrange(0, i as int));
        }
        let ghost body = self@;
        assert(body =~= frame_body(*version, *command, data@));
        let body_len = self.len();
        let (crc_high_byte, crc_low_byte) = match self.compute_crc_bytes(&body_len) {
            Ok(b) => b,
            Err(e) => return Err(e),
        };
        assert(body.subrange(0, body_len as int) =~= body);
        self.push_back(crc_high_byte);
        self.push_back(crc_low_byte);
        assert(self@ =~= body + crc_bytes(body));
        match self.cobs_encode() {
            Ok(n) => Ok(n),
            Err(e) => Err(e),
        }
    }

    /// Takes the versioned frame at the front of the ring apart: unstuffs
    /// it, writes its version, command and payload to `version`, `command`
    /// and `data`, and removes it with its comma. Returns the payload length.
    ///
    /// Fails, changing nothing, when `data` cannot hold the largest payload
    /// or the front holds no whole frame. Fails, having removed the frame but
    /// written nothing, when the frame is too short for a header and a
    /// checksum, or when its checksum does not match.
    fn receive_message(&mut self, version: &mut u8, command: &mut u8, data: &mut [u8]) -> (r:
        SerialComResult<usize>)
        ensures
            old(data)@.len() < max_payload(Self::cap()) ==> r == Err::<usize, _>(
                SerialComError::SliceTooSmall,
            ) && final(self)@ == old(self)@ && *final(version) == *old(version) && *final(command)
                == *old(command) && final(data)@ == old(data)@,
            old(data)@.len() >= max_payload(Self::cap()) && frame_error(old(self)@) is Some ==> r
                == Err::<usize, _>(frame_error(old(self)@)->0) && final(self)@ == old(self)@
                && *final(version) == *old(version) && *final(command) == *old(command)
                && final(data)@ == old(data)@,
            old(data)@.len() >= max_payload(Self::cap()) && frame_error(old(self)@) is None
                && message(old(self)@).len() < 4 ==> r == Err::<usize, _>(
                SerialComError::COBSTooLittleData,
            ) && final(self)@ == after_frame(old(self)@) && *final(version) == *old(version)
                && *final(command) == *old(command) && final(data)@ == old(data)@,
            old(data)@.len() >= max_payload(Self::cap()) && frame_error(old(self)@) is None
                && message(old(self)@).len() >= 4 && !crc_ok(message(old(self)@), 2) ==> r == Err::<
                usize,
                _,
            >(SerialComError::CRCMismatch) && final(self)@ == after_frame(old(self)@)
                && *final(version) == *old(version) && *final(command) == *old(command)
                && final(data)@ == old(data)@,
            old(data)@.len() >= max_payload(Self::cap()) && frame_error(old(self)@) is None
                && crc_ok(message(old(self)@), 2) ==> ({
                let m = message(old(self)@);
                &&& r == Ok::<usize, SerialComError>((m.len() - 4) as usize)
                &&& final(self)@ == after_frame(old(self)@)
                &&& *final(version) == m[0]
                &&& *final(command) == m[1]
                &&& final(data)@ == m.subrange(2, m.len() - 2) + old(data)@.subrange(
                    m.len() - 4,
                    old(data)@.len() as int,
                )
            }),
    {
        let cap = self.capacity();
        if data.len() < cap - 6 {
            return Err(SerialComError::SliceTooSmall);
        }
        // Brings the bound on what the ring holds into the proof.
        let _ = self.len();
        let ghost s = self@;
        proof {
            lemma_chain_end_ge(s, 0);
        }
        let msg_chk_size = match self.cobs_decode() {
            Ok(n) => n,
            Err(e) => return Err(e),
        };
        let ghost d = self@;
        proof {
            lemma_chain_zeroed_len(s, 0);
            assert(d == decoded(s));
            assert(message(s) =~= d.subrange(0, msg_chk_size as int));
            assert(after_frame(s) =~= d.subrange(msg_chk_size + 1, d.len() as int));
        }
        if msg_chk_size < 4 {
            // The frame cannot hold a header and a checksum: drop it with its comma.
            let _ = self.remove_front_n(&(msg_chk_size + 1));
            return Err(SerialComError::COBSTooLittleData);
        }
        let msg_size = msg_chk_size - 2;
        let data_size = msg_size - 2;
        let (crc_high_byte, crc_low_byte) = match self.compute_crc_bytes(&msg_size) {
            Ok(b) => b,
            Err(e) => return Err(e),
        };
        let crc_rec_high_byte = self.get(msg_size).unwrap();
        let crc_rec_low_byte = self.get(msg_size + 1).unwrap();
        let ghost m = message(s);
        proof {
            assert(m =~= d.subrange(0, msg_chk_size as int));
            assert(m.subrange(0, m.len() - 2) =~= d.subrange(0, msg_size as int));
        }
        if crc_high_byte != crc_rec_high_byte || crc_low_byte != crc_rec_low_byte {
            proof {
                if crc_ok(m, 2) {
                    assert(m.subrange(m.len() - 2, m.len() as int)[0] == crc_rec_high_byte);
                    assert(m.subrange(m.len() - 2, m.len() as int)[1] == crc_rec_low_byte);
                }
            }
            // A corrupted frame is dropped whole, with its comma.
            let _ = self.remove_front_n(&(msg_chk_size + 1));
            return Err(SerialComError::CRCMismatch);
        }
        assert(m.subrange(m.len() - 2, m.len() as int) =~= crc_bytes(m.subrange(0, m.len() - 2)));
        *version = self.pop_front().unwrap();
        *command = self.pop_front().unwrap();
        let ghost data0 = data@;
        let mut i: usize = 0;
        while i < data_size
            invariant
                data_size == m.len() - 4,
                data_size <= data0.len(),
                data@.len() == data0.len(),
                m =~= d.subrange(0, msg_chk_size as int),
                msg_chk_size < d.len(),
                i <= data_size,
                self@ == d.subrange(2 + i, d.len() as int),
                data@ == m.subrange(2, 2 + i) + data0.subrange(i as int, data0.len() as int),
            decreases data_size - i,
        {
            data[i] = self.pop_front().unwrap();
            i = i + 1;
            assert(data@ =~= m.subrange(2, 2 + i) + data0.subrange(i as int, data0.len() as int));
        }
        // The two checksum bytes and the comma.
        let _ = self.remove_front_n(&3);
        assert(self@ =~= after_frame(s));
        Ok(data_size)
    }
}

impl BinaryCom for crate::circbuf::CircBuf16 {

}

impl BinaryCom for crate::circbuf::CircBuf64 {

}

} // verus!
