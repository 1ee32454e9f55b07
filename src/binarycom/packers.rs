//! Payload layouts of the register sub-protocol and of streamed samples.
use crate::error::{SerialComError, SerialComResult};
use vstd::prelude::*;

verus! {

/// A register number as two bytes, most significant first.
pub open spec fn reg_bytes(reg_num: u16) -> Seq<u8> {
    seq![(reg_num / 256) as u8, (reg_num % 256) as u8]
}

/// A 32-bit value as four bytes, most significant first.
pub open spec fn u32_bytes(v: u32) -> Seq<u8> {
    seq![
        (v / 0x100_0000) as u8,
        ((v / 0x1_0000) % 256) as u8,
        ((v / 256) % 256) as u8,
        (v % 256) as u8,
    ]
}

/// The 16-bit number whose big-endian bytes start `s`.
pub open spec fn be16(s: Seq<u8>) -> u16 {
    (s[0] * 256 + s[1]) as u16
}

/// The 32-bit number whose big-endian bytes start `s`.
pub open spec fn be32(s: Seq<u8>) -> u32 {
    (s[0] * 0x100_0000 + s[1] * 0x1_0000 + s[2] * 256 + s[3]) as u32
}

/// Packing then unpacking a register number or a 32-bit value gives it back.
pub proof fn lemma_big_endian_round_trip(reg_num: u16, v: u32)
    ensures
        be16(reg_bytes(reg_num)) == reg_num,
        be32(u32_bytes(v)) == v,
{
}

/// Reads the register number of a read request.
pub fn dev_read_reg_unpack(data: &[u8]) -> (r: SerialComResult<u16>)
    ensures
        data@.len() < 2 ==> r == Err::<u16, _>(SerialComError::SliceTooSmall),
        data@.len() >= 2 ==> r == Ok::<u16, SerialComError>(be16(data@)),
{
    if data.len() < 2 {
        return Err(SerialComError::SliceTooSmall);
    }
    let reg_num = (data[0] as u16) * 256 + data[1] as u16;
    Ok(reg_num)
}

/// Reads the register number and value of an 8-bit register write.
pub fn dev_write_reg8_unpack(data: &[u8]) -> (r: SerialComResult<(u16, u8)>)
    ensures
        data@.len() < 3 ==> r == Err::<(u16, u8), _>(SerialComError::SliceTooSmall),
        data@.len() >= 3 ==> r == Ok::<(u16, u8), SerialComError>((be16(data@), data@[2])),
{
    if data.len() < 3 {
        return Err(SerialComError::SliceTooSmall);
    }
    let reg_num = (data[0] as u16) * 256 + data[1] as u16;
    let reg_val = data[2];
    Ok((reg_num, reg_val))
}

/// Reads the register number and value of a 32-bit register write.
pub fn dev_write_reg32_unpack(data: &[u8]) -> (r: SerialComResult<(u16, u32)>)
    ensures
        data@.len() < 6 ==> r == Err::<(u16, u32), _>(SerialComError::SliceTooSmall),
        data@.len() >= 6 ==> r == Ok::<(u16, u32), SerialComError>(
            (be16(data@), be32(data@.subrange(2, 6))),
        ),
{
    if data.len() < 6 {
        return Err(SerialComError::SliceTooSmall);
    }
    let reg_num = (data[0] as u16) * 256 + data[1] as u16;
    let reg_val = (data[2] as u32) * 0x100_0000 + (data[3] as u32) * 0x1_0000 + (data[4] as u32)
        * 256 + data[5] as u32;
    Ok((reg_num, reg_val))
}

/// Packs the answer to a read of an 8-bit register: the register number and
/// the value. Returns the payload length.
pub fn dev_read_reg8_pack(reg_num: u16, reg_val: u8, data: &mut [u8]) -> (r: SerialComResult<u8>)
    ensures
        old(data)@.len() < 3 ==> r == Err::<u8, _>(SerialComError::SliceTooSmall) && final(data)@
            == old(data)@,
        old(data)@.len() >= 3 ==> r == Ok::<u8, SerialComError>(3) && final(data)@ == reg_bytes(
            reg_num,
        ) + seq![reg_val] + old(data)@.subrange(3, old(data)@.len() as int),
{
    if data.len() < 3 {
        return Err(SerialComError::SliceTooSmall);
    }
    data[0] = (reg_num / 256) as u8;
    data[1] = (reg_num % 256) as u8;
    data[2] = reg_val;
    assert(data@ =~= reg_bytes(reg_num) + seq![reg_val] + old(data)@.subrange(
        3,
        old(data)@.len() as int,
    ));
    Ok(3u8)
}

/// Packs the answer to a read of a 32-bit register: the register number and
/// the value, most significant bytes first. Returns the payload length.
pub fn dev_read_reg32_pack(reg_num: u16, reg_val: u32, data: &mut [u8]) -> (r: SerialComResult<u8>)
    ensures
        old(data)@.len() < 6 ==> r == Err::<u8, _>(SerialComError::SliceTooSmall) && final(data)@
            == old(data)@,
        old(data)@.len() >= 6 ==> r == Ok::<u8, SerialComError>(6) && final(data)@ == reg_bytes(
            reg_num,
        ) + u32_bytes(reg_val) + old(data)@.subrange(6, old(data)@.len() as int),
{
    if data.len() < 6 {
        return Err(SerialComError::SliceTooSmall);
    }
    data[0] = (reg_num / 256) as u8;
    data[1] = (reg_num % 256) as u8;
    data[2] = (reg_val / 0x100_0000) as u8;
    data[3] = ((reg_val / 0x1_0000) % 256) as u8;
    data[4] = ((reg_val / 256) % 256) as u8;
    data[5] = (reg_val % 256) as u8;
    assert(data@ =~= reg_bytes(reg_num) + u32_bytes(reg_val) + old(data)@.subrange(
        6,
        old(data)@.len() as int,
    ));
    Ok(6u8)
}

/// Packs the acknowledgement of a register write: the register number.
/// Returns the payload length.
pub fn dev_write_reg_pack(reg_num: u16, data: &mut [u8]) -> (r: SerialComResult<u8>)
    ensures
        old(data)@.len() < 2 ==> r == Err::<u8, _>(SerialComError::SliceTooSmall) && final(data)@
            == old(data)@,
        old(data)@.len() >= 2 ==> r == Ok::<u8, SerialComError>(2) && final(data)@ == reg_bytes(
            reg_num,
        ) + old(data)@.subrange(2, old(data)@.len() as int),
{
    if data.len() < 2 {
        return Err(SerialComError::SliceTooSmall);
    }
    data[0] = (reg_num / 256) as u8;
    data[1] = (reg_num % 256) as u8;
    assert(data@ =~= reg_bytes(reg_num) + old(data)@.subrange(2, old(data)@.len() as int));
    Ok(2u8)
}

/// Packs a read request: the register number. Returns the payload length.
pub fn host_read_reg_pack(reg_num: u16, data: &mut [u8]) -> (r: SerialComResult<u8>)
    ensures
        old(data)@.len() < 2 ==> r == Err::<u8, _>(SerialComError::SliceTooSmall) && final(data)@
            == old(data)@,
        old(data)@.len() >= 2 ==> r == Ok::<u8, SerialComError>(2) && final(data)@ == reg_bytes(
            reg_num,
        ) + old(data)@.subrange(2, old(data)@.len() as int),
{
    dev_write_reg_pack(reg_num, data)
}

/// Packs a write of an 8-bit register. Returns the payload length.
pub fn host_write_reg8_pack(reg_num: u16, reg_val: u8, data: &mut [u8]) -> (r: SerialComResult<u8>)
    ensures
        old(data)@.len() < 3 ==> r == Err::<u8, _>(SerialComError::SliceTooSmall) && final(data)@
            == old(data)@,
        old(data)@.len() >= 3 ==> r == Ok::<u8, SerialComError>(3) && final(data)@ == reg_bytes(
            reg_num,
        ) + seq![reg_val] + old(data)@.subrange(3, old(data)@.len() as int),
{
    dev_read_reg8_pack(reg_num, reg_val, data)
}

/// Packs a write of a 32-bit register. Returns the payload length.
pub fn host_write_reg32_pack(reg_num: u16, reg_val: u32, data: &mut [u8]) -> (r: SerialComResult<
    u8,
>)
    ensures
        old(data)@.len() < 6 ==> r == Err::<u8, _>(SerialComError::SliceTooSmall) && final(data)@
            == old(data)@,
        old(data)@.len() >= 6 ==> r == Ok::<u8, SerialComError>(6) && final(data)@ == reg_bytes(
            reg_num,
        ) + u32_bytes(reg_val) + old(data)@.subrange(6, old(data)@.len() as int),
{
    dev_read_reg32_pack(reg_num, reg_val, data)
}

/// Reads the register number of a write acknowledgement.
pub fn host_write_reg_unpack(data: &[u8]) -> (r: SerialComResult<u16>)
    ensures
        data@.len() < 2 ==> r == Err::<u16, _>(SerialComError::SliceTooSmall),
        data@.len() >= 2 ==> r == Ok::<u16, SerialComError>(be16(data@)),
{
    dev_read_reg_unpack(data)
}

/// What a read response of this payload holds: three bytes carry an 8-bit
/// value, six bytes a 32-bit one; no other length is a response.
pub open spec fn read_response(data: Seq<u8>) -> SerialComResult<(u16, u32)> {
    if data.len() == 3 {
        Ok((be16(data), data[2] as u32))
    } else if data.len() == 6 {
        Ok((be16(data), be32(data.subrange(2, 6))))
    } else {
        Err(SerialComError::SliceTooSmall)
    }
}

/// Reads a read response: the register number and its value, widened to
/// 32 bits. The payload length selects the value's width.
pub fn host_read_reg_unpack(data: &[u8]) -> (r: SerialComResult<(u16, u32)>)
    ensures
        r == read_response(data@),
{
    if data.len() == 3 {
        match dev_write_reg8_unpack(data) {
            Ok((reg_num, reg_val)) => Ok((reg_num, reg_val as u32)),
            Err(e) => Err(e),
        }
    } else if data.len() == 6 {
        dev_write_reg32_unpack(data)
    } else {
        Err(SerialComError::SliceTooSmall)
    }
}

/// What a command byte asks for. Streaming commands also describe their
/// samples: the low three bits times four give the bits per word, the next
/// three bits the words per sample.
#[derive(Debug, Clone, Copy, PartialEq, Eq)]
pub enum CommandClass {
    RegisterRead,
    RegisterWrite,
    Reserved,
    Stream { word_bits: u8, words_per_sample: u8 },
}

/// The class of a command byte: 1 reads a register, 2 writes one, 0x80 and
/// above stream samples, and the rest are reserved.
pub open spec fn command_class(command: u8) -> CommandClass {
    if command == 1 {
        CommandClass::RegisterRead
    } else if command == 2 {
        CommandClass::RegisterWrite
    } else if command >= 0x80 {
        CommandClass::Stream {
            word_bits: ((command % 8) * 4) as u8,
            words_per_sample: ((command / 8) % 8) as u8,
        }
    } else {
        CommandClass::Reserved
    }
}

/// Decodes a command byte into its class, once, right after a frame is read.
pub fn classify(command: u8) -> (r: CommandClass)
    ensures
        r == command_class(command),
{
    if command == 1 {
        CommandClass::RegisterRead
    } else if command == 2 {
        CommandClass::RegisterWrite
    } else if command >= 0x80 {
        CommandClass::Stream { word_bits: (command % 8) * 4, words_per_sample: (command / 8) % 8 }
    } else {
        CommandClass::Reserved
    }
}

/// The number of payload bytes that carry whole words of `word_bits` bits:
/// words of 4 and 8 bits take any count, two 12-bit words take three bytes,
/// and 16- and 32-bit words take two and four.
pub open spec fn stream_group(word_bits: u8) -> nat {
    if word_bits == 12 {
        3
    } else if word_bits == 16 {
        2
    } else if word_bits == 32 {
        4
    } else {
        1
    }
}

/// The samples a streaming payload carries, words most significant first:
/// two 4-bit words a byte (high half first), one 8-bit word a byte, two
/// 12-bit words in three bytes, and 16- and 32-bit words in two and four.
pub open spec fn stream_samples(word_bits: u8, data: Seq<u8>) -> Seq<u32> {
    if word_bits == 4 {
        Seq::new(
            2 * data.len(),
            |i: int|
                if i % 2 == 0 {
                    (data[i / 2] / 16) as u32
                } else {
                    (data[i / 2] % 16) as u32
                },
        )
    } else if word_bits == 8 {
        Seq::new(data.len(), |i: int| data[i] as u32)
    } else if word_bits == 12 {
        Seq::new(
            2 * (data.len() / 3),
            |i: int|
                if i % 2 == 0 {
                    (data[3 * (i / 2)] * 16 + data[3 * (i / 2) + 1] / 16) as u32
                } else {
                    ((data[3 * (i / 2) + 1] % 16) * 256 + data[3 * (i / 2) + 2]) as u32
                },
        )
    } else if word_bits == 16 {
        Seq::new(data.len() / 2, |i: int| be16(data.subrange(2 * i, 2 * i + 2)) as u32)
    } else {
        Seq::new(data.len() / 4, |i: int| be32(data.subrange(4 * i, 4 * i + 4)))
    }
}

/// Whether streamed samples of this layout are supported: one word a
/// sample, of 4, 8, 12, 16 or 32 bits.
pub open spec fn stream_supported(command: u8) -> bool {
    match command_class(command) {
        CommandClass::Stream { word_bits, words_per_sample } => words_per_sample == 1 && (
        word_bits == 4 || word_bits == 8 || word_bits == 12 || word_bits == 16 || word_bits
            == 32),
        _ => false,
    }
}

/// Unpacks the samples of a streaming payload, as its command byte lays
/// them out. Fails on a command that is not a supported streaming layout,
/// or a payload that is not a whole number of word groups.
pub fn unpack_stream(command: u8, data: Vec<u8>) -> (r: SerialComResult<Vec<u32>>)
    ensures
        !stream_supported(command) ==> r == Err::<Vec<u32>, _>(
            SerialComError::StreamFormatUnsupported,
        ),
        stream_supported(command) && data@.len() % stream_group(
            command_class(command)->word_bits,
        ) != 0 ==> r == Err::<Vec<u32>, _>(SerialComError::StreamLengthMismatch),
        stream_supported(command) && data@.len() % stream_group(command_class(command)->word_bits)
            == 0 ==> r is Ok && r->Ok_0@ == stream_samples(
            command_class(command)->word_bits,
            data@,
        ),
{
    let (word_bits, words_per_sample) = match classify(command) {
        CommandClass::Stream { word_bits, words_per_sample } => (word_bits, words_per_sample),
        _ => return Err(SerialComError::StreamFormatUnsupported),
    };
    if words_per_sample != 1 {
        return Err(SerialComError::StreamFormatUnsupported);
    }
    let n = data.len();
    let mut out: Vec<u32> = Vec::new();
    if word_bits == 4 {
        let mut i: usize = 0;
        while i < n
            invariant
                n == data@.len(),
                i <= n,
                out@ =~= stream_samples(4, data@).subrange(0, 2 * i),
            decreases n - i,
        {
            out.push((data[i] / 16) as u32);
            out.push((data[i] % 16) as u32);
            i = i + 1;
            assert(out@ =~= stream_samples(4, data@).subrange(0, 2 * i));
        }
    } else if word_bits == 8 {
        let mut i: usize = 0;
        while i < n
            invariant
                n == data@.len(),
                i <= n,
                out@ =~= stream_samples(8, data@).subrange(0, i as int),
            decreases n - i,
        {
            out.push(data[i] as u32);
            i = i + 1;
        }
    } else if word_bits == 12 {
        if n % 3 != 0 {
            return Err(SerialComError::StreamLengthMismatch);
        }
        let mut i: usize = 0;
        while i < n / 3
            invariant
                n == data@.len(),
                n % 3 == 0,
                i <= n / 3,
                out@ =~= stream_samples(12, data@).subrange(0, 2 * i),
            decreases n / 3 - i,
        {
            let a = data[3 * i] as u32;
            let b = data[3 * i + 1] as u32;
            let c = data[3 * i + 2] as u32;
            out.push(a * 16 + b / 16);
            out.push((b % 16) * 256 + c);
            i = i + 1;
            assert(out@ =~= stream_samples(12, data@).subrange(0, 2 * i));
        }
    } else if word_bits == 16 {
        if n % 2 != 0 {
            return Err(SerialComError::StreamLengthMismatch);
        }
        let mut i: usize = 0;
        while i < n / 2
            invariant
                n == data@.len(),
                n % 2 == 0,
                i <= n / 2,
                out@ =~= stream_samples(16, data@).subrange(0, i as int),
            decreases n / 2 - i,
        {
            out.push((data[2 * i] as u32) * 256 + data[2 * i + 1] as u32);
            i = i + 1;
            assert(out@ =~= stream_samples(16, data@).subrange(0, i as int));
        }
    } else if word_bits == 32 {
        if n % 4 != 0 {
            return Err(SerialComError::StreamLengthMismatch);
        }
        let mut i: usize = 0;
        while i < n / 4
            invariant
                n == data@.len(),
                n % 4 == 0,
                i <= n / 4,
                out@ =~= stream_samples(32, data@).subrange(0, i as int),
            decreases n / 4 - i,
        {
            out.push(
                (data[4 * i] as u32) * 0x100_0000 + (data[4 * i + 1] as u32) * 0x1_0000 + (data[4
                    * i + 2] as u32) * 256 + data[4 * i + 3] as u32,
            );
            i = i + 1;
            assert(out@ =~= stream_samples(32, data@).subrange(0, i as int));
        }
    } else {
        return Err(SerialComError::StreamFormatUnsupported);
    }
    Ok(out)
}

} // verus!
