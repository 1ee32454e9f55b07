//! The blocking register client's decisions: building requests and matching
//! answers.
use crate::binarycom::packers::{reg_bytes, u32_bytes};
use crate::binarycom::{wire_frame, BinaryCom};
use crate::error::{SerialComError, SerialComResult};
use vstd::prelude::*;

verus! {

/// The width of the device's registers, fixed when the client is built.
#[derive(Debug, Clone, Copy, PartialEq, Eq)]
pub enum RegisterBitWidth {
    Eight,
    ThirtyTwo,
}

/// Puts the frame that writes `reg_val` to register `reg_num` in the
/// outbound ring, in the payload width the registers have. Fails, changing
/// nothing, when an 8-bit register is given a value above 255.
pub fn host_write_reg<B: BinaryCom>(
    outbuf: &mut B,
    width: RegisterBitWidth,
    reg_num: u16,
    reg_val: u32,
) -> (r: SerialComResult<()>)
    ensures
        width == RegisterBitWidth::Eight && reg_val > 255 ==> r is Err && r->Err_0 is TryFromInt
            && final(outbuf)@ == old(outbuf)@,
        width == RegisterBitWidth::Eight && reg_val <= 255 ==> r == Ok::<(), SerialComError>(())
            && final(outbuf)@ == wire_frame(2, reg_bytes(reg_num) + seq![reg_val as u8]),
        width == RegisterBitWidth::ThirtyTwo ==> r == Ok::<(), SerialComError>(())
            && final(outbuf)@ == wire_frame(2, reg_bytes(reg_num) + u32_bytes(reg_val)),
{
    match width {
        RegisterBitWidth::Eight => match u8::try_from(reg_val) {
            Ok(v) => outbuf.host_write_reg8(reg_num, v),
            Err(e) => Err(SerialComError::TryFromInt(e)),
        },
        RegisterBitWidth::ThirtyTwo => outbuf.host_write_reg32(reg_num, reg_val),
    }
}

/// One outcome of a bounded wait on a queue.
#[derive(Debug, PartialEq, Eq)]
pub enum WaitOutcome<T> {
    /// An item arrived.
    Received(T),
    /// The wait budget ran out.
    TimedOut,
    /// The queue's sender is gone: the receiver has stopped.
    Disconnected,
}

/// What a blocking register call does next.
#[derive(Debug, PartialEq, Eq)]
pub enum WaitStep<T> {
    /// The call returns this.
    Return(T),
    /// The item was for another register: wait again.
    WaitAgain,
}

/// The decision a write call makes on one outcome of its wait for the
/// acknowledgement of `reg_num`: done when it names that register, wait
/// again (dropping it) when it names another, and fail on a timeout or a
/// closed queue.
pub fn write_reg_step(reg_num: u16, outcome: WaitOutcome<u16>) -> (r: WaitStep<
    SerialComResult<()>,
>)
    ensures
        outcome == WaitOutcome::Received(reg_num) ==> r == WaitStep::Return(
            Ok::<(), SerialComError>(()),
        ),
        outcome is Received && outcome->Received_0 != reg_num ==> r == WaitStep::<
            SerialComResult<()>,
        >::WaitAgain,
        outcome is TimedOut ==> r == WaitStep::Return(Err::<(), _>(SerialComError::Timeout)),
        outcome is Disconnected ==> r == WaitStep::Return(
            Err::<(), _>(SerialComError::ChannelClosed),
        ),
{
    match outcome {
        WaitOutcome::Received(reg_num_rec) => {
            if reg_num_rec == reg_num {
                WaitStep::Return(Ok(()))
            } else {
                WaitStep::WaitAgain
            }
        },
        WaitOutcome::TimedOut => WaitStep::Return(Err(SerialComError::Timeout)),
        WaitOutcome::Disconnected => WaitStep::Return(Err(SerialComError::ChannelClosed)),
    }
}

/// The decision a read call makes on one outcome of its wait for the value
/// of `reg_num`: return the value when the response names that register,
/// wait again (dropping it) when it names another, and fail on a timeout or
/// a closed queue.
pub fn read_reg_step(reg_num: u16, outcome: WaitOutcome<(u16, u32)>) -> (r: WaitStep<
    SerialComResult<u32>,
>)
    ensures
        outcome is Received && outcome->Received_0.0 == reg_num ==> r == WaitStep::Return(
            Ok::<u32, SerialComError>(outcome->Received_0.1),
        ),
        outcome is Received && outcome->Received_0.0 != reg_num ==> r == WaitStep::<
            SerialComResult<u32>,
        >::WaitAgain,
        outcome is TimedOut ==> r == WaitStep::Return(Err::<u32, _>(SerialComError::Timeout)),
        outcome is Disconnected ==> r == WaitStep::Return(
            Err::<u32, _>(SerialComError::ChannelClosed),
        ),
{
    match outcome {
        WaitOutcome::Received((reg_num_rec, reg_val_rec)) => {
            if reg_num_rec == reg_num {
                WaitStep::Return(Ok(reg_val_rec))
            } else {
                WaitStep::WaitAgain
            }
        },
        WaitOutcome::TimedOut => WaitStep::Return(Err(SerialComError::Timeout)),
        WaitOutcome::Disconnected => WaitStep::Return(Err(SerialComError::ChannelClosed)),
    }
}

} // verus!
