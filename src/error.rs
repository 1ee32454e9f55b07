//! The errors of the protocol stack.
use std::num::TryFromIntError;
use vstd::prelude::*;

verus! {

/// What can go wrong while framing, checking or routing a message.
#[derive(Debug, PartialEq, Eq)]
pub enum SerialComError {
    /// The ring has no room for the overhead and comma bytes.
    QueueTooFull,
    /// The ring held fewer bytes than the frame claimed.
    QueueIndexingError,
    /// No comma (zero) byte ends the chain of offsets.
    COBSDecodeNoCommaFound,
    /// The bytes are too few to hold a message.
    COBSTooLittleData,
    /// A destination or source slice is too small.
    SliceTooSmall,
    /// The payload does not fit in one frame.
    SliceTooBig,
    /// The checksum received differs from the one computed.
    CRCMismatch,
    /// A value does not fit the narrower integer type.
    TryFromInt(TryFromIntError),
    /// The command byte asks for a sample layout that is not supported.
    StreamFormatUnsupported,
    /// The payload length is not a whole number of samples.
    StreamLengthMismatch,
    /// The other end of a queue has gone away.
    ChannelClosed,
    /// No answer came within the wait budget.
    Timeout,
    /// The byte stream could not be read or written.
    TransportFailed,
}

pub type SerialComResult<T> = Result<T, SerialComError>;

impl From<TryFromIntError> for SerialComError {
    fn from(err: TryFromIntError) -> (r: SerialComError)
        ensures
            r == SerialComError::TryFromInt(err),
    {
        SerialComError::TryFromInt(err)
    }
}

impl vstd::std_specs::convert::FromSpecImpl<TryFromIntError> for SerialComError {
    open spec fn obeys_from_spec() -> bool {
        true
    }

    open spec fn from_spec(v: TryFromIntError) -> SerialComError {
        SerialComError::TryFromInt(v)
    }
}

} // verus!
