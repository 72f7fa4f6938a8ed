//! Transport frames and the relay's error taxonomy. A frame is the unit the
//! transport hands over: binary frames carry protocol messages, anything
//! else is a protocol error at this layer.

use vstd::prelude::*;
use crate::codec::{decode, spec_decode, DecodeError, Message, MessageView};

verus! {

/// An inbound transport frame: the protocol only ever expects binary ones.
pub enum Frame {
    Binary(Vec<u8>),
    Text(String),
}

/// Everything that can go wrong between a transport frame arriving and a
/// payload being handed to a caller.
#[derive(Debug, Clone, Copy, PartialEq, Eq)]
pub enum RelayError {
    /// A text frame arrived where a binary frame was expected.
    UnexpectedFrameKind,
    /// The frame's bytes are not a well-formed message.
    MalformedFrame,
    /// The frame's discriminator names no known variant.
    UnknownVariant,
    /// The message decoded, but its variant is wrong for its context.
    ProtocolShape,
    /// A request was issued under a correlation id that is still pending.
    DuplicateRequestId,
    /// The session closed while the call was still pending.
    SessionClosed,
}

/// The relay-level rendering of a codec failure.
pub open spec fn relay_of_decode(e: DecodeError) -> RelayError {
    match e {
        DecodeError::MalformedFrame => RelayError::MalformedFrame,
        DecodeError::UnknownVariant => RelayError::UnknownVariant,
    }
}

/// What a transport frame yields: the decoded message of a binary frame,
/// or the error that names what was wrong with the frame.
pub open spec fn spec_parse_frame(f: Frame) -> Result<MessageView, RelayError> {
    match f {
        Frame::Binary(buf) => match spec_decode(buf@) {
            Ok(m) => Ok(m),
            Err(e) => Err(relay_of_decode(e)),
        },
        Frame::Text(_) => Err(RelayError::UnexpectedFrameKind),
    }
}

/// Interpret one inbound transport frame as a protocol message. Only a
/// binary frame is decoded; any other frame kind is rejected first.
pub fn parse_holochain_message(message: Frame) -> (r: Result<Message, RelayError>)
    ensures
        match r {
            Ok(m) => spec_parse_frame(message) == Ok::<MessageView, RelayError>(m@),
            Err(e) => spec_parse_frame(message) == Err::<MessageView, RelayError>(e),
        },
{
    match message {
        Frame::Binary(buf) => match decode(&buf) {
            Ok(m) => Ok(m),
            Err(DecodeError::MalformedFrame) => Err(RelayError::MalformedFrame),
            Err(DecodeError::UnknownVariant) => Err(RelayError::UnknownVariant),
        },
        Frame::Text(_) => Err(RelayError::UnexpectedFrameKind),
    }
}

} // verus!
