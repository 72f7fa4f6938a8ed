//! The one-shot call protocol: one Request with an empty correlation id is
//! sent on a fresh connection, and the first inbound frame decides the
//! call. Later frames are ignored; a reply of the wrong variant is a
//! protocol-shape error.

use vstd::prelude::*;
use crate::codec::{enc_message, request, spec_decode, wf_message, Message, MessageView};
use crate::frame::{relay_of_decode, parse_holochain_message, Frame, RelayError};

verus! {

/// What a reply buffer yields for a one-shot call: the payload of a
/// Response, a protocol-shape error for the two other variants, or the
/// codec's error for bytes that are no message.
pub open spec fn spec_reply_of_bytes(b: Seq<u8>) -> Result<Seq<u8>, RelayError> {
    match spec_decode(b) {
        Ok(MessageView::Response { id, data }) => Ok(data),
        Ok(_) => Err(RelayError::ProtocolShape),
        Err(e) => Err(relay_of_decode(e)),
    }
}

/// What a reply frame yields for a one-shot call.
pub open spec fn spec_reply(f: Frame) -> Result<Seq<u8>, RelayError> {
    match f {
        Frame::Binary(buf) => spec_reply_of_bytes(buf@),
        Frame::Text(_) => Err(RelayError::UnexpectedFrameKind),
    }
}

/// Extract the payload a one-shot caller is owed from a reply frame: the
/// data of a Response, whatever its correlation id; an error otherwise.
pub fn parse_holochain_response(response: Frame) -> (r: Result<Vec<u8>, RelayError>)
    ensures
        match r {
            Ok(d) => spec_reply(response) == Ok::<Seq<u8>, RelayError>(d@),
            Err(e) => spec_reply(response) == Err::<Seq<u8>, RelayError>(e),
        },
{
    match parse_holochain_message(response) {
        Ok(m) => match m {
            Message::Response { id: _, data } => Ok(data),
            _ => Err(RelayError::ProtocolShape),
        },
        Err(e) => Err(e),
    }
}

/// Where a one-shot call stands.
#[derive(Debug, Clone, Copy, PartialEq, Eq)]
pub enum CallPhase {
    /// The request frame was handed to the transport; the reply is owed.
    Awaiting,
    /// The request frame could not be written; any reply is ignored.
    Aborted,
    /// A reply frame was taken; any further frame is ignored.
    Done,
}

/// A one-shot call in flight. Exactly one inbound frame is interpreted:
/// the first one to arrive while the call is awaiting its reply.
pub struct OneShotCall {
    phase: CallPhase,
}

impl OneShotCall {
    /// Where this call stands.
    pub closed spec fn phase(self) -> CallPhase {
        self.phase
    }

    /// Start a one-shot call: the handle, and the Request frame to send,
    /// carrying the empty correlation id a single outstanding call needs.
    pub fn begin(data_buf: Vec<u8>) -> (r: (OneShotCall, Vec<u8>))
        requires
            data_buf@.len() < 0x1_0000_0000,
        ensures
            r.0.phase() == CallPhase::Awaiting,
            r.1@ == enc_message(MessageView::Request { id: Seq::empty(), data: data_buf@ }),
    {
        let empty_id: Vec<u8> = Vec::new();
        let frame = request(empty_id, data_buf);
        (OneShotCall { phase: CallPhase::Awaiting }, frame)
    }

    /// The request frame could not be written: the call is over and every
    /// later inbound frame is ignored.
    pub fn mark_send_failed(&mut self)
        requires
            old(self).phase() == CallPhase::Awaiting,
        ensures
            final(self).phase() == CallPhase::Aborted,
    {
        self.phase = CallPhase::Aborted;
    }

    /// Take one inbound frame. The first frame of an awaiting call decides
    /// it and is interpreted exactly as `spec_reply` says; any other frame
    /// is ignored and leaves the call as it was.
    pub fn on_frame(&mut self, response: Frame) -> (r: Option<Result<Vec<u8>, RelayError>>)
        ensures
            old(self).phase() == CallPhase::Awaiting ==> {
                &&& final(self).phase() == CallPhase::Done
                &&& match r {
                    Some(res) => match res {
                        Ok(d) => spec_reply(response) == Ok::<Seq<u8>, RelayError>(d@),
                        Err(e) => spec_reply(response) == Err::<Seq<u8>, RelayError>(e),
                    },
                    None => false,
                }
            },
            old(self).phase() != CallPhase::Awaiting ==> r is None && final(self).phase() == old(
                self,
            ).phase(),
    {
        match self.phase {
            CallPhase::Awaiting => {
                self.phase = CallPhase::Done;
                Some(parse_holochain_response(response))
            },
            _ => None,
        }
    }
}

/// A one-shot reply of the Response variant yields exactly its payload,
/// whatever its correlation id — and so independently of what the request
/// carried, which the reply interpretation never looks at.
pub proof fn lemma_reply_payload(id: Seq<u8>, p: Seq<u8>)
    requires
        wf_message(MessageView::Response { id, data: p }),
    ensures
        spec_reply_of_bytes(enc_message(MessageView::Response { id, data: p })) == Ok::<
            Seq<u8>,
            RelayError,
        >(p),
{
    crate::codec::lemma_round_trip(MessageView::Response { id, data: p });
}

/// A one-shot reply of the Signal variant never yields a payload: it is a
/// protocol-shape error.
pub proof fn lemma_reply_wrong_variant(p: Seq<u8>)
    requires
        wf_message(MessageView::Signal { data: p }),
    ensures
        spec_reply_of_bytes(enc_message(MessageView::Signal { data: p })) == Err::<
            Seq<u8>,
            RelayError,
        >(RelayError::ProtocolShape),
{
    crate::codec::lemma_round_trip(MessageView::Signal { data: p });
}

} // verus!
