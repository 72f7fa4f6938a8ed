//! The shared state of a persistent connection: an ordered buffer of
//! signal payloads and a table of pending calls, each pending call keyed
//! by its correlation id and holding the channel its caller blocks on.
//! The receive loop feeds every inbound frame through `handle_frame`; the
//! contracts here pin down how each frame moves that state.

use vstd::prelude::*;
use crate::codec::{enc_message, request, Message, MessageView};
use crate::frame::{spec_parse_frame, parse_holochain_message, Frame, RelayError};

verus! {

#[verifier::external_type_specification]
#[verifier::external_body]
#[verifier::reject_recursive_types(T)]
pub struct ExSender<T>(crossbeam::channel::Sender<T>);

/// The channel a pending caller blocks on: it receives the base64-rendered
/// response payload, or the error that ended the call.
pub type ReplySender = crossbeam::channel::Sender<Result<String, RelayError>>;

/// The base64 rendering (standard alphabet, with padding) of a byte string.
pub uninterp spec fn base64_of(data: Seq<u8>) -> Seq<char>;

/// Relies on base64::encode: the standard-alphabet, padded rendering of
/// the input bytes, a function of those bytes alone.
#[verifier::external_body]
fn base64_encode(data: &Vec<u8>) -> (r: String)
    ensures
        r@ == base64_of(data@),
        data@.len() == 0 ==> r@.len() == 0,
{
    base64::encode(data)
}

/// Relies on crossbeam_channel::Sender::send: hands the value to the
/// channel, blocking while a bounded channel is full; returns whether the
/// receiving side was still connected.
#[verifier::external_body]
fn send_reply(tx: &ReplySender, v: Result<String, RelayError>) -> (r: bool) {
    tx.send(v).is_ok()
}

fn bytes_eq(a: &Vec<u8>, b: &Vec<u8>) -> (r: bool)
    ensures
        r == (a@ == b@),
{
    if a.len() != b.len() {
        return false;
    }
    let mut i: usize = 0;
    while i < a.len()
        invariant
            i <= a@.len(),
            a@.len() == b@.len(),
            forall|j: int| 0 <= j < i ==> a@[j] == b@[j],
        decreases a@.len() - i,
    {
        if a[i] != b[i] {
            return false;
        }
        i += 1;
    }
    assert(a@ =~= b@);
    true
}

fn clone_bytes(v: &Vec<u8>) -> (r: Vec<u8>)
    ensures
        r@ == v@,
{
    let mut r: Vec<u8> = Vec::new();
    let mut i: usize = 0;
    while i < v.len()
        invariant
            i <= v@.len(),
            r@ == v@.subrange(0, i as int),
        decreases v@.len() - i,
    {
        r.push(v[i]);
        assert(r@ =~= v@.subrange(0, i + 1));
        i += 1;
    }
    assert(r@ =~= v@);
    r
}

/// What the receive loop decided about one message.
pub enum FrameOutcome {
    /// A Signal: its payload was appended to the signal buffer.
    SignalStored,
    /// A Response that matched a pending call: its entry was removed, and
    /// the rendered payload is to be delivered on the entry's channel.
    Deliver { tx: ReplySender, payload: String },
    /// A Response whose id matched no pending call: dropped.
    UnmatchedResponse,
    /// A Request, which never arrives inbound on this side: dropped.
    UnexpectedRequest,
}

/// What the receive loop did with one transport frame.
#[derive(Debug, Clone, Copy, PartialEq, Eq)]
pub enum SessionEvent {
    SignalStored,
    Delivered,
    UnmatchedResponse,
    UnexpectedRequest,
    /// The frame did not carry a message; it was dropped and the session
    /// state is untouched.
    BadFrame(RelayError),
}

/// The state a persistent session shares between its receive loop, the
/// callers issuing requests through it, and the poller draining signals.
pub struct AppConnection {
    /// The rendered payload of each Signal received since last drained,
    /// in arrival order.
    pub signals_accumulated: Vec<String>,
    /// One entry per pending call: its correlation id and the channel its
    /// caller blocks on. Ids are unique among entries.
    pub responses_awaited: Vec<(Vec<u8>, ReplySender)>,
}

impl AppConnection {
    /// The pending-call table as a sequence of (id, channel) pairs.
    pub open spec fn table(self) -> Seq<(Seq<u8>, ReplySender)> {
        self.responses_awaited@.map_values(|p: (Vec<u8>, ReplySender)| (p.0@, p.1))
    }

    /// The accumulated signal renderings, in arrival order.
    pub open spec fn signals(self) -> Seq<Seq<char>> {
        self.signals_accumulated@.map_values(|s: String| s@)
    }

    /// No two pending entries share a correlation id.
    pub open spec fn wf(self) -> bool {
        forall|i: int, j: int|
            0 <= i < j < self.table().len() ==> #[trigger] self.table()[i].0 != #[trigger] self.table()[j].0
    }

    /// Whether some pending entry carries this id.
    pub open spec fn has_pending(self, id: Seq<u8>) -> bool {
        exists|i: int| 0 <= i < self.table().len() && #[trigger] self.table()[i].0 == id
    }

    /// A fresh session state: nothing pending, nothing accumulated.
    pub fn new() -> (c: AppConnection)
        ensures
            c.wf(),
            c.table() == Seq::<(Seq<u8>, ReplySender)>::empty(),
            c.signals() == Seq::<Seq<char>>::empty(),
    {
        let c = AppConnection { signals_accumulated: Vec::new(), responses_awaited: Vec::new() };
        assert(c.table() =~= Seq::<(Seq<u8>, ReplySender)>::empty());
        assert(c.signals() =~= Seq::<Seq<char>>::empty());
        c
    }

    fn find(&self, id: &Vec<u8>) -> (r: Option<usize>)
        ensures
            match r {
                Some(i) => i < self.table().len() && self.table()[i as int].0 == id@,
                None => !self.has_pending(id@),
            },
    {
        let mut i: usize = 0;
        while i < self.responses_awaited.len()
            invariant
                i <= self.table().len(),
                self.table().len() == self.responses_awaited@.len(),
                forall|j: int| 0 <= j < i ==> #[trigger] self.table()[j].0 != id@,
            decreases self.table().len() - i,
        {
            if bytes_eq(&self.responses_awaited[i].0, id) {
                return Some(i);
            }
            i += 1;
        }
        None
    }

    /// Enter a pending call under `id`, to be delivered on `tx`. Refused,
    /// with the state untouched, while an entry with the same id is still
    /// pending.
    pub fn register(&mut self, id: Vec<u8>, tx: ReplySender) -> (r: bool)
        requires
            old(self).wf(),
        ensures
            final(self).wf(),
            r == !old(self).has_pending(id@),
            r ==> final(self).table() == old(self).table().push((id@, tx)),
            !r ==> final(self).table() == old(self).table(),
            final(self).signals() == old(self).signals(),
    {
        match self.find(&id) {
            Some(_) => false,
            None => {
                self.responses_awaited.push((id, tx));
                assert(final(self).table() =~= old(self).table().push((id@, tx)));
                assert(final(self).signals() =~= old(self).signals());
                assert forall|i: int, j: int| 0 <= i < j < self.table().len() implies #[trigger] self
                    .table()[i].0 != #[trigger] self.table()[j].0 by {
                    if j == self.table().len() - 1 {
                        assert(old(self).table()[i].0 != id@);
                    }
                }
                true
            },
        }
    }

    /// Demultiplex one decoded message, as the receive loop's single
    /// interpretation point: a Signal is appended to the buffer, a
    /// Response claims and removes its pending entry, anything else is
    /// dropped with the state untouched.
    pub fn handle_message(&mut self, msg: Message) -> (r: FrameOutcome)
        requires
            old(self).wf(),
        ensures
            final(self).wf(),
            match msg@ {
                MessageView::Signal { data } => {
                    &&& r matches FrameOutcome::SignalStored
                    &&& final(self).table() == old(self).table()
                    &&& final(self).signals() == old(self).signals().push(base64_of(data))
                },
                MessageView::Response { id, data } => {
                    &&& final(self).signals() == old(self).signals()
                    &&& if old(self).has_pending(id) {
                        exists|i: int|
                            #![auto]
                            {
                                &&& 0 <= i < old(self).table().len()
                                &&& old(self).table()[i].0 == id
                                &&& final(self).table() == old(self).table().remove(i)
                                &&& r matches FrameOutcome::Deliver { tx, payload } && tx == old(
                                    self,
                                ).table()[i].1 && payload@ == base64_of(data)
                            }
                    } else {
                        &&& r matches FrameOutcome::UnmatchedResponse
                        &&& final(self).table() == old(self).table()
                    }
                },
                MessageView::Request { .. } => {
                    &&& r matches FrameOutcome::UnexpectedRequest
                    &&& final(self).table() == old(self).table()
                    &&& final(self).signals() == old(self).signals()
                },
            },
    {
        match msg {
            Message::Signal { data } => {
                let rendered = base64_encode(&data);
                self.signals_accumulated.push(rendered);
                assert(final(self).signals() =~= old(self).signals().push(base64_of(data@)));
                assert(final(self).table() =~= old(self).table());
                FrameOutcome::SignalStored
            },
            Message::Response { id, data } => {
                match self.find(&id) {
                    Some(i) => {
                        let entry = self.responses_awaited.remove(i);
                        let payload = base64_encode(&data);
                        assert(final(self).table() =~= old(self).table().remove(i as int));
                        assert(final(self).signals() =~= old(self).signals());
                        proof {
                            old(self).table().remove_ensures(i as int);
                            assert forall|a: int, b: int|
                                0 <= a < b < self.table().len() implies #[trigger] self.table()[a].0
                                != #[trigger] self.table()[b].0 by {}
                        }
                        FrameOutcome::Deliver { tx: entry.1, payload }
                    },
                    None => {
                        assert(final(self).table() =~= old(self).table());
                        assert(final(self).signals() =~= old(self).signals());
                        FrameOutcome::UnmatchedResponse
                    },
                }
            },
            Message::Request { .. } => {
                assert(final(self).table() =~= old(self).table());
                assert(final(self).signals() =~= old(self).signals());
                FrameOutcome::UnexpectedRequest
            },
        }
    }

    /// Take one inbound transport frame, as the receive loop does: decode
    /// it, demultiplex the message, and perform the delivery of a matched
    /// Response on its caller's channel. An undecodable frame is dropped
    /// and leaves the state untouched.
    pub fn handle_frame(&mut self, frame: Frame) -> (r: SessionEvent)
        requires
            old(self).wf(),
        ensures
            final(self).wf(),
            match spec_parse_frame(frame) {
                Err(e) => {
                    &&& r == SessionEvent::BadFrame(e)
                    &&& final(self).table() == old(self).table()
                    &&& final(self).signals() == old(self).signals()
                },
                Ok(m) => match m {
                    MessageView::Signal { data } => {
                        &&& r == SessionEvent::SignalStored
                        &&& final(self).table() == old(self).table()
                        &&& final(self).signals() == old(self).signals().push(base64_of(data))
                    },
                    MessageView::Response { id, data } => {
                        &&& final(self).signals() == old(self).signals()
                        &&& if old(self).has_pending(id) {
                            &&& r == SessionEvent::Delivered
                            &&& exists|i: int|
                                #![auto]
                                {
                                    &&& 0 <= i < old(self).table().len()
                                    &&& old(self).table()[i].0 == id
                                    &&& final(self).table() == old(self).table().remove(i)
                                }
                        } else {
                            &&& r == SessionEvent::UnmatchedResponse
                            &&& final(self).table() == old(self).table()
                        }
                    },
                    MessageView::Request { .. } => {
                        &&& r == SessionEvent::UnexpectedRequest
                        &&& final(self).table() == old(self).table()
                        &&& final(self).signals() == old(self).signals()
                    },
                },
            },
    {
        match parse_holochain_message(frame) {
            Err(e) => SessionEvent::BadFrame(e),
            Ok(msg) => match self.handle_message(msg) {
                FrameOutcome::SignalStored => SessionEvent::SignalStored,
                FrameOutcome::Deliver { tx, payload } => {
                    send_reply(&tx, Ok(payload));
                    SessionEvent::Delivered
                },
                FrameOutcome::UnmatchedResponse => SessionEvent::UnmatchedResponse,
                FrameOutcome::UnexpectedRequest => SessionEvent::UnexpectedRequest,
            },
        }
    }

    /// Enter a pending call and build its Request frame, insert-before-
    /// send: the entry is in the table before the frame exists to be sent,
    /// so no response can outrun its registration. Refused while the id is
    /// still pending.
    pub fn begin_call(&mut self, id: Vec<u8>, data: Vec<u8>, tx: ReplySender) -> (r: Result<
        Vec<u8>,
        RelayError,
    >)
        requires
            old(self).wf(),
            id@.len() < 0x1_0000_0000,
            data@.len() < 0x1_0000_0000,
        ensures
            final(self).wf(),
            final(self).signals() == old(self).signals(),
            if old(self).has_pending(id@) {
                &&& r == Err::<Vec<u8>, RelayError>(RelayError::DuplicateRequestId)
                &&& final(self).table() == old(self).table()
            } else {
                &&& r matches Ok(frame) && frame@ == enc_message(
                    MessageView::Request { id: id@, data: data@ },
                )
                &&& final(self).table() == old(self).table().push((id@, tx))
            },
    {
        let wire_id = clone_bytes(&id);
        if self.register(id, tx) {
            Ok(request(wire_id, data))
        } else {
            Err(RelayError::DuplicateRequestId)
        }
    }

    /// Return every signal accumulated so far, in arrival order, leaving
    /// the buffer empty: draining twice without new arrivals yields
    /// nothing the second time.
    pub fn drain_signals(&mut self) -> (r: Vec<String>)
        requires
            old(self).wf(),
        ensures
            final(self).wf(),
            r@.map_values(|s: String| s@) == old(self).signals(),
            final(self).signals() == Seq::<Seq<char>>::empty(),
            final(self).table() == old(self).table(),
    {
        let mut out: Vec<String> = Vec::new();
        core::mem::swap(&mut out, &mut self.signals_accumulated);
        assert(final(self).signals() =~= Seq::<Seq<char>>::empty());
        assert(final(self).table() =~= old(self).table());
        out
    }

    /// End the session: every pending caller is delivered the failure that
    /// its response will never come, and the table is left empty.
    pub fn close(&mut self)
        requires
            old(self).wf(),
        ensures
            final(self).wf(),
            final(self).table() == Seq::<(Seq<u8>, ReplySender)>::empty(),
            final(self).signals() == old(self).signals(),
    {
        while self.responses_awaited.len() > 0
            invariant
                self.signals() == old(self).signals(),
            decreases self.responses_awaited@.len(),
        {
            match self.responses_awaited.pop() {
                Some(entry) => {
                    send_reply(&entry.1, Err(RelayError::SessionClosed));
                },
                None => {},
            }
        }
        assert(final(self).table() =~= Seq::<(Seq<u8>, ReplySender)>::empty());
    }
}

/// Replies route by correlation id alone: with two distinct pending ids,
/// delivering the one's response leaves the other's entry — same id, same
/// channel — still pending, so the order in which responses arrive cannot
/// change which caller receives which payload.
pub proof fn lemma_reply_routing(t: Seq<(Seq<u8>, ReplySender)>, i: int, j: int)
    requires
        forall|a: int, b: int| 0 <= a < b < t.len() ==> #[trigger] t[a].0 != #[trigger] t[b].0,
        0 <= i < t.len(),
        0 <= j < t.len(),
        t[i].0 != t[j].0,
    ensures
        exists|k: int|
            0 <= k < t.remove(j).len() && #[trigger] t.remove(j)[k].0 == t[i].0 && t.remove(j)[k].1
                == t[i].1,
{
    t.remove_ensures(j);
    let k = if i < j {
        i
    } else {
        i - 1
    };
    assert(t.remove(j)[k].0 == t[i].0 && t.remove(j)[k].1 == t[i].1);
}

} // verus!
