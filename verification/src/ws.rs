//! The transport's bookkeeping: the connection's phase, the table of
//! outstanding request ids, and the queue of frames that await writing.
//!
//! The socket itself is driven from outside. The reader hands each thing it
//! read to `receive` and performs the action that comes back; the writer
//! takes what it is to write from `next_outbound`.

use crate::message::{decode, frame_of, json_outline, decoded_view};
use crate::message::{Frame, FrameView, ProtocolDecodeError};
use vstd::prelude::*;

verus! {

/// A notification about the transport itself.
#[derive(Debug, Clone, Copy, PartialEq, Eq, Structural)]
pub enum Event {
    Connected,
}

/// What a caller gets back: the text of the frame that answers its request,
/// or a notification about the transport.
#[derive(Debug)]
pub enum Response {
    Frame(String),
    Meta(Event),
}

pub ghost enum ResponseView {
    Frame(Seq<char>),
    Meta(Event),
}

impl View for Response {
    type V = ResponseView;

    open spec fn view(&self) -> ResponseView {
        match self {
            Response::Frame(text) => ResponseView::Frame(text@),
            Response::Meta(event) => ResponseView::Meta(*event),
        }
    }
}

/// The life of a transport. It only ever moves forward.
#[derive(Debug, Clone, Copy, PartialEq, Eq, Structural)]
pub enum Phase {
    Connecting,
    Open,
    Closing,
    Closed,
}

impl Phase {
    /// The position of a phase in the transport's life.
    pub open spec fn rank(self) -> nat {
        match self {
            Phase::Connecting => 0,
            Phase::Open => 1,
            Phase::Closing => 2,
            Phase::Closed => 3,
        }
    }
}

/// Why a request did not get its response.
#[derive(Debug, Clone, Copy, PartialEq, Eq, Structural)]
pub enum TransportError {
    /// The socket handshake failed.
    ConnectionError,
    /// The connection is closing or closed.
    ConnectionClosed,
    /// The request's deadline passed.
    Timeout,
}

/// A frame for the writer.
#[derive(Debug)]
pub enum Outbound {
    Text(String),
    Pong(Vec<u8>),
    Close,
}

pub ghost enum OutboundView {
    Text(Seq<char>),
    Pong(Seq<u8>),
    Close,
}

impl View for Outbound {
    type V = OutboundView;

    open spec fn view(&self) -> OutboundView {
        match self {
            Outbound::Text(text) => OutboundView::Text(text@),
            Outbound::Pong(data) => OutboundView::Pong(data@),
            Outbound::Close => OutboundView::Close,
        }
    }
}

/// What the reader got from the socket.
#[derive(Debug)]
pub enum Incoming {
    Text(String),
    Ping(Vec<u8>),
    /// The peer's close frame.
    Close,
    /// Reading failed.
    Failed,
    /// Any other frame.
    Other,
}

pub ghost enum IncomingView {
    Text(Seq<char>),
    Ping(Seq<u8>),
    Close,
    Failed,
    Other,
}

impl View for Incoming {
    type V = IncomingView;

    open spec fn view(&self) -> IncomingView {
        match self {
            Incoming::Text(text) => IncomingView::Text(text@),
            Incoming::Ping(data) => IncomingView::Ping(data@),
            Incoming::Close => IncomingView::Close,
            Incoming::Failed => IncomingView::Failed,
            Incoming::Other => IncomingView::Other,
        }
    }
}

/// What the reader is to do with what it read.
#[derive(Debug)]
pub enum ReaderAction {
    /// Complete the request `id` with the response.
    Fulfill { id: u64, response: Response },
    /// A response came for an id that is not outstanding: note it, go on.
    Unmatched { id: u64 },
    /// An unsolicited frame, passed on as it came.
    Event { payload: String },
    /// The frame could not be decoded and is dropped.
    Dropped(ProtocolDecodeError),
    /// A pong was queued for the writer.
    Ponged,
    /// Fail the listed requests with `ConnectionClosed`, and stop reading.
    Shutdown { failed: Vec<u64> },
    /// Nothing to do.
    Ignored,
}

pub ghost enum ReaderActionView {
    Fulfill { id: u64, response: ResponseView },
    Unmatched { id: u64 },
    Event { payload: Seq<char> },
    Dropped(ProtocolDecodeError),
    Ponged,
    Shutdown { failed: Seq<u64> },
    Ignored,
}

impl View for ReaderAction {
    type V = ReaderActionView;

    open spec fn view(&self) -> ReaderActionView {
        match self {
            ReaderAction::Fulfill { id, response } => ReaderActionView::Fulfill {
                id: *id,
                response: response@,
            },
            ReaderAction::Unmatched { id } => ReaderActionView::Unmatched { id: *id },
            ReaderAction::Event { payload } => ReaderActionView::Event { payload: payload@ },
            ReaderAction::Dropped(e) => ReaderActionView::Dropped(*e),
            ReaderAction::Ponged => ReaderActionView::Ponged,
            ReaderAction::Shutdown { failed } => ReaderActionView::Shutdown { failed: failed@ },
            ReaderAction::Ignored => ReaderActionView::Ignored,
        }
    }
}

/// `pending` without `id`.
pub open spec fn without(pending: Seq<u64>, id: u64) -> Seq<u64> {
    if pending.contains(id) {
        pending.remove(pending.index_of(id))
    } else {
        pending
    }
}

/// Removing an id that occurs once leaves the other ids as they were.
pub proof fn lemma_without(pending: Seq<u64>, id: u64, at: int)
    requires
        pending.no_duplicates(),
        0 <= at < pending.len(),
        pending[at] == id,
    ensures
        without(pending, id) == pending.remove(at),
        without(pending, id).no_duplicates(),
        without(pending, id).len() == pending.len() - 1,
        !without(pending, id).contains(id),
        forall|other: u64|
            other != id ==> without(pending, id).contains(other) == pending.contains(other),
{
    assert(pending.contains(id));
    let chosen = pending.index_of(id);
    assert(chosen == at);
    let rest = pending.remove(at);
    assert forall|i: int, j: int| 0 <= i < rest.len() && 0 <= j < rest.len() && i != j implies rest[i]
        != rest[j] by {
        let pi = if i < at { i } else { i + 1 };
        let pj = if j < at { j } else { j + 1 };
        assert(rest[i] == pending[pi]);
        assert(rest[j] == pending[pj]);
    }
    assert forall|i: int| 0 <= i < rest.len() implies rest[i] != id by {
        let pi = if i < at { i } else { i + 1 };
        assert(rest[i] == pending[pi]);
    }
    assert forall|other: u64| other != id implies rest.contains(other) == pending.contains(
        other,
    ) by {
        if rest.contains(other) {
            let i = choose|i: int| 0 <= i < rest.len() && rest[i] == other;
            let pi = if i < at { i } else { i + 1 };
            assert(pending[pi] == other);
        }
        if pending.contains(other) {
            let p = choose|p: int| 0 <= p < pending.len() && pending[p] == other;
            let i = if p < at { p } else { p - 1 };
            assert(rest[i] == other);
        }
    }
}

/// Removing an id brings no new id in.
pub proof fn lemma_without_subset(pending: Seq<u64>)
    requires
        pending.no_duplicates(),
    ensures
        forall|id: u64, other: u64| #[trigger]
            without(pending, id).contains(other) ==> pending.contains(other),
{
    assert forall|id: u64, other: u64| #[trigger]
        without(pending, id).contains(other) implies pending.contains(other) by {
        if pending.contains(id) {
            lemma_without(pending, id, pending.index_of(id));
        }
    }
}

/// The state of a transport: its phase, the outstanding request ids in the
/// order in which they were registered, and the frames that await writing,
/// oldest first.
pub ghost struct TransportView {
    pub phase: Phase,
    pub pending: Seq<u64>,
    pub outbox: Seq<OutboundView>,
}

impl TransportView {
    /// No id is outstanding twice; requests are outstanding only while the
    /// transport is open; a closed transport has nothing left to write; a
    /// close frame is queued only while closing.
    pub open spec fn well_formed(self) -> bool {
        &&& self.pending.no_duplicates()
        &&& self.phase != Phase::Open ==> self.pending.len() == 0
        &&& self.phase == Phase::Closed ==> self.outbox.len() == 0
        &&& forall|i: int|
            0 <= i < self.outbox.len() && self.outbox[i] == OutboundView::Close ==> self.phase
                == Phase::Closing
    }

    /// A transport whose handshake has not finished.
    pub open spec fn fresh() -> TransportView {
        TransportView { phase: Phase::Connecting, pending: Seq::empty(), outbox: Seq::empty() }
    }

    /// The state after the handshake ended with the given outcome.
    pub open spec fn connected(self, success: bool) -> TransportView {
        if self.phase != Phase::Connecting {
            self
        } else if success {
            TransportView { phase: Phase::Open, ..self }
        } else {
            self.close()
        }
    }

    /// The state after a request with the given id and text was handed in.
    pub open spec fn send(self, frame: Seq<char>, id: u64) -> TransportView {
        if self.phase != Phase::Open {
            self
        } else {
            TransportView {
                phase: self.phase,
                pending: if self.pending.contains(id) {
                    self.pending
                } else {
                    self.pending.push(id)
                },
                outbox: self.outbox.push(OutboundView::Text(frame)),
            }
        }
    }

    /// The state after the writer took its next frame.
    pub open spec fn next_outbound(self) -> TransportView {
        if self.outbox.len() == 0 {
            self
        } else if self.outbox[0] == OutboundView::Close {
            self.close()
        } else {
            TransportView { outbox: self.outbox.drop_first(), ..self }
        }
    }

    /// The state and the reader's action after a decoded frame.
    pub open spec fn settle(self, decoded: Result<FrameView, ProtocolDecodeError>) -> (
        TransportView,
        ReaderActionView,
    ) {
        match decoded {
            Err(e) => (self, ReaderActionView::Dropped(e)),
            Ok(FrameView::Event { payload }) => (self, ReaderActionView::Event { payload }),
            Ok(FrameView::Response { id, payload }) => if self.pending.contains(id) {
                (
                    TransportView { pending: without(self.pending, id), ..self },
                    ReaderActionView::Fulfill { id, response: ResponseView::Frame(payload) },
                )
            } else {
                (self, ReaderActionView::Unmatched { id })
            },
        }
    }

    /// The state after the reader began the shutdown.
    pub open spec fn shutdown(self) -> TransportView {
        TransportView {
            phase: Phase::Closing,
            pending: Seq::empty(),
            outbox: self.outbox.push(OutboundView::Close),
        }
    }

    /// The state and the reader's action after it read `incoming`. A text
    /// frame is decoded with `id` as the correlating member.
    pub open spec fn receive(self, incoming: IncomingView) -> (TransportView, ReaderActionView) {
        if self.phase == Phase::Closing || self.phase == Phase::Closed {
            (self, ReaderActionView::Ignored)
        } else {
            match incoming {
                IncomingView::Text(raw) => self.settle(frame_of(json_outline(raw, "id"@), raw)),
                IncomingView::Ping(data) => (
                    TransportView { outbox: self.outbox.push(OutboundView::Pong(data)), ..self },
                    ReaderActionView::Ponged,
                ),
                IncomingView::Close | IncomingView::Failed => (
                    self.shutdown(),
                    ReaderActionView::Shutdown { failed: self.pending },
                ),
                IncomingView::Other => (self, ReaderActionView::Ignored),
            }
        }
    }

    /// The state after the deadline of request `id` passed.
    pub open spec fn expire(self, id: u64) -> TransportView {
        TransportView { pending: without(self.pending, id), ..self }
    }

    /// The state after the transport was closed.
    pub open spec fn close(self) -> TransportView {
        TransportView { phase: Phase::Closed, pending: Seq::empty(), outbox: Seq::empty() }
    }
}

/// The views of the queued frames.
pub open spec fn outbox_view(queue: Seq<Outbound>) -> Seq<OutboundView> {
    Seq::new(queue.len(), |i: int| queue[i]@)
}

/// The bookkeeping of one connection to the browser.
#[derive(Debug)]
pub struct WebSocketTransport {
    phase: Phase,
    pending: Vec<u64>,
    outbox: Vec<Outbound>,
}

impl View for WebSocketTransport {
    type V = TransportView;

    closed spec fn view(&self) -> TransportView {
        TransportView {
            phase: self.phase,
            pending: self.pending@,
            outbox: outbox_view(self.outbox@),
        }
    }
}

impl WebSocketTransport {
    /// A transport whose socket handshake is under way.
    pub fn new() -> (r: WebSocketTransport)
        ensures
            r@ == TransportView::fresh(),
            r@.well_formed(),
    {
        let r = WebSocketTransport {
            phase: Phase::Connecting,
            pending: Vec::new(),
            outbox: Vec::new(),
        };
        assert(outbox_view(r.outbox@) =~= Seq::empty());
        r
    }

    /// The transport's phase.
    pub fn phase(&self) -> (r: Phase)
        ensures
            r == self@.phase,
    {
        self.phase
    }

    /// The number of outstanding requests.
    pub fn pending_count(&self) -> (r: usize)
        ensures
            r == self@.pending.len(),
    {
        self.pending.len()
    }

    /// Whether the request `id` is outstanding.
    pub fn is_pending(&self, id: u64) -> (r: bool)
        ensures
            r == self@.pending.contains(id),
    {
        self.position(id).is_some()
    }

    fn position(&self, id: u64) -> (r: Option<usize>)
        ensures
            match r {
                Some(at) => at < self.pending@.len() && self.pending@[at as int] == id,
                None => !self.pending@.contains(id),
            },
    {
        let mut i: usize = 0;
        while i < self.pending.len()
            invariant
                i <= self.pending.len(),
                forall|k: int| 0 <= k < i ==> self.pending@[k] != id,
            decreases self.pending.len() - i,
        {
            if self.pending[i] == id {
                return Some(i);
            }
            i += 1;
        }
        None
    }

    fn clear(&mut self)
        ensures
            final(self)@ == old(self)@.close(),
    {
        self.phase = Phase::Closed;
        self.pending = Vec::new();
        self.outbox = Vec::new();
        assert(outbox_view(self.outbox@) =~= Seq::empty());
    }

    /// Records the outcome of the socket handshake. Success opens a
    /// connecting transport; failure closes it. On a transport that is not
    /// connecting nothing changes and the call fails.
    pub fn connected(&mut self, success: bool) -> (r: Result<Response, TransportError>)
        requires
            old(self)@.well_formed(),
        ensures
            final(self)@.well_formed(),
            final(self)@ == old(self)@.connected(success),
            match r {
                Ok(response) => old(self)@.phase == Phase::Connecting && success && response@
                    == ResponseView::Meta(Event::Connected),
                Err(e) => !(old(self)@.phase == Phase::Connecting && success) && e
                    == TransportError::ConnectionError,
            },
    {
        match self.phase {
            Phase::Connecting => {
                if success {
                    self.phase = Phase::Open;
                    Ok(Response::Meta(Event::Connected))
                } else {
                    self.clear();
                    Err(TransportError::ConnectionError)
                }
            },
            _ => Err(TransportError::ConnectionError),
        }
    }

    /// Registers the request `id` as outstanding and queues its text for the
    /// writer, behind everything queued before. Fails, changing nothing,
    /// unless the transport is open.
    pub fn send(&mut self, frame: String, id: u64) -> (r: Result<(), TransportError>)
        requires
            old(self)@.well_formed(),
        ensures
            final(self)@.well_formed(),
            final(self)@ == old(self)@.send(frame@, id),
            match r {
                Ok(_) => old(self)@.phase == Phase::Open,
                Err(e) => old(self)@.phase != Phase::Open && e == TransportError::ConnectionClosed,
            },
    {
        match self.phase {
            Phase::Open => {
                if self.position(id).is_none() {
                    self.pending.push(id);
                }
                self.outbox.push(Outbound::Text(frame));
                proof {
                    assert(outbox_view(self.outbox@) =~= outbox_view(old(self).outbox@).push(
                        OutboundView::Text(frame@),
                    ));
                }
                Ok(())
            },
            _ => Err(TransportError::ConnectionClosed),
        }
    }

    /// Hands the writer the oldest queued frame, if there is one. With a
    /// close frame the writer's work ends: the transport is closed.
    pub fn next_outbound(&mut self) -> (r: Option<Outbound>)
        requires
            old(self)@.well_formed(),
        ensures
            final(self)@.well_formed(),
            final(self)@ == old(self)@.next_outbound(),
            match r {
                Some(message) => old(self)@.outbox.len() > 0 && message@ == old(self)@.outbox[0],
                None => old(self)@.outbox.len() == 0,
            },
    {
        if self.outbox.len() == 0 {
            return None;
        }
        let message = self.outbox.remove(0);
        match message {
            Outbound::Close => {
                self.clear();
            },
            _ => {
                proof {
                    assert(outbox_view(self.outbox@) =~= outbox_view(
                        old(self).outbox@,
                    ).drop_first());
                    assert forall|i: int|
                        0 <= i < self@.outbox.len() && self@.outbox[i]
                            == OutboundView::Close implies self@.phase == Phase::Closing by {
                        assert(self@.outbox[i] == old(self)@.outbox[i + 1]);
                    }
                }
            },
        }
        Some(message)
    }

    /// Acts on a decoded frame: a response completes its request if that is
    /// outstanding and is unmatched otherwise; an event is passed on; a
    /// frame that failed to decode is dropped.
    pub fn settle(&mut self, decoded: Result<Frame, ProtocolDecodeError>) -> (r: ReaderAction)
        requires
            old(self)@.well_formed(),
        ensures
            final(self)@.well_formed(),
            (final(self)@, r@) == old(self)@.settle(decoded_view(decoded)),
    {
        match decoded {
            Err(e) => ReaderAction::Dropped(e),
            Ok(Frame::Event { payload }) => ReaderAction::Event { payload: payload },
            Ok(Frame::Response { id, payload }) => {
                match self.position(id) {
                    Some(at) => {
                        proof {
                            lemma_without(self.pending@, id, at as int);
                        }
                        self.pending.remove(at);
                        ReaderAction::Fulfill { id: id, response: Response::Frame(payload) }
                    },
                    None => ReaderAction::Unmatched { id: id },
                }
            },
        }
    }

    fn shutdown(&mut self) -> (failed: Vec<u64>)
        requires
            old(self)@.well_formed(),
            old(self)@.phase == Phase::Connecting || old(self)@.phase == Phase::Open,
        ensures
            final(self)@.well_formed(),
            final(self)@ == old(self)@.shutdown(),
            failed@ == old(self)@.pending,
    {
        let mut failed: Vec<u64> = Vec::new();
        core::mem::swap(&mut failed, &mut self.pending);
        self.phase = Phase::Closing;
        self.outbox.push(Outbound::Close);
        proof {
            assert(outbox_view(self.outbox@) =~= outbox_view(old(self).outbox@).push(
                OutboundView::Close,
            ));
        }
        failed
    }

    /// Acts on what the reader read. A text frame is decoded and settled; a
    /// ping is answered with a queued pong; the peer's close frame or a read
    /// failure begins the shutdown, which fails every outstanding request
    /// and queues a close frame for the writer. Once the shutdown has begun,
    /// everything read is ignored.
    pub fn receive(&mut self, incoming: Incoming) -> (r: ReaderAction)
        requires
            old(self)@.well_formed(),
        ensures
            final(self)@.well_formed(),
            (final(self)@, r@) == old(self)@.receive(incoming@),
    {
        match self.phase {
            Phase::Closing => {
                return ReaderAction::Ignored;
            },
            Phase::Closed => {
                return ReaderAction::Ignored;
            },
            _ => {},
        }
        match incoming {
            Incoming::Text(raw) => {
                let decoded = decode(raw.as_str());
                self.settle(decoded)
            },
            Incoming::Ping(data) => {
                let ghost bytes = data@;
                self.outbox.push(Outbound::Pong(data));
                proof {
                    assert(outbox_view(self.outbox@) =~= outbox_view(old(self).outbox@).push(
                        OutboundView::Pong(bytes),
                    ));
                }
                ReaderAction::Ponged
            },
            Incoming::Close => {
                let failed = self.shutdown();
                ReaderAction::Shutdown { failed: failed }
            },
            Incoming::Failed => {
                let failed = self.shutdown();
                ReaderAction::Shutdown { failed: failed }
            },
            Incoming::Other => ReaderAction::Ignored,
        }
    }

    /// Gives up the request `id` because its deadline passed. Says whether
    /// it was outstanding; a response that still comes for it is unmatched.
    pub fn expire(&mut self, id: u64) -> (r: bool)
        requires
            old(self)@.well_formed(),
        ensures
            final(self)@.well_formed(),
            final(self)@ == old(self)@.expire(id),
            r == old(self)@.pending.contains(id),
    {
        match self.position(id) {
            Some(at) => {
                proof {
                    lemma_without(self.pending@, id, at as int);
                }
                self.pending.remove(at);
                true
            },
            None => false,
        }
    }

    /// Closes the transport at once: nothing stays queued, and the requests
    /// that were outstanding are returned, in the order of their
    /// registration, to be failed with `ConnectionClosed`.
    pub fn close(&mut self) -> (failed: Vec<u64>)
        requires
            old(self)@.well_formed(),
        ensures
            final(self)@.well_formed(),
            final(self)@ == old(self)@.close(),
            failed@ == old(self)@.pending,
    {
        let mut failed: Vec<u64> = Vec::new();
        core::mem::swap(&mut failed, &mut self.pending);
        self.clear();
        failed
    }
}

/// The state after the responses of `answers`, each an id with its text,
/// were settled one after the other, and the reader's action for each.
pub open spec fn settle_all(start: TransportView, answers: Seq<(u64, Seq<char>)>) -> (
    TransportView,
    Seq<ReaderActionView>,
)
    decreases answers.len(),
{
    if answers.len() == 0 {
        (start, Seq::empty())
    } else {
        let (next, action) = start.settle(
            Ok(FrameView::Response { id: answers[0].0, payload: answers[0].1 }),
        );
        let (last, actions) = settle_all(next, answers.drop_first());
        (last, seq![action] + actions)
    }
}

/// Responses to distinct outstanding requests, in whatever order they come,
/// each complete the request with their own id, and exactly those requests
/// leave the table: where every outstanding request is answered, the table
/// ends empty.
pub proof fn lemma_all_answered(start: TransportView, answers: Seq<(u64, Seq<char>)>)
    requires
        start.well_formed(),
        forall|i: int, j: int| 0 <= i < j < answers.len() ==> answers[i].0 != answers[j].0,
        forall|i: int| 0 <= i < answers.len() ==> start.pending.contains(answers[i].0),
    ensures
        settle_all(start, answers).1.len() == answers.len(),
        forall|k: int|
            0 <= k < answers.len() ==> #[trigger] settle_all(start, answers).1[k] == (
            ReaderActionView::Fulfill {
                id: answers[k].0,
                response: ResponseView::Frame(answers[k].1),
            }),
        settle_all(start, answers).0.well_formed(),
        settle_all(start, answers).0.phase == start.phase,
        settle_all(start, answers).0.outbox == start.outbox,
        settle_all(start, answers).0.pending.len() == start.pending.len() - answers.len(),
        forall|k: int|
            0 <= k < answers.len() ==> !settle_all(start, answers).0.pending.contains(
                #[trigger] answers[k].0,
            ),
        forall|id: u64|
            settle_all(start, answers).0.pending.contains(id) ==> start.pending.contains(id),
    decreases answers.len(),
{
    if answers.len() > 0 {
        let id = answers[0].0;
        let rest = answers.drop_first();
        let (next, action) = start.settle(Ok(FrameView::Response { id: id, payload: answers[0].1 }));
        lemma_without(start.pending, id, start.pending.index_of(id));
        assert forall|i: int| 0 <= i < rest.len() implies next.pending.contains(rest[i].0) by {
            assert(rest[i] == answers[i + 1]);
        }
        assert forall|i: int, j: int| 0 <= i < j < rest.len() implies rest[i].0 != rest[j].0 by {
            assert(rest[i] == answers[i + 1]);
            assert(rest[j] == answers[j + 1]);
        }
        lemma_all_answered(next, rest);
        let (last, actions) = settle_all(next, rest);
        let all = settle_all(start, answers);
        assert(all.1 == seq![action] + actions);
        assert forall|k: int| 0 <= k < answers.len() implies #[trigger] all.1[k] == (
        ReaderActionView::Fulfill {
            id: answers[k].0,
            response: ResponseView::Frame(answers[k].1),
        }) by {
            if k > 0 {
                assert(all.1[k] == actions[k - 1]);
                assert(rest[k - 1] == answers[k]);
            }
        }
        assert forall|k: int| 0 <= k < answers.len() implies !all.0.pending.contains(
            #[trigger] answers[k].0,
        ) by {
            if k > 0 {
                assert(rest[k - 1] == answers[k]);
            }
        }
    }
}

/// Once the deadline of a request has passed, the request is no longer
/// outstanding, and a response that comes for it afterwards is unmatched:
/// it changes nothing and completes nothing.
pub proof fn lemma_late_response_is_unmatched(start: TransportView, id: u64, payload: Seq<char>)
    requires
        start.well_formed(),
    ensures
        start.expire(id).well_formed(),
        start.expire(id).phase == start.phase,
        !start.expire(id).pending.contains(id),
        forall|other: u64|
            other != id ==> start.expire(id).pending.contains(other) == start.pending.contains(
                other,
            ),
        start.expire(id).settle(Ok(FrameView::Response { id: id, payload: payload })) == (
            start.expire(id),
            ReaderActionView::Unmatched { id: id },
        ),
{
    if start.pending.contains(id) {
        lemma_without(start.pending, id, start.pending.index_of(id));
    }
}

/// Nothing that is read as text ends the connection or touches the writer's
/// queue, whether it decodes or not and whether its id is outstanding or
/// not; at most the one request that it answers leaves the table.
pub proof fn lemma_text_keeps_connection(start: TransportView, raw: Seq<char>)
    requires
        start.well_formed(),
    ensures
        start.receive(IncomingView::Text(raw)).0.well_formed(),
        start.receive(IncomingView::Text(raw)).0.phase == start.phase,
        start.receive(IncomingView::Text(raw)).0.outbox == start.outbox,
        forall|id: u64|
            start.receive(IncomingView::Text(raw)).0.pending.contains(id)
                ==> start.pending.contains(id),
        start.receive(IncomingView::Text(raw)).0.pending.len() + 1 >= start.pending.len(),
{
    lemma_without_subset(start.pending);
    let decoded = frame_of(json_outline(raw, "id"@), raw);
    match decoded {
        Ok(FrameView::Response { id, payload }) => {
            if start.pending.contains(id) {
                lemma_without(start.pending, id, start.pending.index_of(id));
            }
        },
        _ => {},
    }
}

/// Closing leaves no request outstanding and nothing to write, and a closed
/// transport stays as it is whatever happens to it: it refuses every send,
/// ignores whatever is read, and has nothing for the writer.
pub proof fn lemma_closed_is_final(
    start: TransportView,
    frame: Seq<char>,
    id: u64,
    incoming: IncomingView,
    success: bool,
)
    ensures
        start.close().well_formed(),
        start.close().phase == Phase::Closed,
        start.close().pending.len() == 0,
        start.close().send(frame, id) == start.close(),
        start.close().receive(incoming) == (start.close(), ReaderActionView::Ignored),
        start.close().next_outbound() == start.close(),
        start.close().expire(id) == start.close(),
        start.close().connected(success) == start.close(),
        start.close().close() == start.close(),
{
    let closed = start.close();
    assert(!closed.pending.contains(id));
    assert(without(closed.pending, id) == closed.pending);
}

/// No step takes a transport back to an earlier phase.
pub proof fn lemma_phase_only_advances(
    start: TransportView,
    frame: Seq<char>,
    id: u64,
    incoming: IncomingView,
    success: bool,
)
    ensures
        start.connected(success).phase.rank() >= start.phase.rank(),
        start.send(frame, id).phase.rank() >= start.phase.rank(),
        start.receive(incoming).0.phase.rank() >= start.phase.rank(),
        start.next_outbound().phase.rank() >= start.phase.rank(),
        start.expire(id).phase.rank() >= start.phase.rank(),
        start.close().phase.rank() >= start.phase.rank(),
{
}

/// The frames that the writer is handed by `count` takes, oldest first.
pub open spec fn drained(start: TransportView, count: nat) -> Seq<OutboundView>
    decreases count,
{
    if count == 0 || start.outbox.len() == 0 {
        Seq::empty()
    } else {
        seq![start.outbox[0]] + drained(start.next_outbound(), (count - 1) as nat)
    }
}

/// The writer is handed the queued frames in the order in which they were
/// queued: while no shutdown has begun, taking as many frames as are queued
/// gives the queue itself.
pub proof fn lemma_written_in_order(start: TransportView)
    requires
        start.well_formed(),
        start.phase != Phase::Closing,
    ensures
        drained(start, start.outbox.len()) == start.outbox,
    decreases start.outbox.len(),
{
    if start.outbox.len() > 0 {
        let next = start.next_outbound();
        assert(start.outbox[0] != OutboundView::Close);
        assert(next.outbox == start.outbox.drop_first());
        assert forall|i: int|
            0 <= i < next.outbox.len() && next.outbox[i] == OutboundView::Close implies next.phase
            == Phase::Closing by {
            assert(next.outbox[i] == start.outbox[i + 1]);
        }
        lemma_written_in_order(next);
        assert(seq![start.outbox[0]] + start.outbox.drop_first() =~= start.outbox);
    } else {
        assert(drained(start, 0) =~= start.outbox);
    }
}

} // verus!
