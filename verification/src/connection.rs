//! A connection: a transport together with the counter that numbers its
//! requests and the pacing delay that its callers apply.

use crate::message::{wire_text, Message};
use crate::ws::{lemma_without_subset, Event, Incoming, Outbound, Phase, ReaderAction, Response};
use crate::ws::{ResponseView, TransportError, TransportView, WebSocketTransport};
use vstd::prelude::*;

verus! {

/// What a connection holds.
pub ghost struct ConnectionView {
    pub endpoint: Seq<char>,
    pub slow_mo: u32,
    /// The id given to the latest request; zero before the first.
    pub issued: u64,
    pub transport: TransportView,
}

impl ConnectionView {
    /// The transport is well formed and every outstanding id has been
    /// issued.
    pub open spec fn well_formed(self) -> bool {
        &&& self.transport.well_formed()
        &&& forall|id: u64| self.transport.pending.contains(id) ==> id <= self.issued
    }

    /// The state after a command with the given method name and parameters
    /// was sent, and the id it was given. An open connection gives it the
    /// next id; any other refuses it and stays as it is.
    pub open spec fn send(
        self,
        method: Seq<char>,
        params: Option<Seq<(Seq<char>, Seq<char>)>>,
    ) -> (ConnectionView, Result<u64, TransportError>) {
        if self.transport.phase != Phase::Open {
            (self, Err(TransportError::ConnectionClosed))
        } else {
            let id = (self.issued + 1) as u64;
            (
                ConnectionView {
                    issued: id,
                    transport: self.transport.send(wire_text(id, method, params), id),
                    ..self
                },
                Ok(id),
            )
        }
    }
}

/// One connection to one browser process.
#[derive(Debug)]
pub struct Connection {
    browser_ws_endpoint: String,
    transport: WebSocketTransport,
    slow_mo: u32,
    counter: u64,
}

impl View for Connection {
    type V = ConnectionView;

    closed spec fn view(&self) -> ConnectionView {
        ConnectionView {
            endpoint: self.browser_ws_endpoint@,
            slow_mo: self.slow_mo,
            issued: self.counter,
            transport: self.transport@,
        }
    }
}

impl Connection {
    /// A connection over a transport on which no request is outstanding,
    /// with its counter at zero: the first request gets the id 1.
    pub fn new(browser_ws_endpoint: String, transport: WebSocketTransport, slow_mo: u32) -> (r:
        Connection)
        requires
            transport@.well_formed(),
            transport@.pending.len() == 0,
        ensures
            r@.well_formed(),
            r@ == (ConnectionView {
                endpoint: browser_ws_endpoint@,
                slow_mo: slow_mo,
                issued: 0,
                transport: transport@,
            }),
    {
        Connection {
            browser_ws_endpoint: browser_ws_endpoint,
            transport: transport,
            slow_mo: slow_mo,
            counter: 0,
        }
    }

    /// The endpoint that the connection was made to.
    pub fn endpoint(&self) -> (r: &str)
        ensures
            r@ == self@.endpoint,
    {
        self.browser_ws_endpoint.as_str()
    }

    /// The delay, in milliseconds, that a caller waits before each send.
    pub fn slow_mo(&self) -> (r: u32)
        ensures
            r == self@.slow_mo,
    {
        self.slow_mo
    }

    /// The id given to the latest request; zero before the first.
    pub fn issued(&self) -> (r: u64)
        ensures
            r == self@.issued,
    {
        self.counter
    }

    /// The transport's phase.
    pub fn phase(&self) -> (r: Phase)
        ensures
            r == self@.transport.phase,
    {
        self.transport.phase()
    }

    /// Whether the request `id` is outstanding.
    pub fn is_pending(&self, id: u64) -> (r: bool)
        ensures
            r == self@.transport.pending.contains(id),
    {
        self.transport.is_pending(id)
    }

    /// Sends a command: gives it the next id, registers it as outstanding
    /// and queues its wire text for the writer. Returns the id, under which
    /// the response will come. Unless the connection is open the call fails
    /// with `ConnectionClosed` and uses up no id.
    pub fn send(&mut self, message: &Message) -> (r: Result<u64, TransportError>)
        requires
            old(self)@.well_formed(),
            old(self)@.issued < u64::MAX,
        ensures
            final(self)@.well_formed(),
            (final(self)@, r) == old(self)@.send(message.method().wire_name(), message.params()),
    {
        match self.transport.phase() {
            Phase::Open => {
                let id: u64 = self.counter + 1;
                let frame = message.serialize(id);
                let sent = self.transport.send(frame, id);
                self.counter = id;
                proof {
                    let before = old(self)@.transport.pending;
                    let after = self@.transport.pending;
                    assert(!before.contains(id));
                    assert(after == before.push(id));
                    assert forall|other: u64| after.contains(other) implies other <= id by {
                        let i = choose|i: int| 0 <= i < after.len() && after[i] == other;
                        if i < before.len() {
                            assert(before[i] == other);
                            assert(before.contains(other));
                        }
                    }
                }
                match sent {
                    Ok(_) => Ok(id),
                    Err(e) => Err(e),
                }
            },
            _ => Err(TransportError::ConnectionClosed),
        }
    }

    /// Records the outcome of the socket handshake.
    pub fn connected(&mut self, success: bool) -> (r: Result<Response, TransportError>)
        requires
            old(self)@.well_formed(),
        ensures
            final(self)@.well_formed(),
            final(self)@ == (ConnectionView {
                transport: old(self)@.transport.connected(success),
                ..old(self)@
            }),
            match r {
                Ok(response) => old(self)@.transport.phase == Phase::Connecting && success
                    && response@ == ResponseView::Meta(Event::Connected),
                Err(e) => !(old(self)@.transport.phase == Phase::Connecting && success) && e
                    == TransportError::ConnectionError,
            },
    {
        self.transport.connected(success)
    }

    /// Acts on what the reader read.
    pub fn receive(&mut self, incoming: Incoming) -> (r: ReaderAction)
        requires
            old(self)@.well_formed(),
        ensures
            final(self)@.well_formed(),
            final(self)@ == (ConnectionView {
                transport: old(self)@.transport.receive(incoming@).0,
                ..old(self)@
            }),
            r@ == old(self)@.transport.receive(incoming@).1,
    {
        proof {
            lemma_without_subset(self@.transport.pending);
        }
        self.transport.receive(incoming)
    }

    /// Hands the writer the oldest queued frame.
    pub fn next_outbound(&mut self) -> (r: Option<Outbound>)
        requires
            old(self)@.well_formed(),
        ensures
            final(self)@.well_formed(),
            final(self)@ == (ConnectionView {
                transport: old(self)@.transport.next_outbound(),
                ..old(self)@
            }),
            match r {
                Some(message) => old(self)@.transport.outbox.len() > 0 && message@
                    == old(self)@.transport.outbox[0],
                None => old(self)@.transport.outbox.len() == 0,
            },
    {
        self.transport.next_outbound()
    }

    /// Gives up the request `id` because its deadline passed: `Timeout` is
    /// owed to its caller if it was still outstanding, nothing otherwise.
    pub fn timeout(&mut self, id: u64) -> (r: Option<TransportError>)
        requires
            old(self)@.well_formed(),
        ensures
            final(self)@.well_formed(),
            final(self)@ == (ConnectionView {
                transport: old(self)@.transport.expire(id),
                ..old(self)@
            }),
            r == if old(self)@.transport.pending.contains(id) {
                Some(TransportError::Timeout)
            } else {
                None
            },
    {
        proof {
            lemma_without_subset(self@.transport.pending);
        }
        if self.transport.expire(id) {
            Some(TransportError::Timeout)
        } else {
            None
        }
    }

    /// The writer could not write: the connection is torn down as by
    /// `close`, and the requests that were outstanding are returned, each to
    /// be failed with `ConnectionClosed`. The writer then tries to send a
    /// close frame and ends.
    pub fn write_failed(&mut self) -> (failed: Vec<u64>)
        requires
            old(self)@.well_formed(),
        ensures
            final(self)@.well_formed(),
            final(self)@ == (ConnectionView {
                transport: old(self)@.transport.close(),
                ..old(self)@
            }),
            failed@ == old(self)@.transport.pending,
    {
        self.transport.close()
    }

    /// Closes the connection and returns the requests that were outstanding,
    /// each to be failed with `ConnectionClosed`.
    pub fn close(&mut self) -> (failed: Vec<u64>)
        requires
            old(self)@.well_formed(),
        ensures
            final(self)@.well_formed(),
            final(self)@ == (ConnectionView {
                transport: old(self)@.transport.close(),
                ..old(self)@
            }),
            failed@ == old(self)@.transport.pending,
    {
        self.transport.close()
    }
}

/// The ids given to the commands of `calls`, sent one after the other on a
/// connection in state `start`; a refused command gets none.
pub open spec fn assigned_ids(
    start: ConnectionView,
    calls: Seq<(Seq<char>, Option<Seq<(Seq<char>, Seq<char>)>>)>,
) -> Seq<u64>
    decreases calls.len(),
{
    if calls.len() == 0 {
        Seq::empty()
    } else {
        let (next, outcome) = start.send(calls[0].0, calls[0].1);
        let rest = assigned_ids(next, calls.drop_first());
        match outcome {
            Ok(id) => seq![id] + rest,
            Err(_) => rest,
        }
    }
}

/// Whatever commands are sent on a connection, one after the other, the ids
/// they are given are all above the ids given before, and each is above the
/// one before it: no id is given twice.
pub proof fn lemma_ids_strictly_increasing(
    start: ConnectionView,
    calls: Seq<(Seq<char>, Option<Seq<(Seq<char>, Seq<char>)>>)>,
)
    requires
        start.issued + calls.len() <= u64::MAX,
    ensures
        assigned_ids(start, calls).len() <= calls.len(),
        forall|i: int|
            0 <= i < assigned_ids(start, calls).len() ==> start.issued < #[trigger] assigned_ids(
                start,
                calls,
            )[i] <= start.issued + calls.len(),
        forall|i: int, j: int|
            0 <= i < j < assigned_ids(start, calls).len() ==> assigned_ids(start, calls)[i]
                < assigned_ids(start, calls)[j],
        assigned_ids(start, calls).no_duplicates(),
    decreases calls.len(),
{
    if calls.len() > 0 {
        let (next, outcome) = start.send(calls[0].0, calls[0].1);
        let tail = calls.drop_first();
        lemma_ids_strictly_increasing(next, tail);
        let rest = assigned_ids(next, tail);
        let all = assigned_ids(start, calls);
        match outcome {
            Ok(id) => {
                assert(all == seq![id] + rest);
                assert(id == start.issued + 1);
                assert forall|i: int| 0 <= i < all.len() implies start.issued < #[trigger] all[i]
                    <= start.issued + calls.len() by {
                    if i > 0 {
                        assert(all[i] == rest[i - 1]);
                    }
                }
                assert forall|i: int, j: int| 0 <= i < j < all.len() implies all[i] < all[j] by {
                    assert(all[j] == rest[j - 1]);
                    if i > 0 {
                        assert(all[i] == rest[i - 1]);
                    }
                }
            },
            Err(_) => {
                assert(all == rest);
                assert(next == start);
            },
        }
    }
}

/// Every send on a connection that is not open is refused with
/// `ConnectionClosed` and changes nothing; a closed connection is such a one
/// and has no request outstanding.
pub proof fn lemma_send_after_close(
    start: ConnectionView,
    method: Seq<char>,
    params: Option<Seq<(Seq<char>, Seq<char>)>>,
)
    ensures
        ({
            let closed = ConnectionView { transport: start.transport.close(), ..start };
            &&& closed.well_formed()
            &&& closed.transport.pending.len() == 0
            &&& closed.send(method, params) == (
                closed,
                Err::<u64, TransportError>(TransportError::ConnectionClosed),
            )
        }),
        start.transport.phase != Phase::Open ==> start.send(method, params) == (
            start,
            Err::<u64, TransportError>(TransportError::ConnectionClosed),
        ),
{
}

} // verus!
