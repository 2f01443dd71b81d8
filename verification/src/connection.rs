//! Whether a connection can still be trusted.
//!
//! A connection may serve another request only if every request that was sent
//! on it has been answered to the end and nothing has gone wrong since. A
//! receive that was given up half way leaves an answer on the wire that would
//! be taken for that of the next request, and a send that was given up half way
//! leaves part of a request there, so either spoils the connection for good.

use crate::error::{Error, ErrorView};
use crate::framing::{frame, write_message};
use crate::message::{BoltRequest, Response, Version, reset_request, response_kind};
use vstd::prelude::*;

verus! {

/// What a connection is doing.
#[derive(Debug, Clone, Copy, PartialEq, Eq, Structural)]
pub enum Status {
    /// Nothing is in progress.
    Ready,
    /// A request was taken and is not written yet.
    Sending,
    /// A receive was begun and has not ended.
    Receiving,
    /// Something went wrong; this is never left.
    Broken,
}

/// How a receive can fail without a message to show for it, or a write.
#[derive(Debug, Clone, Copy, PartialEq, Eq, Structural)]
pub enum ReceiveFailure {
    /// The peer did not answer in time.
    TimedOut,
    /// The stream failed or was closed.
    Lost,
}

/// A connection over a stream that the driver reads and writes, and of which
/// the bookkeeping knows nothing.
#[derive(Debug)]
pub struct Connection<S> {
    stream: S,
    version: Version,
    status: Status,
    pending: u64,
}

/// The state of a connection.
pub struct ConnectionState {
    pub status: Status,
    /// The requests whose answers have not ended.
    pub pending: nat,
}

impl ConnectionState {
    /// Nothing was sent yet.
    pub open spec fn fresh() -> ConnectionState {
        ConnectionState { status: Status::Ready, pending: 0 }
    }

    /// Nothing is in progress and every request has been answered.
    pub open spec fn reusable(self) -> bool {
        self.status == Status::Ready && self.pending == 0
    }

    /// The error with which a send, a reset or a receive is refused, if it is.
    pub open spec fn refuses_with(self) -> Option<ErrorView> {
        if self.status == Status::Ready {
            None
        } else {
            Some(ErrorView::ConnectionError)
        }
    }

    /// The state after something went wrong.
    pub open spec fn broken(self) -> ConnectionState {
        ConnectionState { status: Status::Broken, ..self }
    }

    /// The state after a request was handed to `send`.
    pub open spec fn sending(self) -> ConnectionState {
        if self.status == Status::Ready {
            ConnectionState { status: Status::Sending, pending: self.pending + 1 }
        } else {
            self
        }
    }

    /// The state after the request was written.
    pub open spec fn sent(self) -> ConnectionState {
        if self.status == Status::Sending {
            ConnectionState { status: Status::Ready, ..self }
        } else {
            self
        }
    }

    /// The state after a receive was begun.
    pub open spec fn receiving(self) -> ConnectionState {
        if self.status == Status::Ready {
            ConnectionState { status: Status::Receiving, ..self }
        } else {
            self
        }
    }

    /// Whether `body` answers an outstanding request.
    pub open spec fn answers(self, body: Seq<u8>) -> bool {
        self.status == Status::Ready && response_kind(body) is Some && self.pending > 0
    }

    /// The state after `body` was noted outside of a receive.
    pub open spec fn received(self, body: Seq<u8>) -> ConnectionState {
        if !self.answers(body) {
            self.broken()
        } else if response_kind(body)->0.ends_request() {
            ConnectionState { pending: (self.pending - 1) as nat, ..self }
        } else {
            self
        }
    }

    /// Whether `body` is what the receive in progress waits for.
    pub open spec fn awaits(self, body: Seq<u8>) -> bool {
        self.status == Status::Receiving && response_kind(body) is Some && self.pending > 0
    }

    /// The state after the receive in progress ended with `body`.
    pub open spec fn finished(self, body: Seq<u8>) -> ConnectionState {
        if self.status == Status::Receiving {
            ConnectionState { status: Status::Ready, ..self }.received(body)
        } else {
            self.broken()
        }
    }

    /// The state after the receive in progress ended with `body`, where only a
    /// SUCCESS will do.
    pub open spec fn settled(self, body: Seq<u8>) -> ConnectionState {
        if response_kind(body) == Some(Response::Success) {
            self.finished(body)
        } else {
            self.finished(body).broken()
        }
    }
}

/// The error for a body that does not fit, given whether the connection was in
/// a state to take one.
pub open spec fn refusal(in_place: bool, body: Seq<u8>) -> ErrorView {
    if !in_place {
        ErrorView::ConnectionError
    } else if response_kind(body) is None {
        ErrorView::UnknownMessage
    } else {
        ErrorView::UnexpectedMessage
    }
}

impl<S> Connection<S> {
    /// The state that it is in.
    pub closed spec fn state(&self) -> ConnectionState {
        ConnectionState { status: self.status, pending: self.pending as nat }
    }

    /// The version that the handshake settled on.
    pub closed spec fn spoken(&self) -> Version {
        self.version
    }

    /// The stream, as a value that nothing is known of.
    pub closed spec fn peer(&self) -> S {
        self.stream
    }

    /// Both are the same connection, perhaps in another state.
    pub open spec fn same_as(&self, other: &Self) -> bool {
        self.peer() == other.peer() && self.spoken() == other.spoken()
    }

    /// A connection over a stream on which the handshake has been done.
    pub fn create(stream: S, version: Version) -> (connection: Self)
        ensures
            connection.state() == ConnectionState::fresh(),
            connection.peer() == stream,
            connection.spoken() == version,
    {
        Connection { stream, version, status: Status::Ready, pending: 0 }
    }

    /// The version that the handshake settled on.
    pub fn version(&self) -> (version: Version)
        ensures
            version == self.spoken(),
    {
        self.version
    }

    /// The stream, to read from and write to.
    pub fn stream_mut(&mut self) -> (stream: &mut S)
        ensures
            *stream == old(self).peer(),
            final(self).peer() == *final(stream),
            final(self).state() == old(self).state(),
            final(self).spoken() == old(self).spoken(),
    {
        &mut self.stream
    }

    /// Whether the connection may serve another request.
    pub fn is_reusable(&self) -> (reusable: bool)
        ensures
            reusable == self.state().reusable(),
    {
        self.status == Status::Ready && self.pending == 0
    }

    /// The number of requests whose answers have not ended.
    pub fn pending_requests(&self) -> (pending: u64)
        ensures
            pending == self.state().pending,
    {
        self.pending
    }

    /// Notes a request and gives the bytes to write for it. Until they are
    /// written the connection is not usable. Refused, with nothing to write,
    /// unless the connection is ready.
    pub fn send(&mut self, request: &BoltRequest) -> (wire: Result<Vec<u8>, Error>)
        requires
            old(self).state().status == Status::Ready ==> old(self).state().pending < u64::MAX,
        ensures
            final(self).state() == old(self).state().sending(),
            final(self).same_as(old(self)),
            match wire {
                Ok(wire) => old(self).state().refuses_with() is None && wire@ == frame(request@),
                Err(e) => old(self).state().refuses_with() == Some(e@),
            },
    {
        if self.status != Status::Ready {
            return Err(Error::ConnectionError);
        }
        self.pending = self.pending + 1;
        self.status = Status::Sending;
        Ok(write_message(request.body()))
    }

    /// Notes that the bytes that `send` gave have been written.
    pub fn finish_send(&mut self)
        ensures
            final(self).state() == old(self).state().sent(),
            final(self).same_as(old(self)),
    {
        if self.status == Status::Sending {
            self.status = Status::Ready;
        }
    }

    /// Notes that a receive begins. Until it ends the connection is not
    /// usable, so one that is given up half way never is again. Refused unless
    /// the connection is ready.
    pub fn begin_receive(&mut self) -> (begun: Result<(), Error>)
        ensures
            final(self).state() == old(self).state().receiving(),
            final(self).same_as(old(self)),
            match begun {
                Ok(_) => old(self).state().refuses_with() is None,
                Err(e) => old(self).state().refuses_with() == Some(e@),
            },
    {
        if self.status != Status::Ready {
            return Err(Error::ConnectionError);
        }
        self.status = Status::Receiving;
        Ok(())
    }

    /// Notes the body of a message. A record leaves the request outstanding and
    /// a summary ends it. A message that is no response, or that no request is
    /// waiting for, breaks the connection; so does one that comes in the middle
    /// of a send or a receive, where only `finish_receive` can place it.
    pub fn complete_response(&mut self, body: &[u8]) -> (response: Result<Response, Error>)
        ensures
            final(self).state() == old(self).state().received(body@),
            final(self).same_as(old(self)),
            match response {
                Ok(response) => old(self).state().answers(body@) && response_kind(body@) == Some(
                    response,
                ),
                Err(e) => !old(self).state().answers(body@) && e@ == refusal(
                    old(self).state().status == Status::Ready,
                    body@,
                ),
            },
    {
        if self.status != Status::Ready {
            self.status = Status::Broken;
            return Err(Error::ConnectionError);
        }
        let response: Response = match Response::parse(body) {
            Ok(response) => response,
            Err(e) => {
                self.status = Status::Broken;
                return Err(e);
            },
        };
        if self.pending == 0 {
            self.status = Status::Broken;
            return Err(Error::UnexpectedMessage);
        }
        if response.is_summary() {
            self.pending = self.pending - 1;
        }
        Ok(response)
    }

    /// Ends the receive in progress with the body of the message that it
    /// brought, which is then noted as `complete_response` does.
    pub fn finish_receive(&mut self, body: &[u8]) -> (response: Result<Response, Error>)
        ensures
            final(self).state() == old(self).state().finished(body@),
            final(self).same_as(old(self)),
            match response {
                Ok(response) => old(self).state().awaits(body@) && response_kind(body@) == Some(
                    response,
                ),
                Err(e) => !old(self).state().awaits(body@) && e@ == refusal(
                    old(self).state().status == Status::Receiving,
                    body@,
                ),
            },
    {
        if self.status == Status::Receiving {
            self.status = Status::Ready;
            self.complete_response(body)
        } else {
            self.status = Status::Broken;
            Err(Error::ConnectionError)
        }
    }

    /// Notes that a receive ended without a message, or that a write failed, and
    /// gives the error to report. The connection is broken.
    pub fn receive_failed(&mut self, failure: ReceiveFailure) -> (error: Error)
        ensures
            final(self).state() == old(self).state().broken(),
            final(self).same_as(old(self)),
            failure == ReceiveFailure::TimedOut ==> error is ConnectionTimedOut,
            failure == ReceiveFailure::Lost ==> error is ConnectionError,
    {
        self.status = Status::Broken;
        match failure {
            ReceiveFailure::TimedOut => Error::ConnectionTimedOut,
            ReceiveFailure::Lost => Error::ConnectionError,
        }
    }

    /// Sends a RESET, as `send` does.
    pub fn reset(&mut self) -> (wire: Result<Vec<u8>, Error>)
        requires
            old(self).state().status == Status::Ready ==> old(self).state().pending < u64::MAX,
        ensures
            final(self).state() == old(self).state().sending(),
            final(self).same_as(old(self)),
            match wire {
                Ok(wire) => old(self).state().refuses_with() is None && wire@ == frame(
                    reset_request(),
                ),
                Err(e) => old(self).state().refuses_with() == Some(e@),
            },
    {
        let request = BoltRequest::reset();
        self.send(&request)
    }

    /// Ends the receive in progress with the body of the answer to a RESET.
    /// Anything but a SUCCESS breaks the connection.
    pub fn complete_reset(&mut self, body: &[u8]) -> (done: Result<(), Error>)
        ensures
            final(self).state() == old(self).state().settled(body@),
            final(self).same_as(old(self)),
            match done {
                Ok(_) => old(self).state().awaits(body@) && response_kind(body@) == Some(
                    Response::Success,
                ),
                Err(e) => !(old(self).state().awaits(body@) && response_kind(body@) == Some(
                    Response::Success,
                )) && e@ == refusal(old(self).state().status == Status::Receiving, body@),
            },
    {
        self.settle(body)
    }

    /// Ends the receive in progress with the body of the answer to a HELLO.
    /// Anything but a SUCCESS breaks the connection.
    pub fn complete_hello(&mut self, body: &[u8]) -> (done: Result<(), Error>)
        ensures
            final(self).state() == old(self).state().settled(body@),
            final(self).same_as(old(self)),
            match done {
                Ok(_) => old(self).state().awaits(body@) && response_kind(body@) == Some(
                    Response::Success,
                ),
                Err(e) => !(old(self).state().awaits(body@) && response_kind(body@) == Some(
                    Response::Success,
                )) && e@ == refusal(old(self).state().status == Status::Receiving, body@),
            },
    {
        self.settle(body)
    }

    /// Ends the receive in progress where only a SUCCESS will do.
    fn settle(&mut self, body: &[u8]) -> (done: Result<(), Error>)
        ensures
            final(self).state() == old(self).state().settled(body@),
            final(self).same_as(old(self)),
            match done {
                Ok(_) => old(self).state().awaits(body@) && response_kind(body@) == Some(
                    Response::Success,
                ),
                Err(e) => !(old(self).state().awaits(body@) && response_kind(body@) == Some(
                    Response::Success,
                )) && e@ == refusal(old(self).state().status == Status::Receiving, body@),
            },
    {
        match self.finish_receive(body) {
            Err(e) => {
                self.status = Status::Broken;
                Err(e)
            },
            Ok(response) => {
                if response == Response::Success {
                    Ok(())
                } else {
                    self.status = Status::Broken;
                    Err(Error::UnexpectedMessage)
                }
            },
        }
    }
}

/// Something that can happen to a connection.
pub enum ConnectionEvent {
    SendBegun,
    Sent,
    ReceiveBegun,
    /// A body was noted outside of a receive.
    Received(Seq<u8>),
    /// A receive ended with a body.
    ReceiveFinished(Seq<u8>),
    /// A receive ended with a body, where only a SUCCESS will do.
    Settled(Seq<u8>),
    ReceiveFailed,
}

/// The state after one event.
pub open spec fn after_event(state: ConnectionState, event: ConnectionEvent) -> ConnectionState {
    match event {
        ConnectionEvent::SendBegun => state.sending(),
        ConnectionEvent::Sent => state.sent(),
        ConnectionEvent::ReceiveBegun => state.receiving(),
        ConnectionEvent::Received(body) => state.received(body),
        ConnectionEvent::ReceiveFinished(body) => state.finished(body),
        ConnectionEvent::Settled(body) => state.settled(body),
        ConnectionEvent::ReceiveFailed => state.broken(),
    }
}

/// The state after a run of events.
pub open spec fn after_events(
    state: ConnectionState,
    events: Seq<ConnectionEvent>,
) -> ConnectionState
    decreases events.len(),
{
    if events.len() == 0 {
        state
    } else {
        after_event(after_events(state, events.drop_last()), events.last())
    }
}

/// Nothing that happens to a broken connection makes it usable again.
pub proof fn law_broken_is_for_good(state: ConnectionState, events: Seq<ConnectionEvent>)
    requires
        state.status == Status::Broken,
    ensures
        after_events(state, events).status == Status::Broken,
        !after_events(state, events).reusable(),
    decreases events.len(),
{
    if events.len() > 0 {
        law_broken_is_for_good(state, events.drop_last());
    }
}

/// Whether the event is the end of the exchange that is in progress.
pub open spec fn ends_exchange(state: ConnectionState, event: ConnectionEvent) -> bool {
    match state.status {
        Status::Sending => event is Sent,
        Status::Receiving => event is ReceiveFinished || event is Settled,
        _ => false,
    }
}

/// A send or a receive that is given up after it began spoils the connection
/// for good: whatever else is tried, it takes no request, begins no receive and
/// is not reusable. What is given up is an exchange whose own end never comes:
/// that the bytes of the send were written, or the message of the receive
/// arrived. Those are how every exchange ends that is not given up, and they do
/// make the connection ready again.
pub proof fn law_abandoned_exchange_is_for_good(
    state: ConnectionState,
    events: Seq<ConnectionEvent>,
)
    requires
        state.status == Status::Sending || state.status == Status::Receiving,
        forall|i: int| 0 <= i < events.len() ==> !ends_exchange(state, #[trigger] events[i]),
    ensures
        after_events(state, events).status != Status::Ready,
        !after_events(state, events).reusable(),
{
    lemma_abandoned(state, events);
}

/// An exchange that does not end stays in progress or breaks the connection.
proof fn lemma_abandoned(state: ConnectionState, events: Seq<ConnectionEvent>)
    requires
        state.status == Status::Sending || state.status == Status::Receiving,
        forall|i: int| 0 <= i < events.len() ==> !ends_exchange(state, #[trigger] events[i]),
    ensures
        after_events(state, events).status == state.status || after_events(state, events).status
            == Status::Broken,
    decreases events.len(),
{
    if events.len() > 0 {
        let before = events.drop_last();
        assert(forall|i: int| 0 <= i < before.len() ==> before[i] == events[i]);
        assert(!ends_exchange(state, events[events.len() - 1]));
        lemma_abandoned(state, before);
    }
}

/// A request keeps the connection from being reused through any number of
/// records, and the summary that ends it, of whatever kind, releases it.
pub proof fn law_only_a_summary_ends_a_request(records: Seq<ConnectionEvent>, summary: Seq<u8>)
    requires
        forall|i: int|
            0 <= i < records.len() ==> (#[trigger] records[i] matches ConnectionEvent::Received(
                body,
            ) && response_kind(body) == Some(Response::Record)),
        response_kind(summary) is Some,
        response_kind(summary)->0.ends_request(),
    ensures
        !after_events(ConnectionState::fresh().sending().sent(), records).reusable(),
        after_events(ConnectionState::fresh().sending().sent(), records).received(summary)
            == ConnectionState::fresh(),
{
    let sent = ConnectionState::fresh().sending().sent();
    assert(after_events(sent, records) == sent) by {
        lemma_records_change_nothing(sent, records);
    }
}

proof fn lemma_records_change_nothing(state: ConnectionState, records: Seq<ConnectionEvent>)
    requires
        state.status == Status::Ready,
        state.pending > 0,
        forall|i: int|
            0 <= i < records.len() ==> (#[trigger] records[i] matches ConnectionEvent::Received(
                body,
            ) && response_kind(body) == Some(Response::Record)),
    ensures
        after_events(state, records) == state,
    decreases records.len(),
{
    if records.len() > 0 {
        let before = records.drop_last();
        assert(forall|i: int| 0 <= i < before.len() ==> before[i] == records[i]);
        lemma_records_change_nothing(state, before);
        assert(records[records.len() - 1] is Received);
    }
}

/// The requests that a connection, fresh at first, takes among the events.
pub open spec fn requests_taken(events: Seq<ConnectionEvent>) -> nat
    decreases events.len(),
{
    if events.len() == 0 {
        0
    } else {
        let before = events.drop_last();
        requests_taken(before) + if events.last() is SendBegun && after_events(
            ConnectionState::fresh(),
            before,
        ).status == Status::Ready {
            1nat
        } else {
            0nat
        }
    }
}

/// Whether the body is a summary.
pub open spec fn is_summary_body(body: Seq<u8>) -> bool {
    response_kind(body) matches Some(response) && response.ends_request()
}

/// Whether the event is the arrival of a summary.
pub open spec fn brings_summary(event: ConnectionEvent) -> bool {
    match event {
        ConnectionEvent::Received(body) => is_summary_body(body),
        ConnectionEvent::ReceiveFinished(body) => is_summary_body(body),
        ConnectionEvent::Settled(body) => is_summary_body(body),
        _ => false,
    }
}

/// The summaries that arrive among the events.
pub open spec fn summaries(events: Seq<ConnectionEvent>) -> nat
    decreases events.len(),
{
    if events.len() == 0 {
        0
    } else {
        summaries(events.drop_last()) + if brings_summary(events.last()) {
            1nat
        } else {
            0nat
        }
    }
}

/// While nothing has gone wrong, every request taken is either outstanding or
/// ended by a summary of its own; a connection that is reusable has had exactly
/// as many summaries as requests.
pub proof fn law_reuse_needs_every_answer(events: Seq<ConnectionEvent>)
    requires
        after_events(ConnectionState::fresh(), events).status != Status::Broken,
    ensures
        requests_taken(events) == summaries(events) + after_events(
            ConnectionState::fresh(),
            events,
        ).pending,
        after_events(ConnectionState::fresh(), events).reusable() ==> requests_taken(events)
            == summaries(events),
    decreases events.len(),
{
    if events.len() > 0 {
        law_reuse_needs_every_answer(events.drop_last());
    }
}

/// Whether a connection is reusable says as much as what it refuses and what is
/// outstanding: it refuses nothing and nothing is outstanding. A new one is.
pub proof fn law_reusable_is_ready_with_nothing_outstanding(state: ConnectionState)
    ensures
        state.reusable() <==> state.refuses_with() is None && state.pending == 0,
        state.refuses_with() is None || state.refuses_with() == Some(ErrorView::ConnectionError),
        ConnectionState::fresh().refuses_with() is None,
        ConnectionState::fresh().pending == 0,
        state.broken().status == Status::Broken,
        state.status == Status::Broken ==> state.refuses_with() is Some,
        state.broken().pending == state.pending,
{
}

/// A request that is taken is one more to be answered; until it is written the
/// connection refuses everything, and then nothing. A request or a receive that
/// is refused changes nothing, nor does the end of a send that was not begun.
pub proof fn law_sent_request_is_outstanding(state: ConnectionState)
    ensures
        state.refuses_with() is None ==> {
            &&& state.sending().refuses_with() is Some
            &&& state.sending().pending == state.pending + 1
            &&& state.sending().sent().refuses_with() is None
            &&& state.sending().sent().pending == state.pending + 1
            &&& state.receiving().refuses_with() is Some
            &&& state.receiving().pending == state.pending
            &&& state.receiving().sent() == state.receiving()
            &&& state.sent() == state
        },
        state.refuses_with() is Some ==> state.sending() == state && state.receiving() == state,
        state.broken().sent() == state.broken(),
{
}

/// What a message does to a connection that is ready goes by the message's
/// bytes. A response that a request waits for leaves it ready: signed `0x71` it
/// ends no request, and signed `0x70`, `0x7f` or `0x7e` it ends one. Any other
/// message spoils it. It is the same whether the message is noted or received.
/// Where only a SUCCESS will do, only one signed `0x70` will.
pub proof fn law_message_counts_by_its_bytes(state: ConnectionState, body: Seq<u8>)
    requires
        state.refuses_with() is None,
    ensures
        ({
            let known = body.len() >= 2 && 0xb0 <= body[0] <= 0xbf && (body[1] == 0x70 || body[1]
                == 0x71 || body[1] == 0x7e || body[1] == 0x7f);
            let noted = state.received(body);
            let settled = state.receiving().settled(body);
            &&& state.receiving().finished(body) == noted
            &&& state.answers(body) <==> known && state.pending > 0
            &&& state.receiving().awaits(body) <==> known && state.pending > 0
            &&& known && state.pending > 0 ==> {
                &&& noted.refuses_with() is None
                &&& body[1] == 0x71 ==> noted.pending == state.pending
                &&& body[1] != 0x71 ==> noted.pending == state.pending - 1
            }
            &&& !(known && state.pending > 0) ==> noted.status == Status::Broken
            &&& known && state.pending > 0 && body[1] == 0x70 ==> settled == noted
            &&& !(known && state.pending > 0 && body[1] == 0x70) ==> settled.status == Status::Broken
        }),
{
}

/// A message out of place spoils the connection: one that is noted while the
/// connection is not ready, and one that ends a receive that was not begun.
pub proof fn law_message_out_of_place_spoils(state: ConnectionState, body: Seq<u8>)
    ensures
        state.refuses_with() is Some ==> state.received(body) == state.broken()
            && !state.answers(body),
        state.refuses_with() is None ==> state.finished(body) == state.broken() && state.settled(
            body,
        ) == state.broken() && !state.awaits(body),
        state.refuses_with() is None ==> state.sending().finished(body) == state.sending().broken()
            && state.sending().settled(body) == state.sending().broken()
            && !state.sending().awaits(body),
        state.broken().finished(body) == state.broken() && state.broken().settled(body)
            == state.broken() && !state.broken().awaits(body),
{
}

/// The error for a message that does not fit: the connection's, where it is not
/// in a state to take one; else it depends on whether the bytes are a response.
pub proof fn law_misfit_is_reported_by_its_bytes(in_place: bool, body: Seq<u8>)
    ensures
        ({
            let known = body.len() >= 2 && 0xb0 <= body[0] <= 0xbf && (body[1] == 0x70 || body[1]
                == 0x71 || body[1] == 0x7e || body[1] == 0x7f);
            &&& !in_place ==> refusal(in_place, body) == ErrorView::ConnectionError
            &&& in_place && !known ==> refusal(in_place, body) == ErrorView::UnknownMessage
            &&& in_place && known ==> refusal(in_place, body) == ErrorView::UnexpectedMessage
        }),
{
}

/// A body is a summary exactly if it is a structure signed `0x70`, `0x7f` or
/// `0x7e`.
pub proof fn law_summaries_are_told_by_their_bytes(body: Seq<u8>)
    ensures
        is_summary_body(body) <==> body.len() >= 2 && 0xb0 <= body[0] <= 0xbf && (body[1] == 0x70
            || body[1] == 0x7e || body[1] == 0x7f),
{
}

/// The same connection has the same stream and speaks the same version.
pub proof fn law_same_connection_has_the_same_stream<S>(a: Connection<S>, b: Connection<S>)
    ensures
        a.same_as(&b) <==> a.peer() == b.peer() && a.spoken() == b.spoken(),
{
}

} // verus!
