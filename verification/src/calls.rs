//! What a connection's users can rely on over any run of calls.
//!
//! A call is made of the steps that `Connection` offers. A send is `send`, the
//! write and `finish_send`; a receive is `begin_receive`, the read and
//! `finish_receive`; a reset is a send and a receive that ends with
//! `complete_reset`. A call that is refused at its first step stops there. A
//! call that is dropped midway stops where it was.

use crate::connection::{ConnectionState, Status, is_summary_body};
use crate::error::ErrorView;
use crate::message::{Response, response_kind};
use vstd::prelude::*;

verus! {

/// A call, with what came of it.
pub enum Call {
    /// A request was written.
    Send,
    /// The write of a request failed.
    SendFailed,
    /// A send was dropped midway.
    SendDropped,
    /// A receive brought a message.
    Receive(Seq<u8>),
    /// A receive failed or timed out.
    ReceiveFailed,
    /// A receive was dropped midway.
    ReceiveDropped,
    /// A reset was answered.
    Reset(Seq<u8>),
    /// The RESET could not be written, or its answer failed or timed out.
    ResetFailed,
    /// A reset was dropped while the RESET was written.
    ResetDroppedInSend,
    /// A reset was dropped while its answer was awaited.
    ResetDroppedInReceive,
    /// A message was noted with `complete_response`.
    Complete(Seq<u8>),
}

/// The state after a call.
pub open spec fn after_call(state: ConnectionState, call: Call) -> ConnectionState {
    if call is Complete {
        state.received(call->Complete_0)
    } else if state.refuses_with() is Some {
        // The first step is refused, and changes nothing.
        state
    } else {
        match call {
            Call::Send => state.sending().sent(),
            Call::SendFailed => state.sending().broken(),
            Call::SendDropped => state.sending(),
            Call::Receive(body) => state.receiving().finished(body),
            Call::ReceiveFailed => state.receiving().broken(),
            Call::ReceiveDropped => state.receiving(),
            Call::Reset(body) => state.sending().sent().receiving().settled(body),
            Call::ResetFailed => state.sending().broken(),
            Call::ResetDroppedInSend => state.sending(),
            Call::ResetDroppedInReceive => state.sending().sent().receiving(),
            Call::Complete(body) => state.received(body),
        }
    }
}

/// The state of a new connection after a run of calls.
pub open spec fn after_calls(calls: Seq<Call>) -> ConnectionState
    decreases calls.len(),
{
    if calls.len() == 0 {
        ConnectionState::fresh()
    } else {
        after_call(after_calls(calls.drop_last()), calls.last())
    }
}

/// The requests that the calls send, where none of them is refused.
pub open spec fn requests(calls: Seq<Call>) -> nat
    decreases calls.len(),
{
    if calls.len() == 0 {
        0
    } else {
        requests(calls.drop_last()) + if calls.last() is Send || calls.last() is Reset {
            1nat
        } else {
            0nat
        }
    }
}

/// The message that a call brings, if it brings one.
pub open spec fn message_of(call: Call) -> Option<Seq<u8>> {
    match call {
        Call::Receive(body) => Some(body),
        Call::Reset(body) => Some(body),
        Call::Complete(body) => Some(body),
        _ => None,
    }
}

/// The summaries that the calls bring.
pub open spec fn summaries(calls: Seq<Call>) -> nat
    decreases calls.len(),
{
    if calls.len() == 0 {
        0
    } else {
        summaries(calls.drop_last()) + match message_of(calls.last()) {
            Some(body) => if is_summary_body(body) {
                1nat
            } else {
                0nat
            },
            None => 0nat,
        }
    }
}

/// Whether a call goes wrong that is made after the others: it fails or is
/// dropped; or it brings a message that is no response, or that no request
/// waits for; or it is a reset that is not answered with a SUCCESS.
pub open spec fn goes_wrong(before: Seq<Call>, call: Call) -> bool {
    match call {
        Call::Send => false,
        Call::Receive(body) => response_kind(body) is None || requests(before) == summaries(before),
        Call::Complete(body) => response_kind(body) is None || requests(before) == summaries(
            before,
        ),
        Call::Reset(body) => response_kind(body) != Some(Response::Success),
        _ => true,
    }
}

/// Whether any of the calls went wrong.
pub open spec fn went_wrong(calls: Seq<Call>) -> bool
    decreases calls.len(),
{
    calls.len() > 0 && (went_wrong(calls.drop_last()) || goes_wrong(
        calls.drop_last(),
        calls.last(),
    ))
}

/// The state tells whether a call has gone wrong, and if none has, how many
/// requests are without a summary.
proof fn lemma_after_calls(calls: Seq<Call>)
    ensures
        went_wrong(calls) <==> after_calls(calls).status != Status::Ready,
        !went_wrong(calls) ==> requests(calls) == summaries(calls) + after_calls(calls).pending,
    decreases calls.len(),
{
    if calls.len() > 0 {
        lemma_after_calls(calls.drop_last());
    }
}

/// At all times a connection is reusable exactly if every request that was sent
/// on it has had its summary, and no call has gone wrong: none has failed,
/// timed out or been dropped midway, and no message has come that does not
/// belong there.
pub proof fn law_reusable_iff_all_is_answered_and_well(calls: Seq<Call>)
    ensures
        after_calls(calls).reusable() <==> requests(calls) == summaries(calls) && !went_wrong(calls),
{
    lemma_after_calls(calls);
}

/// Once a call has gone wrong the connection is not reusable, whatever calls
/// follow, and every later send, reset and receive is refused with
/// `ConnectionError`.
pub proof fn law_what_went_wrong_stays_wrong(calls: Seq<Call>, more: Seq<Call>)
    requires
        went_wrong(calls),
    ensures
        went_wrong(calls + more),
        !after_calls(calls + more).reusable(),
        after_calls(calls + more).refuses_with() == Some(ErrorView::ConnectionError),
    decreases more.len(),
{
    if more.len() == 0 {
        assert(calls + more == calls);
    } else {
        assert((calls + more).drop_last() == calls + more.drop_last());
        law_what_went_wrong_stays_wrong(calls, more.drop_last());
    }
    lemma_after_calls(calls + more);
}

/// While nothing has gone wrong a connection refuses no send, reset or receive,
/// and the requests that it counts are those without a summary.
pub proof fn law_nothing_is_refused_until_something_goes_wrong(calls: Seq<Call>)
    requires
        !went_wrong(calls),
    ensures
        after_calls(calls).refuses_with() is None,
        after_calls(calls).pending == requests(calls) - summaries(calls),
{
    lemma_after_calls(calls);
}

} // verus!
