//! Stateful protocol handler in the style of Erlang's `gen_statem`: every
//! message received is an event for the handler, whose answer is sent back.
//! The connection loop runs elsewhere; it reports events to
//! [`GenStatem::step`] and performs the action it answers.
use vstd::prelude::*;

verus! {

/// Where one connection of the state machine server stands.
#[derive(Debug, Clone, Copy, PartialEq, Eq, Structural)]
pub enum StatemState {
    /// Waiting for the next event.
    Receiving,
    /// The handler is running.
    Handling,
    /// The answer is being sent.
    Replying,
    /// The connection is finished.
    Closed,
}

/// What happened on a connection.
#[derive(Debug)]
pub enum StatemEvent {
    /// An event message arrived.
    Received(Vec<u8>),
    /// Receiving failed (the connection closed).
    ReceiveFailed,
    /// The handler answered.
    Answered(Vec<u8>),
    /// The handler failed.
    HandlerFailed,
    /// The answer was sent.
    Sent,
    /// Sending the answer failed.
    SendFailed,
}

/// What the connection loop does next.
#[derive(Debug)]
pub enum StatemAction {
    /// Wait for the next event.
    Receive,
    /// Run the handler on the event.
    Handle(Vec<u8>),
    /// Send the handler's answer.
    Send(Vec<u8>),
    /// Stop serving the connection.
    Close,
}

/// One step of a connection: from `state`, on `event`, to the next state and action `r`.
pub open spec fn statem_step_spec(state: StatemState, event: StatemEvent, r: (StatemState, StatemAction)) -> bool {
    match (state, event) {
        (StatemState::Receiving, StatemEvent::Received(e)) => r.0 == StatemState::Handling
            && (r.1 matches StatemAction::Handle(q) && q@ == e@),
        (StatemState::Handling, StatemEvent::Answered(a)) => r.0 == StatemState::Replying
            && (r.1 matches StatemAction::Send(q) && q@ == a@),
        (StatemState::Replying, StatemEvent::Sent) => r.0 == StatemState::Receiving && r.1 is Receive,
        _ => r.0 == StatemState::Closed && r.1 is Close,
    }
}

pub struct GenStatem;

impl GenStatem {
    /// One step of a connection: each event received goes to the handler,
    /// its answer is sent back, then the next event is awaited. Any failure,
    /// or an event that does not fit the state, closes.
    pub fn step(state: StatemState, event: StatemEvent) -> (r: (StatemState, StatemAction))
        ensures
            statem_step_spec(state, event, r),
    {
        match (state, event) {
            (StatemState::Receiving, StatemEvent::Received(e)) => (
                StatemState::Handling,
                StatemAction::Handle(e),
            ),
            (StatemState::Handling, StatemEvent::Answered(a)) => (
                StatemState::Replying,
                StatemAction::Send(a),
            ),
            (StatemState::Replying, StatemEvent::Sent) => (
                StatemState::Receiving,
                StatemAction::Receive,
            ),
            _ => (StatemState::Closed, StatemAction::Close),
        }
    }
}

} // verus!
