//! Request/reply server in the style of Erlang's `gen_server`.
//!
//! On the wire every client message starts with one kind byte: 0 for a call,
//! which the server answers with the handler's reply, and anything else for a
//! cast, which gets no answer. An empty message closes the connection. The
//! connection loop itself runs elsewhere; it reports events to
//! [`GenServer::step`] and performs the action it answers.
use vstd::prelude::*;

verus! {

/// Kind byte of a call.
pub const CALL_TAG: u8 = 0;

/// Kind byte of a cast.
pub const CAST_TAG: u8 = 1;

/// A message received by the server, decoded.
#[derive(Debug, PartialEq, Eq)]
pub enum Request {
    /// A call carrying this payload; the handler's reply is sent back.
    Call(Vec<u8>),
    /// A cast carrying this payload; nothing is sent back.
    Cast(Vec<u8>),
    /// An empty message: the peer is done.
    End,
}

/// Where one connection of the server stands.
#[derive(Debug, Clone, Copy, PartialEq, Eq, Structural)]
pub enum ServerState {
    /// Waiting for the next message.
    Receiving,
    /// The call handler is running.
    Calling,
    /// The cast handler is running.
    Casting,
    /// The reply is being sent.
    Replying,
    /// The connection is finished.
    Closed,
}

/// What happened on a connection.
#[derive(Debug)]
pub enum ServerEvent {
    /// A message arrived.
    Received(Vec<u8>),
    /// Receiving failed (the connection closed).
    ReceiveFailed,
    /// The call handler answered.
    Replied(Vec<u8>),
    /// The cast handler finished.
    CastHandled,
    /// A handler failed.
    HandlerFailed,
    /// The reply was sent.
    Sent,
    /// Sending the reply failed.
    SendFailed,
}

/// What the connection loop does next.
#[derive(Debug)]
pub enum ServerAction {
    /// Wait for the next message.
    Receive,
    /// Run the call handler on the payload.
    HandleCall(Vec<u8>),
    /// Run the cast handler on the payload.
    HandleCast(Vec<u8>),
    /// Send the reply.
    Send(Vec<u8>),
    /// Stop serving the connection.
    Close,
}

/// The decoding of one received message.
pub open spec fn request_spec(data: Seq<u8>) -> (Option<bool>, Seq<u8>) {
    if data.len() == 0 {
        (None, Seq::empty())
    } else {
        (Some(data[0] == CALL_TAG), data.drop_first())
    }
}

/// One step of a server connection: from `state`, on `event`, to the next
/// state and action `r`.
pub open spec fn server_step_spec(state: ServerState, event: ServerEvent, r: (ServerState, ServerAction)) -> bool {
    match (state, event) {
        (ServerState::Receiving, ServerEvent::Received(data)) => match request_spec(data@) {
            (None, _) => r.0 == ServerState::Closed && r.1 is Close,
            (Some(true), p) => r.0 == ServerState::Calling && (r.1 matches ServerAction::HandleCall(q) && q@ == p),
            (Some(false), p) => r.0 == ServerState::Casting && (r.1 matches ServerAction::HandleCast(q) && q@ == p),
        },
        (ServerState::Calling, ServerEvent::Replied(resp)) => r.0 == ServerState::Replying
            && (r.1 matches ServerAction::Send(q) && q@ == resp@),
        (ServerState::Casting, ServerEvent::CastHandled) => r.0 == ServerState::Receiving
            && r.1 is Receive,
        (ServerState::Replying, ServerEvent::Sent) => r.0 == ServerState::Receiving && r.1 is Receive,
        _ => r.0 == ServerState::Closed && r.1 is Close,
    }
}

pub struct GenServer;

impl GenServer {
    /// A call message: the call kind byte, then the request.
    pub fn frame_call(request: &[u8]) -> (framed: Vec<u8>)
        ensures
            framed@ == seq![CALL_TAG] + request@,
    {
        let mut framed: Vec<u8> = Vec::new();
        framed.push(CALL_TAG);
        let mut i: usize = 0;
        while i < request.len()
            invariant
                i <= request@.len(),
                framed@ == seq![CALL_TAG] + request@.take(i as int),
            decreases request@.len() - i,
        {
            framed.push(request[i]);
            proof {
                assert(request@.take(i + 1) =~= request@.take(i as int).push(request@[i as int]));
            }
            i = i + 1;
        }
        proof {
            assert(request@.take(request@.len() as int) =~= request@);
        }
        framed
    }

    /// A cast message: the cast kind byte, then the message.
    pub fn frame_cast(message: &[u8]) -> (framed: Vec<u8>)
        ensures
            framed@ == seq![CAST_TAG] + message@,
    {
        let mut framed: Vec<u8> = Vec::new();
        framed.push(CAST_TAG);
        let mut i: usize = 0;
        while i < message.len()
            invariant
                i <= message@.len(),
                framed@ == seq![CAST_TAG] + message@.take(i as int),
            decreases message@.len() - i,
        {
            framed.push(message[i]);
            proof {
                assert(message@.take(i + 1) =~= message@.take(i as int).push(message@[i as int]));
            }
            i = i + 1;
        }
        proof {
            assert(message@.take(message@.len() as int) =~= message@);
        }
        framed
    }

    /// Decodes a received message: empty ends the connection, a leading 0 is
    /// a call, any other leading byte a cast; the payload is the rest.
    pub fn decode_request(data: &[u8]) -> (r: Request)
        ensures
            match r {
                Request::End => request_spec(data@).0 is None,
                Request::Call(p) => request_spec(data@) == (Some(true), p@),
                Request::Cast(p) => request_spec(data@) == (Some(false), p@),
            },
    {
        if data.len() == 0 {
            return Request::End;
        }
        let mut payload: Vec<u8> = Vec::new();
        let mut i: usize = 1;
        while i < data.len()
            invariant
                1 <= i <= data@.len(),
                payload@ == data@.subrange(1, i as int),
            decreases data@.len() - i,
        {
            payload.push(data[i]);
            proof {
                assert(data@.subrange(1, i + 1) =~= data@.subrange(1, i as int).push(data@[i as int]));
            }
            i = i + 1;
        }
        proof {
            assert(data@.subrange(1, data@.len() as int) =~= data@.drop_first());
        }
        if data[0] == CALL_TAG {
            Request::Call(payload)
        } else {
            Request::Cast(payload)
        }
    }

    /// One step of a server connection. A message is decoded (an empty one
    /// closes); a call runs the call handler and sends its reply, a cast runs
    /// the cast handler; after either the connection waits for the next
    /// message. Any failure, or an event that does not fit the state, closes.
    pub fn step(state: ServerState, event: ServerEvent) -> (r: (ServerState, ServerAction))
        ensures
            server_step_spec(state, event, r),
    {
        match (state, event) {
            (ServerState::Receiving, ServerEvent::Received(data)) => {
                match Self::decode_request(data.as_slice()) {
                    Request::End => (ServerState::Closed, ServerAction::Close),
                    Request::Call(p) => (ServerState::Calling, ServerAction::HandleCall(p)),
                    Request::Cast(p) => (ServerState::Casting, ServerAction::HandleCast(p)),
                }
            },
            (ServerState::Calling, ServerEvent::Replied(resp)) => (
                ServerState::Replying,
                ServerAction::Send(resp),
            ),
            (ServerState::Casting, ServerEvent::CastHandled) => (
                ServerState::Receiving,
                ServerAction::Receive,
            ),
            (ServerState::Replying, ServerEvent::Sent) => (
                ServerState::Receiving,
                ServerAction::Receive,
            ),
            _ => (ServerState::Closed, ServerAction::Close),
        }
    }
}

/// gen_server law: decoding a framed call gives back the request as a call,
/// and decoding a framed cast gives back the message as a cast.
pub proof fn law_frame_then_decode(payload: Seq<u8>)
    ensures
        request_spec(seq![CALL_TAG] + payload) == (Some(true), payload),
        request_spec(seq![CAST_TAG] + payload) == (Some(false), payload),
{
    assert((seq![CALL_TAG] + payload).drop_first() =~= payload);
    assert((seq![CAST_TAG] + payload).drop_first() =~= payload);
}

} // verus!
