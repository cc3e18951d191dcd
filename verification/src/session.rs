//! The decisions of the connection loop: what to do with each thing that
//! arrives from the socket or from the queue of outgoing requests.
use vstd::prelude::*;
use crate::context::Context;
use crate::json::json_array_items;
use crate::message::{
    ConnectedResponse, EventResponse, RemoteResponse, ResponseView, ServerResponse,
    bytes_in_bounds, bytes_outcome, framed, law_truncation_depends_on_elements_only,
};

verus! {

/// What the connection loop is woken by.
#[derive(Debug, Clone, PartialEq, Eq)]
pub enum SocketEvent {
    /// A binary frame from the server.
    Binary(Vec<u8>),
    /// A close frame from the server.
    Closed,
    /// A ping from the server.
    Ping,
    /// Any other kind of frame from the server (text, pong, raw frame).
    Unexpected,
    /// Reading from the socket failed.
    ReadFailed,
    /// The socket has no more frames.
    Ended,
    /// A queued request is ready to go out.
    Outgoing(String),
    /// The queue of outgoing requests is closed.
    OutgoingClosed,
}

/// What the connection loop does next.
#[derive(Debug, Clone, PartialEq, Eq)]
pub enum LoopStep {
    /// Decode the frame and act on it.
    Handle(Vec<u8>),
    /// Write the text to the socket.
    Transmit(String),
    /// Wait for the next event.
    Continue,
    /// Leave the loop.
    Stop,
    /// The server sent a frame the protocol does not use: give up.
    Abort,
}

/// The step taken for each event: binary frames are handled, closes and
/// pings are passed over, any other server frame aborts, read failures and
/// the end of either stream stop the loop, and queued requests go out.
pub fn next_step(event: SocketEvent) -> (step: LoopStep)
    ensures
        match event {
            SocketEvent::Binary(bytes) => step == LoopStep::Handle(bytes),
            SocketEvent::Closed => step == LoopStep::Continue,
            SocketEvent::Ping => step == LoopStep::Continue,
            SocketEvent::Unexpected => step == LoopStep::Abort,
            SocketEvent::ReadFailed => step == LoopStep::Stop,
            SocketEvent::Ended => step == LoopStep::Stop,
            SocketEvent::Outgoing(text) => step == LoopStep::Transmit(text),
            SocketEvent::OutgoingClosed => step == LoopStep::Stop,
        },
{
    match event {
        SocketEvent::Binary(bytes) => LoopStep::Handle(bytes),
        SocketEvent::Closed => LoopStep::Continue,
        SocketEvent::Ping => LoopStep::Continue,
        SocketEvent::Unexpected => LoopStep::Abort,
        SocketEvent::ReadFailed => LoopStep::Stop,
        SocketEvent::Ended => LoopStep::Stop,
        SocketEvent::Outgoing(text) => LoopStep::Transmit(text),
        SocketEvent::OutgoingClosed => LoopStep::Stop,
    }
}

/// What a binary frame from the server comes to.
#[derive(Debug, Clone, PartialEq, Eq)]
pub enum Dispatch {
    /// The session is open; the application's ready handler runs.
    Ready(ConnectedResponse),
    /// An event for the subscription filed under its hash.
    Deliver(EventResponse),
    /// A remote call; no handler exists for it.
    Remote(RemoteResponse),
    /// The frame could not be decoded; the text says why.
    Malformed(String),
    /// The frame is an array too short for the elements its kind needs.
    Truncated,
}

/// The decoding that a dispatch carries: `None` for a truncated frame.
pub open spec fn dispatch_view(d: Dispatch) -> Option<Result<ResponseView, Seq<char>>> {
    match d {
        Dispatch::Ready(c) => Some(Ok(ServerResponse::Connected(c)@)),
        Dispatch::Deliver(e) => Some(Ok(ServerResponse::Message(e)@)),
        Dispatch::Remote(r) => Some(Ok(ServerResponse::Remote(r)@)),
        Dispatch::Malformed(e) => Some(Err(e@)),
        Dispatch::Truncated => None,
    }
}

/// The decoding of a frame body, `None` where the frame is too short.
pub open spec fn frame_dispatch(bytes: Seq<u8>) -> Option<Result<ResponseView, Seq<char>>> {
    if bytes_in_bounds(bytes) {
        Some(bytes_outcome(bytes))
    } else {
        None
    }
}

impl<C> Context<C> {
    /// Decodes a binary frame and applies it: a connected response records
    /// the secure id; everything else leaves the client as it was.
    pub fn on_binary(&mut self, bytes: &[u8]) -> (d: Dispatch)
        ensures
            dispatch_view(d) == frame_dispatch(bytes@),
            final(self).pending() == old(self).pending(),
            final(self).next_request() == old(self).next_request(),
            final(self).subscriptions() == old(self).subscriptions(),
            match frame_dispatch(bytes@) {
                Some(Ok(ResponseView::Connected { client_id, server_id, secure_id })) =>
                    final(self).secure_id() == Some(client_id + seq!['-'] + secure_id),
                _ => final(self).secure_id() == old(self).secure_id(),
            },
    {
        match ServerResponse::try_from_bytes(bytes) {
            None => Dispatch::Truncated,
            Some(Err(e)) => Dispatch::Malformed(e),
            Some(Ok(ServerResponse::Connected(c))) => {
                self.on_connected(&c);
                Dispatch::Ready(c)
            },
            Some(Ok(ServerResponse::Message(e))) => Dispatch::Deliver(e),
            Some(Ok(ServerResponse::Remote(r))) => Dispatch::Remote(r),
        }
    }
}


/// A binary frame is flagged as truncated only when the body between
/// brackets parses to an array of fewer than four elements; in particular an
/// event frame of at least three elements, of any byte length, is never
/// flagged, and a body that does not parse is reported, not flagged.
pub proof fn law_only_short_arrays_are_truncated(bytes: Seq<u8>)
    ensures
        frame_dispatch(bytes) is None ==> (json_array_items(seq![91u8] + bytes + seq![93u8]) matches Ok(
            Some(items),
        ) && items.len() < 4),
        (json_array_items(seq![91u8] + bytes + seq![93u8]) matches Ok(Some(items)) && items.len()
            >= 3 && items[0].unsigned == Some(2u64)) ==> frame_dispatch(bytes) is Some,
        json_array_items(seq![91u8] + bytes + seq![93u8]) is Err ==> frame_dispatch(bytes) is Some,
{
    assert(framed(bytes) == seq![91u8] + bytes + seq![93u8]);
    law_truncation_depends_on_elements_only(bytes, bytes);
}

} // verus!
