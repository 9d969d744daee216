//! The dispatcher: it owns the HTTP handler and the WebSocket session
//! manager for one bridge connection, and routes each decoded envelope to
//! the right one. An envelope without an origin or without a payload is a
//! protocol error, never a crash.
use vstd::prelude::*;

use crate::error::{Error, ProtocolError};
use crate::proto::{ClientPayload, ClientPayloadV, ClientToServerMessage, ClientToServerMessageV};

pub mod http;
pub mod util;
pub mod websocket;

verus! {

/// A command the bridge has accepted: its origin and what to do.
#[derive(Clone, Debug, PartialEq, Eq)]
pub struct Command {
    pub origin: String,
    pub payload: ClientPayload,
}

/// How an envelope routes: rejected for a missing origin, then for a
/// missing payload, otherwise dispatched on its payload variant.
pub open spec fn spec_route(m: ClientToServerMessageV) -> Result<(Seq<char>, ClientPayloadV), Error> {
    match m.origin {
        None => Err(Error::Protocol(ProtocolError::MissingOrigin)),
        Some(id) => match m.payload {
            None => Err(Error::Protocol(ProtocolError::MissingPayload)),
            Some(p) => Ok((id, p)),
        },
    }
}

/// The long-lived handlers of one bridge connection.
pub struct AppState {
    pub http: http::HttpState,
    pub ws: websocket::WebSocketState,
}

impl AppState {
    /// A dispatcher with no open WebSocket sessions.
    pub fn new() -> (s: AppState)
        ensures
            s.ws@ == Set::<Seq<char>>::empty(),
            s.ws.wf(),
    {
        AppState { http: http::HttpState::new(), ws: websocket::WebSocketState::new() }
    }

    /// Check an envelope and hand back the command to dispatch.
    pub fn route_command(&self, message: ClientToServerMessage) -> (r: Result<Command, Error>)
        ensures
            match spec_route(message@) {
                Ok((id, p)) => r is Ok && r->Ok_0.origin@ == id && r->Ok_0.payload@ == p,
                Err(e) => r is Err && r->Err_0 == e,
            },
    {
        match message.origin {
            None => Err(Error::Protocol(ProtocolError::MissingOrigin)),
            Some(o) => match message.payload {
                None => Err(Error::Protocol(ProtocolError::MissingPayload)),
                Some(p) => Ok(Command { origin: o.id, payload: p }),
            },
        }
    }
}

} // verus!
