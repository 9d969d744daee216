//! The WebSocket session manager's decision logic: a table of open session
//! identifiers, the translation of client payloads into upstream messages,
//! and the translation of upstream messages back into replies. Opening,
//! sending and closing are decided here; the handshakes and the actual
//! sends happen outside against these decisions.
use vstd::prelude::*;
use vstd::utf8::{decode_utf8, decode_utf8_encode_utf8, encode_utf8, valid_utf8};

use crate::codec::utf8_to_string;
use crate::error::{Error, ProtocolError};
use crate::proto::{
    headers_view, HttpHeader, HttpHeaderV, RequestOrigin, ServerPayload, ServerPayloadV, ServerToClientMessage, ServerToClientMessageV,
    WebSocketError, WebSocketErrorV, WebSocketMessageType, WebSocketOpenedResponse,
    WebSocketOpenedResponseV, WebSocketProxyMessage, WebSocketProxyMessageV,
};

verus! {

/// A message in the form the upstream WebSocket speaks: text, bytes, or a
/// control frame the bridge ignores.
#[derive(Clone, Debug, PartialEq, Eq)]
pub enum WsUpstreamMessage {
    Text(String),
    Binary(Vec<u8>),
    Other,
}

pub ghost enum WsUpstreamMessageV {
    Text(Seq<char>),
    Binary(Seq<u8>),
    Other,
}

impl View for WsUpstreamMessage {
    type V = WsUpstreamMessageV;

    open spec fn view(&self) -> WsUpstreamMessageV {
        match self {
            WsUpstreamMessage::Text(t) => WsUpstreamMessageV::Text(t@),
            WsUpstreamMessage::Binary(b) => WsUpstreamMessageV::Binary(b@),
            WsUpstreamMessage::Other => WsUpstreamMessageV::Other,
        }
    }
}

/// The table of open upstream sessions, keyed by the client-chosen
/// identifier. At most one session exists per identifier; reusing an
/// identifier after close simply makes a new entry. Only an explicit close
/// removes an entry: a forwarding task that stops on its own (upstream
/// error or end of stream) leaves the entry in place until the client
/// closes it.
pub struct WebSocketState {
    sessions: Vec<String>,
}

impl View for WebSocketState {
    type V = Set<Seq<char>>;

    closed spec fn view(&self) -> Set<Seq<char>> {
        Set::new(
            |id: Seq<char>|
                exists|i: int| 0 <= i < self.sessions@.len() && (#[trigger] self.sessions@[i])@
                    == id,
        )
    }
}

/// No two strings of the list spell the same identifier.
pub open spec fn distinct_views(v: Seq<String>) -> bool {
    forall|i: int, j: int|
        0 <= i < j < v.len() ==> (#[trigger] v[i])@ != (#[trigger] v[j])@
}

/// Distinctness, instantiated at one pair of positions.
proof fn lemma_distinct_at(v: Seq<String>, i: int, j: int)
    requires
        distinct_views(v),
        0 <= i < v.len(),
        0 <= j < v.len(),
        i != j,
    ensures
        v[i]@ != v[j]@,
{
    if i < j {
        assert(v[i]@ != v[j]@);
    } else {
        assert(v[j]@ != v[i]@);
    }
}

impl WebSocketState {
    /// No two entries name the same identifier.
    pub closed spec fn wf(&self) -> bool {
        distinct_views(self.sessions@)
    }

    /// An empty session table.
    pub fn new() -> (s: WebSocketState)
        ensures
            s@ == Set::<Seq<char>>::empty(),
            s.wf(),
    {
        let s = WebSocketState { sessions: Vec::new() };
        proof {
            assert(s@ =~= Set::<Seq<char>>::empty());
        }
        s
    }

    /// Whether a session is open under this identifier.
    pub fn contains(&self, id: &String) -> (r: bool)
        ensures
            r == self@.contains(id@),
    {
        let mut i: usize = 0;
        while i < self.sessions.len()
            invariant
                i <= self.sessions@.len(),
                forall|j: int| 0 <= j < i ==> (#[trigger] self.sessions@[j])@ != id@,
            decreases self.sessions@.len() - i,
        {
            if self.sessions[i].eq(id) {
                return true;
            }
            i = i + 1;
        }
        false
    }

    /// Record a session that finished its upstream handshake, and build
    /// the reply confirming it. An existing entry under the same
    /// identifier is superseded.
    pub fn open(&mut self, id: &String) -> (reply: ServerToClientMessage)
        requires
            old(self).wf(),
        ensures
            final(self).wf(),
            final(self)@ == old(self)@.insert(id@),
            reply@ == spec_ws_opened_reply(id@),
    {
        if !self.contains(id) {
            self.sessions.push(id.clone());
            proof {
                assert forall|x: Seq<char>| self@.contains(x) implies old(self)@.insert(
                    id@,
                ).contains(x) by {
                    let i = choose|i: int|
                        0 <= i < self.sessions@.len() && (#[trigger] self.sessions@[i])@ == x;
                    if i < self.sessions@.len() - 1 {
                        assert(old(self).sessions@[i]@ == x);
                    }
                }
                assert forall|x: Seq<char>| old(self)@.insert(id@).contains(x) implies self@.contains(
                    x,
                ) by {
                    if x == id@ {
                        assert(self.sessions@[self.sessions@.len() - 1]@ == x);
                    } else {
                        let i = choose|i: int|
                            0 <= i < old(self).sessions@.len() && (#[trigger] old(
                                self,
                            ).sessions@[i])@ == x;
                        assert(self.sessions@[i]@ == x);
                    }
                }
                assert(self@ =~= old(self)@.insert(id@));
            }
        } else {
            proof {
                assert(old(self)@.insert(id@) =~= old(self)@);
            }
        }
        let no_headers: Vec<HttpHeader> = Vec::new();
        proof {
            assert(headers_view(no_headers@) =~= Seq::<HttpHeaderV>::empty());
        }
        ServerToClientMessage {
            origin: Some(RequestOrigin { id: id.clone() }),
            payload: Some(ServerPayload::WsOpened(WebSocketOpenedResponse { headers: no_headers })),
        }
    }

    /// Decide what a client payload sends into the session named `id`:
    /// refused when no such session is open, or when a text payload is not
    /// valid UTF-8; otherwise the upstream message to send.
    pub fn send_message(&self, id: &String, message: WebSocketProxyMessage) -> (r: Result<
        WsUpstreamMessage,
        Error,
    >)
        ensures
            match spec_send_decision(self@, id@, message@) {
                Ok(u) => r is Ok && r->Ok_0@ == u,
                Err(e) => r is Err && r->Err_0 == e,
            },
    {
        if !self.contains(id) {
            return Err(Error::Protocol(ProtocolError::SessionNotFound));
        }
        match message.message_type {
            WebSocketMessageType::Text => match utf8_to_string(message.data) {
                Some(s) => Ok(WsUpstreamMessage::Text(s)),
                None => Err(Error::Protocol(ProtocolError::TextNotUtf8)),
            },
            WebSocketMessageType::Binary => Ok(WsUpstreamMessage::Binary(message.data)),
        }
    }

    /// Remove the session named `id`, reporting whether one was open; with
    /// no such session the close is a silent no-op.
    pub fn close(&mut self, id: &String) -> (was_open: bool)
        requires
            old(self).wf(),
        ensures
            final(self).wf(),
            final(self)@ == old(self)@.remove(id@),
            was_open == old(self)@.contains(id@),
    {
        let mut i: usize = 0;
        while i < self.sessions.len()
            invariant
                i <= self.sessions@.len(),
                self == old(self),
                old(self).wf(),
                forall|j: int| 0 <= j < i ==> (#[trigger] self.sessions@[j])@ != id@,
            decreases self.sessions@.len() - i,
        {
            if self.sessions[i].eq(id) {
                proof {
                    assert(old(self).sessions@[i as int]@ == id@);
                }
                self.sessions.remove(i);
                proof {
                    let pre = old(self).sessions@;
                    assert(pre[i as int]@ == id@);
                    assert(self.sessions@ =~= pre.subrange(0, i as int) + pre.subrange(
                        i + 1,
                        pre.len() as int,
                    ));
                    assert forall|x: Seq<char>| self@.contains(x) implies old(self)@.remove(
                        id@,
                    ).contains(x) by {
                        let j = choose|j: int|
                            0 <= j < self.sessions@.len() && (#[trigger] self.sessions@[j])@ == x;
                        if j < i {
                            assert(pre[j]@ == x);
                            assert(x != id@);
                        } else {
                            assert(self.sessions@[j] == pre[j + 1]);
                            assert(pre[j + 1]@ == x);
                            lemma_distinct_at(pre, i as int, j + 1);
                            assert(x != id@);
                        }
                    }
                    assert forall|x: Seq<char>| old(self)@.remove(id@).contains(x) implies self@.contains(
                        x,
                    ) by {
                        let j = choose|j: int|
                            0 <= j < pre.len() && (#[trigger] pre[j])@ == x;
                        if j < i {
                            assert(self.sessions@[j]@ == x);
                        } else {
                            assert(j != i);
                            assert(self.sessions@[j - 1]@ == x);
                        }
                    }
                    assert(self@ =~= old(self)@.remove(id@));
                    assert(old(self)@.contains(id@));
                    assert forall|a: int, b: int|
                        0 <= a < b < self.sessions@.len() implies (
                    #[trigger] self.sessions@[a])@ != (#[trigger] self.sessions@[b])@ by {
                        let a2: int = if a < i { a } else { a + 1 };
                        let b2: int = if b < i { b } else { b + 1 };
                        assert(self.sessions@[a] == pre[a2]);
                        assert(self.sessions@[b] == pre[b2]);
                        lemma_distinct_at(pre, a2, b2);
                    }
                }
                return true;
            }
            i = i + 1;
        }
        proof {
            assert(!old(self)@.contains(id@));
            assert(old(self)@.remove(id@) =~= old(self)@);
        }
        false
    }
}

/// The reply confirming an opened session.
pub open spec fn spec_ws_opened_reply(id: Seq<char>) -> ServerToClientMessageV {
    ServerToClientMessageV {
        origin: Some(id),
        payload: Some(
            ServerPayloadV::WsOpened(WebSocketOpenedResponseV { headers: Seq::empty() }),
        ),
    }
}

/// The reply reporting a failed open, send or receive on a session.
pub open spec fn spec_ws_error_reply(id: Seq<char>, msg: Seq<char>) -> ServerToClientMessageV {
    ServerToClientMessageV {
        origin: Some(id),
        payload: Some(ServerPayloadV::WsError(WebSocketErrorV { error_message: msg })),
    }
}

/// Build the error reply for a failed open, send or receive.
pub fn ws_error_reply(id: &String, error_message: String) -> (m: ServerToClientMessage)
    ensures
        m@ == spec_ws_error_reply(id@, error_message@),
{
    ServerToClientMessage {
        origin: Some(RequestOrigin { id: id.clone() }),
        payload: Some(ServerPayload::WsError(WebSocketError { error_message })),
    }
}

/// What a send decides: with no open session a "not found" error; with a
/// text payload that is not UTF-8 a protocol error; otherwise the message
/// that goes upstream.
pub open spec fn spec_send_decision(
    table: Set<Seq<char>>,
    id: Seq<char>,
    m: WebSocketProxyMessageV,
) -> Result<WsUpstreamMessageV, Error> {
    if !table.contains(id) {
        Err(Error::Protocol(ProtocolError::SessionNotFound))
    } else {
        match m.message_type {
            WebSocketMessageType::Text => if valid_utf8(m.data) {
                Ok(WsUpstreamMessageV::Text(decode_utf8(m.data)))
            } else {
                Err(Error::Protocol(ProtocolError::TextNotUtf8))
            },
            WebSocketMessageType::Binary => Ok(WsUpstreamMessageV::Binary(m.data)),
        }
    }
}

/// The reply an upstream message turns into: text and binary messages are
/// forwarded under the session's identifier; other frames are dropped.
pub open spec fn spec_message_callback(id: Seq<char>, m: WsUpstreamMessageV) -> Option<
    ServerToClientMessageV,
> {
    match m {
        WsUpstreamMessageV::Text(t) => Some(
            ServerToClientMessageV {
                origin: Some(id),
                payload: Some(
                    ServerPayloadV::WsMessageFromServer(
                        WebSocketProxyMessageV {
                            message_type: WebSocketMessageType::Text,
                            data: encode_utf8(t),
                        },
                    ),
                ),
            },
        ),
        WsUpstreamMessageV::Binary(b) => Some(
            ServerToClientMessageV {
                origin: Some(id),
                payload: Some(
                    ServerPayloadV::WsMessageFromServer(
                        WebSocketProxyMessageV {
                            message_type: WebSocketMessageType::Binary,
                            data: b,
                        },
                    ),
                ),
            },
        ),
        WsUpstreamMessageV::Other => None,
    }
}

/// Turn one message read from upstream into the reply to forward, if any.
pub fn message_callback(id: &String, message: WsUpstreamMessage) -> (r: Option<
    ServerToClientMessage,
>)
    ensures
        match spec_message_callback(id@, message@) {
            Some(m) => r is Some && r->0@ == m,
            None => r is None,
        },
{
    match message {
        WsUpstreamMessage::Text(t) => {
            let data = t.as_str().as_bytes_vec();
            Some(
                ServerToClientMessage {
                    origin: Some(RequestOrigin { id: id.clone() }),
                    payload: Some(
                        ServerPayload::WsMessageFromServer(
                            WebSocketProxyMessage {
                                message_type: WebSocketMessageType::Text,
                                data,
                            },
                        ),
                    ),
                },
            )
        },
        WsUpstreamMessage::Binary(b) => Some(
            ServerToClientMessage {
                origin: Some(RequestOrigin { id: id.clone() }),
                payload: Some(
                    ServerPayload::WsMessageFromServer(
                        WebSocketProxyMessage {
                            message_type: WebSocketMessageType::Binary,
                            data: b,
                        },
                    ),
                ),
            },
        ),
        WsUpstreamMessage::Other => None,
    }
}

// ---------------------------------------------------------------------------
// Laws of the session manager
// ---------------------------------------------------------------------------

/// A message sent into an open session and echoed back unchanged by the
/// upstream peer comes back to the client as a reply with the same type,
/// byte-identical data, and the session's identifier as its origin.
pub proof fn lemma_ws_echo(table: Set<Seq<char>>, id: Seq<char>, m: WebSocketProxyMessageV)
    requires
        table.contains(id),
        m.message_type is Text ==> valid_utf8(m.data),
    ensures
        spec_send_decision(table, id, m) is Ok,
        spec_message_callback(id, spec_send_decision(table, id, m)->Ok_0) == Some(
            ServerToClientMessageV {
                origin: Some(id),
                payload: Some(ServerPayloadV::WsMessageFromServer(m)),
            },
        ),
{
    match m.message_type {
        WebSocketMessageType::Text => {
            decode_utf8_encode_utf8(m.data);
        },
        WebSocketMessageType::Binary => {},
    }
}

/// After a session is closed, a send to its identifier is refused as
/// "session not found" — a reported error, never a crash.
pub proof fn lemma_close_then_send(table: Set<Seq<char>>, id: Seq<char>, m: WebSocketProxyMessageV)
    ensures
        spec_send_decision(table.remove(id), id, m) == Err::<WsUpstreamMessageV, Error>(
            Error::Protocol(ProtocolError::SessionNotFound),
        ),
{
}

} // verus!
