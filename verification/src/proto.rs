//! The typed envelopes carried by the wire protocol: commands sent by the
//! client and replies streamed back by the bridge, together with their
//! mathematical views.
use vstd::prelude::*;

verus! {

// ---------------------------------------------------------------------------
// Shared pieces
// ---------------------------------------------------------------------------

/// The client-chosen identifier that correlates a command with its replies,
/// or names a WebSocket session.
#[derive(Clone, Debug, PartialEq, Eq)]
pub struct RequestOrigin {
    pub id: String,
}

impl View for RequestOrigin {
    type V = Seq<char>;

    open spec fn view(&self) -> Seq<char> {
        self.id@
    }
}

/// One key/value pair of an HTTP or WebSocket handshake header list.
#[derive(Clone, Debug, PartialEq, Eq)]
pub struct HttpHeader {
    pub key: String,
    pub value: String,
}

pub ghost struct HttpHeaderV {
    pub key: Seq<char>,
    pub value: Seq<char>,
}

impl View for HttpHeader {
    type V = HttpHeaderV;

    open spec fn view(&self) -> HttpHeaderV {
        HttpHeaderV { key: self.key@, value: self.value@ }
    }
}

/// The view of a header list.
pub open spec fn headers_view(hs: Seq<HttpHeader>) -> Seq<HttpHeaderV> {
    hs.map_values(|h: HttpHeader| h@)
}

/// Whether a WebSocket payload is text or binary data.
#[derive(Clone, Copy, Debug, PartialEq, Eq, Structural)]
pub enum WebSocketMessageType {
    Text,
    Binary,
}

// ---------------------------------------------------------------------------
// Client -> bridge commands
// ---------------------------------------------------------------------------

/// Ask the bridge to perform one upstream HTTP request.
#[derive(Clone, Debug, PartialEq, Eq)]
pub struct HttpProxyRequest {
    pub url: String,
    pub method: String,
    pub headers: Vec<HttpHeader>,
    pub body: Vec<u8>,
}

pub ghost struct HttpProxyRequestV {
    pub url: Seq<char>,
    pub method: Seq<char>,
    pub headers: Seq<HttpHeaderV>,
    pub body: Seq<u8>,
}

impl View for HttpProxyRequest {
    type V = HttpProxyRequestV;

    open spec fn view(&self) -> HttpProxyRequestV {
        HttpProxyRequestV {
            url: self.url@,
            method: self.method@,
            headers: headers_view(self.headers@),
            body: self.body@,
        }
    }
}

/// Ask the bridge to open an upstream WebSocket session.
#[derive(Clone, Debug, PartialEq, Eq)]
pub struct WebSocketOpenProxyRequest {
    pub url: String,
    pub headers: Vec<HttpHeader>,
}

pub ghost struct WebSocketOpenProxyRequestV {
    pub url: Seq<char>,
    pub headers: Seq<HttpHeaderV>,
}

impl View for WebSocketOpenProxyRequest {
    type V = WebSocketOpenProxyRequestV;

    open spec fn view(&self) -> WebSocketOpenProxyRequestV {
        WebSocketOpenProxyRequestV { url: self.url@, headers: headers_view(self.headers@) }
    }
}

/// A payload to forward into an open session, or one received from upstream.
#[derive(Clone, Debug, PartialEq, Eq)]
pub struct WebSocketProxyMessage {
    pub message_type: WebSocketMessageType,
    pub data: Vec<u8>,
}

pub ghost struct WebSocketProxyMessageV {
    pub message_type: WebSocketMessageType,
    pub data: Seq<u8>,
}

impl View for WebSocketProxyMessage {
    type V = WebSocketProxyMessageV;

    open spec fn view(&self) -> WebSocketProxyMessageV {
        WebSocketProxyMessageV { message_type: self.message_type, data: self.data@ }
    }
}

/// Ask the bridge to tear down the session named by the envelope's origin.
#[derive(Clone, Debug, PartialEq, Eq)]
pub struct WebSocketCloseProxyRequest {}

/// The variants a client command can carry.
#[derive(Clone, Debug, PartialEq, Eq)]
pub enum ClientPayload {
    HttpRequest(HttpProxyRequest),
    WsOpenRequest(WebSocketOpenProxyRequest),
    WsMessageToServer(WebSocketProxyMessage),
    WsCloseRequest(WebSocketCloseProxyRequest),
}

pub ghost enum ClientPayloadV {
    HttpRequest(HttpProxyRequestV),
    WsOpenRequest(WebSocketOpenProxyRequestV),
    WsMessageToServer(WebSocketProxyMessageV),
    WsCloseRequest,
}

impl View for ClientPayload {
    type V = ClientPayloadV;

    open spec fn view(&self) -> ClientPayloadV {
        match self {
            ClientPayload::HttpRequest(r) => ClientPayloadV::HttpRequest(r@),
            ClientPayload::WsOpenRequest(r) => ClientPayloadV::WsOpenRequest(r@),
            ClientPayload::WsMessageToServer(m) => ClientPayloadV::WsMessageToServer(m@),
            ClientPayload::WsCloseRequest(_) => ClientPayloadV::WsCloseRequest,
        }
    }
}

/// One decoded client-to-bridge envelope. Either part may be absent on the
/// wire; the dispatcher treats absence as a protocol error, not a crash.
#[derive(Clone, Debug, PartialEq, Eq)]
pub struct ClientToServerMessage {
    pub origin: Option<RequestOrigin>,
    pub payload: Option<ClientPayload>,
}

pub ghost struct ClientToServerMessageV {
    pub origin: Option<Seq<char>>,
    pub payload: Option<ClientPayloadV>,
}

impl View for ClientToServerMessage {
    type V = ClientToServerMessageV;

    open spec fn view(&self) -> ClientToServerMessageV {
        ClientToServerMessageV {
            origin: match self.origin {
                Some(o) => Some(o@),
                None => None,
            },
            payload: match self.payload {
                Some(p) => Some(p@),
                None => None,
            },
        }
    }
}

// ---------------------------------------------------------------------------
// Bridge -> client replies
// ---------------------------------------------------------------------------

/// The status line and header list of an upstream HTTP response.
#[derive(Clone, Debug, PartialEq, Eq)]
pub struct HttpResponseHeaders {
    pub status_code: u32,
    pub headers: Vec<HttpHeader>,
}

pub ghost struct HttpResponseHeadersV {
    pub status_code: u32,
    pub headers: Seq<HttpHeaderV>,
}

impl View for HttpResponseHeaders {
    type V = HttpResponseHeadersV;

    open spec fn view(&self) -> HttpResponseHeadersV {
        HttpResponseHeadersV { status_code: self.status_code, headers: headers_view(self.headers@) }
    }
}

/// One chunk of an upstream HTTP response body, in arrival order.
#[derive(Clone, Debug, PartialEq, Eq)]
pub struct HttpResponseBodyChunk {
    pub chunk: Vec<u8>,
}

pub ghost struct HttpResponseBodyChunkV {
    pub chunk: Seq<u8>,
}

impl View for HttpResponseBodyChunk {
    type V = HttpResponseBodyChunkV;

    open spec fn view(&self) -> HttpResponseBodyChunkV {
        HttpResponseBodyChunkV { chunk: self.chunk@ }
    }
}

/// Marks the end of one HTTP exchange's reply stream.
#[derive(Clone, Debug, PartialEq, Eq)]
pub struct HttpResponseComplete {}

/// Reports a failed HTTP exchange; the bridge always uses code 500.
#[derive(Clone, Debug, PartialEq, Eq)]
pub struct HttpRequestError {
    pub error_message: String,
    pub error_code: u32,
}

pub ghost struct HttpRequestErrorV {
    pub error_message: Seq<char>,
    pub error_code: u32,
}

impl View for HttpRequestError {
    type V = HttpRequestErrorV;

    open spec fn view(&self) -> HttpRequestErrorV {
        HttpRequestErrorV { error_message: self.error_message@, error_code: self.error_code }
    }
}

/// Confirms a WebSocket session opened under the envelope's origin.
#[derive(Clone, Debug, PartialEq, Eq)]
pub struct WebSocketOpenedResponse {
    pub headers: Vec<HttpHeader>,
}

pub ghost struct WebSocketOpenedResponseV {
    pub headers: Seq<HttpHeaderV>,
}

impl View for WebSocketOpenedResponse {
    type V = WebSocketOpenedResponseV;

    open spec fn view(&self) -> WebSocketOpenedResponseV {
        WebSocketOpenedResponseV { headers: headers_view(self.headers@) }
    }
}

/// Reports a failed WebSocket open, send or receive.
#[derive(Clone, Debug, PartialEq, Eq)]
pub struct WebSocketError {
    pub error_message: String,
}

pub ghost struct WebSocketErrorV {
    pub error_message: Seq<char>,
}

impl View for WebSocketError {
    type V = WebSocketErrorV;

    open spec fn view(&self) -> WebSocketErrorV {
        WebSocketErrorV { error_message: self.error_message@ }
    }
}

/// The variants a bridge reply can carry.
#[derive(Clone, Debug, PartialEq, Eq)]
pub enum ServerPayload {
    HttpHeaders(HttpResponseHeaders),
    HttpBodyChunk(HttpResponseBodyChunk),
    HttpResponseComplete(HttpResponseComplete),
    HttpError(HttpRequestError),
    WsOpened(WebSocketOpenedResponse),
    WsMessageFromServer(WebSocketProxyMessage),
    WsError(WebSocketError),
}

pub ghost enum ServerPayloadV {
    HttpHeaders(HttpResponseHeadersV),
    HttpBodyChunk(HttpResponseBodyChunkV),
    HttpResponseComplete,
    HttpError(HttpRequestErrorV),
    WsOpened(WebSocketOpenedResponseV),
    WsMessageFromServer(WebSocketProxyMessageV),
    WsError(WebSocketErrorV),
}

impl View for ServerPayload {
    type V = ServerPayloadV;

    open spec fn view(&self) -> ServerPayloadV {
        match self {
            ServerPayload::HttpHeaders(h) => ServerPayloadV::HttpHeaders(h@),
            ServerPayload::HttpBodyChunk(c) => ServerPayloadV::HttpBodyChunk(c@),
            ServerPayload::HttpResponseComplete(_) => ServerPayloadV::HttpResponseComplete,
            ServerPayload::HttpError(e) => ServerPayloadV::HttpError(e@),
            ServerPayload::WsOpened(w) => ServerPayloadV::WsOpened(w@),
            ServerPayload::WsMessageFromServer(m) => ServerPayloadV::WsMessageFromServer(m@),
            ServerPayload::WsError(e) => ServerPayloadV::WsError(e@),
        }
    }
}

/// One bridge-to-client envelope.
#[derive(Clone, Debug, PartialEq, Eq)]
pub struct ServerToClientMessage {
    pub origin: Option<RequestOrigin>,
    pub payload: Option<ServerPayload>,
}

pub ghost struct ServerToClientMessageV {
    pub origin: Option<Seq<char>>,
    pub payload: Option<ServerPayloadV>,
}

impl View for ServerToClientMessage {
    type V = ServerToClientMessageV;

    open spec fn view(&self) -> ServerToClientMessageV {
        ServerToClientMessageV {
            origin: match self.origin {
                Some(o) => Some(o@),
                None => None,
            },
            payload: match self.payload {
                Some(p) => Some(p@),
                None => None,
            },
        }
    }
}

} // verus!
