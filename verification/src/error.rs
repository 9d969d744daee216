use vstd::prelude::*;

verus! {

/// A frame or an envelope could not be decoded from its bytes.
#[derive(Clone, Copy, Debug, PartialEq, Eq, Structural)]
pub enum DecodeError {
    /// The 4-byte prefix declared a payload longer than the hard cap.
    FrameTooBig,
    /// The bytes ended before the declared structure was complete.
    Truncated,
    /// A tag byte did not name a field expected at that position.
    UnknownTag,
    /// A varint was non-minimal, too wide, or carried an impossible value.
    Malformed,
    /// A string field did not hold valid UTF-8.
    InvalidUtf8,
    /// Bytes remained after the last field of a message.
    Trailing,
}

/// A well-formed envelope asked for something the bridge cannot honour.
#[derive(Clone, Copy, Debug, PartialEq, Eq, Structural)]
pub enum ProtocolError {
    /// The command envelope carried no request origin.
    MissingOrigin,
    /// The command envelope carried no payload.
    MissingPayload,
    /// A WebSocket message or close named an identifier with no open session.
    SessionNotFound,
    /// The HTTP request's method string is not a valid method token.
    InvalidMethod,
    /// A header key is not a valid header name.
    InvalidHeaderName,
    /// A header value holds bytes a header value may not carry.
    InvalidHeaderValue,
    /// The upstream header table refused to hold another entry.
    TooManyHeaders,
    /// A Text WebSocket payload was not valid UTF-8.
    TextNotUtf8,
}

/// Everything that can go wrong inside the bridge core or at its edges.
#[derive(Clone, Debug, PartialEq, Eq)]
pub enum Error {
    /// I/O failure on the bridge socket or when writing a reply.
    Transport(String),
    /// A malformed, truncated or oversized frame.
    Decode(DecodeError),
    /// A structurally decoded command that breaks the protocol's rules.
    Protocol(ProtocolError),
    /// An upstream HTTP or WebSocket operation failed.
    Upstream(String),
}

/// The fixed description the bridge reports for each decode failure.
pub open spec fn decode_error_text(e: DecodeError) -> Seq<char> {
    match e {
        DecodeError::FrameTooBig => "frame size too big"@,
        DecodeError::Truncated => "truncated frame"@,
        DecodeError::UnknownTag => "unknown field tag"@,
        DecodeError::Malformed => "malformed wire value"@,
        DecodeError::InvalidUtf8 => "string field is not valid utf-8"@,
        DecodeError::Trailing => "trailing bytes after message"@,
    }
}

impl DecodeError {
    /// A human-readable description, suitable for a log line.
    pub fn message(&self) -> (r: String)
        ensures
            r@ == decode_error_text(*self),
    {
        match self {
            DecodeError::FrameTooBig => String::from_str("frame size too big"),
            DecodeError::Truncated => String::from_str("truncated frame"),
            DecodeError::UnknownTag => String::from_str("unknown field tag"),
            DecodeError::Malformed => String::from_str("malformed wire value"),
            DecodeError::InvalidUtf8 => String::from_str("string field is not valid utf-8"),
            DecodeError::Trailing => String::from_str("trailing bytes after message"),
        }
    }
}

/// The fixed description the bridge reports for each protocol failure.
pub open spec fn protocol_error_text(e: ProtocolError) -> Seq<char> {
    match e {
        ProtocolError::MissingOrigin => "no request origin provided"@,
        ProtocolError::MissingPayload => "no payload provided"@,
        ProtocolError::SessionNotFound => "websocket session not found"@,
        ProtocolError::InvalidMethod => "invalid http method"@,
        ProtocolError::InvalidHeaderName => "invalid header name"@,
        ProtocolError::InvalidHeaderValue => "invalid header value"@,
        ProtocolError::TooManyHeaders => "too many headers"@,
        ProtocolError::TextNotUtf8 => "text payload is not valid utf-8"@,
    }
}

impl ProtocolError {
    /// A human-readable description, suitable for an error reply's message.
    pub fn message(&self) -> (r: String)
        ensures
            r@ == protocol_error_text(*self),
    {
        match self {
            ProtocolError::MissingOrigin => String::from_str("no request origin provided"),
            ProtocolError::MissingPayload => String::from_str("no payload provided"),
            ProtocolError::SessionNotFound => String::from_str("websocket session not found"),
            ProtocolError::InvalidMethod => String::from_str("invalid http method"),
            ProtocolError::InvalidHeaderName => String::from_str("invalid header name"),
            ProtocolError::InvalidHeaderValue => String::from_str("invalid header value"),
            ProtocolError::TooManyHeaders => String::from_str("too many headers"),
            ProtocolError::TextNotUtf8 => String::from_str("text payload is not valid utf-8"),
        }
    }
}

/// The description an error carries: its fixed text, or the message the
/// transport or upstream failure arrived with.
pub open spec fn error_text(e: Error) -> Seq<char> {
    match e {
        Error::Transport(s) => s@,
        Error::Decode(d) => decode_error_text(d),
        Error::Protocol(p) => protocol_error_text(p),
        Error::Upstream(s) => s@,
    }
}

impl Error {
    /// A human-readable description, suitable for a log line or an error
    /// reply's message.
    pub fn message(&self) -> (r: String)
        ensures
            r@ == error_text(*self),
    {
        match self {
            Error::Transport(s) => s.clone(),
            Error::Decode(d) => d.message(),
            Error::Protocol(p) => p.message(),
            Error::Upstream(s) => s.clone(),
        }
    }
}

} // verus!
