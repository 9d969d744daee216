//! Round trips and error paths of the envelope codec.
use bridge_priv_rs::envelope::{decode_client, decode_server, encode_client, encode_server};
use bridge_priv_rs::error::DecodeError;
use bridge_priv_rs::proto::{
    ClientPayload, ClientToServerMessage, HttpHeader, HttpProxyRequest, HttpRequestError,
    HttpResponseBodyChunk, HttpResponseComplete, HttpResponseHeaders, RequestOrigin, ServerPayload,
    ServerToClientMessage, WebSocketCloseProxyRequest, WebSocketError, WebSocketMessageType,
    WebSocketOpenProxyRequest, WebSocketOpenedResponse, WebSocketProxyMessage,
};

fn origin(id: &str) -> Option<RequestOrigin> {
    Some(RequestOrigin { id: id.to_string() })
}

fn header(key: &str, value: &str) -> HttpHeader {
    HttpHeader { key: key.to_string(), value: value.to_string() }
}

fn command_roundtrip(msg: ClientToServerMessage) {
    let bytes = encode_client(&msg).expect("command should encode");
    let back = decode_client(&bytes).expect("encoded command should decode");
    assert_eq!(back, msg);
}

fn reply_roundtrip(msg: ServerToClientMessage) {
    let bytes = encode_server(&msg).expect("reply should encode");
    let back = decode_server(&bytes).expect("encoded reply should decode");
    assert_eq!(back, msg);
}

#[test]
fn test_command_roundtrip_http_request() {
    command_roundtrip(ClientToServerMessage {
        origin: origin("123"),
        payload: Some(ClientPayload::HttpRequest(HttpProxyRequest {
            url: "http://example.com/test".to_string(),
            method: "GET".to_string(),
            headers: vec![header("accept", "text/plain"), header("x-a", "b")],
            body: vec![1, 2, 3, 255],
        })),
    });
}

#[test]
fn test_command_roundtrip_ws_open() {
    command_roundtrip(ClientToServerMessage {
        origin: origin("123"),
        payload: Some(ClientPayload::WsOpenRequest(WebSocketOpenProxyRequest {
            url: "ws://127.0.0.1:9/echo".to_string(),
            headers: vec![],
        })),
    });
}

#[test]
fn test_command_roundtrip_ws_message() {
    command_roundtrip(ClientToServerMessage {
        origin: origin("s1"),
        payload: Some(ClientPayload::WsMessageToServer(WebSocketProxyMessage {
            message_type: WebSocketMessageType::Text,
            data: b"test message".to_vec(),
        })),
    });
    command_roundtrip(ClientToServerMessage {
        origin: origin("s1"),
        payload: Some(ClientPayload::WsMessageToServer(WebSocketProxyMessage {
            message_type: WebSocketMessageType::Binary,
            data: vec![0, 255, 7],
        })),
    });
}

#[test]
fn test_command_roundtrip_ws_close() {
    command_roundtrip(ClientToServerMessage {
        origin: origin("123"),
        payload: Some(ClientPayload::WsCloseRequest(WebSocketCloseProxyRequest {})),
    });
}

#[test]
fn test_command_roundtrip_partial_envelopes() {
    command_roundtrip(ClientToServerMessage { origin: origin("123"), payload: None });
    command_roundtrip(ClientToServerMessage { origin: None, payload: None });
    command_roundtrip(ClientToServerMessage {
        origin: None,
        payload: Some(ClientPayload::WsCloseRequest(WebSocketCloseProxyRequest {})),
    });
}

#[test]
fn test_reply_roundtrip_http_headers() {
    reply_roundtrip(ServerToClientMessage {
        origin: origin("123"),
        payload: Some(ServerPayload::HttpHeaders(HttpResponseHeaders {
            status_code: 200,
            headers: vec![header("content-type", "text/plain")],
        })),
    });
}

#[test]
fn test_reply_roundtrip_http_stream() {
    reply_roundtrip(ServerToClientMessage {
        origin: origin("123"),
        payload: Some(ServerPayload::HttpBodyChunk(HttpResponseBodyChunk {
            chunk: vec![9, 8, 7],
        })),
    });
    reply_roundtrip(ServerToClientMessage {
        origin: origin("123"),
        payload: Some(ServerPayload::HttpResponseComplete(HttpResponseComplete {})),
    });
    reply_roundtrip(ServerToClientMessage {
        origin: origin("123"),
        payload: Some(ServerPayload::HttpError(HttpRequestError {
            error_message: "connection refused".to_string(),
            error_code: 500,
        })),
    });
}

#[test]
fn test_reply_roundtrip_ws() {
    reply_roundtrip(ServerToClientMessage {
        origin: origin("123"),
        payload: Some(ServerPayload::WsOpened(WebSocketOpenedResponse { headers: vec![] })),
    });
    reply_roundtrip(ServerToClientMessage {
        origin: origin("123"),
        payload: Some(ServerPayload::WsMessageFromServer(WebSocketProxyMessage {
            message_type: WebSocketMessageType::Text,
            data: b"echo".to_vec(),
        })),
    });
    reply_roundtrip(ServerToClientMessage {
        origin: origin("123"),
        payload: Some(ServerPayload::WsError(WebSocketError {
            error_message: "handshake failed".to_string(),
        })),
    });
}

#[test]
fn test_encode_exact_bytes_origin_only() {
    let msg = ClientToServerMessage { origin: origin("a"), payload: None };
    let bytes = encode_client(&msg).unwrap();
    assert_eq!(bytes, vec![0x0A, 3, 0x0A, 1, b'a']);
}

#[test]
fn test_encode_exact_bytes_ws_close() {
    let msg = ClientToServerMessage {
        origin: origin("123"),
        payload: Some(ClientPayload::WsCloseRequest(WebSocketCloseProxyRequest {})),
    };
    let bytes = encode_client(&msg).unwrap();
    assert_eq!(bytes, vec![0x0A, 5, 0x0A, 3, b'1', b'2', b'3', 0x2A, 0]);
}

#[test]
fn test_encode_exact_bytes_complete_reply() {
    let msg = ServerToClientMessage {
        origin: origin("1"),
        payload: Some(ServerPayload::HttpResponseComplete(HttpResponseComplete {})),
    };
    let bytes = encode_server(&msg).unwrap();
    assert_eq!(bytes, vec![0x0A, 3, 0x0A, 1, b'1', 0x22, 0]);
}

#[test]
fn test_decode_empty_is_empty_envelope() {
    let msg = decode_client(&vec![]).unwrap();
    assert_eq!(msg, ClientToServerMessage { origin: None, payload: None });
}

#[test]
fn test_decode_unknown_tag() {
    assert_eq!(decode_client(&vec![0x52, 0]), Err(DecodeError::UnknownTag));
}

#[test]
fn test_decode_truncated() {
    assert_eq!(decode_client(&vec![0x0A]), Err(DecodeError::Truncated));
    assert_eq!(decode_client(&vec![0x0A, 5, 0x0A]), Err(DecodeError::Truncated));
}

#[test]
fn test_decode_trailing() {
    // A complete close payload followed by a stray zero byte.
    assert_eq!(decode_client(&vec![0x2A, 0, 0x00]), Err(DecodeError::Trailing));
}

#[test]
fn test_decode_invalid_utf8_origin() {
    assert_eq!(decode_client(&vec![0x0A, 3, 0x0A, 1, 0xFF]), Err(DecodeError::InvalidUtf8));
}

#[test]
fn test_decode_malformed_varint() {
    // A continuation byte followed by a zero group is not minimal.
    assert_eq!(decode_client(&vec![0x0A, 0x80, 0x00]), Err(DecodeError::Malformed));
}

#[test]
fn test_decode_bad_ws_message_type() {
    // Payload kind 2 names no message type.
    let body = vec![0x08, 2, 0x12, 0];
    let mut bytes = vec![0x22, body.len() as u8];
    bytes.extend_from_slice(&body);
    assert_eq!(decode_client(&bytes), Err(DecodeError::Malformed));
}
