//! The WebSocket session manager: open, send, close, and the echo path.
use bridge_priv_rs::error::{Error, ProtocolError};
use bridge_priv_rs::proto::{ServerPayload, WebSocketMessageType, WebSocketProxyMessage};
use bridge_priv_rs::state::websocket::{
    message_callback, ws_error_reply, WebSocketState, WsUpstreamMessage,
};

fn text_message(data: &[u8]) -> WebSocketProxyMessage {
    WebSocketProxyMessage { message_type: WebSocketMessageType::Text, data: data.to_vec() }
}

#[test]
fn test_open_confirms_session() {
    let mut ws = WebSocketState::new();
    let id = "123".to_string();
    let reply = ws.open(&id);
    assert_eq!(reply.origin.unwrap().id, "123");
    assert!(matches!(reply.payload, Some(ServerPayload::WsOpened(_))));
    assert!(ws.contains(&id));
}

#[test]
fn test_send_through_open_session() {
    let mut ws = WebSocketState::new();
    let id = "123".to_string();
    ws.open(&id);
    let out = ws.send_message(&id, text_message(b"test message")).expect("send should succeed");
    assert_eq!(out, WsUpstreamMessage::Text("test message".to_string()));
    let out = ws
        .send_message(
            &id,
            WebSocketProxyMessage {
                message_type: WebSocketMessageType::Binary,
                data: vec![0, 255],
            },
        )
        .expect("binary send should succeed");
    assert_eq!(out, WsUpstreamMessage::Binary(vec![0, 255]));
}

#[test]
fn test_send_without_session_is_not_found() {
    let ws = WebSocketState::new();
    let r = ws.send_message(&"123".to_string(), text_message(b"x"));
    assert_eq!(r, Err(Error::Protocol(ProtocolError::SessionNotFound)));
}

#[test]
fn test_send_invalid_utf8_text() {
    let mut ws = WebSocketState::new();
    let id = "123".to_string();
    ws.open(&id);
    let r = ws.send_message(&id, text_message(&[0xFF, 0xFE]));
    assert_eq!(r, Err(Error::Protocol(ProtocolError::TextNotUtf8)));
}

#[test]
fn test_close_removes_session() {
    let mut ws = WebSocketState::new();
    let id = "123".to_string();
    ws.open(&id);
    assert!(ws.close(&id));
    assert!(!ws.contains(&id));
    // A message for the closed identifier is an error, not a crash.
    let r = ws.send_message(&id, text_message(b"x"));
    assert_eq!(r, Err(Error::Protocol(ProtocolError::SessionNotFound)));
    // Closing again is a silent no-op.
    assert!(!ws.close(&id));
    // The identifier may be reused.
    ws.open(&id);
    assert!(ws.contains(&id));
}

#[test]
fn test_close_keeps_other_sessions() {
    let mut ws = WebSocketState::new();
    ws.open(&"a".to_string());
    ws.open(&"b".to_string());
    assert!(ws.close(&"a".to_string()));
    assert!(!ws.contains(&"a".to_string()));
    assert!(ws.contains(&"b".to_string()));
}

#[test]
fn test_echo_preserves_type_and_bytes() {
    let mut ws = WebSocketState::new();
    let id = "123".to_string();
    ws.open(&id);
    let sent = ws.send_message(&id, text_message(b"test message")).unwrap();
    // The upstream peer echoes the same message back.
    let reply = message_callback(&id, sent).expect("text echoes back as a reply");
    assert_eq!(reply.origin.unwrap().id, "123");
    match reply.payload.unwrap() {
        ServerPayload::WsMessageFromServer(m) => {
            assert_eq!(m.message_type, WebSocketMessageType::Text);
            assert_eq!(m.data, b"test message".to_vec());
        }
        other => panic!("expected a forwarded message, got {other:?}"),
    }
}

#[test]
fn test_control_frames_are_dropped() {
    assert!(message_callback(&"123".to_string(), WsUpstreamMessage::Other).is_none());
}

#[test]
fn test_ws_error_reply_builder() {
    let m = ws_error_reply(&"123".to_string(), "handshake failed".to_string());
    assert_eq!(m.origin.unwrap().id, "123");
    match m.payload.unwrap() {
        ServerPayload::WsError(e) => assert_eq!(e.error_message, "handshake failed"),
        other => panic!("expected an error reply, got {other:?}"),
    }
}
