//! Routing of decoded envelopes, and the decode-then-route path one frame
//! takes through a connection.
use bridge_priv_rs::connection::{decode_command, encode_reply_frame};
use bridge_priv_rs::envelope::{decode_server, encode_client};
use bridge_priv_rs::error::{DecodeError, Error, ProtocolError};
use bridge_priv_rs::framing::{FrameReader, FrameStep};
use bridge_priv_rs::proto::{
    ClientPayload, ClientToServerMessage, HttpResponseComplete, RequestOrigin, ServerPayload,
    ServerToClientMessage, WebSocketCloseProxyRequest,
};
use bridge_priv_rs::state::AppState;

#[test]
fn test_route_missing_origin() {
    let state = AppState::new();
    let r = state.route_command(ClientToServerMessage {
        origin: None,
        payload: Some(ClientPayload::WsCloseRequest(WebSocketCloseProxyRequest {})),
    });
    assert_eq!(r, Err(Error::Protocol(ProtocolError::MissingOrigin)));
}

#[test]
fn test_route_missing_payload() {
    let state = AppState::new();
    let r = state.route_command(ClientToServerMessage {
        origin: Some(RequestOrigin { id: "123".to_string() }),
        payload: None,
    });
    assert_eq!(r, Err(Error::Protocol(ProtocolError::MissingPayload)));
}

#[test]
fn test_route_complete_command() {
    let state = AppState::new();
    let r = state
        .route_command(ClientToServerMessage {
            origin: Some(RequestOrigin { id: "123".to_string() }),
            payload: Some(ClientPayload::WsCloseRequest(WebSocketCloseProxyRequest {})),
        })
        .expect("a complete envelope should route");
    assert_eq!(r.origin, "123");
    assert!(matches!(r.payload, ClientPayload::WsCloseRequest(_)));
}

#[test]
fn test_decode_command_from_frame_payload() {
    let msg = ClientToServerMessage {
        origin: Some(RequestOrigin { id: "123".to_string() }),
        payload: Some(ClientPayload::WsCloseRequest(WebSocketCloseProxyRequest {})),
    };
    let bytes = encode_client(&msg).unwrap();
    let cmd = decode_command(&bytes).expect("well-formed frame should decode");
    assert_eq!(cmd.origin, "123");
    assert!(matches!(cmd.payload, ClientPayload::WsCloseRequest(_)));
}

#[test]
fn test_decode_command_rejects_garbage_without_crashing() {
    assert_eq!(decode_command(&vec![0x52, 0]), Err(Error::Decode(DecodeError::UnknownTag)));
    assert_eq!(decode_command(&vec![]), Err(Error::Protocol(ProtocolError::MissingOrigin)));
}

#[test]
fn test_protocol_error_messages() {
    assert_eq!(ProtocolError::MissingOrigin.message(), "no request origin provided");
    assert_eq!(ProtocolError::SessionNotFound.message(), "websocket session not found");
    assert_eq!(DecodeError::FrameTooBig.message(), "frame size too big");
    assert_eq!(Error::Decode(DecodeError::Truncated).message(), "truncated frame");
    assert_eq!(Error::Upstream("boom".to_string()).message(), "boom");
}

#[test]
fn test_reply_travels_the_wire_intact() {
    let reply = ServerToClientMessage {
        origin: Some(RequestOrigin { id: "123".to_string() }),
        payload: Some(ServerPayload::HttpResponseComplete(HttpResponseComplete {})),
    };
    let framed = encode_reply_frame(&reply).expect("reply should frame");
    let mut reader = FrameReader::new();
    reader.push(&framed);
    match reader.next_frame() {
        FrameStep::Frame(payload) => {
            assert_eq!(decode_server(&payload), Ok(reply));
        }
        other => panic!("expected one frame, got {other:?}"),
    }
}
