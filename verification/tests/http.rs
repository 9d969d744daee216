//! The HTTP handler's validation and its reply stream.
use bridge_priv_rs::error::{Error, ProtocolError};
use bridge_priv_rs::proto::{
    HttpHeader, HttpProxyRequest, ServerPayload, ServerToClientMessage,
};
use bridge_priv_rs::state::http::{
    http_error_reply, replies_for_exchange, HttpExchangeOutcome, HttpState,
};
use bridge_priv_rs::state::util::header_map;

fn header(key: &str, value: &str) -> HttpHeader {
    HttpHeader { key: key.to_string(), value: value.to_string() }
}

fn request(method: &str, headers: Vec<HttpHeader>) -> HttpProxyRequest {
    HttpProxyRequest {
        url: "http://example.com/test".to_string(),
        method: method.to_string(),
        headers,
        body: vec![],
    }
}

fn origin_of(m: &ServerToClientMessage) -> String {
    m.origin.as_ref().expect("reply should carry an origin").id.clone()
}

#[test]
fn test_prepare_accepts_valid_request() {
    let state = HttpState::new();
    let prepared = state
        .prepare(request("GET", vec![header("accept", "text/plain")]))
        .expect("a valid request should prepare");
    assert_eq!(prepared.url, "http://example.com/test");
    assert_eq!(prepared.method, "GET");
    assert_eq!(prepared.body, Vec::<u8>::new());
    assert_eq!(prepared.headers.get("accept").unwrap(), "text/plain");
}

#[test]
fn test_prepare_rejects_invalid_method() {
    let state = HttpState::new();
    let r = state.prepare(request("BAD METHOD", vec![]));
    assert_eq!(r.err(), Some(Error::Protocol(ProtocolError::InvalidMethod)));
}

#[test]
fn test_prepare_rejects_invalid_header() {
    let state = HttpState::new();
    let r = state.prepare(request("GET", vec![header("bad name", "v")]));
    assert_eq!(r.err(), Some(Error::Protocol(ProtocolError::InvalidHeaderName)));
    let r = state.prepare(request("GET", vec![header("x-a", "bad\nvalue")]));
    assert_eq!(r.err(), Some(Error::Protocol(ProtocolError::InvalidHeaderValue)));
}

#[test]
fn test_header_map_accepts_valid_headers() {
    let m = header_map(vec![header("accept", "text/plain"), header("X-Custom", "1")])
        .expect("valid headers should convert");
    assert_eq!(m.len(), 2);
    assert_eq!(m.get("accept").unwrap(), "text/plain");
    // Names are stored lowercased.
    assert_eq!(m.get("x-custom").unwrap(), "1");
}

#[test]
fn test_header_map_later_pair_replaces_earlier() {
    let m = header_map(vec![header("X-A", "1"), header("x-a", "2")])
        .expect("valid headers should convert");
    assert_eq!(m.len(), 1);
    assert_eq!(m.get("x-a").unwrap(), "2");
}

#[test]
fn test_header_map_reports_full_table() {
    // The upstream table refuses to grow past its size limit; the walk
    // reports that instead of panicking.
    let mut headers = Vec::new();
    for i in 0..25000 {
        headers.push(header(&format!("x-{i}"), "v"));
    }
    let r = header_map(headers);
    assert_eq!(r.err(), Some(Error::Protocol(ProtocolError::TooManyHeaders)));
}

#[test]
fn test_header_map_rejects_overlong_name() {
    // A name of token characters is still refused past 65535 bytes.
    let long_ok = "a".repeat(65535);
    assert!(header_map(vec![header(&long_ok, "v")]).is_ok());
    let long_bad = "a".repeat(65536);
    let r = header_map(vec![header(&long_bad, "v")]);
    assert_eq!(r.err(), Some(Error::Protocol(ProtocolError::InvalidHeaderName)));
}

#[test]
fn test_header_map_reports_first_bad_entry() {
    let r = header_map(vec![header("ok", "fine"), header("", "v")]);
    assert_eq!(r.err(), Some(Error::Protocol(ProtocolError::InvalidHeaderName)));
}

#[test]
fn test_failure_emits_one_error_reply_with_500() {
    let origin = "123".to_string();
    let replies = replies_for_exchange(
        &origin,
        HttpExchangeOutcome::SendFailed { error_message: "unreachable host".to_string() },
    );
    assert_eq!(replies.len(), 1);
    assert_eq!(origin_of(&replies[0]), "123");
    match replies[0].payload.as_ref().unwrap() {
        ServerPayload::HttpError(e) => {
            assert_eq!(e.error_code, 500);
            assert_eq!(e.error_message, "unreachable host");
        }
        other => panic!("expected an error reply, got {other:?}"),
    }
}

#[test]
fn test_success_emits_headers_chunks_complete_in_order() {
    let origin = "123".to_string();
    let replies = replies_for_exchange(
        &origin,
        HttpExchangeOutcome::Responded {
            status_code: 200,
            headers: vec![header("content-type", "text/plain")],
            chunks: vec![vec![1, 2], vec![3]],
        },
    );
    assert_eq!(replies.len(), 4);
    for r in &replies {
        assert_eq!(origin_of(r), "123");
    }
    assert!(matches!(replies[0].payload, Some(ServerPayload::HttpHeaders(_))));
    match (&replies[1].payload, &replies[2].payload) {
        (Some(ServerPayload::HttpBodyChunk(a)), Some(ServerPayload::HttpBodyChunk(b))) => {
            assert_eq!(a.chunk, vec![1, 2]);
            assert_eq!(b.chunk, vec![3]);
        }
        other => panic!("expected two chunk replies, got {other:?}"),
    }
    assert!(matches!(replies[3].payload, Some(ServerPayload::HttpResponseComplete(_))));
}

#[test]
fn test_interleaved_streams_keep_per_origin_order() {
    let a = replies_for_exchange(
        &"a".to_string(),
        HttpExchangeOutcome::Responded {
            status_code: 200,
            headers: vec![],
            chunks: vec![vec![1], vec![2]],
        },
    );
    let b = replies_for_exchange(
        &"b".to_string(),
        HttpExchangeOutcome::Responded {
            status_code: 404,
            headers: vec![],
            chunks: vec![vec![9]],
        },
    );
    // One possible wire order: the two streams interleaved.
    let mut wire: Vec<ServerToClientMessage> = Vec::new();
    wire.push(a[0].clone());
    wire.push(b[0].clone());
    wire.push(a[1].clone());
    wire.push(b[1].clone());
    wire.push(a[2].clone());
    wire.push(b[2].clone());
    wire.push(a[3].clone());
    let projected_a: Vec<_> = wire.iter().filter(|m| origin_of(m) == "a").cloned().collect();
    let projected_b: Vec<_> = wire.iter().filter(|m| origin_of(m) == "b").cloned().collect();
    assert_eq!(projected_a, a);
    assert_eq!(projected_b, b);
}

#[test]
fn test_http_error_reply_builder() {
    let m = http_error_reply(&"9".to_string(), "boom".to_string());
    assert_eq!(origin_of(&m), "9");
    match m.payload.unwrap() {
        ServerPayload::HttpError(e) => {
            assert_eq!(e.error_code, 500);
            assert_eq!(e.error_message, "boom");
        }
        other => panic!("expected an error reply, got {other:?}"),
    }
}

#[test]
fn test_body_failure_emits_error_after_chunks() {
    let origin = "123".to_string();
    let replies = replies_for_exchange(
        &origin,
        HttpExchangeOutcome::BodyFailed {
            status_code: 200,
            headers: vec![],
            chunks: vec![vec![1]],
            error_message: "connection reset".to_string(),
        },
    );
    assert_eq!(replies.len(), 3);
    for r in &replies {
        assert_eq!(origin_of(r), "123");
    }
    assert!(matches!(replies[0].payload, Some(ServerPayload::HttpHeaders(_))));
    assert!(matches!(replies[1].payload, Some(ServerPayload::HttpBodyChunk(_))));
    match replies[2].payload.as_ref().unwrap() {
        ServerPayload::HttpError(e) => {
            assert_eq!(e.error_code, 500);
            assert_eq!(e.error_message, "connection reset");
        }
        other => panic!("expected an error reply, got {other:?}"),
    }
}
