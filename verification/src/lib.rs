//! A privileged local bridge core: it turns a length-prefixed byte stream
//! into typed command envelopes, routes each command to an HTTP or WebSocket
//! handler, and describes exactly which reply frames flow back. Everything
//! here is pure logic over bytes and values; sockets and upstream clients
//! live outside and talk to this crate through plain values.
use vstd::prelude::*;

pub mod connection;
pub mod envelope;
pub mod error;
pub mod framing;
pub mod codec;
pub mod proto;
pub mod state;

verus! {

/// Hard cap on the payload length a frame may declare; a frame whose
/// 4-byte prefix exceeds this is rejected rather than buffered.
pub const MAX_FRAME_LEN: usize = 8388608;

} // verus!
