//! The per-frame work of one bridge connection: turn a frame's payload
//! into a routed command, and turn a reply into the framed bytes to write
//! back. The read loop itself lives outside; it feeds bytes through
//! `framing::FrameReader` and hands each payload to `decode_command`.
use vstd::prelude::*;

use crate::envelope::{
    decode_client, encode_server, sp_client, spec_enc_server, wf_server,
};
use crate::error::Error;
use crate::framing::{encode_frame, spec_le32_bytes};
use crate::proto::{ClientPayloadV, ServerToClientMessage, ServerToClientMessageV};
use crate::state::{spec_route, Command};
use crate::MAX_FRAME_LEN;

verus! {

/// What one frame's payload decodes and routes to: a command, or the
/// error contained to that frame.
pub open spec fn spec_decode_command(bytes: Seq<u8>) -> Result<(Seq<char>, ClientPayloadV), Error> {
    match sp_client(bytes) {
        Ok(m) => spec_route(m),
        Err(e) => Err(Error::Decode(e)),
    }
}

/// Decode one frame's payload into the command to dispatch. Malformed
/// bytes and missing envelope parts are reported, never a crash.
pub fn decode_command(frame: &Vec<u8>) -> (r: Result<Command, Error>)
    ensures
        match spec_decode_command(frame@) {
            Ok((id, p)) => r is Ok && r->Ok_0.origin@ == id && r->Ok_0.payload@ == p,
            Err(e) => r is Err && r->Err_0 == e,
        },
{
    match decode_client(frame) {
        Ok(m) => match m.origin {
            None => Err(Error::Protocol(crate::error::ProtocolError::MissingOrigin)),
            Some(o) => match m.payload {
                None => Err(Error::Protocol(crate::error::ProtocolError::MissingPayload)),
                Some(p) => Ok(Command { origin: o.id, payload: p }),
            },
        },
        Err(e) => Err(Error::Decode(e)),
    }
}

/// The framed bytes one reply travels as.
pub open spec fn spec_reply_frame(m: ServerToClientMessageV) -> Seq<u8> {
    spec_le32_bytes(spec_enc_server(m).len()) + spec_enc_server(m)
}

/// Encode a reply and frame it for the wire; refused exactly when the
/// reply cannot fit one frame.
pub fn encode_reply_frame(m: &ServerToClientMessage) -> (r: Option<Vec<u8>>)
    ensures
        r is Some <==> wf_server(m@) && spec_enc_server(m@).len() <= MAX_FRAME_LEN,
        r is Some ==> r->0@ == spec_reply_frame(m@),
{
    match encode_server(m) {
        Some(payload) => encode_frame(&payload),
        None => None,
    }
}

} // verus!
