//! Encoding and decoding of whole command and reply envelopes over the
//! primitives in `codec`. Each message writes its fields in a fixed order;
//! the `wf_*` predicates say exactly which values fit the wire format, and
//! the round-trip lemmas prove that decoding undoes encoding.
use vstd::prelude::*;
use vstd::utf8::encode_utf8;

use crate::codec::{
    emit_block, emit_string_block, emit_varint_field, lemma_block_roundtrip, lemma_sp_block_bounds,
    lemma_sp_string_bounds, lemma_sp_varint_field_bounds, lemma_string_roundtrip,
    lemma_varint_field_roundtrip, parse_block, parse_string, parse_varint_field, sp_block,
    sp_string, sp_varint_field, spec_block, spec_string_block, spec_varint_field, subvec,
    VARINT_MAX,
};
use crate::error::DecodeError;
use crate::proto::{
    headers_view, HttpHeader, HttpHeaderV, HttpProxyRequest, HttpProxyRequestV,
    HttpRequestError, HttpRequestErrorV, HttpResponseBodyChunk, HttpResponseBodyChunkV,
    HttpResponseHeaders, HttpResponseHeadersV, RequestOrigin, WebSocketError, WebSocketErrorV,
    WebSocketMessageType, WebSocketOpenProxyRequest, WebSocketOpenProxyRequestV,
    WebSocketOpenedResponse, WebSocketOpenedResponseV, WebSocketProxyMessage,
    WebSocketProxyMessageV, ClientPayload, ClientPayloadV, ClientToServerMessage,
    ClientToServerMessageV, WebSocketCloseProxyRequest, HttpResponseComplete, ServerPayload,
    ServerPayloadV, ServerToClientMessage, ServerToClientMessageV,
};

verus! {

/// Tag of a message's first string or block field.
pub const TAG_F1_BLOCK: u8 = 0x0A;

/// Tag of a message's second string or block field.
pub const TAG_F2_BLOCK: u8 = 0x12;

/// Tag of a message's third block field.
pub const TAG_F3_BLOCK: u8 = 0x1A;

/// Tag of a message's fourth block field.
pub const TAG_F4_BLOCK: u8 = 0x22;

/// Tag of a message's fifth block field.
pub const TAG_F5_BLOCK: u8 = 0x2A;

/// Tag of a message's sixth block field.
pub const TAG_F6_BLOCK: u8 = 0x32;

/// Tag of a message's seventh block field.
pub const TAG_F7_BLOCK: u8 = 0x3A;

/// Tag of a message's eighth block field.
pub const TAG_F8_BLOCK: u8 = 0x42;

/// Tag of a message's first varint field.
pub const TAG_F1_VARINT: u8 = 0x08;

/// Tag of a message's second varint field.
pub const TAG_F2_VARINT: u8 = 0x10;

// ---------------------------------------------------------------------------
// One header, and a repeated header list
// ---------------------------------------------------------------------------

/// The body of one encoded header: its key then its value.
pub open spec fn spec_enc_header_body(h: HttpHeaderV) -> Seq<u8> {
    spec_string_block(TAG_F1_BLOCK, h.key) + spec_string_block(TAG_F2_BLOCK, h.value)
}

/// A header fits the wire format.
pub open spec fn wf_header(h: HttpHeaderV) -> bool {
    &&& encode_utf8(h.key).len() <= VARINT_MAX
    &&& encode_utf8(h.value).len() <= VARINT_MAX
    &&& spec_enc_header_body(h).len() <= VARINT_MAX
}

/// The encoding of a header list under `tag`: one block per header,
/// in order.
pub open spec fn spec_enc_headers(hs: Seq<HttpHeaderV>, tag: u8) -> Seq<u8>
    decreases hs.len(),
{
    if hs.len() == 0 {
        Seq::empty()
    } else {
        spec_block(tag, spec_enc_header_body(hs[0])) + spec_enc_headers(hs.drop_first(), tag)
    }
}

/// Every header of the list fits the wire format.
pub open spec fn wf_headers(hs: Seq<HttpHeaderV>) -> bool {
    forall|i: int| 0 <= i < hs.len() ==> wf_header(#[trigger] hs[i])
}

/// Parse one header's body: key, value, nothing after.
pub open spec fn sp_header_body(s: Seq<u8>) -> Result<HttpHeaderV, DecodeError> {
    match sp_string(s, 0, TAG_F1_BLOCK) {
        Ok((k, p)) => match sp_string(s, p, TAG_F2_BLOCK) {
            Ok((v, q)) => if q == s.len() {
                Ok(HttpHeaderV { key: k, value: v })
            } else {
                Err(DecodeError::Trailing)
            },
            Err(e) => Err(e),
        },
        Err(e) => Err(e),
    }
}

/// Parse a run of header blocks under `tag` starting at `pos`; the run ends
/// at the first position that does not start with `tag`.
pub open spec fn sp_headers(s: Seq<u8>, pos: int, tag: u8) -> Result<
    (Seq<HttpHeaderV>, int),
    DecodeError,
>
    decreases s.len() - pos,
{
    if !(0 <= pos < s.len()) || s[pos] != tag {
        Ok((Seq::empty(), pos))
    } else {
        match sp_block(s, pos, tag) {
            Ok((a, b)) => match sp_header_body(s.subrange(a, b)) {
                Ok(h) => if pos < b <= s.len() {
                    match sp_headers(s, b, tag) {
                        Ok((rest, end)) => Ok((seq![h] + rest, end)),
                        Err(e) => Err(e),
                    }
                } else {
                    Err(DecodeError::Malformed)
                },
                Err(e) => Err(e),
            },
            Err(e) => Err(e),
        }
    }
}

/// Append one encoded header block to `out`.
pub fn emit_header(out: &mut Vec<u8>, tag: u8, h: &HttpHeader) -> (r: Result<(), ()>)
    ensures
        r is Ok ==> final(out)@ == old(out)@ + spec_block(tag, spec_enc_header_body(h@))
            && wf_header(h@),
        r is Err ==> !wf_header(h@),
{
    let mut body: Vec<u8> = Vec::new();
    let r1 = emit_string_block(&mut body, TAG_F1_BLOCK, &h.key);
    if r1.is_err() {
        return Err(());
    }
    let r2 = emit_string_block(&mut body, TAG_F2_BLOCK, &h.value);
    if r2.is_err() {
        return Err(());
    }
    assert(body@ =~= spec_enc_header_body(h@));
    emit_block(out, tag, &mut body)
}

/// Append a whole header list to `out`.
pub fn emit_headers(out: &mut Vec<u8>, tag: u8, hs: &Vec<HttpHeader>) -> (r: Result<(), ()>)
    ensures
        r is Ok ==> final(out)@ == old(out)@ + spec_enc_headers(headers_view(hs@), tag)
            && wf_headers(headers_view(hs@)),
        r is Err ==> !wf_headers(headers_view(hs@)),
{
    let ghost all = headers_view(hs@);
    let mut i: usize = 0;
    while i < hs.len()
        invariant
            i <= hs.len(),
            all == headers_view(hs@),
            all.len() == hs@.len(),
            out@ == old(out)@ + spec_enc_headers_prefix(all, i as int, tag),
            forall|j: int| 0 <= j < i ==> wf_header(#[trigger] all[j]),
        decreases hs.len() - i,
    {
        let r = emit_header(out, tag, &hs[i]);
        if r.is_err() {
            proof {
                assert(all[i as int] == hs@[i as int]@);
                assert(!wf_headers(all));
            }
            return Err(());
        }
        proof {
            lemma_spec_enc_headers_prefix_step(all, tag, i as int);
        }
        i = i + 1;
    }
    proof {
        lemma_spec_enc_headers_prefix_all(all, tag);
    }
    Ok(())
}

/// The encoding of the first `n` headers of a list.
pub open spec fn spec_enc_headers_prefix(hs: Seq<HttpHeaderV>, n: int, tag: u8) -> Seq<u8> {
    spec_enc_headers(hs.subrange(0, n), tag)
}

/// Growing the encoded prefix by one header appends that header's block.
proof fn lemma_spec_enc_headers_prefix_step(hs: Seq<HttpHeaderV>, tag: u8, i: int)
    requires
        0 <= i < hs.len(),
    ensures
        spec_enc_headers(hs.subrange(0, i + 1), tag) == spec_enc_headers(hs.subrange(0, i), tag)
            + spec_block(tag, spec_enc_header_body(hs[i])),
    decreases i,
{
    if i == 0 {
        assert(hs.subrange(0, 1) =~= seq![hs[0]]);
        assert(hs.subrange(0, 1).drop_first() =~= Seq::<HttpHeaderV>::empty());
        assert(hs.subrange(0, 0) =~= Seq::<HttpHeaderV>::empty());
        assert(spec_enc_headers(Seq::<HttpHeaderV>::empty(), tag) == Seq::<u8>::empty());
        assert(hs.subrange(0, 1)[0] == hs[0]);
        assert(spec_enc_headers(hs.subrange(0, 1), tag) == spec_block(
            tag,
            spec_enc_header_body(hs[0]),
        ) + Seq::<u8>::empty());
        assert(spec_block(tag, spec_enc_header_body(hs[0])) + Seq::<u8>::empty() =~= spec_block(
            tag,
            spec_enc_header_body(hs[0]),
        ));
        assert(Seq::<u8>::empty() + spec_block(tag, spec_enc_header_body(hs[0])) =~= spec_block(
            tag,
            spec_enc_header_body(hs[0]),
        ));
    } else {
        let t = hs.drop_first();
        assert(hs.subrange(0, i + 1).drop_first() =~= t.subrange(0, i));
        assert(hs.subrange(0, i).drop_first() =~= t.subrange(0, i - 1));
        lemma_spec_enc_headers_prefix_step(t, tag, i - 1);
        assert(hs.subrange(0, i + 1)[0] == hs[0]);
        assert(hs.subrange(0, i)[0] == hs[0]);
        assert(t[i - 1] == hs[i]);
        assert(spec_enc_headers(hs.subrange(0, i + 1), tag) == spec_block(
            tag,
            spec_enc_header_body(hs[0]),
        ) + spec_enc_headers(t.subrange(0, i), tag));
        assert(spec_enc_headers(hs.subrange(0, i), tag) == spec_block(
            tag,
            spec_enc_header_body(hs[0]),
        ) + spec_enc_headers(t.subrange(0, i - 1), tag));
        assert(spec_block(tag, spec_enc_header_body(hs[0])) + (spec_enc_headers(
            t.subrange(0, i - 1),
            tag,
        ) + spec_block(tag, spec_enc_header_body(hs[i]))) =~= (spec_block(
            tag,
            spec_enc_header_body(hs[0]),
        ) + spec_enc_headers(t.subrange(0, i - 1), tag)) + spec_block(
            tag,
            spec_enc_header_body(hs[i]),
        ));
    }
}

/// The encoded prefix covering the whole list is the list's encoding.
proof fn lemma_spec_enc_headers_prefix_all(hs: Seq<HttpHeaderV>, tag: u8)
    ensures
        spec_enc_headers(hs.subrange(0, hs.len() as int), tag) == spec_enc_headers(hs, tag),
{
    assert(hs.subrange(0, hs.len() as int) =~= hs);
}

/// Decode one header's body, mirroring `sp_header_body`.
pub fn decode_header_body(v: &Vec<u8>) -> (r: Result<HttpHeader, DecodeError>)
    ensures
        match sp_header_body(v@) {
            Ok(h) => r is Ok && r->Ok_0@ == h,
            Err(e) => r is Err && r->Err_0 == e,
        },
{
    match parse_string(v, 0, TAG_F1_BLOCK) {
        Ok((k, p)) => match parse_string(v, p, TAG_F2_BLOCK) {
            Ok((val, q)) => if q == v.len() {
                Ok(HttpHeader { key: k, value: val })
            } else {
                Err(DecodeError::Trailing)
            },
            Err(e) => Err(e),
        },
        Err(e) => Err(e),
    }
}

/// `sp_headers` from `cur` on, with `done` already parsed in front.
pub open spec fn sp_headers_cont(s: Seq<u8>, cur: int, tag: u8, done: Seq<HttpHeaderV>) -> Result<
    (Seq<HttpHeaderV>, int),
    DecodeError,
> {
    match sp_headers(s, cur, tag) {
        Ok((rest, end)) => Ok((done + rest, end)),
        Err(e) => Err(e),
    }
}

/// Decode a run of header blocks at `pos`, mirroring `sp_headers`.
pub fn decode_headers(v: &Vec<u8>, pos: usize, tag: u8) -> (r: Result<
    (Vec<HttpHeader>, usize),
    DecodeError,
>)
    requires
        pos <= v.len(),
    ensures
        match sp_headers(v@, pos as int, tag) {
            Ok((hs, end)) => r is Ok && headers_view(r->Ok_0.0@) == hs && r->Ok_0.1 == end,
            Err(e) => r is Err && r->Err_0 == e,
        },
{
    let mut acc: Vec<HttpHeader> = Vec::new();
    let mut cur: usize = pos;
    proof {
        let r0 = sp_headers(v@, pos as int, tag);
        if r0 is Ok {
            assert(headers_view(acc@) + r0->Ok_0.0 =~= r0->Ok_0.0);
            assert(headers_view(acc@) =~= Seq::<HttpHeaderV>::empty());
        }
        assert(sp_headers(v@, pos as int, tag) == sp_headers_cont(
            v@,
            cur as int,
            tag,
            headers_view(acc@),
        ));
    }
    loop
        invariant
            pos <= cur <= v.len(),
            sp_headers(v@, pos as int, tag) == sp_headers_cont(
                v@,
                cur as int,
                tag,
                headers_view(acc@),
            ),
        decreases v.len() - cur,
    {
        if cur >= v.len() || v[cur] != tag {
            proof {
                assert(sp_headers(v@, cur as int, tag) == Ok::<(Seq<HttpHeaderV>, int), DecodeError>(
                    (Seq::<HttpHeaderV>::empty(), cur as int),
                ));
                assert(headers_view(acc@) + Seq::<HttpHeaderV>::empty() =~= headers_view(acc@));
            }
            return Ok((acc, cur));
        }
        match parse_block(v, cur, tag) {
            Ok((a, b)) => {
                proof {
                    lemma_sp_block_bounds(v@, cur as int, tag);
                }
                let body = subvec(v, a, b);
                match decode_header_body(&body) {
                    Ok(h) => {
                        proof {
                            let done = headers_view(acc@);
                            let hv = sp_header_body(v@.subrange(a as int, b as int))->Ok_0;
                            let r_rest = sp_headers(v@, b as int, tag);
                            assert(sp_headers(v@, cur as int, tag) == (match r_rest {
                                Ok((rest, end)) => Ok::<(Seq<HttpHeaderV>, int), DecodeError>(
                                    (seq![hv] + rest, end),
                                ),
                                Err(e) => Err(e),
                            }));
                            if r_rest is Ok {
                                let rest = r_rest->Ok_0.0;
                                assert(done + (seq![hv] + rest) =~= (done + seq![hv]) + rest);
                                assert(headers_view(acc@.push(h)) =~= done + seq![hv]);
                            }
                        }
                        acc.push(h);
                        cur = b;
                    },
                    Err(e) => {
                        return Err(e);
                    },
                }
            },
            Err(e) => {
                return Err(e);
            },
        }
    }
}

/// One encoded header body decodes back to the header it came from.
pub proof fn lemma_header_body_roundtrip(h: HttpHeaderV)
    requires
        wf_header(h),
    ensures
        sp_header_body(spec_enc_header_body(h)) == Ok::<HttpHeaderV, DecodeError>(h),
{
    let s = spec_enc_header_body(h);
    let sb1 = spec_string_block(TAG_F1_BLOCK, h.key);
    let sb2 = spec_string_block(TAG_F2_BLOCK, h.value);
    assert(s.subrange(0, sb1.len() as int) =~= sb1);
    lemma_string_roundtrip(s, 0, TAG_F1_BLOCK, h.key);
    assert(s.subrange(sb1.len() as int, s.len() as int) =~= sb2);
    lemma_string_roundtrip(s, sb1.len() as int, TAG_F2_BLOCK, h.value);
}

/// An encoded header list decodes back to itself, provided the byte after
/// it (if any) does not look like another list element.
pub proof fn lemma_headers_roundtrip(s: Seq<u8>, pos: int, tag: u8, hs: Seq<HttpHeaderV>)
    requires
        0 <= pos,
        pos + spec_enc_headers(hs, tag).len() <= s.len(),
        s.subrange(pos, pos + spec_enc_headers(hs, tag).len() as int) == spec_enc_headers(hs, tag),
        wf_headers(hs),
        pos + spec_enc_headers(hs, tag).len() == s.len() || s[pos + spec_enc_headers(
            hs,
            tag,
        ).len() as int] != tag,
    ensures
        sp_headers(s, pos, tag) == Ok::<(Seq<HttpHeaderV>, int), DecodeError>(
            (hs, pos + spec_enc_headers(hs, tag).len() as int),
        ),
    decreases hs.len(),
{
    let enc = spec_enc_headers(hs, tag);
    if hs.len() == 0 {
        assert(hs =~= Seq::<HttpHeaderV>::empty());
    } else {
        let body0 = spec_enc_header_body(hs[0]);
        let b0 = spec_block(tag, body0);
        let rest_enc = spec_enc_headers(hs.drop_first(), tag);
        assert(enc == b0 + rest_enc);
        assert(wf_header(hs[0]));
        assert(s.subrange(pos, pos + b0.len() as int) =~= b0) by {
            assert(forall|i: int|
                0 <= i < b0.len() ==> #[trigger] s.subrange(pos, pos + b0.len() as int)[i] == enc[i]);
        }
        lemma_block_roundtrip(s, pos, tag, body0);
        let vl = crate::codec::spec_varint(body0.len()).len() as int;
        let bstart = pos + 1 + vl;
        let bend = pos + b0.len() as int;
        lemma_header_body_roundtrip(hs[0]);
        assert(s[pos] == b0[0]);
        assert(s[pos] == tag);
        assert(s.subrange(bend, bend + rest_enc.len() as int) =~= rest_enc) by {
            assert(forall|i: int|
                0 <= i < rest_enc.len() ==> #[trigger] s.subrange(
                    bend,
                    bend + rest_enc.len() as int,
                )[i] == enc[i + b0.len()]);
        }
        assert(wf_headers(hs.drop_first())) by {
            assert(forall|i: int|
                0 <= i < hs.drop_first().len() ==> #[trigger] hs.drop_first()[i] == hs[i + 1]);
        }
        lemma_headers_roundtrip(s, bend, tag, hs.drop_first());
        assert(seq![hs[0]] + hs.drop_first() =~= hs);
    }
}

// ---------------------------------------------------------------------------
// Request origin
// ---------------------------------------------------------------------------

/// The body of an encoded origin: its identifier string.
pub open spec fn spec_enc_origin_body(id: Seq<char>) -> Seq<u8> {
    spec_string_block(TAG_F1_BLOCK, id)
}

/// An origin identifier fits the wire format.
pub open spec fn wf_origin(id: Seq<char>) -> bool {
    encode_utf8(id).len() <= VARINT_MAX
}

/// Parse an origin body: one identifier string, nothing after.
pub open spec fn sp_origin_body(s: Seq<u8>) -> Result<Seq<char>, DecodeError> {
    match sp_string(s, 0, TAG_F1_BLOCK) {
        Ok((id, p)) => if p == s.len() {
            Ok(id)
        } else {
            Err(DecodeError::Trailing)
        },
        Err(e) => Err(e),
    }
}

/// Encode an origin's body.
pub fn encode_origin_body(o: &RequestOrigin) -> (r: Result<Vec<u8>, ()>)
    ensures
        r is Ok ==> r->Ok_0@ == spec_enc_origin_body(o@) && wf_origin(o@),
        r is Err ==> !wf_origin(o@),
{
    let mut out: Vec<u8> = Vec::new();
    let r1 = emit_string_block(&mut out, TAG_F1_BLOCK, &o.id);
    if r1.is_err() {
        return Err(());
    }
    assert(out@ =~= spec_enc_origin_body(o@));
    Ok(out)
}

/// Decode an origin's body, mirroring `sp_origin_body`.
pub fn decode_origin_body(v: &Vec<u8>) -> (r: Result<RequestOrigin, DecodeError>)
    ensures
        match sp_origin_body(v@) {
            Ok(id) => r is Ok && r->Ok_0@ == id,
            Err(e) => r is Err && r->Err_0 == e,
        },
{
    match parse_string(v, 0, TAG_F1_BLOCK) {
        Ok((id, p)) => if p == v.len() {
            Ok(RequestOrigin { id })
        } else {
            Err(DecodeError::Trailing)
        },
        Err(e) => Err(e),
    }
}

/// An encoded origin body decodes back to its identifier.
pub proof fn lemma_origin_body_roundtrip(id: Seq<char>)
    requires
        wf_origin(id),
    ensures
        sp_origin_body(spec_enc_origin_body(id)) == Ok::<Seq<char>, DecodeError>(id),
{
    let s = spec_enc_origin_body(id);
    assert(s.subrange(0, s.len() as int) =~= s);
    lemma_string_roundtrip(s, 0, TAG_F1_BLOCK, id);
}

// ---------------------------------------------------------------------------
// HttpProxyRequest
// ---------------------------------------------------------------------------

/// The body of an encoded HTTP request: url, method, headers, body bytes.
pub open spec fn spec_enc_http_request_body(r: HttpProxyRequestV) -> Seq<u8> {
    spec_string_block(TAG_F1_BLOCK, r.url) + spec_string_block(TAG_F2_BLOCK, r.method)
        + spec_enc_headers(r.headers, TAG_F3_BLOCK) + spec_block(TAG_F4_BLOCK, r.body)
}

/// An HTTP request fits the wire format.
pub open spec fn wf_http_request(r: HttpProxyRequestV) -> bool {
    &&& encode_utf8(r.url).len() <= VARINT_MAX
    &&& encode_utf8(r.method).len() <= VARINT_MAX
    &&& wf_headers(r.headers)
    &&& r.body.len() <= VARINT_MAX
}

/// Parse an HTTP request's body.
pub open spec fn sp_http_request_body(s: Seq<u8>) -> Result<HttpProxyRequestV, DecodeError> {
    match sp_string(s, 0, TAG_F1_BLOCK) {
        Ok((url, p1)) => match sp_string(s, p1, TAG_F2_BLOCK) {
            Ok((method, p2)) => match sp_headers(s, p2, TAG_F3_BLOCK) {
                Ok((hs, p3)) => match sp_block(s, p3, TAG_F4_BLOCK) {
                    Ok((a, b)) => if b == s.len() {
                        Ok(
                            HttpProxyRequestV {
                                url,
                                method,
                                headers: hs,
                                body: s.subrange(a, b),
                            },
                        )
                    } else {
                        Err(DecodeError::Trailing)
                    },
                    Err(e) => Err(e),
                },
                Err(e) => Err(e),
            },
            Err(e) => Err(e),
        },
        Err(e) => Err(e),
    }
}

/// Encode an HTTP request's body.
pub fn encode_http_request_body(rq: &HttpProxyRequest) -> (r: Result<Vec<u8>, ()>)
    ensures
        r is Ok ==> r->Ok_0@ == spec_enc_http_request_body(rq@) && wf_http_request(rq@),
        r is Err ==> !wf_http_request(rq@),
{
    let mut out: Vec<u8> = Vec::new();
    let r1 = emit_string_block(&mut out, TAG_F1_BLOCK, &rq.url);
    if r1.is_err() {
        return Err(());
    }
    let r2 = emit_string_block(&mut out, TAG_F2_BLOCK, &rq.method);
    if r2.is_err() {
        return Err(());
    }
    let r3 = emit_headers(&mut out, TAG_F3_BLOCK, &rq.headers);
    if r3.is_err() {
        return Err(());
    }
    let mut body = subvec(&rq.body, 0, rq.body.len());
    assert(body@ =~= rq.body@);
    let r4 = emit_block(&mut out, TAG_F4_BLOCK, &mut body);
    if r4.is_err() {
        return Err(());
    }
    assert(out@ =~= spec_enc_http_request_body(rq@));
    Ok(out)
}

/// Decode an HTTP request's body, mirroring `sp_http_request_body`.
pub fn decode_http_request_body(v: &Vec<u8>) -> (r: Result<HttpProxyRequest, DecodeError>)
    ensures
        match sp_http_request_body(v@) {
            Ok(rq) => r is Ok && r->Ok_0@ == rq,
            Err(e) => r is Err && r->Err_0 == e,
        },
{
    match parse_string(v, 0, TAG_F1_BLOCK) {
        Ok((url, p1)) => {
            proof {
                lemma_sp_string_bounds(v@, 0, TAG_F1_BLOCK);
            }
            match parse_string(v, p1, TAG_F2_BLOCK) {
                Ok((method, p2)) => {
                    proof {
                        lemma_sp_string_bounds(v@, p1 as int, TAG_F2_BLOCK);
                    }
                    match decode_headers(v, p2, TAG_F3_BLOCK) {
                        Ok((headers, p3)) => {
                            proof {
                                lemma_sp_headers_bounds(v@, p2 as int, TAG_F3_BLOCK);
                            }
                            match parse_block(v, p3, TAG_F4_BLOCK) {
                                Ok((a, b)) => {
                                    proof {
                                        lemma_sp_block_bounds(v@, p3 as int, TAG_F4_BLOCK);
                                    }
                                    if b == v.len() {
                                        let body = subvec(v, a, b);
                                        Ok(HttpProxyRequest { url, method, headers, body })
                                    } else {
                                        Err(DecodeError::Trailing)
                                    }
                                },
                                Err(e) => Err(e),
                            }
                        },
                        Err(e) => Err(e),
                    }
                },
                Err(e) => Err(e),
            }
        },
        Err(e) => Err(e),
    }
}

/// A parsed header run ends at or after where it began, inside the input.
pub proof fn lemma_sp_headers_bounds(s: Seq<u8>, pos: int, tag: u8)
    requires
        sp_headers(s, pos, tag) is Ok,
        0 <= pos <= s.len(),
    ensures
        pos <= sp_headers(s, pos, tag)->Ok_0.1 <= s.len(),
    decreases s.len() - pos,
{
    if !(0 <= pos < s.len()) || s[pos] != tag {
    } else {
        let b = sp_block(s, pos, tag)->Ok_0.1;
        lemma_sp_block_bounds(s, pos, tag);
        lemma_sp_headers_bounds(s, b, tag);
    }
}

/// An encoded HTTP request body decodes back to the request it came from.
pub proof fn lemma_http_request_body_roundtrip(r: HttpProxyRequestV)
    requires
        wf_http_request(r),
    ensures
        sp_http_request_body(spec_enc_http_request_body(r)) == Ok::<HttpProxyRequestV, DecodeError>(
            r,
        ),
{
    let s = spec_enc_http_request_body(r);
    let sb1 = spec_string_block(TAG_F1_BLOCK, r.url);
    let sb2 = spec_string_block(TAG_F2_BLOCK, r.method);
    let hse = spec_enc_headers(r.headers, TAG_F3_BLOCK);
    let blk = spec_block(TAG_F4_BLOCK, r.body);
    let p1 = sb1.len() as int;
    let p2 = p1 + sb2.len() as int;
    let p3 = p2 + hse.len() as int;
    assert(s.subrange(0, p1) =~= sb1);
    lemma_string_roundtrip(s, 0, TAG_F1_BLOCK, r.url);
    assert(s.subrange(p1, p2) =~= sb2);
    lemma_string_roundtrip(s, p1, TAG_F2_BLOCK, r.method);
    assert(s.subrange(p2, p3) =~= hse);
    assert(s[p3] == blk[0]);
    assert(s[p3] == TAG_F4_BLOCK);
    assert(TAG_F4_BLOCK != TAG_F3_BLOCK);
    lemma_headers_roundtrip(s, p2, TAG_F3_BLOCK, r.headers);
    assert(s.subrange(p3, s.len() as int) =~= blk);
    lemma_block_roundtrip(s, p3, TAG_F4_BLOCK, r.body);
}

// ---------------------------------------------------------------------------
// WebSocketOpenProxyRequest
// ---------------------------------------------------------------------------

/// The body of an encoded WebSocket open request: url then headers.
pub open spec fn spec_enc_ws_open_body(r: WebSocketOpenProxyRequestV) -> Seq<u8> {
    spec_string_block(TAG_F1_BLOCK, r.url) + spec_enc_headers(r.headers, TAG_F2_BLOCK)
}

/// A WebSocket open request fits the wire format.
pub open spec fn wf_ws_open(r: WebSocketOpenProxyRequestV) -> bool {
    &&& encode_utf8(r.url).len() <= VARINT_MAX
    &&& wf_headers(r.headers)
}

/// Parse a WebSocket open request's body.
pub open spec fn sp_ws_open_body(s: Seq<u8>) -> Result<WebSocketOpenProxyRequestV, DecodeError> {
    match sp_string(s, 0, TAG_F1_BLOCK) {
        Ok((url, p1)) => match sp_headers(s, p1, TAG_F2_BLOCK) {
            Ok((hs, p2)) => if p2 == s.len() {
                Ok(WebSocketOpenProxyRequestV { url, headers: hs })
            } else {
                Err(DecodeError::Trailing)
            },
            Err(e) => Err(e),
        },
        Err(e) => Err(e),
    }
}

/// Encode a WebSocket open request's body.
pub fn encode_ws_open_body(rq: &WebSocketOpenProxyRequest) -> (r: Result<Vec<u8>, ()>)
    ensures
        r is Ok ==> r->Ok_0@ == spec_enc_ws_open_body(rq@) && wf_ws_open(rq@),
        r is Err ==> !wf_ws_open(rq@),
{
    let mut out: Vec<u8> = Vec::new();
    let r1 = emit_string_block(&mut out, TAG_F1_BLOCK, &rq.url);
    if r1.is_err() {
        return Err(());
    }
    let r2 = emit_headers(&mut out, TAG_F2_BLOCK, &rq.headers);
    if r2.is_err() {
        return Err(());
    }
    assert(out@ =~= spec_enc_ws_open_body(rq@));
    Ok(out)
}

/// Decode a WebSocket open request's body, mirroring `sp_ws_open_body`.
pub fn decode_ws_open_body(v: &Vec<u8>) -> (r: Result<WebSocketOpenProxyRequest, DecodeError>)
    ensures
        match sp_ws_open_body(v@) {
            Ok(rq) => r is Ok && r->Ok_0@ == rq,
            Err(e) => r is Err && r->Err_0 == e,
        },
{
    match parse_string(v, 0, TAG_F1_BLOCK) {
        Ok((url, p1)) => {
            proof {
                lemma_sp_string_bounds(v@, 0, TAG_F1_BLOCK);
            }
            match decode_headers(v, p1, TAG_F2_BLOCK) {
                Ok((headers, p2)) => if p2 == v.len() {
                    Ok(WebSocketOpenProxyRequest { url, headers })
                } else {
                    Err(DecodeError::Trailing)
                },
                Err(e) => Err(e),
            }
        },
        Err(e) => Err(e),
    }
}

/// An encoded WebSocket open body decodes back to the request it came from.
pub proof fn lemma_ws_open_body_roundtrip(r: WebSocketOpenProxyRequestV)
    requires
        wf_ws_open(r),
    ensures
        sp_ws_open_body(spec_enc_ws_open_body(r)) == Ok::<WebSocketOpenProxyRequestV, DecodeError>(
            r,
        ),
{
    let s = spec_enc_ws_open_body(r);
    let sb1 = spec_string_block(TAG_F1_BLOCK, r.url);
    let hse = spec_enc_headers(r.headers, TAG_F2_BLOCK);
    let p1 = sb1.len() as int;
    assert(s.subrange(0, p1) =~= sb1);
    lemma_string_roundtrip(s, 0, TAG_F1_BLOCK, r.url);
    assert(s.subrange(p1, s.len() as int) =~= hse);
    lemma_headers_roundtrip(s, p1, TAG_F2_BLOCK, r.headers);
}

// ---------------------------------------------------------------------------
// WebSocketProxyMessage
// ---------------------------------------------------------------------------

/// The wire code of a WebSocket payload kind.
pub open spec fn ws_type_code(t: WebSocketMessageType) -> nat {
    match t {
        WebSocketMessageType::Text => 0,
        WebSocketMessageType::Binary => 1,
    }
}

/// The body of an encoded WebSocket payload: its kind then its bytes.
pub open spec fn spec_enc_ws_message_body(m: WebSocketProxyMessageV) -> Seq<u8> {
    spec_varint_field(TAG_F1_VARINT, ws_type_code(m.message_type)) + spec_block(
        TAG_F2_BLOCK,
        m.data,
    )
}

/// A WebSocket payload fits the wire format.
pub open spec fn wf_ws_message(m: WebSocketProxyMessageV) -> bool {
    m.data.len() <= VARINT_MAX
}

/// Parse a WebSocket payload's body.
pub open spec fn sp_ws_message_body(s: Seq<u8>) -> Result<WebSocketProxyMessageV, DecodeError> {
    match sp_varint_field(s, 0, TAG_F1_VARINT) {
        Ok((n, p1)) => if n == 0 || n == 1 {
            match sp_block(s, p1, TAG_F2_BLOCK) {
                Ok((a, b)) => if b == s.len() {
                    Ok(
                        WebSocketProxyMessageV {
                            message_type: if n == 0 {
                                WebSocketMessageType::Text
                            } else {
                                WebSocketMessageType::Binary
                            },
                            data: s.subrange(a, b),
                        },
                    )
                } else {
                    Err(DecodeError::Trailing)
                },
                Err(e) => Err(e),
            }
        } else {
            Err(DecodeError::Malformed)
        },
        Err(e) => Err(e),
    }
}

/// Encode a WebSocket payload's body.
pub fn encode_ws_message_body(m: &WebSocketProxyMessage) -> (r: Result<Vec<u8>, ()>)
    ensures
        r is Ok ==> r->Ok_0@ == spec_enc_ws_message_body(m@) && wf_ws_message(m@),
        r is Err ==> !wf_ws_message(m@),
{
    let mut out: Vec<u8> = Vec::new();
    let code: u64 = match m.message_type {
        WebSocketMessageType::Text => 0,
        WebSocketMessageType::Binary => 1,
    };
    emit_varint_field(&mut out, TAG_F1_VARINT, code);
    let mut data = subvec(&m.data, 0, m.data.len());
    assert(data@ =~= m.data@);
    let r1 = emit_block(&mut out, TAG_F2_BLOCK, &mut data);
    if r1.is_err() {
        return Err(());
    }
    assert(out@ =~= spec_enc_ws_message_body(m@));
    Ok(out)
}

/// Decode a WebSocket payload's body, mirroring `sp_ws_message_body`.
pub fn decode_ws_message_body(v: &Vec<u8>) -> (r: Result<WebSocketProxyMessage, DecodeError>)
    ensures
        match sp_ws_message_body(v@) {
            Ok(m) => r is Ok && r->Ok_0@ == m,
            Err(e) => r is Err && r->Err_0 == e,
        },
{
    match parse_varint_field(v, 0, TAG_F1_VARINT) {
        Ok((n, p1)) => if n == 0 || n == 1 {
            match parse_block(v, p1, TAG_F2_BLOCK) {
                Ok((a, b)) => {
                    proof {
                        lemma_sp_block_bounds(v@, p1 as int, TAG_F2_BLOCK);
                    }
                    if b == v.len() {
                        let data = subvec(v, a, b);
                        Ok(
                            WebSocketProxyMessage {
                                message_type: if n == 0 {
                                    WebSocketMessageType::Text
                                } else {
                                    WebSocketMessageType::Binary
                                },
                                data,
                            },
                        )
                    } else {
                        Err(DecodeError::Trailing)
                    }
                },
                Err(e) => Err(e),
            }
        } else {
            Err(DecodeError::Malformed)
        },
        Err(e) => Err(e),
    }
}

/// An encoded WebSocket payload body decodes back to the payload.
pub proof fn lemma_ws_message_body_roundtrip(m: WebSocketProxyMessageV)
    requires
        wf_ws_message(m),
    ensures
        sp_ws_message_body(spec_enc_ws_message_body(m)) == Ok::<WebSocketProxyMessageV, DecodeError>(
            m,
        ),
{
    let s = spec_enc_ws_message_body(m);
    let vf = spec_varint_field(TAG_F1_VARINT, ws_type_code(m.message_type));
    let blk = spec_block(TAG_F2_BLOCK, m.data);
    let p1 = vf.len() as int;
    assert(s.subrange(0, p1) =~= vf);
    lemma_varint_field_roundtrip(s, 0, TAG_F1_VARINT, ws_type_code(m.message_type));
    assert(s.subrange(p1, s.len() as int) =~= blk);
    lemma_block_roundtrip(s, p1, TAG_F2_BLOCK, m.data);
}

// ---------------------------------------------------------------------------
// HttpResponseHeaders
// ---------------------------------------------------------------------------

/// The body of an encoded response-headers reply: status then headers.
pub open spec fn spec_enc_http_headers_body(h: HttpResponseHeadersV) -> Seq<u8> {
    spec_varint_field(TAG_F1_VARINT, h.status_code as nat) + spec_enc_headers(
        h.headers,
        TAG_F2_BLOCK,
    )
}

/// A response-headers reply fits the wire format.
pub open spec fn wf_http_headers(h: HttpResponseHeadersV) -> bool {
    wf_headers(h.headers)
}

/// Parse a response-headers reply's body.
pub open spec fn sp_http_headers_body(s: Seq<u8>) -> Result<HttpResponseHeadersV, DecodeError> {
    match sp_varint_field(s, 0, TAG_F1_VARINT) {
        Ok((n, p1)) => match sp_headers(s, p1, TAG_F2_BLOCK) {
            Ok((hs, p2)) => if p2 == s.len() {
                Ok(HttpResponseHeadersV { status_code: n as u32, headers: hs })
            } else {
                Err(DecodeError::Trailing)
            },
            Err(e) => Err(e),
        },
        Err(e) => Err(e),
    }
}

/// Encode a response-headers reply's body.
pub fn encode_http_headers_body(h: &HttpResponseHeaders) -> (r: Result<Vec<u8>, ()>)
    ensures
        r is Ok ==> r->Ok_0@ == spec_enc_http_headers_body(h@) && wf_http_headers(h@),
        r is Err ==> !wf_http_headers(h@),
{
    let mut out: Vec<u8> = Vec::new();
    emit_varint_field(&mut out, TAG_F1_VARINT, h.status_code as u64);
    let r1 = emit_headers(&mut out, TAG_F2_BLOCK, &h.headers);
    if r1.is_err() {
        return Err(());
    }
    assert(out@ =~= spec_enc_http_headers_body(h@));
    Ok(out)
}

/// Decode a response-headers reply's body, mirroring `sp_http_headers_body`.
pub fn decode_http_headers_body(v: &Vec<u8>) -> (r: Result<HttpResponseHeaders, DecodeError>)
    ensures
        match sp_http_headers_body(v@) {
            Ok(h) => r is Ok && r->Ok_0@ == h,
            Err(e) => r is Err && r->Err_0 == e,
        },
{
    match parse_varint_field(v, 0, TAG_F1_VARINT) {
        Ok((n, p1)) => {
            proof {
                lemma_sp_varint_field_bounds(v@, 0, TAG_F1_VARINT);
            }
            match decode_headers(v, p1, TAG_F2_BLOCK) {
                Ok((headers, p2)) => if p2 == v.len() {
                    Ok(HttpResponseHeaders { status_code: n as u32, headers })
                } else {
                    Err(DecodeError::Trailing)
                },
                Err(e) => Err(e),
            }
        },
        Err(e) => Err(e),
    }
}

/// An encoded response-headers body decodes back to the reply.
pub proof fn lemma_http_headers_body_roundtrip(h: HttpResponseHeadersV)
    requires
        wf_http_headers(h),
    ensures
        sp_http_headers_body(spec_enc_http_headers_body(h)) == Ok::<
            HttpResponseHeadersV,
            DecodeError,
        >(h),
{
    let s = spec_enc_http_headers_body(h);
    let vf = spec_varint_field(TAG_F1_VARINT, h.status_code as nat);
    let hse = spec_enc_headers(h.headers, TAG_F2_BLOCK);
    let p1 = vf.len() as int;
    assert(s.subrange(0, p1) =~= vf);
    lemma_varint_field_roundtrip(s, 0, TAG_F1_VARINT, h.status_code as nat);
    assert(s.subrange(p1, s.len() as int) =~= hse);
    lemma_headers_roundtrip(s, p1, TAG_F2_BLOCK, h.headers);
}

// ---------------------------------------------------------------------------
// HttpResponseBodyChunk
// ---------------------------------------------------------------------------

/// The body of an encoded chunk reply: the chunk's bytes.
pub open spec fn spec_enc_chunk_body(c: HttpResponseBodyChunkV) -> Seq<u8> {
    spec_block(TAG_F1_BLOCK, c.chunk)
}

/// A chunk reply fits the wire format.
pub open spec fn wf_chunk(c: HttpResponseBodyChunkV) -> bool {
    c.chunk.len() <= VARINT_MAX
}

/// Parse a chunk reply's body.
pub open spec fn sp_chunk_body(s: Seq<u8>) -> Result<HttpResponseBodyChunkV, DecodeError> {
    match sp_block(s, 0, TAG_F1_BLOCK) {
        Ok((a, b)) => if b == s.len() {
            Ok(HttpResponseBodyChunkV { chunk: s.subrange(a, b) })
        } else {
            Err(DecodeError::Trailing)
        },
        Err(e) => Err(e),
    }
}

/// Encode a chunk reply's body.
pub fn encode_chunk_body(c: &HttpResponseBodyChunk) -> (r: Result<Vec<u8>, ()>)
    ensures
        r is Ok ==> r->Ok_0@ == spec_enc_chunk_body(c@) && wf_chunk(c@),
        r is Err ==> !wf_chunk(c@),
{
    let mut out: Vec<u8> = Vec::new();
    let mut data = subvec(&c.chunk, 0, c.chunk.len());
    assert(data@ =~= c.chunk@);
    let r1 = emit_block(&mut out, TAG_F1_BLOCK, &mut data);
    if r1.is_err() {
        return Err(());
    }
    assert(out@ =~= spec_enc_chunk_body(c@));
    Ok(out)
}

/// Decode a chunk reply's body, mirroring `sp_chunk_body`.
pub fn decode_chunk_body(v: &Vec<u8>) -> (r: Result<HttpResponseBodyChunk, DecodeError>)
    ensures
        match sp_chunk_body(v@) {
            Ok(c) => r is Ok && r->Ok_0@ == c,
            Err(e) => r is Err && r->Err_0 == e,
        },
{
    match parse_block(v, 0, TAG_F1_BLOCK) {
        Ok((a, b)) => {
            proof {
                lemma_sp_block_bounds(v@, 0, TAG_F1_BLOCK);
            }
            if b == v.len() {
                Ok(HttpResponseBodyChunk { chunk: subvec(v, a, b) })
            } else {
                Err(DecodeError::Trailing)
            }
        },
        Err(e) => Err(e),
    }
}

/// An encoded chunk body decodes back to the chunk.
pub proof fn lemma_chunk_body_roundtrip(c: HttpResponseBodyChunkV)
    requires
        wf_chunk(c),
    ensures
        sp_chunk_body(spec_enc_chunk_body(c)) == Ok::<HttpResponseBodyChunkV, DecodeError>(c),
{
    let s = spec_enc_chunk_body(c);
    assert(s.subrange(0, s.len() as int) =~= s);
    lemma_block_roundtrip(s, 0, TAG_F1_BLOCK, c.chunk);
}

// ---------------------------------------------------------------------------
// HttpRequestError
// ---------------------------------------------------------------------------

/// The body of an encoded HTTP error reply: message then code.
pub open spec fn spec_enc_http_error_body(e: HttpRequestErrorV) -> Seq<u8> {
    spec_string_block(TAG_F1_BLOCK, e.error_message) + spec_varint_field(
        TAG_F2_VARINT,
        e.error_code as nat,
    )
}

/// An HTTP error reply fits the wire format.
pub open spec fn wf_http_error(e: HttpRequestErrorV) -> bool {
    encode_utf8(e.error_message).len() <= VARINT_MAX
}

/// Parse an HTTP error reply's body.
pub open spec fn sp_http_error_body(s: Seq<u8>) -> Result<HttpRequestErrorV, DecodeError> {
    match sp_string(s, 0, TAG_F1_BLOCK) {
        Ok((msg, p1)) => match sp_varint_field(s, p1, TAG_F2_VARINT) {
            Ok((n, p2)) => if p2 == s.len() {
                Ok(HttpRequestErrorV { error_message: msg, error_code: n as u32 })
            } else {
                Err(DecodeError::Trailing)
            },
            Err(e) => Err(e),
        },
        Err(e) => Err(e),
    }
}

/// Encode an HTTP error reply's body.
pub fn encode_http_error_body(e: &HttpRequestError) -> (r: Result<Vec<u8>, ()>)
    ensures
        r is Ok ==> r->Ok_0@ == spec_enc_http_error_body(e@) && wf_http_error(e@),
        r is Err ==> !wf_http_error(e@),
{
    let mut out: Vec<u8> = Vec::new();
    let r1 = emit_string_block(&mut out, TAG_F1_BLOCK, &e.error_message);
    if r1.is_err() {
        return Err(());
    }
    emit_varint_field(&mut out, TAG_F2_VARINT, e.error_code as u64);
    assert(out@ =~= spec_enc_http_error_body(e@));
    Ok(out)
}

/// Decode an HTTP error reply's body, mirroring `sp_http_error_body`.
pub fn decode_http_error_body(v: &Vec<u8>) -> (r: Result<HttpRequestError, DecodeError>)
    ensures
        match sp_http_error_body(v@) {
            Ok(e) => r is Ok && r->Ok_0@ == e,
            Err(e) => r is Err && r->Err_0 == e,
        },
{
    match parse_string(v, 0, TAG_F1_BLOCK) {
        Ok((msg, p1)) => match parse_varint_field(v, p1, TAG_F2_VARINT) {
            Ok((n, p2)) => if p2 == v.len() {
                Ok(HttpRequestError { error_message: msg, error_code: n as u32 })
            } else {
                Err(DecodeError::Trailing)
            },
            Err(e) => Err(e),
        },
        Err(e) => Err(e),
    }
}

/// An encoded HTTP error body decodes back to the reply.
pub proof fn lemma_http_error_body_roundtrip(e: HttpRequestErrorV)
    requires
        wf_http_error(e),
    ensures
        sp_http_error_body(spec_enc_http_error_body(e)) == Ok::<HttpRequestErrorV, DecodeError>(e),
{
    let s = spec_enc_http_error_body(e);
    let sb1 = spec_string_block(TAG_F1_BLOCK, e.error_message);
    let vf = spec_varint_field(TAG_F2_VARINT, e.error_code as nat);
    let p1 = sb1.len() as int;
    assert(s.subrange(0, p1) =~= sb1);
    lemma_string_roundtrip(s, 0, TAG_F1_BLOCK, e.error_message);
    assert(s.subrange(p1, s.len() as int) =~= vf);
    lemma_varint_field_roundtrip(s, p1, TAG_F2_VARINT, e.error_code as nat);
}

// ---------------------------------------------------------------------------
// WebSocketOpenedResponse and WebSocketError
// ---------------------------------------------------------------------------

/// The body of an encoded opened reply: the handshake's headers.
pub open spec fn spec_enc_ws_opened_body(w: WebSocketOpenedResponseV) -> Seq<u8> {
    spec_enc_headers(w.headers, TAG_F1_BLOCK)
}

/// An opened reply fits the wire format.
pub open spec fn wf_ws_opened(w: WebSocketOpenedResponseV) -> bool {
    wf_headers(w.headers)
}

/// Parse an opened reply's body.
pub open spec fn sp_ws_opened_body(s: Seq<u8>) -> Result<WebSocketOpenedResponseV, DecodeError> {
    match sp_headers(s, 0, TAG_F1_BLOCK) {
        Ok((hs, p)) => if p == s.len() {
            Ok(WebSocketOpenedResponseV { headers: hs })
        } else {
            Err(DecodeError::UnknownTag)
        },
        Err(e) => Err(e),
    }
}

/// Encode an opened reply's body.
pub fn encode_ws_opened_body(w: &WebSocketOpenedResponse) -> (r: Result<Vec<u8>, ()>)
    ensures
        r is Ok ==> r->Ok_0@ == spec_enc_ws_opened_body(w@) && wf_ws_opened(w@),
        r is Err ==> !wf_ws_opened(w@),
{
    let mut out: Vec<u8> = Vec::new();
    let r1 = emit_headers(&mut out, TAG_F1_BLOCK, &w.headers);
    if r1.is_err() {
        return Err(());
    }
    assert(out@ =~= spec_enc_ws_opened_body(w@));
    Ok(out)
}

/// Decode an opened reply's body, mirroring `sp_ws_opened_body`.
pub fn decode_ws_opened_body(v: &Vec<u8>) -> (r: Result<WebSocketOpenedResponse, DecodeError>)
    ensures
        match sp_ws_opened_body(v@) {
            Ok(w) => r is Ok && r->Ok_0@ == w,
            Err(e) => r is Err && r->Err_0 == e,
        },
{
    match decode_headers(v, 0, TAG_F1_BLOCK) {
        Ok((headers, p)) => if p == v.len() {
            Ok(WebSocketOpenedResponse { headers })
        } else {
            Err(DecodeError::UnknownTag)
        },
        Err(e) => Err(e),
    }
}

/// An encoded opened body decodes back to the reply.
pub proof fn lemma_ws_opened_body_roundtrip(w: WebSocketOpenedResponseV)
    requires
        wf_ws_opened(w),
    ensures
        sp_ws_opened_body(spec_enc_ws_opened_body(w)) == Ok::<WebSocketOpenedResponseV, DecodeError>(
            w,
        ),
{
    let s = spec_enc_ws_opened_body(w);
    assert(s.subrange(0, s.len() as int) =~= s);
    lemma_headers_roundtrip(s, 0, TAG_F1_BLOCK, w.headers);
}

/// The body of an encoded WebSocket error reply: its message.
pub open spec fn spec_enc_ws_error_body(e: WebSocketErrorV) -> Seq<u8> {
    spec_string_block(TAG_F1_BLOCK, e.error_message)
}

/// A WebSocket error reply fits the wire format.
pub open spec fn wf_ws_error(e: WebSocketErrorV) -> bool {
    encode_utf8(e.error_message).len() <= VARINT_MAX
}

/// Parse a WebSocket error reply's body.
pub open spec fn sp_ws_error_body(s: Seq<u8>) -> Result<WebSocketErrorV, DecodeError> {
    match sp_string(s, 0, TAG_F1_BLOCK) {
        Ok((msg, p)) => if p == s.len() {
            Ok(WebSocketErrorV { error_message: msg })
        } else {
            Err(DecodeError::Trailing)
        },
        Err(e) => Err(e),
    }
}

/// Encode a WebSocket error reply's body.
pub fn encode_ws_error_body(e: &WebSocketError) -> (r: Result<Vec<u8>, ()>)
    ensures
        r is Ok ==> r->Ok_0@ == spec_enc_ws_error_body(e@) && wf_ws_error(e@),
        r is Err ==> !wf_ws_error(e@),
{
    let mut out: Vec<u8> = Vec::new();
    let r1 = emit_string_block(&mut out, TAG_F1_BLOCK, &e.error_message);
    if r1.is_err() {
        return Err(());
    }
    assert(out@ =~= spec_enc_ws_error_body(e@));
    Ok(out)
}

/// Decode a WebSocket error reply's body, mirroring `sp_ws_error_body`.
pub fn decode_ws_error_body(v: &Vec<u8>) -> (r: Result<WebSocketError, DecodeError>)
    ensures
        match sp_ws_error_body(v@) {
            Ok(e) => r is Ok && r->Ok_0@ == e,
            Err(e) => r is Err && r->Err_0 == e,
        },
{
    match parse_string(v, 0, TAG_F1_BLOCK) {
        Ok((msg, p)) => if p == v.len() {
            Ok(WebSocketError { error_message: msg })
        } else {
            Err(DecodeError::Trailing)
        },
        Err(e) => Err(e),
    }
}

/// An encoded WebSocket error body decodes back to the reply.
pub proof fn lemma_ws_error_body_roundtrip(e: WebSocketErrorV)
    requires
        wf_ws_error(e),
    ensures
        sp_ws_error_body(spec_enc_ws_error_body(e)) == Ok::<WebSocketErrorV, DecodeError>(e),
{
    let s = spec_enc_ws_error_body(e);
    assert(s.subrange(0, s.len() as int) =~= s);
    lemma_string_roundtrip(s, 0, TAG_F1_BLOCK, e.error_message);
}

// ---------------------------------------------------------------------------
// The client -> bridge envelope
// ---------------------------------------------------------------------------

/// The tag that carries each command payload variant.
pub open spec fn client_payload_tag(p: ClientPayloadV) -> u8 {
    match p {
        ClientPayloadV::HttpRequest(_) => TAG_F2_BLOCK,
        ClientPayloadV::WsOpenRequest(_) => TAG_F3_BLOCK,
        ClientPayloadV::WsMessageToServer(_) => TAG_F4_BLOCK,
        ClientPayloadV::WsCloseRequest => TAG_F5_BLOCK,
    }
}

/// The body a command payload encodes to.
pub open spec fn spec_enc_client_payload_body(p: ClientPayloadV) -> Seq<u8> {
    match p {
        ClientPayloadV::HttpRequest(r) => spec_enc_http_request_body(r),
        ClientPayloadV::WsOpenRequest(r) => spec_enc_ws_open_body(r),
        ClientPayloadV::WsMessageToServer(m) => spec_enc_ws_message_body(m),
        ClientPayloadV::WsCloseRequest => Seq::empty(),
    }
}

/// A command payload fits the wire format.
pub open spec fn wf_client_payload(p: ClientPayloadV) -> bool {
    &&& match p {
        ClientPayloadV::HttpRequest(r) => wf_http_request(r),
        ClientPayloadV::WsOpenRequest(r) => wf_ws_open(r),
        ClientPayloadV::WsMessageToServer(m) => wf_ws_message(m),
        ClientPayloadV::WsCloseRequest => true,
    }
    &&& spec_enc_client_payload_body(p).len() <= VARINT_MAX
}

/// The bytes a whole command envelope encodes to: the origin block if
/// present, then the payload block if present.
pub open spec fn spec_enc_client(c: ClientToServerMessageV) -> Seq<u8> {
    (match c.origin {
        Some(id) => spec_block(TAG_F1_BLOCK, spec_enc_origin_body(id)),
        None => Seq::empty(),
    }) + (match c.payload {
        Some(p) => spec_block(client_payload_tag(p), spec_enc_client_payload_body(p)),
        None => Seq::empty(),
    })
}

/// A command envelope fits the wire format.
pub open spec fn wf_client(c: ClientToServerMessageV) -> bool {
    &&& match c.origin {
        Some(id) => wf_origin(id) && spec_enc_origin_body(id).len() <= VARINT_MAX,
        None => true,
    }
    &&& match c.payload {
        Some(p) => wf_client_payload(p),
        None => true,
    }
}

/// Parse what follows the optional origin block of a command envelope.
pub open spec fn sp_client_after_origin(
    s: Seq<u8>,
    pos: int,
    origin: Option<Seq<char>>,
) -> Result<ClientToServerMessageV, DecodeError> {
    if pos == s.len() {
        Ok(ClientToServerMessageV { origin, payload: None })
    } else if !(0 <= pos < s.len()) {
        Err(DecodeError::Truncated)
    } else if s[pos] == TAG_F2_BLOCK {
        match sp_block(s, pos, TAG_F2_BLOCK) {
            Ok((a, b)) => match sp_http_request_body(s.subrange(a, b)) {
                Ok(rq) => if b == s.len() {
                    Ok(
                        ClientToServerMessageV {
                            origin,
                            payload: Some(ClientPayloadV::HttpRequest(rq)),
                        },
                    )
                } else {
                    Err(DecodeError::Trailing)
                },
                Err(e) => Err(e),
            },
            Err(e) => Err(e),
        }
    } else if s[pos] == TAG_F3_BLOCK {
        match sp_block(s, pos, TAG_F3_BLOCK) {
            Ok((a, b)) => match sp_ws_open_body(s.subrange(a, b)) {
                Ok(rq) => if b == s.len() {
                    Ok(
                        ClientToServerMessageV {
                            origin,
                            payload: Some(ClientPayloadV::WsOpenRequest(rq)),
                        },
                    )
                } else {
                    Err(DecodeError::Trailing)
                },
                Err(e) => Err(e),
            },
            Err(e) => Err(e),
        }
    } else if s[pos] == TAG_F4_BLOCK {
        match sp_block(s, pos, TAG_F4_BLOCK) {
            Ok((a, b)) => match sp_ws_message_body(s.subrange(a, b)) {
                Ok(m) => if b == s.len() {
                    Ok(
                        ClientToServerMessageV {
                            origin,
                            payload: Some(ClientPayloadV::WsMessageToServer(m)),
                        },
                    )
                } else {
                    Err(DecodeError::Trailing)
                },
                Err(e) => Err(e),
            },
            Err(e) => Err(e),
        }
    } else if s[pos] == TAG_F5_BLOCK {
        match sp_block(s, pos, TAG_F5_BLOCK) {
            Ok((a, b)) => if a == b {
                if b == s.len() {
                    Ok(
                        ClientToServerMessageV {
                            origin,
                            payload: Some(ClientPayloadV::WsCloseRequest),
                        },
                    )
                } else {
                    Err(DecodeError::Trailing)
                }
            } else {
                Err(DecodeError::Trailing)
            },
            Err(e) => Err(e),
        }
    } else {
        Err(DecodeError::UnknownTag)
    }
}

/// Parse a whole command envelope.
pub open spec fn sp_client(s: Seq<u8>) -> Result<ClientToServerMessageV, DecodeError> {
    if s.len() > 0 && s[0] == TAG_F1_BLOCK {
        match sp_block(s, 0, TAG_F1_BLOCK) {
            Ok((a, b)) => match sp_origin_body(s.subrange(a, b)) {
                Ok(id) => sp_client_after_origin(s, b, Some(id)),
                Err(e) => Err(e),
            },
            Err(e) => Err(e),
        }
    } else {
        sp_client_after_origin(s, 0, None)
    }
}

/// The view of an optional origin.
pub open spec fn origin_view(o: Option<RequestOrigin>) -> Option<Seq<char>> {
    match o {
        Some(x) => Some(x@),
        None => None,
    }
}

/// Decode the rest of a command envelope once its origin is known.
fn decode_client_after_origin(v: &Vec<u8>, pos: usize, origin: Option<RequestOrigin>) -> (r:
    Result<ClientToServerMessage, DecodeError>)
    requires
        pos <= v.len(),
    ensures
        match sp_client_after_origin(v@, pos as int, origin_view(origin)) {
            Ok(m) => r is Ok && r->Ok_0@ == m,
            Err(e) => r is Err && r->Err_0 == e,
        },
{
    if pos == v.len() {
        return Ok(ClientToServerMessage { origin, payload: None });
    }
    let tag = v[pos];
    if tag == TAG_F2_BLOCK {
        match parse_block(v, pos, TAG_F2_BLOCK) {
            Ok((a, b)) => {
                proof {
                    lemma_sp_block_bounds(v@, pos as int, TAG_F2_BLOCK);
                }
                let body = subvec(v, a, b);
                match decode_http_request_body(&body) {
                    Ok(rq) => if b == v.len() {
                        Ok(
                            ClientToServerMessage {
                                origin,
                                payload: Some(ClientPayload::HttpRequest(rq)),
                            },
                        )
                    } else {
                        Err(DecodeError::Trailing)
                    },
                    Err(e) => Err(e),
                }
            },
            Err(e) => Err(e),
        }
    } else if tag == TAG_F3_BLOCK {
        match parse_block(v, pos, TAG_F3_BLOCK) {
            Ok((a, b)) => {
                proof {
                    lemma_sp_block_bounds(v@, pos as int, TAG_F3_BLOCK);
                }
                let body = subvec(v, a, b);
                match decode_ws_open_body(&body) {
                    Ok(rq) => if b == v.len() {
                        Ok(
                            ClientToServerMessage {
                                origin,
                                payload: Some(ClientPayload::WsOpenRequest(rq)),
                            },
                        )
                    } else {
                        Err(DecodeError::Trailing)
                    },
                    Err(e) => Err(e),
                }
            },
            Err(e) => Err(e),
        }
    } else if tag == TAG_F4_BLOCK {
        match parse_block(v, pos, TAG_F4_BLOCK) {
            Ok((a, b)) => {
                proof {
                    lemma_sp_block_bounds(v@, pos as int, TAG_F4_BLOCK);
                }
                let body = subvec(v, a, b);
                match decode_ws_message_body(&body) {
                    Ok(m) => if b == v.len() {
                        Ok(
                            ClientToServerMessage {
                                origin,
                                payload: Some(ClientPayload::WsMessageToServer(m)),
                            },
                        )
                    } else {
                        Err(DecodeError::Trailing)
                    },
                    Err(e) => Err(e),
                }
            },
            Err(e) => Err(e),
        }
    } else if tag == TAG_F5_BLOCK {
        match parse_block(v, pos, TAG_F5_BLOCK) {
            Ok((a, b)) => if a == b {
                if b == v.len() {
                    Ok(
                        ClientToServerMessage {
                            origin,
                            payload: Some(
                                ClientPayload::WsCloseRequest(WebSocketCloseProxyRequest {  }),
                            ),
                        },
                    )
                } else {
                    Err(DecodeError::Trailing)
                }
            } else {
                Err(DecodeError::Trailing)
            },
            Err(e) => Err(e),
        }
    } else {
        Err(DecodeError::UnknownTag)
    }
}

/// Decode a whole command envelope, mirroring `sp_client`.
pub fn decode_client(v: &Vec<u8>) -> (r: Result<ClientToServerMessage, DecodeError>)
    ensures
        match sp_client(v@) {
            Ok(m) => r is Ok && r->Ok_0@ == m,
            Err(e) => r is Err && r->Err_0 == e,
        },
{
    if v.len() > 0 && v[0] == TAG_F1_BLOCK {
        match parse_block(v, 0, TAG_F1_BLOCK) {
            Ok((a, b)) => {
                proof {
                    lemma_sp_block_bounds(v@, 0, TAG_F1_BLOCK);
                }
                let body = subvec(v, a, b);
                match decode_origin_body(&body) {
                    Ok(o) => decode_client_after_origin(v, b, Some(o)),
                    Err(e) => Err(e),
                }
            },
            Err(e) => Err(e),
        }
    } else {
        decode_client_after_origin(v, 0, None)
    }
}

/// Encode a whole command envelope; refused exactly when some field is too
/// long for the wire format.
pub fn encode_client(m: &ClientToServerMessage) -> (r: Option<Vec<u8>>)
    ensures
        r is Some <==> wf_client(m@),
        r is Some ==> r->0@ == spec_enc_client(m@),
{
    let mut out: Vec<u8> = Vec::new();
    match &m.origin {
        Some(o) => {
            match encode_origin_body(o) {
                Ok(mut body) => {
                    let r1 = emit_block(&mut out, TAG_F1_BLOCK, &mut body);
                    if r1.is_err() {
                        return None;
                    }
                },
                Err(_) => {
                    return None;
                },
            }
        },
        None => {},
    }
    match &m.payload {
        Some(p) => {
            let body = match p {
                ClientPayload::HttpRequest(rq) => encode_http_request_body(rq),
                ClientPayload::WsOpenRequest(rq) => encode_ws_open_body(rq),
                ClientPayload::WsMessageToServer(ms) => encode_ws_message_body(ms),
                ClientPayload::WsCloseRequest(_) => Ok(Vec::new()),
            };
            let tag: u8 = match p {
                ClientPayload::HttpRequest(_) => TAG_F2_BLOCK,
                ClientPayload::WsOpenRequest(_) => TAG_F3_BLOCK,
                ClientPayload::WsMessageToServer(_) => TAG_F4_BLOCK,
                ClientPayload::WsCloseRequest(_) => TAG_F5_BLOCK,
            };
            match body {
                Ok(mut b) => {
                    let r1 = emit_block(&mut out, tag, &mut b);
                    if r1.is_err() {
                        return None;
                    }
                },
                Err(_) => {
                    return None;
                },
            }
        },
        None => {},
    }
    assert(out@ =~= spec_enc_client(m@));
    Some(out)
}

/// An encoded command envelope decodes back to itself.
pub proof fn lemma_client_roundtrip(c: ClientToServerMessageV)
    requires
        wf_client(c),
    ensures
        sp_client(spec_enc_client(c)) == Ok::<ClientToServerMessageV, DecodeError>(c),
{
    let s = spec_enc_client(c);
    let pe: Seq<u8> = match c.payload {
        Some(p) => spec_block(client_payload_tag(p), spec_enc_client_payload_body(p)),
        None => Seq::empty(),
    };
    match c.origin {
        Some(id) => {
            let ob = spec_enc_origin_body(id);
            let blk = spec_block(TAG_F1_BLOCK, ob);
            assert(s == blk + pe);
            assert(s.subrange(0, blk.len() as int) =~= blk);
            lemma_block_roundtrip(s, 0, TAG_F1_BLOCK, ob);
            lemma_origin_body_roundtrip(id);
            assert(s[0] == blk[0]);
            assert(s[0] == TAG_F1_BLOCK);
            assert(s.subrange(blk.len() as int, s.len() as int) =~= pe);
            lemma_client_after_origin_roundtrip(s, blk.len() as int, Some(id), c.payload);
        },
        None => {
            assert(s =~= pe);
            if c.payload is Some {
                let p = c.payload->0;
                assert(s[0] == pe[0]);
                assert(s[0] == client_payload_tag(p));
                assert(client_payload_tag(p) != TAG_F1_BLOCK);
            }
            assert(s.subrange(0, s.len() as int) =~= pe);
            lemma_client_after_origin_roundtrip(s, 0, None, c.payload);
        },
    }
}

/// The payload part of an encoded command envelope parses back to itself.
proof fn lemma_client_after_origin_roundtrip(
    s: Seq<u8>,
    pos: int,
    origin: Option<Seq<char>>,
    payload: Option<ClientPayloadV>,
)
    requires
        0 <= pos <= s.len(),
        match payload {
            Some(p) => wf_client_payload(p) && s.subrange(pos, s.len() as int) == spec_block(
                client_payload_tag(p),
                spec_enc_client_payload_body(p),
            ),
            None => pos == s.len(),
        },
    ensures
        sp_client_after_origin(s, pos, origin) == Ok::<ClientToServerMessageV, DecodeError>(
            ClientToServerMessageV { origin, payload },
        ),
{
    match payload {
        Some(p) => {
            let tag = client_payload_tag(p);
            let body = spec_enc_client_payload_body(p);
            let blk = spec_block(tag, body);
            assert(s.subrange(pos, pos + blk.len() as int) == s.subrange(pos, s.len() as int));
            lemma_block_roundtrip(s, pos, tag, body);
            assert(s[pos] == s.subrange(pos, s.len() as int)[0]);
            assert(s[pos] == tag);
            match p {
                ClientPayloadV::HttpRequest(r) => {
                    lemma_http_request_body_roundtrip(r);
                },
                ClientPayloadV::WsOpenRequest(r) => {
                    lemma_ws_open_body_roundtrip(r);
                },
                ClientPayloadV::WsMessageToServer(m) => {
                    lemma_ws_message_body_roundtrip(m);
                },
                ClientPayloadV::WsCloseRequest => {
                    assert(body.len() == 0);
                },
            }
        },
        None => {},
    }
}

// ---------------------------------------------------------------------------
// The bridge -> client envelope
// ---------------------------------------------------------------------------

/// The tag that carries each reply payload variant.
pub open spec fn server_payload_tag(p: ServerPayloadV) -> u8 {
    match p {
        ServerPayloadV::HttpHeaders(_) => TAG_F2_BLOCK,
        ServerPayloadV::HttpBodyChunk(_) => TAG_F3_BLOCK,
        ServerPayloadV::HttpResponseComplete => TAG_F4_BLOCK,
        ServerPayloadV::HttpError(_) => TAG_F5_BLOCK,
        ServerPayloadV::WsOpened(_) => TAG_F6_BLOCK,
        ServerPayloadV::WsMessageFromServer(_) => TAG_F7_BLOCK,
        ServerPayloadV::WsError(_) => TAG_F8_BLOCK,
    }
}

/// The body a reply payload encodes to.
pub open spec fn spec_enc_server_payload_body(p: ServerPayloadV) -> Seq<u8> {
    match p {
        ServerPayloadV::HttpHeaders(h) => spec_enc_http_headers_body(h),
        ServerPayloadV::HttpBodyChunk(c) => spec_enc_chunk_body(c),
        ServerPayloadV::HttpResponseComplete => Seq::empty(),
        ServerPayloadV::HttpError(e) => spec_enc_http_error_body(e),
        ServerPayloadV::WsOpened(w) => spec_enc_ws_opened_body(w),
        ServerPayloadV::WsMessageFromServer(m) => spec_enc_ws_message_body(m),
        ServerPayloadV::WsError(e) => spec_enc_ws_error_body(e),
    }
}

/// A reply payload fits the wire format.
pub open spec fn wf_server_payload(p: ServerPayloadV) -> bool {
    &&& match p {
        ServerPayloadV::HttpHeaders(h) => wf_http_headers(h),
        ServerPayloadV::HttpBodyChunk(c) => wf_chunk(c),
        ServerPayloadV::HttpResponseComplete => true,
        ServerPayloadV::HttpError(e) => wf_http_error(e),
        ServerPayloadV::WsOpened(w) => wf_ws_opened(w),
        ServerPayloadV::WsMessageFromServer(m) => wf_ws_message(m),
        ServerPayloadV::WsError(e) => wf_ws_error(e),
    }
    &&& spec_enc_server_payload_body(p).len() <= VARINT_MAX
}

/// The bytes a whole reply envelope encodes to.
pub open spec fn spec_enc_server(c: ServerToClientMessageV) -> Seq<u8> {
    (match c.origin {
        Some(id) => spec_block(TAG_F1_BLOCK, spec_enc_origin_body(id)),
        None => Seq::empty(),
    }) + (match c.payload {
        Some(p) => spec_block(server_payload_tag(p), spec_enc_server_payload_body(p)),
        None => Seq::empty(),
    })
}

/// A reply envelope fits the wire format.
pub open spec fn wf_server(c: ServerToClientMessageV) -> bool {
    &&& match c.origin {
        Some(id) => wf_origin(id) && spec_enc_origin_body(id).len() <= VARINT_MAX,
        None => true,
    }
    &&& match c.payload {
        Some(p) => wf_server_payload(p),
        None => true,
    }
}

/// Parse what follows the optional origin block of a reply envelope.
pub open spec fn sp_server_after_origin(
    s: Seq<u8>,
    pos: int,
    origin: Option<Seq<char>>,
) -> Result<ServerToClientMessageV, DecodeError> {
    if pos == s.len() {
        Ok(ServerToClientMessageV { origin, payload: None })
    } else if !(0 <= pos < s.len()) {
        Err(DecodeError::Truncated)
    } else if s[pos] == TAG_F2_BLOCK {
        match sp_block(s, pos, TAG_F2_BLOCK) {
            Ok((a, b)) => match sp_http_headers_body(s.subrange(a, b)) {
                Ok(h) => if b == s.len() {
                    Ok(
                        ServerToClientMessageV {
                            origin,
                            payload: Some(ServerPayloadV::HttpHeaders(h)),
                        },
                    )
                } else {
                    Err(DecodeError::Trailing)
                },
                Err(e) => Err(e),
            },
            Err(e) => Err(e),
        }
    } else if s[pos] == TAG_F3_BLOCK {
        match sp_block(s, pos, TAG_F3_BLOCK) {
            Ok((a, b)) => match sp_chunk_body(s.subrange(a, b)) {
                Ok(c) => if b == s.len() {
                    Ok(
                        ServerToClientMessageV {
                            origin,
                            payload: Some(ServerPayloadV::HttpBodyChunk(c)),
                        },
                    )
                } else {
                    Err(DecodeError::Trailing)
                },
                Err(e) => Err(e),
            },
            Err(e) => Err(e),
        }
    } else if s[pos] == TAG_F4_BLOCK {
        match sp_block(s, pos, TAG_F4_BLOCK) {
            Ok((a, b)) => if a == b {
                if b == s.len() {
                    Ok(
                        ServerToClientMessageV {
                            origin,
                            payload: Some(ServerPayloadV::HttpResponseComplete),
                        },
                    )
                } else {
                    Err(DecodeError::Trailing)
                }
            } else {
                Err(DecodeError::Trailing)
            },
            Err(e) => Err(e),
        }
    } else if s[pos] == TAG_F5_BLOCK {
        match sp_block(s, pos, TAG_F5_BLOCK) {
            Ok((a, b)) => match sp_http_error_body(s.subrange(a, b)) {
                Ok(e) => if b == s.len() {
                    Ok(
                        ServerToClientMessageV {
                            origin,
                            payload: Some(ServerPayloadV::HttpError(e)),
                        },
                    )
                } else {
                    Err(DecodeError::Trailing)
                },
                Err(e) => Err(e),
            },
            Err(e) => Err(e),
        }
    } else if s[pos] == TAG_F6_BLOCK {
        match sp_block(s, pos, TAG_F6_BLOCK) {
            Ok((a, b)) => match sp_ws_opened_body(s.subrange(a, b)) {
                Ok(w) => if b == s.len() {
                    Ok(
                        ServerToClientMessageV {
                            origin,
                            payload: Some(ServerPayloadV::WsOpened(w)),
                        },
                    )
                } else {
                    Err(DecodeError::Trailing)
                },
                Err(e) => Err(e),
            },
            Err(e) => Err(e),
        }
    } else if s[pos] == TAG_F7_BLOCK {
        match sp_block(s, pos, TAG_F7_BLOCK) {
            Ok((a, b)) => match sp_ws_message_body(s.subrange(a, b)) {
                Ok(m) => if b == s.len() {
                    Ok(
                        ServerToClientMessageV {
                            origin,
                            payload: Some(ServerPayloadV::WsMessageFromServer(m)),
                        },
                    )
                } else {
                    Err(DecodeError::Trailing)
                },
                Err(e) => Err(e),
            },
            Err(e) => Err(e),
        }
    } else if s[pos] == TAG_F8_BLOCK {
        match sp_block(s, pos, TAG_F8_BLOCK) {
            Ok((a, b)) => match sp_ws_error_body(s.subrange(a, b)) {
                Ok(e) => if b == s.len() {
                    Ok(
                        ServerToClientMessageV {
                            origin,
                            payload: Some(ServerPayloadV::WsError(e)),
                        },
                    )
                } else {
                    Err(DecodeError::Trailing)
                },
                Err(e) => Err(e),
            },
            Err(e) => Err(e),
        }
    } else {
        Err(DecodeError::UnknownTag)
    }
}

/// Parse a whole reply envelope.
pub open spec fn sp_server(s: Seq<u8>) -> Result<ServerToClientMessageV, DecodeError> {
    if s.len() > 0 && s[0] == TAG_F1_BLOCK {
        match sp_block(s, 0, TAG_F1_BLOCK) {
            Ok((a, b)) => match sp_origin_body(s.subrange(a, b)) {
                Ok(id) => sp_server_after_origin(s, b, Some(id)),
                Err(e) => Err(e),
            },
            Err(e) => Err(e),
        }
    } else {
        sp_server_after_origin(s, 0, None)
    }
}

/// Decode the rest of a reply envelope once its origin is known.
fn decode_server_after_origin(v: &Vec<u8>, pos: usize, origin: Option<RequestOrigin>) -> (r:
    Result<ServerToClientMessage, DecodeError>)
    requires
        pos <= v.len(),
    ensures
        match sp_server_after_origin(v@, pos as int, origin_view(origin)) {
            Ok(m) => r is Ok && r->Ok_0@ == m,
            Err(e) => r is Err && r->Err_0 == e,
        },
{
    if pos == v.len() {
        return Ok(ServerToClientMessage { origin, payload: None });
    }
    let tag = v[pos];
    if tag == TAG_F2_BLOCK {
        match parse_block(v, pos, TAG_F2_BLOCK) {
            Ok((a, b)) => {
                proof {
                    lemma_sp_block_bounds(v@, pos as int, TAG_F2_BLOCK);
                }
                let body = subvec(v, a, b);
                match decode_http_headers_body(&body) {
                    Ok(h) => if b == v.len() {
                        Ok(
                            ServerToClientMessage {
                                origin,
                                payload: Some(ServerPayload::HttpHeaders(h)),
                            },
                        )
                    } else {
                        Err(DecodeError::Trailing)
                    },
                    Err(e) => Err(e),
                }
            },
            Err(e) => Err(e),
        }
    } else if tag == TAG_F3_BLOCK {
        match parse_block(v, pos, TAG_F3_BLOCK) {
            Ok((a, b)) => {
                proof {
                    lemma_sp_block_bounds(v@, pos as int, TAG_F3_BLOCK);
                }
                let body = subvec(v, a, b);
                match decode_chunk_body(&body) {
                    Ok(c) => if b == v.len() {
                        Ok(
                            ServerToClientMessage {
                                origin,
                                payload: Some(ServerPayload::HttpBodyChunk(c)),
                            },
                        )
                    } else {
                        Err(DecodeError::Trailing)
                    },
                    Err(e) => Err(e),
                }
            },
            Err(e) => Err(e),
        }
    } else if tag == TAG_F4_BLOCK {
        match parse_block(v, pos, TAG_F4_BLOCK) {
            Ok((a, b)) => if a == b {
                if b == v.len() {
                    Ok(
                        ServerToClientMessage {
                            origin,
                            payload: Some(
                                ServerPayload::HttpResponseComplete(HttpResponseComplete {  }),
                            ),
                        },
                    )
                } else {
                    Err(DecodeError::Trailing)
                }
            } else {
                Err(DecodeError::Trailing)
            },
            Err(e) => Err(e),
        }
    } else {
        decode_server_later_arms(v, pos, origin)
    }
}

/// Decode the reply payload variants carried by the higher field tags.
fn decode_server_later_arms(v: &Vec<u8>, pos: usize, origin: Option<RequestOrigin>) -> (r: Result<
    ServerToClientMessage,
    DecodeError,
>)
    requires
        pos < v.len(),
        v@[pos as int] != TAG_F2_BLOCK,
        v@[pos as int] != TAG_F3_BLOCK,
        v@[pos as int] != TAG_F4_BLOCK,
    ensures
        match sp_server_after_origin(v@, pos as int, origin_view(origin)) {
            Ok(m) => r is Ok && r->Ok_0@ == m,
            Err(e) => r is Err && r->Err_0 == e,
        },
{
    let tag = v[pos];
    if tag == TAG_F5_BLOCK {
        match parse_block(v, pos, TAG_F5_BLOCK) {
            Ok((a, b)) => {
                proof {
                    lemma_sp_block_bounds(v@, pos as int, TAG_F5_BLOCK);
                }
                let body = subvec(v, a, b);
                match decode_http_error_body(&body) {
                    Ok(e) => if b == v.len() {
                        Ok(
                            ServerToClientMessage {
                                origin,
                                payload: Some(ServerPayload::HttpError(e)),
                            },
                        )
                    } else {
                        Err(DecodeError::Trailing)
                    },
                    Err(e) => Err(e),
                }
            },
            Err(e) => Err(e),
        }
    } else if tag == TAG_F6_BLOCK {
        match parse_block(v, pos, TAG_F6_BLOCK) {
            Ok((a, b)) => {
                proof {
                    lemma_sp_block_bounds(v@, pos as int, TAG_F6_BLOCK);
                }
                let body = subvec(v, a, b);
                match decode_ws_opened_body(&body) {
                    Ok(w) => if b == v.len() {
                        Ok(
                            ServerToClientMessage {
                                origin,
                                payload: Some(ServerPayload::WsOpened(w)),
                            },
                        )
                    } else {
                        Err(DecodeError::Trailing)
                    },
                    Err(e) => Err(e),
                }
            },
            Err(e) => Err(e),
        }
    } else if tag == TAG_F7_BLOCK {
        match parse_block(v, pos, TAG_F7_BLOCK) {
            Ok((a, b)) => {
                proof {
                    lemma_sp_block_bounds(v@, pos as int, TAG_F7_BLOCK);
                }
                let body = subvec(v, a, b);
                match decode_ws_message_body(&body) {
                    Ok(m) => if b == v.len() {
                        Ok(
                            ServerToClientMessage {
                                origin,
                                payload: Some(ServerPayload::WsMessageFromServer(m)),
                            },
                        )
                    } else {
                        Err(DecodeError::Trailing)
                    },
                    Err(e) => Err(e),
                }
            },
            Err(e) => Err(e),
        }
    } else if tag == TAG_F8_BLOCK {
        match parse_block(v, pos, TAG_F8_BLOCK) {
            Ok((a, b)) => {
                proof {
                    lemma_sp_block_bounds(v@, pos as int, TAG_F8_BLOCK);
                }
                let body = subvec(v, a, b);
                match decode_ws_error_body(&body) {
                    Ok(e) => if b == v.len() {
                        Ok(
                            ServerToClientMessage {
                                origin,
                                payload: Some(ServerPayload::WsError(e)),
                            },
                        )
                    } else {
                        Err(DecodeError::Trailing)
                    },
                    Err(e) => Err(e),
                }
            },
            Err(e) => Err(e),
        }
    } else {
        Err(DecodeError::UnknownTag)
    }
}

/// Decode a whole reply envelope, mirroring `sp_server`.
pub fn decode_server(v: &Vec<u8>) -> (r: Result<ServerToClientMessage, DecodeError>)
    ensures
        match sp_server(v@) {
            Ok(m) => r is Ok && r->Ok_0@ == m,
            Err(e) => r is Err && r->Err_0 == e,
        },
{
    if v.len() > 0 && v[0] == TAG_F1_BLOCK {
        match parse_block(v, 0, TAG_F1_BLOCK) {
            Ok((a, b)) => {
                proof {
                    lemma_sp_block_bounds(v@, 0, TAG_F1_BLOCK);
                }
                let body = subvec(v, a, b);
                match decode_origin_body(&body) {
                    Ok(o) => decode_server_after_origin(v, b, Some(o)),
                    Err(e) => Err(e),
                }
            },
            Err(e) => Err(e),
        }
    } else {
        decode_server_after_origin(v, 0, None)
    }
}

/// Encode a whole reply envelope; refused exactly when some field is too
/// long for the wire format.
pub fn encode_server(m: &ServerToClientMessage) -> (r: Option<Vec<u8>>)
    ensures
        r is Some <==> wf_server(m@),
        r is Some ==> r->0@ == spec_enc_server(m@),
{
    let mut out: Vec<u8> = Vec::new();
    match &m.origin {
        Some(o) => {
            match encode_origin_body(o) {
                Ok(mut body) => {
                    let r1 = emit_block(&mut out, TAG_F1_BLOCK, &mut body);
                    if r1.is_err() {
                        return None;
                    }
                },
                Err(_) => {
                    return None;
                },
            }
        },
        None => {},
    }
    match &m.payload {
        Some(p) => {
            let body = match p {
                ServerPayload::HttpHeaders(h) => encode_http_headers_body(h),
                ServerPayload::HttpBodyChunk(c) => encode_chunk_body(c),
                ServerPayload::HttpResponseComplete(_) => Ok(Vec::new()),
                ServerPayload::HttpError(e) => encode_http_error_body(e),
                ServerPayload::WsOpened(w) => encode_ws_opened_body(w),
                ServerPayload::WsMessageFromServer(ms) => encode_ws_message_body(ms),
                ServerPayload::WsError(e) => encode_ws_error_body(e),
            };
            let tag: u8 = match p {
                ServerPayload::HttpHeaders(_) => TAG_F2_BLOCK,
                ServerPayload::HttpBodyChunk(_) => TAG_F3_BLOCK,
                ServerPayload::HttpResponseComplete(_) => TAG_F4_BLOCK,
                ServerPayload::HttpError(_) => TAG_F5_BLOCK,
                ServerPayload::WsOpened(_) => TAG_F6_BLOCK,
                ServerPayload::WsMessageFromServer(_) => TAG_F7_BLOCK,
                ServerPayload::WsError(_) => TAG_F8_BLOCK,
            };
            match body {
                Ok(mut b) => {
                    let r1 = emit_block(&mut out, tag, &mut b);
                    if r1.is_err() {
                        return None;
                    }
                },
                Err(_) => {
                    return None;
                },
            }
        },
        None => {},
    }
    assert(out@ =~= spec_enc_server(m@));
    Some(out)
}

/// An encoded reply envelope decodes back to itself.
pub proof fn lemma_server_roundtrip(c: ServerToClientMessageV)
    requires
        wf_server(c),
    ensures
        sp_server(spec_enc_server(c)) == Ok::<ServerToClientMessageV, DecodeError>(c),
{
    let s = spec_enc_server(c);
    let pe: Seq<u8> = match c.payload {
        Some(p) => spec_block(server_payload_tag(p), spec_enc_server_payload_body(p)),
        None => Seq::empty(),
    };
    match c.origin {
        Some(id) => {
            let ob = spec_enc_origin_body(id);
            let blk = spec_block(TAG_F1_BLOCK, ob);
            assert(s == blk + pe);
            assert(s.subrange(0, blk.len() as int) =~= blk);
            lemma_block_roundtrip(s, 0, TAG_F1_BLOCK, ob);
            lemma_origin_body_roundtrip(id);
            assert(s[0] == blk[0]);
            assert(s[0] == TAG_F1_BLOCK);
            assert(s.subrange(blk.len() as int, s.len() as int) =~= pe);
            lemma_server_after_origin_roundtrip(s, blk.len() as int, Some(id), c.payload);
        },
        None => {
            assert(s =~= pe);
            if c.payload is Some {
                let p = c.payload->0;
                assert(s[0] == pe[0]);
                assert(s[0] == server_payload_tag(p));
                assert(server_payload_tag(p) != TAG_F1_BLOCK);
            }
            assert(s.subrange(0, s.len() as int) =~= pe);
            lemma_server_after_origin_roundtrip(s, 0, None, c.payload);
        },
    }
}

/// The payload part of an encoded reply envelope parses back to itself.
proof fn lemma_server_after_origin_roundtrip(
    s: Seq<u8>,
    pos: int,
    origin: Option<Seq<char>>,
    payload: Option<ServerPayloadV>,
)
    requires
        0 <= pos <= s.len(),
        match payload {
            Some(p) => wf_server_payload(p) && s.subrange(pos, s.len() as int) == spec_block(
                server_payload_tag(p),
                spec_enc_server_payload_body(p),
            ),
            None => pos == s.len(),
        },
    ensures
        sp_server_after_origin(s, pos, origin) == Ok::<ServerToClientMessageV, DecodeError>(
            ServerToClientMessageV { origin, payload },
        ),
{
    match payload {
        Some(p) => {
            let tag = server_payload_tag(p);
            let body = spec_enc_server_payload_body(p);
            let blk = spec_block(tag, body);
            assert(s.subrange(pos, pos + blk.len() as int) == s.subrange(pos, s.len() as int));
            lemma_block_roundtrip(s, pos, tag, body);
            assert(s[pos] == s.subrange(pos, s.len() as int)[0]);
            assert(s[pos] == tag);
            match p {
                ServerPayloadV::HttpHeaders(h) => {
                    lemma_http_headers_body_roundtrip(h);
                },
                ServerPayloadV::HttpBodyChunk(cc) => {
                    lemma_chunk_body_roundtrip(cc);
                },
                ServerPayloadV::HttpResponseComplete => {
                    assert(body.len() == 0);
                },
                ServerPayloadV::HttpError(e) => {
                    lemma_http_error_body_roundtrip(e);
                },
                ServerPayloadV::WsOpened(w) => {
                    lemma_ws_opened_body_roundtrip(w);
                },
                ServerPayloadV::WsMessageFromServer(m) => {
                    lemma_ws_message_body_roundtrip(m);
                },
                ServerPayloadV::WsError(e) => {
                    lemma_ws_error_body_roundtrip(e);
                },
            }
        },
        None => {},
    }
}

} // verus!
