//! The HTTP bridge handler's decision logic: validate a proxied request
//! for the upstream client, and describe exactly which replies one
//! exchange sends back — one error reply on failure, or headers, then the
//! body's chunks in order, then a completion marker.
use vstd::prelude::*;

use crate::codec::subvec;
use crate::error::{Error, ProtocolError};
use crate::proto::{
    headers_view, HttpHeader, HttpHeaderV, HttpProxyRequest, HttpProxyRequestV, HttpRequestError,
    HttpRequestErrorV, HttpResponseBodyChunk, HttpResponseBodyChunkV, HttpResponseComplete,
    HttpResponseHeaders, HttpResponseHeadersV, RequestOrigin, ServerPayload, ServerPayloadV,
    ServerToClientMessage, ServerToClientMessageV,
};
use crate::state::util::{
    find_header_err, header_entries, header_map, is_token, method_valid, spec_header_entries,
};

verus! {

/// The error code every failed HTTP exchange reports.
pub const HTTP_ERROR_CODE: u32 = 500;

/// Performs the upstream HTTP exchanges of one bridge connection.
pub struct HttpState {}

/// A request checked and converted for the upstream client. The method is
/// kept as its validated token string; the caller parses it into the
/// client's own representation, which cannot fail for a valid token.
pub struct PreparedHttpRequest {
    pub method: String,
    pub headers: http::HeaderMap,
    pub url: String,
    pub body: Vec<u8>,
}

/// The failure preparing a request reports, if any: the first bad header,
/// then an ill-formed method.
pub open spec fn spec_prepare_err(r: HttpProxyRequestV) -> Option<ProtocolError> {
    match find_header_err(r.headers) {
        Some(e) => Some(e),
        None => if !is_token(r.method) {
            Some(ProtocolError::InvalidMethod)
        } else {
            None
        },
    }
}

impl HttpState {
    pub fn new() -> (s: HttpState) {
        HttpState {  }
    }

    /// Validate a proxied request and convert its headers for the
    /// upstream client; fails on the first invalid part, or when the
    /// header table refuses another entry (impossible for up to 4096
    /// headers). On success every field of the result is pinned: the url,
    /// method and body unchanged, the header map holding exactly the
    /// request's pairs.
    pub fn prepare(&self, request: HttpProxyRequest) -> (r: Result<PreparedHttpRequest, Error>)
        ensures
            r is Ok ==> spec_prepare_err(request@) is None && r->Ok_0.url@ == request.url@
                && r->Ok_0.method@ == request.method@ && r->Ok_0.body@ == request.body@
                && header_entries(r->Ok_0.headers) == spec_header_entries(
                headers_view(request.headers@),
            ),
            spec_prepare_err(request@) is Some ==> r is Err,
            r is Err ==> (spec_prepare_err(request@) is Some && r->Err_0 == Error::Protocol(
                spec_prepare_err(request@)->0,
            )) || r->Err_0 == Error::Protocol(ProtocolError::TooManyHeaders),
            request.headers@.len() <= 4096 ==> (r is Ok <==> spec_prepare_err(request@) is None),
            request.headers@.len() <= 4096 && spec_prepare_err(request@) is Some ==> r->Err_0
                == Error::Protocol(spec_prepare_err(request@)->0),
    {
        let HttpProxyRequest { url, method, headers, body } = request;
        match header_map(headers) {
            Ok(hm) => {
                if method_valid(&method) {
                    Ok(PreparedHttpRequest { method, headers: hm, url, body })
                } else {
                    Err(Error::Protocol(ProtocolError::InvalidMethod))
                }
            },
            Err(e) => Err(e),
        }
    }
}

// ---------------------------------------------------------------------------
// The replies of one exchange
// ---------------------------------------------------------------------------

/// The reply reporting a failed exchange, always with code 500.
pub open spec fn spec_http_error_reply(origin: Seq<char>, msg: Seq<char>) -> ServerToClientMessageV {
    ServerToClientMessageV {
        origin: Some(origin),
        payload: Some(
            ServerPayloadV::HttpError(
                HttpRequestErrorV { error_message: msg, error_code: HTTP_ERROR_CODE },
            ),
        ),
    }
}

/// The reply carrying the upstream response's status and headers.
pub open spec fn spec_http_headers_reply(
    origin: Seq<char>,
    status_code: u32,
    headers: Seq<HttpHeaderV>,
) -> ServerToClientMessageV {
    ServerToClientMessageV {
        origin: Some(origin),
        payload: Some(ServerPayloadV::HttpHeaders(HttpResponseHeadersV { status_code, headers })),
    }
}

/// The reply carrying one body chunk.
pub open spec fn spec_http_chunk_reply(origin: Seq<char>, chunk: Seq<u8>) -> ServerToClientMessageV {
    ServerToClientMessageV {
        origin: Some(origin),
        payload: Some(ServerPayloadV::HttpBodyChunk(HttpResponseBodyChunkV { chunk })),
    }
}

/// The reply that closes an exchange's stream.
pub open spec fn spec_http_complete_reply(origin: Seq<char>) -> ServerToClientMessageV {
    ServerToClientMessageV {
        origin: Some(origin),
        payload: Some(ServerPayloadV::HttpResponseComplete),
    }
}

/// Build the error reply for a failed exchange.
pub fn http_error_reply(origin: &String, error_message: String) -> (m: ServerToClientMessage)
    ensures
        m@ == spec_http_error_reply(origin@, error_message@),
{
    ServerToClientMessage {
        origin: Some(RequestOrigin { id: origin.clone() }),
        payload: Some(
            ServerPayload::HttpError(
                HttpRequestError { error_message, error_code: HTTP_ERROR_CODE },
            ),
        ),
    }
}

/// Build the headers reply that opens a successful exchange's stream.
pub fn http_headers_reply(origin: &String, status_code: u32, headers: Vec<HttpHeader>) -> (m:
    ServerToClientMessage)
    ensures
        m@ == spec_http_headers_reply(origin@, status_code, headers_view(headers@)),
{
    ServerToClientMessage {
        origin: Some(RequestOrigin { id: origin.clone() }),
        payload: Some(ServerPayload::HttpHeaders(HttpResponseHeaders { status_code, headers })),
    }
}

/// Build the reply carrying one body chunk.
pub fn http_chunk_reply(origin: &String, chunk: Vec<u8>) -> (m: ServerToClientMessage)
    ensures
        m@ == spec_http_chunk_reply(origin@, chunk@),
{
    ServerToClientMessage {
        origin: Some(RequestOrigin { id: origin.clone() }),
        payload: Some(ServerPayload::HttpBodyChunk(HttpResponseBodyChunk { chunk })),
    }
}

/// Build the reply that closes an exchange's stream.
pub fn http_complete_reply(origin: &String) -> (m: ServerToClientMessage)
    ensures
        m@ == spec_http_complete_reply(origin@),
{
    ServerToClientMessage {
        origin: Some(RequestOrigin { id: origin.clone() }),
        payload: Some(ServerPayload::HttpResponseComplete(HttpResponseComplete {  })),
    }
}

/// How one upstream exchange ended.
#[derive(Clone, Debug, PartialEq, Eq)]
pub enum HttpExchangeOutcome {
    /// The send failed before any response arrived.
    SendFailed { error_message: String },
    /// The upstream answered with a status, headers, and body chunks in
    /// arrival order.
    Responded { status_code: u32, headers: Vec<HttpHeader>, chunks: Vec<Vec<u8>> },
    /// The upstream answered, but reading its body failed after the
    /// chunks listed had arrived.
    BodyFailed {
        status_code: u32,
        headers: Vec<HttpHeader>,
        chunks: Vec<Vec<u8>>,
        error_message: String,
    },
}

pub ghost enum HttpExchangeOutcomeV {
    SendFailed { error_message: Seq<char> },
    Responded { status_code: u32, headers: Seq<HttpHeaderV>, chunks: Seq<Seq<u8>> },
    BodyFailed {
        status_code: u32,
        headers: Seq<HttpHeaderV>,
        chunks: Seq<Seq<u8>>,
        error_message: Seq<char>,
    },
}

impl View for HttpExchangeOutcome {
    type V = HttpExchangeOutcomeV;

    open spec fn view(&self) -> HttpExchangeOutcomeV {
        match self {
            HttpExchangeOutcome::SendFailed { error_message } => HttpExchangeOutcomeV::SendFailed {
                error_message: error_message@,
            },
            HttpExchangeOutcome::Responded { status_code, headers, chunks } => {
                HttpExchangeOutcomeV::Responded {
                    status_code: *status_code,
                    headers: headers_view(headers@),
                    chunks: chunks@.map_values(|c: Vec<u8>| c@),
                }
            },
            HttpExchangeOutcome::BodyFailed { status_code, headers, chunks, error_message } => {
                HttpExchangeOutcomeV::BodyFailed {
                    status_code: *status_code,
                    headers: headers_view(headers@),
                    chunks: chunks@.map_values(|c: Vec<u8>| c@),
                    error_message: error_message@,
                }
            },
        }
    }
}

/// Exactly the replies one exchange emits, in order: a lone error reply
/// when the send failed; headers, the chunks in arrival order, and a
/// completion marker on success; headers, the chunks that arrived, and
/// exactly one error reply when the body failed mid-stream. Every reply
/// carries the exchange's origin.
pub open spec fn spec_exchange_replies(
    origin: Seq<char>,
    outcome: HttpExchangeOutcomeV,
) -> Seq<ServerToClientMessageV> {
    match outcome {
        HttpExchangeOutcomeV::SendFailed { error_message } => seq![
            spec_http_error_reply(origin, error_message),
        ],
        HttpExchangeOutcomeV::Responded { status_code, headers, chunks } => seq![
            spec_http_headers_reply(origin, status_code, headers),
        ] + Seq::new(chunks.len(), |i: int| spec_http_chunk_reply(origin, chunks[i])) + seq![
            spec_http_complete_reply(origin),
        ],
        HttpExchangeOutcomeV::BodyFailed { status_code, headers, chunks, error_message } => seq![
            spec_http_headers_reply(origin, status_code, headers),
        ] + Seq::new(chunks.len(), |i: int| spec_http_chunk_reply(origin, chunks[i])) + seq![
            spec_http_error_reply(origin, error_message),
        ],
    }
}

/// The view of a reply list.
pub open spec fn replies_view(v: Seq<ServerToClientMessage>) -> Seq<ServerToClientMessageV> {
    v.map_values(|m: ServerToClientMessage| m@)
}

/// Build the whole reply sequence of one exchange.
pub fn replies_for_exchange(origin: &String, outcome: HttpExchangeOutcome) -> (r: Vec<
    ServerToClientMessage,
>)
    ensures
        replies_view(r@) == spec_exchange_replies(origin@, outcome@),
{
    match outcome {
        HttpExchangeOutcome::SendFailed { error_message } => {
            let mut v: Vec<ServerToClientMessage> = Vec::new();
            v.push(http_error_reply(origin, error_message));
            assert(replies_view(v@) =~= spec_exchange_replies(
                origin@,
                HttpExchangeOutcomeV::SendFailed { error_message: error_message@ },
            ));
            v
        },
        HttpExchangeOutcome::Responded { status_code, headers, chunks } => {
            let ghost chunksv = chunks@.map_values(|c: Vec<u8>| c@);
            let ghost headersv = headers_view(headers@);
            let mut v: Vec<ServerToClientMessage> = Vec::new();
            v.push(http_headers_reply(origin, status_code, headers));
            let mut i: usize = 0;
            while i < chunks.len()
                invariant
                    i <= chunks.len(),
                    chunksv == chunks@.map_values(|c: Vec<u8>| c@),
                    chunksv.len() == chunks@.len(),
                    replies_view(v@) =~= seq![
                        spec_http_headers_reply(origin@, status_code, headersv),
                    ] + Seq::new(i as nat, |j: int| spec_http_chunk_reply(origin@, chunksv[j])),
                decreases chunks.len() - i,
            {
                let c = subvec(&chunks[i], 0, chunks[i].len());
                proof {
                    assert(c@ =~= chunksv[i as int]);
                }
                let ghost prev = v@;
                v.push(http_chunk_reply(origin, c));
                proof {
                    assert(v@ == prev.push(v@[v@.len() - 1]));
                    assert(replies_view(v@) =~= replies_view(prev).push(
                        spec_http_chunk_reply(origin@, chunksv[i as int]),
                    ));
                    assert(replies_view(v@) =~= seq![
                        spec_http_headers_reply(origin@, status_code, headersv),
                    ] + Seq::new(
                        (i + 1) as nat,
                        |j: int| spec_http_chunk_reply(origin@, chunksv[j]),
                    ));
                }
                i = i + 1;
            }
            v.push(http_complete_reply(origin));
            proof {
                assert(Seq::new(chunksv.len(), |j: int| spec_http_chunk_reply(origin@, chunksv[j]))
                    =~= Seq::new(i as nat, |j: int| spec_http_chunk_reply(origin@, chunksv[j])));
                assert(replies_view(v@) =~= spec_exchange_replies(
                    origin@,
                    HttpExchangeOutcomeV::Responded {
                        status_code,
                        headers: headersv,
                        chunks: chunksv,
                    },
                ));
            }
            v
        },
        HttpExchangeOutcome::BodyFailed { status_code, headers, chunks, error_message } => {
            let ghost chunksv = chunks@.map_values(|c: Vec<u8>| c@);
            let ghost headersv = headers_view(headers@);
            let mut v: Vec<ServerToClientMessage> = Vec::new();
            v.push(http_headers_reply(origin, status_code, headers));
            let mut i: usize = 0;
            while i < chunks.len()
                invariant
                    i <= chunks.len(),
                    chunksv == chunks@.map_values(|c: Vec<u8>| c@),
                    chunksv.len() == chunks@.len(),
                    replies_view(v@) =~= seq![
                        spec_http_headers_reply(origin@, status_code, headersv),
                    ] + Seq::new(i as nat, |j: int| spec_http_chunk_reply(origin@, chunksv[j])),
                decreases chunks.len() - i,
            {
                let c = subvec(&chunks[i], 0, chunks[i].len());
                proof {
                    assert(c@ =~= chunksv[i as int]);
                }
                let ghost prev = v@;
                v.push(http_chunk_reply(origin, c));
                proof {
                    assert(v@ == prev.push(v@[v@.len() - 1]));
                    assert(replies_view(v@) =~= replies_view(prev).push(
                        spec_http_chunk_reply(origin@, chunksv[i as int]),
                    ));
                    assert(replies_view(v@) =~= seq![
                        spec_http_headers_reply(origin@, status_code, headersv),
                    ] + Seq::new(
                        (i + 1) as nat,
                        |j: int| spec_http_chunk_reply(origin@, chunksv[j]),
                    ));
                }
                i = i + 1;
            }
            v.push(http_error_reply(origin, error_message));
            proof {
                assert(Seq::new(chunksv.len(), |j: int| spec_http_chunk_reply(origin@, chunksv[j]))
                    =~= Seq::new(i as nat, |j: int| spec_http_chunk_reply(origin@, chunksv[j])));
                assert(replies_view(v@) =~= spec_exchange_replies(
                    origin@,
                    HttpExchangeOutcomeV::BodyFailed {
                        status_code,
                        headers: headersv,
                        chunks: chunksv,
                        error_message: error_message@,
                    },
                ));
            }
            v
        },
    }
}

// ---------------------------------------------------------------------------
// Laws of the reply stream
// ---------------------------------------------------------------------------

/// A successful exchange emits exactly one headers reply first, then its
/// chunks in order, then exactly one completion reply, all under the
/// exchange's origin.
pub proof fn lemma_success_reply_shape(
    origin: Seq<char>,
    status_code: u32,
    headers: Seq<HttpHeaderV>,
    chunks: Seq<Seq<u8>>,
)
    ensures
        ({
            let r = spec_exchange_replies(
                origin,
                HttpExchangeOutcomeV::Responded { status_code, headers, chunks },
            );
            &&& r.len() == chunks.len() + 2
            &&& r[0] == spec_http_headers_reply(origin, status_code, headers)
            &&& forall|i: int|
                0 <= i < chunks.len() ==> r[i + 1] == spec_http_chunk_reply(origin, chunks[i])
            &&& r[r.len() - 1] == spec_http_complete_reply(origin)
            &&& forall|i: int| 0 <= i < r.len() ==> (#[trigger] r[i]).origin == Some(origin)
        }),
{
}

/// A failed exchange emits exactly one reply: an error under the
/// exchange's origin with code 500, and no headers, chunk or completion
/// reply at all.
pub proof fn lemma_failure_reply_shape(origin: Seq<char>, error_message: Seq<char>)
    ensures
        ({
            let r = spec_exchange_replies(
                origin,
                HttpExchangeOutcomeV::SendFailed { error_message },
            );
            &&& r.len() == 1
            &&& r[0] == spec_http_error_reply(origin, error_message)
            &&& r[0].origin == Some(origin)
            &&& r[0].payload == Some(
                ServerPayloadV::HttpError(
                    HttpRequestErrorV { error_message, error_code: HTTP_ERROR_CODE },
                ),
            )
            &&& forall|i: int|
                0 <= i < r.len() ==> !((#[trigger] r[i]).payload matches Some(
                    ServerPayloadV::HttpHeaders(_),
                )) && !(r[i].payload matches Some(ServerPayloadV::HttpBodyChunk(_))) && !(
                r[i].payload matches Some(ServerPayloadV::HttpResponseComplete))
        }),
{
}

/// An exchange whose body fails mid-stream emits its headers reply, the
/// chunks that arrived in order, then exactly one error reply under the
/// exchange's origin with code 500 — and no completion reply at all.
pub proof fn lemma_body_failure_reply_shape(
    origin: Seq<char>,
    status_code: u32,
    headers: Seq<HttpHeaderV>,
    chunks: Seq<Seq<u8>>,
    error_message: Seq<char>,
)
    ensures
        ({
            let r = spec_exchange_replies(
                origin,
                HttpExchangeOutcomeV::BodyFailed { status_code, headers, chunks, error_message },
            );
            &&& r.len() == chunks.len() + 2
            &&& r[0] == spec_http_headers_reply(origin, status_code, headers)
            &&& forall|i: int|
                0 <= i < chunks.len() ==> r[i + 1] == spec_http_chunk_reply(origin, chunks[i])
            &&& r[r.len() - 1] == spec_http_error_reply(origin, error_message)
            &&& forall|i: int|
                0 <= i < r.len() ==> !((#[trigger] r[i]).payload matches Some(
                    ServerPayloadV::HttpResponseComplete,
                ))
            &&& forall|i: int| 0 <= i < r.len() ==> (#[trigger] r[i]).origin == Some(origin)
        }),
{
}

/// One sequence interleaves two others, keeping each one's internal order.
pub open spec fn is_interleaving<T>(s: Seq<T>, a: Seq<T>, b: Seq<T>) -> bool
    decreases s.len(),
{
    if s.len() == 0 {
        a.len() == 0 && b.len() == 0
    } else {
        ||| (a.len() > 0 && a[0] == s[0] && is_interleaving(s.drop_first(), a.drop_first(), b))
        ||| (b.len() > 0 && b[0] == s[0] && is_interleaving(s.drop_first(), a, b.drop_first()))
    }
}

/// The replies of `s` that carry origin `o`, in order.
pub open spec fn project_origin(s: Seq<ServerToClientMessageV>, o: Seq<char>) -> Seq<
    ServerToClientMessageV,
>
    decreases s.len(),
{
    if s.len() == 0 {
        Seq::empty()
    } else if s[0].origin == Some(o) {
        seq![s[0]] + project_origin(s.drop_first(), o)
    } else {
        project_origin(s.drop_first(), o)
    }
}

/// Projecting an interleaving of two differently-tagged streams onto
/// either tag recovers that stream whole and in order.
pub proof fn lemma_projection_recovers(
    s: Seq<ServerToClientMessageV>,
    a: Seq<ServerToClientMessageV>,
    b: Seq<ServerToClientMessageV>,
    o1: Seq<char>,
    o2: Seq<char>,
)
    requires
        is_interleaving(s, a, b),
        forall|i: int| 0 <= i < a.len() ==> (#[trigger] a[i]).origin == Some(o1),
        forall|i: int| 0 <= i < b.len() ==> (#[trigger] b[i]).origin == Some(o2),
        o1 != o2,
    ensures
        project_origin(s, o1) == a,
        project_origin(s, o2) == b,
    decreases s.len(),
{
    if s.len() == 0 {
        assert(a =~= Seq::<ServerToClientMessageV>::empty());
        assert(b =~= Seq::<ServerToClientMessageV>::empty());
    } else if a.len() > 0 && a[0] == s[0] && is_interleaving(s.drop_first(), a.drop_first(), b) {
        assert(forall|i: int|
            0 <= i < a.drop_first().len() ==> (#[trigger] a.drop_first()[i]).origin == Some(o1));
        lemma_projection_recovers(s.drop_first(), a.drop_first(), b, o1, o2);
        assert(s[0].origin == Some(o1));
        assert(seq![s[0]] + a.drop_first() =~= a);
    } else {
        assert(b.len() > 0 && b[0] == s[0] && is_interleaving(s.drop_first(), a, b.drop_first()));
        assert(forall|i: int|
            0 <= i < b.drop_first().len() ==> (#[trigger] b.drop_first()[i]).origin == Some(o2));
        lemma_projection_recovers(s.drop_first(), a, b.drop_first(), o1, o2);
        assert(s[0].origin == Some(o2));
        assert(s[0].origin != Some(o1));
        assert(seq![s[0]] + b.drop_first() =~= b);
    }
}

/// Every reply of an exchange carries the exchange's origin.
pub proof fn lemma_exchange_replies_origin(origin: Seq<char>, outcome: HttpExchangeOutcomeV)
    ensures
        forall|i: int|
            0 <= i < spec_exchange_replies(origin, outcome).len() ==> (
            #[trigger] spec_exchange_replies(origin, outcome)[i]).origin == Some(origin),
{
}

/// Two exchanges' reply streams may interleave on the wire, but each
/// origin's own sequence survives intact: headers still come before all
/// its chunks, which come before its completion.
pub proof fn lemma_interleaved_exchanges(
    s: Seq<ServerToClientMessageV>,
    o1: Seq<char>,
    out1: HttpExchangeOutcomeV,
    o2: Seq<char>,
    out2: HttpExchangeOutcomeV,
)
    requires
        is_interleaving(s, spec_exchange_replies(o1, out1), spec_exchange_replies(o2, out2)),
        o1 != o2,
    ensures
        project_origin(s, o1) == spec_exchange_replies(o1, out1),
        project_origin(s, o2) == spec_exchange_replies(o2, out2),
{
    lemma_exchange_replies_origin(o1, out1);
    lemma_exchange_replies_origin(o2, out2);
    lemma_projection_recovers(
        s,
        spec_exchange_replies(o1, out1),
        spec_exchange_replies(o2, out2),
        o1,
        o2,
    );
}

} // verus!
