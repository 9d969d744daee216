//! Validation and conversion of decoded header lists and method strings
//! into the upstream HTTP client's representations. The grammar checks and
//! the contents of the built header map are stated here; the `http` crate
//! performs the checks and holds the map behind trusted wrappers.
use vstd::prelude::*;
use vstd::utf8::encode_utf8;

use crate::error::{Error, ProtocolError};
use crate::proto::{headers_view, HttpHeader, HttpHeaderV};

verus! {

#[verifier::external_type_specification]
#[verifier::external_body]
#[verifier::reject_recursive_types(T)]
pub struct ExHeaderMap<T>(http::HeaderMap<T>);

#[verifier::external_type_specification]
#[verifier::external_body]
pub struct ExHeaderValue(http::header::HeaderValue);

/// What a header map holds: for each name present (stored lowercased), the
/// value last inserted under it.
pub uninterp spec fn header_entries(m: http::HeaderMap) -> Map<Seq<u8>, Seq<char>>;

/// A byte HTTP's grammar accepts inside a token.
pub open spec fn is_tchar(b: u8) -> bool {
    ||| b == 0x21
    ||| b == 0x23
    ||| b == 0x24
    ||| b == 0x25
    ||| b == 0x26
    ||| b == 0x27
    ||| b == 0x2A
    ||| b == 0x2B
    ||| b == 0x2D
    ||| b == 0x2E
    ||| b == 0x5E
    ||| b == 0x5F
    ||| b == 0x60
    ||| b == 0x7C
    ||| b == 0x7E
    ||| 0x30 <= b <= 0x39
    ||| 0x41 <= b <= 0x5A
    ||| 0x61 <= b <= 0x7A
}

/// A string usable as an HTTP method or header name: a nonempty token.
pub open spec fn is_token(s: Seq<char>) -> bool {
    &&& encode_utf8(s).len() > 0
    &&& forall|i: int| 0 <= i < encode_utf8(s).len() ==> is_tchar(#[trigger] encode_utf8(s)[i])
}

/// A string accepted as a header name: a token of at most 65535 bytes.
pub open spec fn is_header_name(s: Seq<char>) -> bool {
    is_token(s) && encode_utf8(s).len() <= 0xFFFF
}

/// A byte a header value may carry: visible characters, spaces and tabs,
/// and anything beyond ASCII.
pub open spec fn is_value_byte(b: u8) -> bool {
    (b >= 32 && b != 127) || b == 9
}

/// A string usable as a header value.
pub open spec fn is_header_value(s: Seq<char>) -> bool {
    forall|i: int| 0 <= i < encode_utf8(s).len() ==> is_value_byte(#[trigger] encode_utf8(s)[i])
}

/// A name byte as the header table stores it: letters lowercased.
pub open spec fn lower_byte(b: u8) -> u8 {
    if 0x41 <= b <= 0x5A {
        (b + 0x20) as u8
    } else {
        b
    }
}

/// The normalized key a header name is stored under: its bytes, lowercased.
pub open spec fn normalized_name(s: Seq<char>) -> Seq<u8> {
    encode_utf8(s).map_values(|b: u8| lower_byte(b))
}

/// The map a header list builds: one entry per normalized name, a later
/// pair replacing an earlier one whose name normalizes alike.
pub open spec fn spec_header_entries(hs: Seq<HttpHeaderV>) -> Map<Seq<u8>, Seq<char>>
    decreases hs.len(),
{
    if hs.len() == 0 {
        Map::empty()
    } else {
        spec_header_entries(hs.drop_last()).insert(normalized_name(hs.last().key), hs.last().value)
    }
}

/// Relies on http's `HeaderName::from_bytes`: it accepts exactly nonempty
/// token strings of at most 65535 bytes (uppercase letters are
/// normalized, not refused).
#[verifier::external_body]
pub(crate) fn header_name_valid(s: &String) -> (r: bool)
    ensures
        r == is_header_name(s@),
{
    http::header::HeaderName::from_bytes(s.as_bytes()).is_ok()
}

/// Relies on http's `HeaderValue::from_str`: it accepts exactly strings
/// whose bytes are visible characters, spaces, tabs, or beyond ASCII.
#[verifier::external_body]
pub(crate) fn header_value_valid(s: &String) -> (r: bool)
    ensures
        r == is_header_value(s@),
{
    http::header::HeaderValue::from_str(s.as_str()).is_ok()
}

/// Relies on http's `Method::from_bytes`: it accepts exactly nonempty
/// token strings.
#[verifier::external_body]
pub(crate) fn method_valid(s: &String) -> (r: bool)
    ensures
        r == is_token(s@),
{
    http::Method::from_bytes(s.as_bytes()).is_ok()
}

/// Relies on http's `HeaderMap::new`: a map holding nothing.
#[verifier::external_body]
fn header_map_new() -> (r: http::HeaderMap)
    ensures
        (header_entries(r) == Map::<Seq<u8>, Seq<char>>::empty()),
{
    http::HeaderMap::new()
}

/// Relies on http's `HeaderMap::try_insert`, with `HeaderName::from_bytes`
/// and `HeaderValue::from_str` converting the two strings: on success the
/// entry under the lowercased name now holds the value, any earlier values
/// under an equal name removed; on failure — the table refusing to grow
/// past its size limit, which its source only reaches with thousands of
/// names present — the contents are unchanged. Never panics.
#[verifier::external_body]
fn header_map_try_insert(m: &mut http::HeaderMap, key: &String, value: &String) -> (r: bool)
    requires
        is_header_name(key@),
        is_header_value(value@),
    ensures
        r ==> header_entries(*final(m)) == header_entries(*old(m)).insert(
            normalized_name(key@),
            value@,
        ),
        !r ==> header_entries(*final(m)) == header_entries(*old(m)),
        header_entries(*old(m)).dom().len() < 4096 ==> r,
{
    let name = match http::header::HeaderName::from_bytes(key.as_bytes()) {
        Ok(n) => n,
        Err(_) => return false,
    };
    let val = match http::header::HeaderValue::from_str(value.as_str()) {
        Ok(v) => v,
        Err(_) => return false,
    };
    m.try_insert(name, val).is_ok()
}

/// The failure converting a header list reports, if any: walking in order,
/// the first key that is not a valid header name or the first ill-formed
/// value.
pub open spec fn find_header_err(hs: Seq<HttpHeaderV>) -> Option<ProtocolError>
    decreases hs.len(),
{
    if hs.len() == 0 {
        None
    } else if !is_header_name(hs[0].key) {
        Some(ProtocolError::InvalidHeaderName)
    } else if !is_header_value(hs[0].value) {
        Some(ProtocolError::InvalidHeaderValue)
    } else {
        find_header_err(hs.drop_first())
    }
}

/// Build the upstream header map from a decoded header list. On success
/// the map holds exactly the given pairs, a later pair replacing an
/// earlier one whose name normalizes alike. Fails on the first invalid
/// name or value, or when the upstream table refuses another entry —
/// which cannot happen for lists of up to 4096 headers.
pub fn header_map(headers: Vec<HttpHeader>) -> (r: Result<http::HeaderMap, Error>)
    ensures
        r is Ok ==> find_header_err(headers_view(headers@)) is None && header_entries(r->Ok_0)
            == spec_header_entries(headers_view(headers@)),
        find_header_err(headers_view(headers@)) is Some ==> r is Err,
        r is Err ==> (find_header_err(headers_view(headers@)) is Some && r->Err_0 == Error::Protocol(
            find_header_err(headers_view(headers@))->0,
        )) || r->Err_0 == Error::Protocol(ProtocolError::TooManyHeaders),
        headers@.len() <= 4096 && find_header_err(headers_view(headers@)) is None ==> r is Ok,
        headers@.len() <= 4096 && find_header_err(headers_view(headers@)) is Some ==> r is Err
            && r->Err_0 == Error::Protocol(find_header_err(headers_view(headers@))->0),
{
    let ghost all = headers_view(headers@);
    let mut m = header_map_new();
    let mut i: usize = 0;
    proof {
        assert(all.skip(0) =~= all);
        assert(spec_header_entries(all.subrange(0, 0)) =~= Map::<Seq<u8>, Seq<char>>::empty());
    }
    while i < headers.len()
        invariant
            i <= headers.len(),
            all == headers_view(headers@),
            all.len() == headers@.len(),
            find_header_err(all) == find_header_err(all.skip(i as int)),
            header_entries(m) == spec_header_entries(all.subrange(0, i as int)),
            header_entries(m).dom().finite(),
            header_entries(m).dom().len() <= i,
        decreases headers.len() - i,
    {
        proof {
            assert(all.skip(i as int)[0] == all[i as int]);
            assert(all[i as int] == headers@[i as int]@);
        }
        let h = &headers[i];
        if !header_name_valid(&h.key) {
            return Err(Error::Protocol(ProtocolError::InvalidHeaderName));
        }
        if !header_value_valid(&h.value) {
            return Err(Error::Protocol(ProtocolError::InvalidHeaderValue));
        }
        let ghost pre = header_entries(m);
        let ok = header_map_try_insert(&mut m, &h.key, &h.value);
        if !ok {
            proof {
                assert(header_entries(m).dom().len() <= i);
            }
            return Err(Error::Protocol(ProtocolError::TooManyHeaders));
        }
        proof {
            lemma_find_header_err_prefix_ok(all, i as int);
            let sub1 = all.subrange(0, i + 1 as int);
            assert(sub1.drop_last() =~= all.subrange(0, i as int));
            assert(sub1.last() == all[i as int]);
            let key = normalized_name(all[i as int].key);
            assert(header_entries(m).dom() =~= pre.dom().insert(key));
            if pre.dom().contains(key) {
                assert(pre.dom().insert(key) =~= pre.dom());
            }
        }
        i = i + 1;
    }
    proof {
        assert(all.skip(i as int).len() == 0);
        assert(all.subrange(0, i as int) =~= all);
    }
    Ok(m)
}

/// If each of the first `i` headers passed its checks and the walk got
/// this far, any failure the whole list reports lies at `i` or later.
proof fn lemma_find_header_err_prefix_ok(hs: Seq<HttpHeaderV>, i: int)
    requires
        0 <= i <= hs.len(),
        find_header_err(hs) == find_header_err(hs.skip(i)),
        i < hs.len() ==> is_header_name(hs[i].key) && is_header_value(hs[i].value),
    ensures
        i < hs.len() ==> find_header_err(hs) == find_header_err(hs.skip(i + 1)),
{
    if i < hs.len() {
        assert(hs.skip(i)[0] == hs[i]);
        assert(hs.skip(i).drop_first() =~= hs.skip(i + 1));
    }
}

} // verus!
