//! The envelope codec: a canonical, length-delimited binary encoding of the
//! command and reply envelopes. Every field is written in a fixed order with
//! a one-byte tag, integers as minimal base-128 varints, strings and nested
//! messages as length-prefixed byte blocks. `spec_*` functions give the bytes
//! a value encodes to, `sp_*` functions give the one way a byte sequence
//! parses, and the round-trip lemmas tie the two together.
use vstd::prelude::*;
use vstd::slice::{slice_subrange, slice_to_vec};
use vstd::string::StrSliceExecFns;
use vstd::utf8::{
    decode_utf8, encode_utf8, encode_utf8_decode_utf8, encode_utf8_valid_utf8, valid_utf8,
};

use crate::error::DecodeError;

verus! {

/// Wire values are capped at 32 bits; a varint above this is malformed.
pub const VARINT_MAX: u64 = 0xFFFF_FFFF;

/// The most bytes a minimal varint below 2^35 can occupy.
pub const VARINT_MAX_BYTES: usize = 5;

// ---------------------------------------------------------------------------
// Varints
// ---------------------------------------------------------------------------

/// The minimal base-128 little-endian encoding of `n`.
pub open spec fn spec_varint(n: nat) -> Seq<u8>
    decreases n,
{
    if n < 0x80 {
        seq![n as u8]
    } else {
        seq![(n % 0x80 + 0x80) as u8] + spec_varint(n / 0x80)
    }
}

/// Parse a varint of at most `fuel` bytes starting at `pos`. Rejects
/// non-minimal encodings (a continuation followed by a zero value) and
/// encodings wider than `fuel` bytes.
pub open spec fn sp_varint(s: Seq<u8>, pos: int, fuel: nat) -> Result<(nat, int), DecodeError>
    decreases fuel,
{
    if fuel == 0 {
        Err(DecodeError::Malformed)
    } else if !(0 <= pos < s.len()) {
        Err(DecodeError::Truncated)
    } else if s[pos] < 0x80 {
        Ok((s[pos] as nat, pos + 1))
    } else {
        match sp_varint(s, pos + 1, (fuel - 1) as nat) {
            Ok((m, end)) => if m == 0 {
                Err(DecodeError::Malformed)
            } else {
                Ok(((s[pos] - 0x80) as nat + 0x80 * m, end))
            },
            Err(e) => Err(e),
        }
    }
}

/// A parsed varint's value is below 2^(7*fuel), and it consumed
/// between 1 and `fuel` bytes.
pub proof fn lemma_sp_varint_bound(s: Seq<u8>, pos: int, fuel: nat, bound: nat)
    requires
        sp_varint(s, pos, fuel) is Ok,
        pow128(fuel) <= bound,
    ensures
        sp_varint(s, pos, fuel)->Ok_0.0 < bound,
        pos + 1 <= sp_varint(s, pos, fuel)->Ok_0.1 <= pos + fuel,
        sp_varint(s, pos, fuel)->Ok_0.1 <= s.len(),
    decreases fuel,
{
    lemma_pow128_pos(fuel);
    if fuel > 0 && 0 <= pos < s.len() {
        lemma_pow128_pos((fuel - 1) as nat);
        if s[pos] >= 0x80 {
            lemma_sp_varint_bound(s, pos + 1, (fuel - 1) as nat, pow128((fuel - 1) as nat));
        }
    }
}

/// 128^n is positive.
pub proof fn lemma_pow128_pos(n: nat)
    ensures
        pow128(n) >= 1,
    decreases n,
{
    if n > 0 {
        lemma_pow128_pos((n - 1) as nat);
    }
}

/// 128^n grows with n.
pub proof fn lemma_pow128_mono(a: nat, b: nat)
    requires
        a <= b,
    ensures
        pow128(a) <= pow128(b),
    decreases b,
{
    if a < b && b > 0 {
        lemma_pow128_mono(a, (b - 1) as nat);
        lemma_pow128_pos((b - 1) as nat);
    }
}

/// 128^n, the number of values a varint of n bytes can carry.
pub open spec fn pow128(n: nat) -> nat
    decreases n,
{
    if n == 0 {
        1
    } else {
        128 * pow128((n - 1) as nat)
    }
}

/// The small powers of 128 the parser's bounds rest on.
pub proof fn lemma_pow128_values()
    ensures
        pow128(1) == 0x80,
        pow128(2) == 0x4000,
        pow128(3) == 0x20_0000,
        pow128(4) == 0x1000_0000,
        pow128(5) == 0x8_0000_0000,
{
    assert(pow128(0) == 1);
    assert(pow128(1) == 0x80);
    assert(pow128(2) == 0x4000);
    assert(pow128(3) == 0x20_0000);
    assert(pow128(4) == 0x1000_0000);
    assert(pow128(5) == 0x8_0000_0000);
}

/// The minimal varint of a value below 128^k is at most k bytes long,
/// and always at least one byte.
pub proof fn lemma_varint_len(n: nat, k: nat)
    requires
        n < pow128(k),
        k >= 1,
    ensures
        1 <= spec_varint(n).len() <= k,
    decreases k,
{
    if n >= 0x80 {
        assert(pow128(k) == 128 * pow128((k - 1) as nat));
        lemma_varint_len(n / 0x80, (k - 1) as nat);
    }
}

/// Parsing reads back exactly the bytes `spec_varint` wrote, whatever
/// follows them, as long as the fuel covers the encoding's width.
pub proof fn lemma_varint_roundtrip(s: Seq<u8>, pos: int, n: nat, fuel: nat)
    requires
        0 <= pos,
        pos + spec_varint(n).len() <= s.len(),
        s.subrange(pos, pos + spec_varint(n).len() as int) == spec_varint(n),
        spec_varint(n).len() <= fuel,
    ensures
        sp_varint(s, pos, fuel) == Ok::<(nat, int), DecodeError>(
            (n, pos + spec_varint(n).len() as int),
        ),
    decreases n,
{
    let enc = spec_varint(n);
    assert(s[pos] == enc[0]);
    if n < 0x80 {
        assert(sp_varint(s, pos, fuel) == Ok::<(nat, int), DecodeError>((n, pos + 1)));
    } else {
        let rest = spec_varint(n / 0x80);
        assert(enc == seq![(n % 0x80 + 0x80) as u8] + rest);
        assert(s.subrange(pos + 1, pos + 1 + rest.len() as int) =~= rest) by {
            assert(forall|i: int|
                0 <= i < rest.len() ==> #[trigger] s.subrange(
                    pos + 1,
                    pos + 1 + rest.len() as int,
                )[i] == enc[i + 1]);
        }
        lemma_varint_roundtrip(s, pos + 1, n / 0x80, (fuel - 1) as nat);
        assert(n / 0x80 > 0);
        assert(s[pos] == (n % 0x80 + 0x80) as u8);
        assert((s[pos] - 0x80) as nat + 0x80 * (n / 0x80) == n);
    }
}

/// Append the minimal varint of `n` to `out`.
pub fn encode_varint(out: &mut Vec<u8>, n: u64)
    requires
        n <= VARINT_MAX,
    ensures
        final(out)@ == old(out)@ + spec_varint(n as nat),
    decreases n,
{
    if n < 0x80 {
        out.push(n as u8);
        assert(out@ =~= old(out)@ + spec_varint(n as nat));
    } else {
        out.push((n % 0x80 + 0x80) as u8);
        encode_varint(out, n / 0x80);
        assert(out@ =~= old(out)@ + spec_varint(n as nat));
    }
}

/// Parse a varint at `pos`, mirroring `sp_varint` with fuel `fuel`.
pub fn parse_varint(v: &Vec<u8>, pos: usize, fuel: usize) -> (r: Result<(u64, usize), DecodeError>)
    requires
        fuel <= VARINT_MAX_BYTES,
    ensures
        match sp_varint(v@, pos as int, fuel as nat) {
            Ok((n, end)) => r is Ok && r->Ok_0.0 == n && r->Ok_0.1 == end,
            Err(e) => r is Err && r->Err_0 == e,
        },
    decreases fuel,
{
    if fuel == 0 {
        Err(DecodeError::Malformed)
    } else if pos >= v.len() {
        Err(DecodeError::Truncated)
    } else {
        let b = v[pos];
        if b < 0x80 {
            Ok((b as u64, pos + 1))
        } else {
            match parse_varint(v, pos + 1, fuel - 1) {
                Ok((m, end)) => {
                    if m == 0 {
                        Err(DecodeError::Malformed)
                    } else {
                        proof {
                            lemma_sp_varint_bound(
                                v@,
                                pos + 1 as int,
                                (fuel - 1) as nat,
                                pow128((fuel - 1) as nat),
                            );
                            lemma_pow128_mono((fuel - 1) as nat, 4);
                            lemma_pow128_values();
                        }
                        Ok(((b - 0x80) as u64 + 0x80 * m, end))
                    }
                },
                Err(e) => Err(e),
            }
        }
    }
}

// ---------------------------------------------------------------------------
// Length-delimited blocks and string fields
// ---------------------------------------------------------------------------

/// A copy of `v[a..b]`.
pub fn subvec(v: &Vec<u8>, a: usize, b: usize) -> (r: Vec<u8>)
    requires
        a <= b <= v.len(),
    ensures
        r@ == v@.subrange(a as int, b as int),
{
    slice_to_vec(slice_subrange(v.as_slice(), a, b))
}

/// A tagged, length-prefixed block: tag byte, varint byte count, body.
pub open spec fn spec_block(tag: u8, body: Seq<u8>) -> Seq<u8> {
    seq![tag] + spec_varint(body.len()) + body
}

/// Parse a block with the expected `tag` at `pos`; on success gives the
/// body's start and end offsets.
pub open spec fn sp_block(s: Seq<u8>, pos: int, tag: u8) -> Result<(int, int), DecodeError> {
    if !(0 <= pos < s.len()) {
        Err(DecodeError::Truncated)
    } else if s[pos] != tag {
        Err(DecodeError::UnknownTag)
    } else {
        match sp_varint(s, pos + 1, VARINT_MAX_BYTES as nat) {
            Ok((n, p)) => if p + n <= s.len() {
                Ok((p, p + n))
            } else {
                Err(DecodeError::Truncated)
            },
            Err(e) => Err(e),
        }
    }
}

/// A parsed block's body lies strictly after the tag and inside the input.
pub proof fn lemma_sp_block_bounds(s: Seq<u8>, pos: int, tag: u8)
    requires
        sp_block(s, pos, tag) is Ok,
    ensures
        pos + 2 <= sp_block(s, pos, tag)->Ok_0.0 <= sp_block(s, pos, tag)->Ok_0.1 <= s.len(),
{
    lemma_sp_varint_bound(s, pos + 1, VARINT_MAX_BYTES as nat, pow128(VARINT_MAX_BYTES as nat));
}

/// Parse a block at `pos`, mirroring `sp_block`.
pub fn parse_block(v: &Vec<u8>, pos: usize, tag: u8) -> (r: Result<(usize, usize), DecodeError>)
    ensures
        match sp_block(v@, pos as int, tag) {
            Ok((a, b)) => r is Ok && r->Ok_0.0 == a && r->Ok_0.1 == b,
            Err(e) => r is Err && r->Err_0 == e,
        },
{
    if pos >= v.len() {
        Err(DecodeError::Truncated)
    } else if v[pos] != tag {
        Err(DecodeError::UnknownTag)
    } else {
        match parse_varint(v, pos + 1, VARINT_MAX_BYTES) {
            Ok((n, p)) => {
                proof {
                    lemma_sp_varint_bound(
                        v@,
                        pos + 1 as int,
                        VARINT_MAX_BYTES as nat,
                        pow128(VARINT_MAX_BYTES as nat),
                    );
                }
                if n <= (v.len() - p) as u64 {
                    Ok((p, p + n as usize))
                } else {
                    Err(DecodeError::Truncated)
                }
            },
            Err(e) => Err(e),
        }
    }
}

/// Append `spec_block(tag, body)` to `out`, consuming `body`; refused when
/// the body is too long for a wire varint.
pub fn emit_block(out: &mut Vec<u8>, tag: u8, body: &mut Vec<u8>) -> (r: Result<(), ()>)
    ensures
        r is Ok ==> final(out)@ == old(out)@ + spec_block(tag, old(body)@) && old(body)@.len()
            <= VARINT_MAX,
        r is Err ==> old(body)@.len() > VARINT_MAX,
{
    if body.len() as u64 > VARINT_MAX {
        Err(())
    } else {
        out.push(tag);
        encode_varint(out, body.len() as u64);
        out.append(body);
        assert(final(out)@ =~= old(out)@ + spec_block(tag, old(body)@));
        Ok(())
    }
}

/// The block a string field encodes to: its UTF-8 bytes behind `tag`.
pub open spec fn spec_string_block(tag: u8, chars: Seq<char>) -> Seq<u8> {
    spec_block(tag, encode_utf8(chars))
}

/// Append a string field to `out`.
pub fn emit_string_block(out: &mut Vec<u8>, tag: u8, s: &String) -> (r: Result<(), ()>)
    ensures
        r is Ok ==> final(out)@ == old(out)@ + spec_string_block(tag, s@) && encode_utf8(
            s@,
        ).len() <= VARINT_MAX,
        r is Err ==> encode_utf8(s@).len() > VARINT_MAX,
{
    let mut body = s.as_str().as_bytes_vec();
    emit_block(out, tag, &mut body)
}

/// Parse a string field: a block whose body must be valid UTF-8.
pub open spec fn sp_string(s: Seq<u8>, pos: int, tag: u8) -> Result<(Seq<char>, int), DecodeError> {
    match sp_block(s, pos, tag) {
        Ok((a, b)) => {
            let body = s.subrange(a, b);
            if valid_utf8(body) {
                Ok((decode_utf8(body), b))
            } else {
                Err(DecodeError::InvalidUtf8)
            }
        },
        Err(e) => Err(e),
    }
}

/// Parse a string field at `pos`, mirroring `sp_string`.
pub fn parse_string(v: &Vec<u8>, pos: usize, tag: u8) -> (r: Result<(String, usize), DecodeError>)
    ensures
        match sp_string(v@, pos as int, tag) {
            Ok((cs, end)) => r is Ok && r->Ok_0.0@ == cs && r->Ok_0.1 == end,
            Err(e) => r is Err && r->Err_0 == e,
        },
{
    match parse_block(v, pos, tag) {
        Ok((a, b)) => {
            proof {
                lemma_sp_block_bounds(v@, pos as int, tag);
            }
            let body = subvec(v, a, b);
            match utf8_to_string(body) {
                Some(s) => Ok((s, b)),
                None => Err(DecodeError::InvalidUtf8),
            }
        },
        Err(e) => Err(e),
    }
}

/// Relies on `String::from_utf8`: it succeeds exactly on valid UTF-8 input
/// and then returns the string those bytes spell.
#[verifier::external_body]
pub(crate) fn utf8_to_string(v: Vec<u8>) -> (r: Option<String>)
    ensures
        r is Some <==> valid_utf8(v@),
        r is Some ==> r->0@ == decode_utf8(v@),
{
    String::from_utf8(v).ok()
}

// ---------------------------------------------------------------------------
// Varint fields
// ---------------------------------------------------------------------------

/// A tagged varint field.
pub open spec fn spec_varint_field(tag: u8, n: nat) -> Seq<u8> {
    seq![tag] + spec_varint(n)
}

/// Append a varint field to `out`.
pub fn emit_varint_field(out: &mut Vec<u8>, tag: u8, n: u64)
    requires
        n <= VARINT_MAX,
    ensures
        final(out)@ == old(out)@ + spec_varint_field(tag, n as nat),
{
    out.push(tag);
    encode_varint(out, n);
    assert(final(out)@ =~= old(out)@ + spec_varint_field(tag, n as nat));
}

/// Parse a varint field with the expected `tag`; values above `VARINT_MAX`
/// are malformed.
pub open spec fn sp_varint_field(s: Seq<u8>, pos: int, tag: u8) -> Result<(nat, int), DecodeError> {
    if !(0 <= pos < s.len()) {
        Err(DecodeError::Truncated)
    } else if s[pos] != tag {
        Err(DecodeError::UnknownTag)
    } else {
        match sp_varint(s, pos + 1, VARINT_MAX_BYTES as nat) {
            Ok((n, end)) => if n <= VARINT_MAX {
                Ok((n, end))
            } else {
                Err(DecodeError::Malformed)
            },
            Err(e) => Err(e),
        }
    }
}

/// Parse a varint field at `pos`, mirroring `sp_varint_field`.
pub fn parse_varint_field(v: &Vec<u8>, pos: usize, tag: u8) -> (r: Result<
    (u64, usize),
    DecodeError,
>)
    ensures
        match sp_varint_field(v@, pos as int, tag) {
            Ok((n, end)) => r is Ok && r->Ok_0.0 == n && r->Ok_0.1 == end,
            Err(e) => r is Err && r->Err_0 == e,
        },
{
    if pos >= v.len() {
        Err(DecodeError::Truncated)
    } else if v[pos] != tag {
        Err(DecodeError::UnknownTag)
    } else {
        match parse_varint(v, pos + 1, VARINT_MAX_BYTES) {
            Ok((n, end)) => {
                if n <= VARINT_MAX {
                    Ok((n, end))
                } else {
                    Err(DecodeError::Malformed)
                }
            },
            Err(e) => Err(e),
        }
    }
}

// ---------------------------------------------------------------------------
// Round-trip lemmas for the primitives
// ---------------------------------------------------------------------------

/// A block written by `spec_block` parses back to exactly its body.
pub proof fn lemma_block_roundtrip(s: Seq<u8>, pos: int, tag: u8, body: Seq<u8>)
    requires
        0 <= pos,
        pos + spec_block(tag, body).len() <= s.len(),
        s.subrange(pos, pos + spec_block(tag, body).len() as int) == spec_block(tag, body),
        body.len() <= VARINT_MAX,
    ensures
        ({
            let vl = spec_varint(body.len()).len() as int;
            let bstart = pos + 1 + vl;
            let bend = pos + spec_block(tag, body).len() as int;
            &&& sp_block(s, pos, tag) == Ok::<(int, int), DecodeError>((bstart, bend))
            &&& s.subrange(bstart, bend) == body
            &&& bend == bstart + body.len()
        }),
{
    let enc = spec_block(tag, body);
    let vint = spec_varint(body.len());
    let vl = vint.len() as int;
    lemma_pow128_values();
    lemma_varint_len(body.len(), VARINT_MAX_BYTES as nat);
    assert(s[pos] == enc[0]);
    assert(s[pos] == tag);
    assert(s.subrange(pos + 1, pos + 1 + vl) =~= vint) by {
        assert(forall|i: int|
            0 <= i < vl ==> #[trigger] s.subrange(pos + 1, pos + 1 + vl)[i] == enc[i + 1]);
    }
    lemma_varint_roundtrip(s, pos + 1, body.len(), VARINT_MAX_BYTES as nat);
    let bstart = pos + 1 + vl;
    let bend = pos + enc.len() as int;
    assert(s.subrange(bstart, bend) =~= body) by {
        assert(forall|i: int|
            0 <= i < body.len() ==> #[trigger] s.subrange(bstart, bend)[i] == enc[i + 1 + vl]);
    }
}

/// A parsed string field ends after its tag and inside the input.
pub proof fn lemma_sp_string_bounds(s: Seq<u8>, pos: int, tag: u8)
    requires
        sp_string(s, pos, tag) is Ok,
    ensures
        pos + 2 <= sp_string(s, pos, tag)->Ok_0.1 <= s.len(),
{
    lemma_sp_block_bounds(s, pos, tag);
}

/// A parsed varint field ends after its tag and inside the input.
pub proof fn lemma_sp_varint_field_bounds(s: Seq<u8>, pos: int, tag: u8)
    requires
        sp_varint_field(s, pos, tag) is Ok,
    ensures
        pos + 2 <= sp_varint_field(s, pos, tag)->Ok_0.1 <= s.len(),
{
    lemma_sp_varint_bound(s, pos + 1, VARINT_MAX_BYTES as nat, pow128(VARINT_MAX_BYTES as nat));
}

/// A string field written by `spec_string_block` parses back to its text.
pub proof fn lemma_string_roundtrip(s: Seq<u8>, pos: int, tag: u8, chars: Seq<char>)
    requires
        0 <= pos,
        pos + spec_string_block(tag, chars).len() <= s.len(),
        s.subrange(pos, pos + spec_string_block(tag, chars).len() as int) == spec_string_block(
            tag,
            chars,
        ),
        encode_utf8(chars).len() <= VARINT_MAX,
    ensures
        sp_string(s, pos, tag) == Ok::<(Seq<char>, int), DecodeError>(
            (chars, pos + spec_string_block(tag, chars).len() as int),
        ),
{
    lemma_block_roundtrip(s, pos, tag, encode_utf8(chars));
    encode_utf8_valid_utf8(chars);
    encode_utf8_decode_utf8(chars);
}

/// A varint field written by `spec_varint_field` parses back to its value.
pub proof fn lemma_varint_field_roundtrip(s: Seq<u8>, pos: int, tag: u8, n: nat)
    requires
        0 <= pos,
        pos + spec_varint_field(tag, n).len() <= s.len(),
        s.subrange(pos, pos + spec_varint_field(tag, n).len() as int) == spec_varint_field(tag, n),
        n <= VARINT_MAX,
    ensures
        sp_varint_field(s, pos, tag) == Ok::<(nat, int), DecodeError>(
            (n, pos + spec_varint_field(tag, n).len() as int),
        ),
{
    let enc = spec_varint_field(tag, n);
    let vint = spec_varint(n);
    let vl = vint.len() as int;
    lemma_pow128_values();
    lemma_varint_len(n, VARINT_MAX_BYTES as nat);
    assert(s[pos] == enc[0]);
    assert(s.subrange(pos + 1, pos + 1 + vl) =~= vint) by {
        assert(forall|i: int|
            0 <= i < vl ==> #[trigger] s.subrange(pos + 1, pos + 1 + vl)[i] == enc[i + 1]);
    }
    lemma_varint_roundtrip(s, pos + 1, n, VARINT_MAX_BYTES as nat);
}

} // verus!
