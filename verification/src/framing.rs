//! The frame layer: each envelope travels as a 4-byte little-endian length
//! prefix followed by that many payload bytes. `FrameReader` turns an
//! incrementally arriving byte stream back into payloads, enforcing the hard
//! length cap; an oversized frame is reported once and then skipped, so the
//! stream recovers at the next frame boundary.
use vstd::prelude::*;

use crate::codec::subvec;
use crate::MAX_FRAME_LEN;

verus! {

/// The value of a 4-byte little-endian length prefix.
pub open spec fn le32(s: Seq<u8>) -> nat
    recommends
        s.len() == 4,
{
    (s[0] + 0x100 * (s[1] + 0x100 * (s[2] + 0x100 * s[3]))) as nat
}

/// The 4-byte little-endian prefix encoding `n`.
pub open spec fn spec_le32_bytes(n: nat) -> Seq<u8> {
    seq![
        (n % 0x100) as u8,
        ((n / 0x100) % 0x100) as u8,
        ((n / 0x10000) % 0x100) as u8,
        ((n / 0x1000000) % 0x100) as u8,
    ]
}

/// Reading back a written length prefix gives the length.
pub proof fn lemma_le32_roundtrip(n: nat)
    requires
        n < 0x1_0000_0000,
    ensures
        le32(spec_le32_bytes(n)) == n,
{
}

/// Frame a payload: its length prefix, then its bytes. Refused exactly when
/// the payload is over the hard cap.
pub fn encode_frame(payload: &Vec<u8>) -> (r: Option<Vec<u8>>)
    ensures
        r is Some <==> payload@.len() <= MAX_FRAME_LEN,
        r is Some ==> r->0@ == spec_le32_bytes(payload@.len()) + payload@,
{
    if payload.len() > MAX_FRAME_LEN {
        return None;
    }
    let n = payload.len() as u64;
    let mut out: Vec<u8> = Vec::new();
    out.push((n % 0x100) as u8);
    out.push(((n / 0x100) % 0x100) as u8);
    out.push(((n / 0x10000) % 0x100) as u8);
    out.push(((n / 0x1000000) % 0x100) as u8);
    let mut body = subvec(payload, 0, payload.len());
    out.append(&mut body);
    assert(out@ =~= spec_le32_bytes(payload@.len()) + payload@);
    Some(out)
}

/// What one `next_frame` call can report.
#[derive(Clone, Debug, PartialEq, Eq)]
pub enum FrameStep {
    /// Nothing complete is buffered; feed more bytes.
    NeedMore,
    /// The frame at the head declared a length over the cap; its bytes are
    /// being discarded.
    TooBig,
    /// One complete payload.
    Frame(Vec<u8>),
}

pub ghost enum FrameStepV {
    NeedMore,
    TooBig,
    Frame(Seq<u8>),
}

impl View for FrameStep {
    type V = FrameStepV;

    open spec fn view(&self) -> FrameStepV {
        match self {
            FrameStep::NeedMore => FrameStepV::NeedMore,
            FrameStep::TooBig => FrameStepV::TooBig,
            FrameStep::Frame(f) => FrameStepV::Frame(f@),
        }
    }
}

pub ghost struct FrameReaderV {
    /// Bytes received and not yet consumed.
    pub pending: Seq<u8>,
    /// Bytes of an oversized frame still to discard.
    pub skip: nat,
}

/// Reads frames out of an incrementally fed byte stream.
pub struct FrameReader {
    buf: Vec<u8>,
    skip: usize,
}

impl View for FrameReader {
    type V = FrameReaderV;

    closed spec fn view(&self) -> FrameReaderV {
        FrameReaderV { pending: self.buf@, skip: self.skip as nat }
    }
}

/// The step taken by `next_frame` once any pending skip is consumed.
pub open spec fn spec_frame_scan(v: FrameReaderV) -> (FrameReaderV, FrameStepV)
    recommends
        v.skip == 0,
{
    if v.pending.len() < 4 {
        (v, FrameStepV::NeedMore)
    } else {
        let n = le32(v.pending.subrange(0, 4));
        if n > MAX_FRAME_LEN {
            (FrameReaderV { pending: v.pending.skip(4), skip: n }, FrameStepV::TooBig)
        } else if v.pending.len() - 4 < n {
            (v, FrameStepV::NeedMore)
        } else {
            (
                FrameReaderV { pending: v.pending.skip(4 + n as int), skip: 0 },
                FrameStepV::Frame(v.pending.subrange(4, 4 + n as int)),
            )
        }
    }
}

/// The step taken by one `next_frame` call: discard what is left of an
/// oversized frame, then scan for the next length prefix.
pub open spec fn spec_frame_step(v: FrameReaderV) -> (FrameReaderV, FrameStepV) {
    if v.skip > 0 {
        let k = if v.skip < v.pending.len() {
            v.skip
        } else {
            v.pending.len()
        };
        let v2 = FrameReaderV { pending: v.pending.skip(k as int), skip: (v.skip - k) as nat };
        if v2.skip > 0 {
            (v2, FrameStepV::NeedMore)
        } else {
            spec_frame_scan(v2)
        }
    } else {
        spec_frame_scan(v)
    }
}

impl FrameReader {
    /// A reader with nothing buffered.
    pub fn new() -> (r: FrameReader)
        ensures
            r@.pending == Seq::<u8>::empty(),
            r@.skip == 0,
    {
        FrameReader { buf: Vec::new(), skip: 0 }
    }

    /// Feed bytes read from the transport.
    pub fn push(&mut self, data: &[u8])
        ensures
            final(self)@.pending == old(self)@.pending + data@,
            final(self)@.skip == old(self)@.skip,
    {
        let mut i: usize = 0;
        while i < data.len()
            invariant
                i <= data@.len(),
                self.skip == old(self).skip,
                self.buf@ == old(self).buf@ + data@.subrange(0, i as int),
            decreases data@.len() - i,
        {
            self.buf.push(data[i]);
            assert(self.buf@ =~= old(self).buf@ + data@.subrange(0, i + 1 as int));
            i = i + 1;
        }
        assert(data@.subrange(0, data@.len() as int) =~= data@);
    }

    /// Take the next step: one complete payload, a report that the frame at
    /// the head is oversized, or a request for more bytes.
    pub fn next_frame(&mut self) -> (r: FrameStep)
        ensures
            (final(self)@, r@) == spec_frame_step(old(self)@),
    {
        if self.skip > 0 {
            let k = if self.skip < self.buf.len() {
                self.skip
            } else {
                self.buf.len()
            };
            let rest = subvec(&self.buf, k, self.buf.len());
            proof {
                assert(rest@ =~= self.buf@.skip(k as int));
            }
            self.buf = rest;
            self.skip = self.skip - k;
            if self.skip > 0 {
                return FrameStep::NeedMore;
            }
        }
        self.scan()
    }

    /// Scan the buffer head for a complete frame; the skip must be done.
    fn scan(&mut self) -> (r: FrameStep)
        requires
            old(self)@.skip == 0,
        ensures
            (final(self)@, r@) == spec_frame_scan(old(self)@),
    {
        if self.buf.len() < 4 {
            return FrameStep::NeedMore;
        }
        let n: u64 = self.buf[0] as u64 + 0x100 * (self.buf[1] as u64 + 0x100 * (self.buf[2] as u64
            + 0x100 * (self.buf[3] as u64)));
        assert(n == le32(self.buf@.subrange(0, 4))) by {
            assert(self.buf@.subrange(0, 4)[0] == self.buf@[0]);
            assert(self.buf@.subrange(0, 4)[1] == self.buf@[1]);
            assert(self.buf@.subrange(0, 4)[2] == self.buf@[2]);
            assert(self.buf@.subrange(0, 4)[3] == self.buf@[3]);
        }
        if n > MAX_FRAME_LEN as u64 {
            let rest = subvec(&self.buf, 4, self.buf.len());
            proof {
                assert(rest@ =~= self.buf@.skip(4));
            }
            self.buf = rest;
            self.skip = n as usize;
            FrameStep::TooBig
        } else if ((self.buf.len() - 4) as u64) < n {
            FrameStep::NeedMore
        } else {
            let frame = subvec(&self.buf, 4, 4 + n as usize);
            let rest = subvec(&self.buf, 4 + n as usize, self.buf.len());
            proof {
                assert(rest@ =~= self.buf@.skip(4 + n as int));
            }
            self.buf = rest;
            FrameStep::Frame(frame)
        }
    }
}

/// A complete well-formed frame at the head of an idle reader is returned
/// whole, and exactly the bytes after it stay buffered.
pub proof fn lemma_frame_step_delivers(payload: Seq<u8>, rest: Seq<u8>)
    requires
        payload.len() <= MAX_FRAME_LEN,
    ensures
        spec_frame_step(
            FrameReaderV { pending: spec_le32_bytes(payload.len()) + payload + rest, skip: 0 },
        ) == (FrameReaderV { pending: rest, skip: 0 }, FrameStepV::Frame(payload)),
{
    let s = spec_le32_bytes(payload.len()) + payload + rest;
    assert(s.subrange(0, 4) =~= spec_le32_bytes(payload.len()));
    lemma_le32_roundtrip(payload.len());
    assert(s.subrange(4, 4 + payload.len() as int) =~= payload);
    assert(s.skip(4 + payload.len() as int) =~= rest);
}

/// An oversized declared length is reported once, never buffered: the
/// reader drops the prefix and arms a skip of the declared length, so the
/// stream recovers at the next frame boundary.
pub proof fn lemma_frame_step_oversized(n: nat, rest: Seq<u8>)
    requires
        MAX_FRAME_LEN < n < 0x1_0000_0000,
    ensures
        spec_frame_step(FrameReaderV { pending: spec_le32_bytes(n) + rest, skip: 0 }) == (
            FrameReaderV { pending: rest, skip: n },
            FrameStepV::TooBig,
        ),
{
    let s = spec_le32_bytes(n) + rest;
    assert(s.subrange(0, 4) =~= spec_le32_bytes(n));
    lemma_le32_roundtrip(n);
    assert(s.skip(4) =~= rest);
}

/// Once the oversized frame's bytes have all arrived and been discarded, a
/// following well-formed frame is delivered as if nothing had happened.
pub proof fn lemma_frame_step_recovers(junk: Seq<u8>, payload: Seq<u8>, rest: Seq<u8>)
    requires
        payload.len() <= MAX_FRAME_LEN,
        junk.len() > 0,
    ensures
        spec_frame_step(
            FrameReaderV {
                pending: junk + spec_le32_bytes(payload.len()) + payload + rest,
                skip: junk.len(),
            },
        ) == (FrameReaderV { pending: rest, skip: 0 }, FrameStepV::Frame(payload)),
{
    let s = junk + spec_le32_bytes(payload.len()) + payload + rest;
    let after = spec_le32_bytes(payload.len()) + payload + rest;
    assert(s.skip(junk.len() as int) =~= after);
    lemma_frame_step_delivers(payload, rest);
}

} // verus!
