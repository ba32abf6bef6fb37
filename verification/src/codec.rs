//! Length-prefixed stream framing for the TCP transport.
//!
//! A frame is a 2-byte big-endian payload length followed by the
//! payload, so a payload may hold at most 65535 bytes. The encoder
//! turns one payload into one frame; the decoder is fed arbitrary
//! chunks of the byte stream and yields the framed payloads in order,
//! however the transport split the stream.

use vstd::arithmetic::div_mod::{lemma_div_is_ordered, lemma_fundamental_div_mod};
use vstd::prelude::*;

verus! {

/// Largest payload one frame can carry: the 2-byte length prefix
/// counts in bytes.
pub const MAX_FRAME_LEN: usize = 65535;

/// Errors of the framing layer.
#[derive(Debug, Clone, Copy, PartialEq, Eq, Structural)]
pub enum CodecError {
    /// The payload handed to the encoder does not fit in one frame.
    PayloadTooLarge,
    /// The frame announced by a length prefix does not fit in the
    /// buffer the caller is willing to fill.
    OutOfMemory,
}

/// The encoding of one payload: big-endian length, then the payload.
pub open spec fn frame_bytes(payload: Seq<u8>) -> Seq<u8>
    recommends
        payload.len() <= MAX_FRAME_LEN,
{
    seq![
        ((payload.len() as int / 256) as u8),
        ((payload.len() as int % 256) as u8),
    ] + payload
}

/// The payload length announced by the first two bytes of a stream.
pub open spec fn announced_len(s: Seq<u8>) -> int
    recommends
        s.len() >= 2,
{
    s[0] * 256 + s[1]
}

/// Whether a stream starts with one complete frame.
pub open spec fn has_frame(s: Seq<u8>) -> bool {
    s.len() >= 2 && s.len() >= 2 + announced_len(s)
}

/// The payload of the first complete frame of a stream.
pub open spec fn first_frame(s: Seq<u8>) -> Seq<u8>
    recommends
        has_frame(s),
{
    s.subrange(2, 2 + announced_len(s))
}

/// What is left of a stream once its first frame is removed.
pub open spec fn rest_after_frame(s: Seq<u8>) -> Seq<u8>
    recommends
        has_frame(s),
{
    s.subrange(2 + announced_len(s), s.len() as int)
}

/// All payloads framed at the front of a stream, in order; stops at
/// the first incomplete frame.
pub open spec fn decode_all(s: Seq<u8>) -> Seq<Seq<u8>>
    decreases s.len(),
{
    if has_frame(s) {
        seq![first_frame(s)] + decode_all(rest_after_frame(s))
    } else {
        Seq::empty()
    }
}

/// The concatenation of the encodings of a sequence of payloads.
pub open spec fn concat_frames(ps: Seq<Seq<u8>>) -> Seq<u8>
    decreases ps.len(),
{
    if ps.len() == 0 {
        Seq::empty()
    } else {
        frame_bytes(ps[0]) + concat_frames(ps.drop_first())
    }
}

/// A stream that starts with the encoding of `p` starts with one
/// complete frame, and that frame is `p`.
pub proof fn lemma_decode_one(p: Seq<u8>, rest: Seq<u8>)
    requires
        p.len() <= MAX_FRAME_LEN,
    ensures
        has_frame(frame_bytes(p) + rest),
        first_frame(frame_bytes(p) + rest) == p,
        rest_after_frame(frame_bytes(p) + rest) == rest,
{
    let s = frame_bytes(p) + rest;
    let n = p.len() as int;
    lemma_fundamental_div_mod(n, 256);
    lemma_div_is_ordered(0, n, 256);
    lemma_div_is_ordered(n, 65535, 256);
    assert(0 <= n / 256 <= 255);
    assert(0 <= n % 256 <= 255);
    assert(s[0] == (n / 256) as u8);
    assert(s[1] == (n % 256) as u8);
    assert(announced_len(s) == n);
    assert(first_frame(s) =~= p);
    assert(rest_after_frame(s) =~= rest);
}

/// Concatenating the encodings of any payloads, each of a size one
/// frame can carry, yields a stream that decodes to exactly those
/// payloads, in order — however the transport later splits the bytes.
pub proof fn lemma_frames_roundtrip(ps: Seq<Seq<u8>>)
    requires
        forall|i: int| 0 <= i < ps.len() ==> (#[trigger] ps[i]).len() <= MAX_FRAME_LEN,
    ensures
        decode_all(concat_frames(ps)) == ps,
    decreases ps.len(),
{
    if ps.len() == 0 {
        assert(!has_frame(Seq::empty()));
        assert(decode_all(concat_frames(ps)) =~= ps);
    } else {
        let p = ps[0];
        let rest = ps.drop_first();
        let tail = concat_frames(rest);
        lemma_decode_one(p, tail);
        assert(forall|i: int| 0 <= i < rest.len() ==> (#[trigger] rest[i]).len() <= MAX_FRAME_LEN)
            by {
            assert(forall|i: int| 0 <= i < rest.len() ==> rest[i] == ps[i + 1]);
        }
        lemma_frames_roundtrip(rest);
        assert(decode_all(concat_frames(ps)) =~= ps);
    }
}

/// Round trip of a single frame: decoding an encoded payload yields
/// that payload and nothing else.
pub proof fn lemma_roundtrip_single(p: Seq<u8>)
    requires
        p.len() <= MAX_FRAME_LEN,
    ensures
        decode_all(frame_bytes(p)) == seq![p],
{
    let fb = frame_bytes(p);
    lemma_decode_one(p, Seq::empty());
    assert(fb + Seq::<u8>::empty() =~= fb);
    assert(has_frame(fb));
    assert(first_frame(fb) == p);
    assert(rest_after_frame(fb) == Seq::<u8>::empty());
    assert(!has_frame(Seq::<u8>::empty()));
    assert(decode_all(Seq::<u8>::empty()) == Seq::<Seq<u8>>::empty());
    assert(decode_all(fb) =~= seq![p]);
}

/// Encodes payloads, one frame each.
pub struct LengthPrefixedEncoder {}

impl LengthPrefixedEncoder {
    pub fn new() -> (r: Self) {
        Self {  }
    }

    /// Encode one payload as one frame. A payload larger than a frame
    /// can carry is refused before anything is produced.
    pub fn encode(&self, data: &[u8]) -> (r: Result<Vec<u8>, CodecError>)
        ensures
            data@.len() <= MAX_FRAME_LEN ==> (r matches Ok(v) && v@ == frame_bytes(data@)),
            data@.len() > MAX_FRAME_LEN ==> r == Err::<Vec<u8>, CodecError>(
                CodecError::PayloadTooLarge,
            ),
    {
        if data.len() > MAX_FRAME_LEN {
            return Err(CodecError::PayloadTooLarge);
        }
        let len = data.len();
        let hi = (len / 256) as u8;
        let lo = (len % 256) as u8;
        let mut out: Vec<u8> = Vec::new();
        out.push(hi);
        out.push(lo);
        out.extend_from_slice(data);
        assert(out@ =~= frame_bytes(data@));
        Ok(out)
    }
}

/// Reassembles frames from a split byte stream.
///
/// Feed the chunks as they arrive with `push`; `poll_frame` yields the
/// next complete payload once its bytes are all in.
pub struct LengthPrefixedDecoder {
    buf: Vec<u8>,
}

impl LengthPrefixedDecoder {
    /// The bytes received and not yet decoded into frames.
    pub closed spec fn pending(self) -> Seq<u8> {
        self.buf@
    }

    pub fn new() -> (r: Self)
        ensures
            r.pending() == Seq::<u8>::empty(),
    {
        Self { buf: Vec::new() }
    }

    /// Feed the next chunk of the stream, as the transport delivered
    /// it; any split of the stream into chunks is acceptable.
    pub fn push(&mut self, chunk: &[u8])
        ensures
            final(self).pending() == old(self).pending() + chunk@,
    {
        self.buf.extend_from_slice(chunk);
    }

    /// Take the first complete frame out of the pending bytes.
    ///
    /// Returns `Ok(None)` while the frame at the front is still
    /// incomplete, and refuses a frame announced as larger than
    /// `max_len` — the size of the buffer the caller will copy the
    /// payload into — without consuming anything.
    pub fn poll_frame(&mut self, max_len: usize) -> (r: Result<Option<Vec<u8>>, CodecError>)
        ensures
            old(self).pending().len() < 2 ==> {
                &&& r == Ok::<Option<Vec<u8>>, CodecError>(None)
                &&& final(self).pending() == old(self).pending()
            },
            old(self).pending().len() >= 2 && announced_len(old(self).pending()) > max_len ==> {
                &&& r == Err::<Option<Vec<u8>>, CodecError>(CodecError::OutOfMemory)
                &&& final(self).pending() == old(self).pending()
            },
            old(self).pending().len() >= 2 && announced_len(old(self).pending()) <= max_len
                && !has_frame(old(self).pending()) ==> {
                &&& r == Ok::<Option<Vec<u8>>, CodecError>(None)
                &&& final(self).pending() == old(self).pending()
            },
            has_frame(old(self).pending()) && announced_len(old(self).pending()) <= max_len ==> {
                &&& r matches Ok(f)
                &&& f matches Some(v) && v@ == first_frame(old(self).pending())
                &&& final(self).pending() == rest_after_frame(old(self).pending())
            },
    {
        if self.buf.len() < 2 {
            return Ok(None);
        }
        let n: usize = (self.buf[0] as usize) * 256 + (self.buf[1] as usize);
        if n > max_len {
            return Err(CodecError::OutOfMemory);
        }
        if self.buf.len() < 2 + n {
            return Ok(None);
        }
        let ghost s = self.buf@;
        let mut frame = self.buf.split_off(2);
        let rest = frame.split_off(n);
        self.buf = rest;
        assert(frame@ =~= first_frame(s));
        assert(self.buf@ =~= rest_after_frame(s));
        Ok(Some(frame))
    }
}

} // verus!
