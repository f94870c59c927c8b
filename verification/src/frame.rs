//! The frame codec. A frame on the wire is a 4-byte big-endian unsigned
//! length `L` followed by exactly `L` payload bytes, with the invariant
//! `0 < L < FRAME_MAX_LEN`. The decoder consumes completed frames from the
//! front of an accumulation buffer and never consumes anything else: on a
//! short buffer it leaves every byte in place so the caller can read more
//! and try again.

use vstd::prelude::*;
use vstd::arithmetic::div_mod::{lemma_fundamental_div_mod, lemma_div_denominator};
use bytes::BytesMut;
use crate::bytebuf::{buf_view, buf_len, buf_byte_at, buf_split_to, buf_to_vec};
use crate::errors::WireError;

verus! {

/// Exclusive upper bound on the length prefix of a frame.
pub const FRAME_MAX_LEN: usize = 2 * 1024 * 1024;

/// The unsigned value of a 4-byte big-endian length prefix.
pub open spec fn be32_value(b: Seq<u8>) -> int
    recommends
        b.len() == 4,
{
    b[0] * 0x100_0000 + b[1] * 0x1_0000 + b[2] * 0x100 + b[3]
}

/// The 4-byte big-endian encoding of a value below 2^32.
pub open spec fn be32_bytes(n: int) -> Seq<u8>
    recommends
        0 <= n < 0x1_0000_0000,
{
    seq![
        (n / 0x100_0000 % 0x100) as u8,
        (n / 0x1_0000 % 0x100) as u8,
        (n / 0x100 % 0x100) as u8,
        (n % 0x100) as u8,
    ]
}

pub proof fn lemma_be32_round_trip(n: int)
    requires
        0 <= n < 0x1_0000_0000,
    ensures
        be32_value(be32_bytes(n)) == n,
{
    let b = be32_bytes(n);
    lemma_fundamental_div_mod(n, 0x100);
    lemma_fundamental_div_mod(n / 0x100, 0x100);
    lemma_fundamental_div_mod(n / 0x100 / 0x100, 0x100);
    lemma_div_denominator(n, 0x100, 0x100);
    lemma_div_denominator(n, 0x1_0000, 0x100);
    lemma_div_denominator(n / 0x100, 0x100, 0x100);
    assert(n / 0x100_0000 < 0x100) by {
        lemma_div_denominator(n, 0x100_0000, 0x100);
    }
    assert(n / 0x100_0000 % 0x100 == n / 0x100_0000) by {
        vstd::arithmetic::div_mod::lemma_small_mod((n / 0x100_0000) as nat, 0x100);
    }
    assert(be32_value(b) == n) by (nonlinear_arith)
        requires
            b.len() == 4,
            b[0] == n / 0x100_0000 % 0x100,
            b[1] == n / 0x1_0000 % 0x100,
            b[2] == n / 0x100 % 0x100,
            b[3] == n % 0x100,
            n == 0x100 * (n / 0x100) + n % 0x100,
            n / 0x100 == 0x100 * (n / 0x1_0000) + n / 0x100 % 0x100,
            n / 0x1_0000 == 0x100 * (n / 0x100_0000) + n / 0x1_0000 % 0x100,
            n / 0x100_0000 % 0x100 == n / 0x100_0000,
            0 <= n % 0x100 < 0x100,
            0 <= n / 0x100 % 0x100 < 0x100,
            0 <= n / 0x1_0000 % 0x100 < 0x100,
    {
    }
}

/// Reads a big-endian length prefix from four bytes.
pub fn be32_read(b0: u8, b1: u8, b2: u8, b3: u8) -> (r: u32)
    ensures
        r == be32_value(seq![b0, b1, b2, b3]),
{
    let r = (b0 as u32) * 0x100_0000 + (b1 as u32) * 0x1_0000 + (b2 as u32) * 0x100 + (b3 as u32);
    proof {
        assert(seq![b0, b1, b2, b3][0] == b0);
        assert(seq![b0, b1, b2, b3][1] == b1);
        assert(seq![b0, b1, b2, b3][2] == b2);
        assert(seq![b0, b1, b2, b3][3] == b3);
    }
    r
}

/// Writes a value below 2^32 as a 4-byte big-endian prefix.
pub fn be32_write(n: u32) -> (r: Vec<u8>)
    ensures
        r@ == be32_bytes(n as int),
{
    let b0 = ((n / 0x100_0000) % 0x100) as u8;
    let b1 = ((n / 0x1_0000) % 0x100) as u8;
    let b2 = ((n / 0x100) % 0x100) as u8;
    let b3 = (n % 0x100) as u8;
    let r = vec![b0, b1, b2, b3];
    proof {
        assert(r@ =~= be32_bytes(n as int));
    }
    r
}

/// The wire encoding of one frame: the big-endian length prefix, then the
/// payload bytes.
pub open spec fn spec_frame(payload: Seq<u8>) -> Seq<u8>
    recommends
        0 < payload.len() < FRAME_MAX_LEN,
{
    be32_bytes(payload.len() as int) + payload
}

/// What one decoding step finds at the front of an accumulation buffer.
pub enum FrameStep {
    /// Fewer than 4 bytes buffered, or fewer than the prefix announces:
    /// nothing may be consumed yet.
    NeedMore,
    /// The length prefix is zero or at least `FRAME_MAX_LEN`: a fatal
    /// framing error.
    Invalid,
    /// A completed frame: its payload, and the bytes that remain buffered
    /// after the frame is consumed.
    Frame { payload: Seq<u8>, rest: Seq<u8> },
}

/// One decoding step on the contents of the accumulation buffer.
pub open spec fn spec_extract(b: Seq<u8>) -> FrameStep {
    if b.len() < 4 {
        FrameStep::NeedMore
    } else {
        let n = be32_value(b.take(4));
        if n == 0 || n >= FRAME_MAX_LEN {
            FrameStep::Invalid
        } else if b.len() < 4 + n {
            FrameStep::NeedMore
        } else {
            FrameStep::Frame { payload: b.subrange(4, 4 + n), rest: b.skip(4 + n) }
        }
    }
}

/// Encodes one frame. Fails on exactly the payload lengths whose frames the
/// decoder would reject as invalid.
pub fn encode_frame(payload: &[u8]) -> (r: Result<Vec<u8>, WireError>)
    ensures
        0 < payload@.len() < FRAME_MAX_LEN ==> r is Ok && r.unwrap()@ == spec_frame(payload@),
        !(0 < payload@.len() < FRAME_MAX_LEN) ==> r == Err::<Vec<u8>, WireError>(
            WireError::FrameTooLarge,
        ),
{
    let n = payload.len();
    if n == 0 || n >= FRAME_MAX_LEN {
        return Err(WireError::FrameTooLarge);
    }
    let mut out = be32_write(n as u32);
    out.extend_from_slice(payload);
    proof {
        assert(out@ =~= spec_frame(payload@));
    }
    Ok(out)
}

/// Removes one completed frame from the front of the accumulation buffer.
///
/// Returns `Ok(None)` without consuming anything while the buffer holds
/// less than one whole frame; returns the payload of the first frame, with
/// exactly its `4 + L` bytes consumed, once the buffer holds one; and fails
/// without consuming anything on a length prefix of zero or of
/// `FRAME_MAX_LEN` or more.
pub fn try_extract_frame(buffer: &mut BytesMut) -> (r: Result<Option<Vec<u8>>, WireError>)
    ensures
        match spec_extract(buf_view(*old(buffer))) {
            FrameStep::NeedMore => r == Ok::<Option<Vec<u8>>, WireError>(None) && buf_view(
                *final(buffer),
            ) == buf_view(*old(buffer)),
            FrameStep::Invalid => r == Err::<Option<Vec<u8>>, WireError>(WireError::FrameTooLarge)
                && buf_view(*final(buffer)) == buf_view(*old(buffer)),
            FrameStep::Frame { payload, rest } => r is Ok && r.unwrap() is Some
                && r.unwrap().unwrap()@ == payload && buf_view(*final(buffer)) == rest,
        },
{
    let ghost b0 = buf_view(*buffer);
    if buf_len(buffer) < 4 {
        return Ok(None);
    }
    let n32 = be32_read(
        buf_byte_at(buffer, 0),
        buf_byte_at(buffer, 1),
        buf_byte_at(buffer, 2),
        buf_byte_at(buffer, 3),
    );
    proof {
        assert(seq![b0[0], b0[1], b0[2], b0[3]] =~= b0.take(4));
    }
    let n = n32 as usize;
    if n == 0 || n >= FRAME_MAX_LEN {
        return Err(WireError::FrameTooLarge);
    }
    if buf_len(buffer) < 4 + n {
        return Ok(None);
    }
    let mut whole = buf_split_to(buffer, 4 + n);
    let _prefix = buf_split_to(&mut whole, 4);
    let payload = buf_to_vec(&whole);
    proof {
        assert(payload@ =~= b0.subrange(4, 4 + n as int));
        assert(buf_view(*buffer) =~= b0.skip(4 + n as int));
    }
    Ok(Some(payload))
}

/// What draining the accumulation buffer finds: every completed frame at
/// the front, in stream order; the bytes left buffered; and whether the
/// drain ran into an invalid length prefix.
pub struct FrameDrain {
    pub frames: Seq<Seq<u8>>,
    pub rest: Seq<u8>,
    pub failed: bool,
}

/// Repeated decoding steps until the buffer holds no completed frame
/// (or an invalid prefix stops the drain).
pub open spec fn spec_drain(b: Seq<u8>) -> FrameDrain
    decreases b.len(),
{
    if b.len() < 4 {
        FrameDrain { frames: Seq::empty(), rest: b, failed: false }
    } else {
        let n = be32_value(b.take(4));
        if n == 0 || n >= FRAME_MAX_LEN {
            FrameDrain { frames: Seq::empty(), rest: b, failed: true }
        } else if b.len() < 4 + n {
            FrameDrain { frames: Seq::empty(), rest: b, failed: false }
        } else {
            let d = spec_drain(b.skip(4 + n));
            FrameDrain { frames: seq![b.subrange(4, 4 + n)] + d.frames, rest: d.rest, failed: d.failed }
        }
    }
}

/// Drains every completed frame from the front of the buffer, in stream
/// order. The second component reports the framing error that stopped the
/// drain, if one did; the frames extracted before the error are still
/// returned, since the caller dispatches each frame as it is decoded.
pub fn extract_frames(buffer: &mut BytesMut) -> (r: (Vec<Vec<u8>>, Option<WireError>))
    ensures
        r.0@.map_values(|v: Vec<u8>| v@) == spec_drain(buf_view(*old(buffer))).frames,
        buf_view(*final(buffer)) == spec_drain(buf_view(*old(buffer))).rest,
        r.1 == if spec_drain(buf_view(*old(buffer))).failed {
            Some(WireError::FrameTooLarge)
        } else {
            None::<WireError>
        },
{
    let ghost b0 = buf_view(*buffer);
    let mut frames: Vec<Vec<u8>> = Vec::new();
    proof {
        assert(frames@.map_values(|v: Vec<u8>| v@) + spec_drain(b0).frames =~= spec_drain(
            b0,
        ).frames);
    }
    loop
        invariant
            b0 == buf_view(*old(buffer)),
            spec_drain(b0).frames == frames@.map_values(|v: Vec<u8>| v@) + spec_drain(
                buf_view(*buffer),
            ).frames,
            spec_drain(b0).rest == spec_drain(buf_view(*buffer)).rest,
            spec_drain(b0).failed == spec_drain(buf_view(*buffer)).failed,
        decreases buf_view(*buffer).len(),
    {
        let ghost cur = buf_view(*buffer);
        match try_extract_frame(buffer) {
            Ok(Some(payload)) => {
                proof {
                    assert(spec_extract(cur) matches FrameStep::Frame { payload: p, rest }
                        ==> spec_drain(cur).frames == seq![p] + spec_drain(rest).frames
                        && spec_drain(cur).rest == spec_drain(rest).rest
                        && spec_drain(cur).failed == spec_drain(rest).failed);
                }
                let ghost before = frames@.map_values(|v: Vec<u8>| v@);
                frames.push(payload);
                proof {
                    assert(frames@.map_values(|v: Vec<u8>| v@) =~= before.push(payload@));
                    assert(before.push(payload@) + spec_drain(buf_view(*buffer)).frames =~= before
                        + (seq![payload@] + spec_drain(buf_view(*buffer)).frames));
                }
            },
            Ok(None) => {
                proof {
                    assert(spec_drain(cur).frames =~= Seq::<Seq<u8>>::empty());
                    assert(spec_drain(cur).rest == cur);
                    assert(!spec_drain(cur).failed);
                    assert(frames@.map_values(|v: Vec<u8>| v@) + spec_drain(cur).frames
                        =~= frames@.map_values(|v: Vec<u8>| v@));
                }
                return (frames, None);
            },
            Err(e) => {
                proof {
                    assert(spec_drain(cur).frames =~= Seq::<Seq<u8>>::empty());
                    assert(spec_drain(cur).rest == cur);
                    assert(spec_drain(cur).failed);
                    assert(frames@.map_values(|v: Vec<u8>| v@) + spec_drain(cur).frames
                        =~= frames@.map_values(|v: Vec<u8>| v@));
                }
                return (frames, Some(e));
            },
        }
    }
}

/// Encoding then decoding one frame yields the payload unchanged and
/// consumes the whole encoding, for every payload length the framing
/// invariant `0 < L < FRAME_MAX_LEN` allows.
pub proof fn lemma_frame_round_trip(payload: Seq<u8>)
    requires
        0 < payload.len() < FRAME_MAX_LEN,
    ensures
        spec_extract(spec_frame(payload)) == (FrameStep::Frame {
            payload,
            rest: Seq::<u8>::empty(),
        }),
{
    let e = spec_frame(payload);
    let k = payload.len() as int;
    assert(e.take(4) =~= be32_bytes(k));
    lemma_be32_round_trip(k);
    assert(e.subrange(4, 4 + k) =~= payload);
    assert(e.skip(4 + k) =~= Seq::<u8>::empty());
}

/// Splitting an encoded frame at any byte boundary leaves the decoder
/// waiting (nothing consumed) after the first part alone, and feeding the
/// second part completes the original encoding, so by
/// [`lemma_frame_round_trip`] the two reads together yield exactly the one
/// frame.
pub proof fn lemma_partial_read_reassembly(payload: Seq<u8>, cut: int)
    requires
        0 < payload.len() < FRAME_MAX_LEN,
        0 <= cut < spec_frame(payload).len(),
    ensures
        spec_extract(spec_frame(payload).take(cut)) is NeedMore,
        spec_frame(payload).take(cut) + spec_frame(payload).skip(cut) == spec_frame(payload),
{
    let e = spec_frame(payload);
    let part = e.take(cut);
    if cut >= 4 {
        assert(part.take(4) =~= e.take(4));
        assert(e.take(4) =~= be32_bytes(payload.len() as int));
        lemma_be32_round_trip(payload.len() as int);
    }
    assert(e.take(cut) + e.skip(cut) =~= e);
}

/// A length prefix of zero, or of `FRAME_MAX_LEN` or more, is a fatal
/// framing error: the decoder never passes such a frame through.
pub proof fn lemma_oversize_rejected(b: Seq<u8>)
    requires
        b.len() >= 4,
        be32_value(b.take(4)) == 0 || be32_value(b.take(4)) >= FRAME_MAX_LEN,
    ensures
        spec_extract(b) is Invalid,
{
}

/// Two encoded frames concatenated into one buffer drain to exactly the two
/// payloads, in their original order, with nothing left over.
pub proof fn lemma_coalesced_frames(a: Seq<u8>, b: Seq<u8>)
    requires
        0 < a.len() < FRAME_MAX_LEN,
        0 < b.len() < FRAME_MAX_LEN,
    ensures
        spec_extract(spec_frame(a) + spec_frame(b)) == (FrameStep::Frame {
            payload: a,
            rest: spec_frame(b),
        }),
        spec_drain(spec_frame(a) + spec_frame(b)).frames == seq![a, b],
        spec_drain(spec_frame(a) + spec_frame(b)).rest == Seq::<u8>::empty(),
        !spec_drain(spec_frame(a) + spec_frame(b)).failed,
{
    let fa = spec_frame(a);
    let fb = spec_frame(b);
    let e = fa + fb;
    let k = a.len() as int;
    assert(e.take(4) =~= be32_bytes(k));
    lemma_be32_round_trip(k);
    assert(e.subrange(4, 4 + k) =~= a);
    assert(e.skip(4 + k) =~= fb);
    lemma_frame_round_trip(b);
    let kb = b.len() as int;
    assert(fb.take(4) =~= be32_bytes(kb));
    lemma_be32_round_trip(kb);
    assert(fb.subrange(4, 4 + kb) =~= b);
    assert(fb.skip(4 + kb) =~= Seq::<u8>::empty());
    let nil = Seq::<u8>::empty();
    assert(spec_drain(nil).frames =~= Seq::<Seq<u8>>::empty());
    assert(spec_drain(nil).rest =~= nil);
    assert(!spec_drain(nil).failed);
    assert(spec_drain(fb).frames =~= seq![b] + spec_drain(nil).frames);
    assert(spec_drain(fb).frames =~= seq![b]);
    assert(spec_drain(fb).rest == nil);
    assert(!spec_drain(fb).failed);
    assert(spec_drain(e).frames =~= seq![a] + spec_drain(fb).frames);
    assert(spec_drain(e).frames =~= seq![a, b]);
    assert(spec_drain(e).rest == nil);
    assert(!spec_drain(e).failed);
}

} // verus!
