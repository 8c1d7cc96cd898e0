//! Wire codec of frames and frame batches.
//!
//! A datagram is one byte of flags, a 3-byte little-endian batch sequence
//! number, then frames back to back until the datagram ends.  A frame is a
//! flags byte (reliability tag in the top three bits, split bit below), a
//! 16-bit payload bit length, the conditional index fields its reliability
//! class calls for, the conditional compound fields of a split fragment,
//! and the payload bytes.
//!
//! `spec_encode_batch` and `spec_decode_batch` fix the format at the
//! specification level; the executable codec is proved to match them, and
//! [`lemma_batch_round_trip`] states that decoding an encoded batch gives
//! the batch back.

use vstd::prelude::*;

use crate::frame::{
    batch_valid, frame_valid, DecodeError, Frame, FrameBatch, FrameBatchModel, FrameModel,
    Reliability, CONNECTED_PEER_BIT_FLAG, MAX_FRAME_PAYLOAD, SPLIT_BIT_FLAG,
};
use crate::wire::{
    lemma_read_u16_le, lemma_read_u24_le, lemma_read_u32_le, put_bytes, put_u16_le, put_u24_le,
    put_u32_le, put_u8, read_bytes, read_u16_le, read_u24_le, read_u32_le, read_u8,
    spec_read_bytes, spec_read_u16_le, spec_read_u24_le, spec_read_u32_le, spec_read_u8,
    u16_le_bytes, u24_le_bytes, u32_le_bytes,
};

verus! {

/// A frame is written as a fragment of a split payload exactly when it
/// declares more than one fragment.
pub open spec fn frame_is_split(f: FrameModel) -> bool {
    f.compound_size > 1
}

/// Flags byte of a frame: reliability tag in the top three bits, split
/// bit below.
pub open spec fn spec_frame_flags(f: FrameModel) -> u8 {
    if frame_is_split(f) {
        (f.reliability.spec_tag() << 5) | SPLIT_BIT_FLAG
    } else {
        f.reliability.spec_tag() << 5
    }
}

/// The flags-byte part of an encoded frame.
pub open spec fn part_flags(f: FrameModel) -> Seq<u8> {
    seq![spec_frame_flags(f)]
}

/// The bit-length part of an encoded frame.
pub open spec fn part_bits(f: FrameModel) -> Seq<u8> {
    u16_le_bytes((f.payload.len() * 8) as u16)
}

/// The reliable-index part of an encoded frame; empty when absent.
pub open spec fn part_rel(f: FrameModel) -> Seq<u8> {
    if f.reliability.spec_is_reliable() {
        u24_le_bytes(f.reliable_index)
    } else {
        Seq::<u8>::empty()
    }
}

/// The sequence-index part of an encoded frame; empty when absent.
pub open spec fn part_seq(f: FrameModel) -> Seq<u8> {
    if f.reliability.spec_is_sequenced() {
        u24_le_bytes(f.sequence_index)
    } else {
        Seq::<u8>::empty()
    }
}

/// The order-index part of an encoded frame; empty when absent.
pub open spec fn part_oix(f: FrameModel) -> Seq<u8> {
    if f.reliability.spec_is_ordered() {
        u32_le_bytes(f.order_index)
    } else {
        Seq::<u8>::empty()
    }
}

/// The order-channel part of an encoded frame; empty when absent.
pub open spec fn part_och(f: FrameModel) -> Seq<u8> {
    if f.reliability.spec_is_ordered() {
        seq![f.order_channel]
    } else {
        Seq::<u8>::empty()
    }
}

/// The fragment-count part of an encoded frame; empty when absent.
pub open spec fn part_cs(f: FrameModel) -> Seq<u8> {
    if frame_is_split(f) {
        u32_le_bytes(f.compound_size)
    } else {
        Seq::<u8>::empty()
    }
}

/// The compound-id part of an encoded frame; empty when absent.
pub open spec fn part_cid(f: FrameModel) -> Seq<u8> {
    if frame_is_split(f) {
        u16_le_bytes(f.compound_id)
    } else {
        Seq::<u8>::empty()
    }
}

/// The fragment-index part of an encoded frame; empty when absent.
pub open spec fn part_cix(f: FrameModel) -> Seq<u8> {
    if frame_is_split(f) {
        u32_le_bytes(f.compound_index)
    } else {
        Seq::<u8>::empty()
    }
}

/// Bytes of one encoded frame: its ten parts back to back, absent parts
/// standing empty.
pub open spec fn spec_encode_frame(f: FrameModel) -> Seq<u8> {
    part_flags(f) + part_bits(f) + part_rel(f) + part_seq(f) + part_oix(f) + part_och(f) + part_cs(
        f,
    ) + part_cid(f) + part_cix(f) + f.payload
}

/// Bytes of a run of encoded frames, back to back.
pub open spec fn spec_encode_frames(fs: Seq<FrameModel>) -> Seq<u8>
    decreases fs.len(),
{
    if fs.len() == 0 {
        Seq::<u8>::empty()
    } else {
        spec_encode_frame(fs[0]) + spec_encode_frames(fs.drop_first())
    }
}

/// Bytes of one encoded datagram.
pub open spec fn spec_encode_batch(b: FrameBatchModel) -> Seq<u8> {
    seq![CONNECTED_PEER_BIT_FLAG] + u24_le_bytes(b.sequence_number) + spec_encode_frames(b.frames)
}

/// Decodes one frame at position `i`.  Fields that the reliability class
/// leaves off the wire come back at their canonical values, so that
/// decoding inverts encoding exactly.
#[verifier::opaque]
pub open spec fn spec_decode_frame(d: Seq<u8>, i: int) -> Result<(FrameModel, int), DecodeError> {
    match spec_read_u8(d, i) {
        None => Err(DecodeError::Truncated),
        Some((flags, i1)) => match Reliability::spec_from_tag(flags >> 5) {
            None => Err(DecodeError::InvalidReliability),
            Some(rel) => match spec_read_u16_le(d, i1) {
                None => Err(DecodeError::Truncated),
                Some((bits, i2)) => {
                    let rel_read = if rel.spec_is_reliable() {
                        spec_read_u24_le(d, i2)
                    } else {
                        Some((0u32, i2))
                    };
                    match rel_read {
                        None => Err(DecodeError::Truncated),
                        Some((rix, i3)) => {
                            let seq_read = if rel.spec_is_sequenced() {
                                spec_read_u24_le(d, i3)
                            } else {
                                Some((0u32, i3))
                            };
                            match seq_read {
                                None => Err(DecodeError::Truncated),
                                Some((six, i4)) => spec_decode_frame_tail(
                                    d,
                                    rel,
                                    flags,
                                    bits,
                                    rix,
                                    six,
                                    i4,
                                ),
                            }
                        },
                    }
                },
            },
        },
    }
}

/// Second half of frame decoding: order fields, compound fields, payload.
pub open spec fn spec_decode_frame_tail(
    d: Seq<u8>,
    rel: Reliability,
    flags: u8,
    bits: u16,
    rix: u32,
    six: u32,
    i4: int,
) -> Result<(FrameModel, int), DecodeError> {
    let ord_read = if rel.spec_is_ordered() {
        match spec_read_u32_le(d, i4) {
            None => None,
            Some((oix, i5)) => match spec_read_u8(d, i5) {
                None => None,
                Some((och, i6)) => Some(((oix, och), i6)),
            },
        }
    } else {
        Some(((0u32, 0u8), i4))
    };
    match ord_read {
        None => Err(DecodeError::Truncated),
        Some(((oix, och), i6)) => {
            let split = flags & SPLIT_BIT_FLAG != 0;
            let cmp_read = if split {
                match spec_read_u32_le(d, i6) {
                    None => None,
                    Some((cs, i7)) => match spec_read_u16_le(d, i7) {
                        None => None,
                        Some((cid, i8)) => match spec_read_u32_le(d, i8) {
                            None => None,
                            Some((cix, i9)) => Some(((cs, cid, cix), i9)),
                        },
                    },
                }
            } else {
                Some(((1u32, 0u16, 0u32), i6))
            };
            match cmp_read {
                None => Err(DecodeError::Truncated),
                Some(((cs, cid, cix), i9)) => {
                    if split && (cs < 2 || cix >= cs) {
                        Err(DecodeError::InvalidCompound)
                    } else {
                        let plen = (bits as int + 7) / 8;
                        if plen > MAX_FRAME_PAYLOAD {
                            Err(DecodeError::Truncated)
                        } else {
                            match spec_read_bytes(d, i9, plen) {
                                None => Err(DecodeError::Truncated),
                                Some((pl, i10)) => Ok(
                                    (
                                        FrameModel {
                                            reliability: rel,
                                            reliable_index: rix,
                                            sequence_index: six,
                                            order_index: oix,
                                            order_channel: och,
                                            compound_id: cid,
                                            compound_size: cs,
                                            compound_index: cix,
                                            payload: pl,
                                        },
                                        i10,
                                    ),
                                ),
                            }
                        }
                    }
                },
            }
        },
    }
}

/// Decodes frames back to back from position `i` to the end of the
/// datagram.
pub open spec fn spec_decode_frames(d: Seq<u8>, i: int) -> Result<
    (Seq<FrameModel>, int),
    DecodeError,
>
    decreases d.len() - i,
{
    if i >= d.len() {
        Ok((Seq::<FrameModel>::empty(), i))
    } else {
        match spec_decode_frame(d, i) {
            Err(e) => Err(e),
            Ok((f, j)) => if j <= i || j > d.len() {
                Err(DecodeError::Truncated)
            } else {
                match spec_decode_frames(d, j) {
                    Err(e) => Err(e),
                    Ok((fs, e)) => Ok((seq![f] + fs, e)),
                }
            },
        }
    }
}

/// Decodes a whole datagram.  The leading flags byte is read and
/// discarded: the caller routes a datagram here only after checking its
/// connected-peer bit, and encoding always writes the canonical flags.
pub open spec fn spec_decode_batch(d: Seq<u8>) -> Result<FrameBatchModel, DecodeError> {
    match spec_read_u8(d, 0) {
        None => Err(DecodeError::Truncated),
        Some((_flags, i1)) => match spec_read_u24_le(d, i1) {
            None => Err(DecodeError::Truncated),
            Some((seqno, i2)) => match spec_decode_frames(d, i2) {
                Err(e) => Err(e),
                Ok((fs, _end)) => Ok(FrameBatchModel { sequence_number: seqno, frames: fs }),
            },
        },
    }
}

/// Number of bytes one frame occupies on the wire.
pub open spec fn spec_frame_size(f: FrameModel) -> int {
    spec_encode_frame(f).len() as int
}

/// Number of bytes a whole datagram of the given frames occupies.
pub open spec fn spec_batch_size(fs: Seq<FrameModel>) -> int {
    4 + spec_encode_frames(fs).len() as int
}

/// Computes the encoded size of a frame without encoding it.
pub fn frame_size(f: &Frame) -> (r: usize)
    requires
        frame_valid(f@),
    ensures
        r == spec_frame_size(f@),
{
    let base: usize = 3 + if f.reliability.is_reliable() {
        3
    } else {
        0
    } + if f.reliability.is_sequenced() {
        3
    } else {
        0
    } + if f.reliability.is_ordered() {
        5
    } else {
        0
    } + if f.compound_size > 1 {
        10
    } else {
        0
    };
    base + f.payload.len()
}

/// Appends the encoding of one frame.
pub fn encode_frame(buf: &mut Vec<u8>, f: &Frame)
    requires
        frame_valid(f@),
    ensures
        final(buf)@ == old(buf)@ + spec_encode_frame(f@),
{
    let tag = f.reliability.tag();
    let flags: u8 = if f.compound_size > 1 {
        (tag << 5u8) | SPLIT_BIT_FLAG
    } else {
        tag << 5u8
    };
    put_u8(buf, flags);
    assert(f.payload@.len() * 8 <= 0xffff);
    put_u16_le(buf, (f.payload.len() * 8) as u16);
    if f.reliability.is_reliable() {
        put_u24_le(buf, f.reliable_index);
    }
    if f.reliability.is_sequenced() {
        put_u24_le(buf, f.sequence_index);
    }
    if f.reliability.is_ordered() {
        put_u32_le(buf, f.order_index);
        put_u8(buf, f.order_channel);
    }
    if f.compound_size > 1 {
        put_u32_le(buf, f.compound_size);
        put_u16_le(buf, f.compound_id);
        put_u32_le(buf, f.compound_index);
    }
    put_bytes(buf, f.payload.as_slice());
    assert(buf@ =~= old(buf)@ + spec_encode_frame(f@));
}

/// Encodes a whole datagram: canonical flags byte, batch sequence number,
/// then every frame in order.
pub fn encode_batch(b: &FrameBatch) -> (r: Vec<u8>)
    requires
        batch_valid(b@),
    ensures
        r@ == spec_encode_batch(b@),
{
    let mut buf: Vec<u8> = Vec::new();
    put_u8(&mut buf, CONNECTED_PEER_BIT_FLAG);
    put_u24_le(&mut buf, b.sequence_number);
    assert(buf@ =~= seq![CONNECTED_PEER_BIT_FLAG] + u24_le_bytes(b.sequence_number));
    let ghost header = buf@;
    let mut i: usize = 0;
    while i < b.frames.len()
        invariant
            i <= b.frames@.len(),
            batch_valid(b@),
            b@.frames.len() == b.frames@.len(),
            buf@ == header + spec_encode_frames(b@.frames.subrange(0, i as int)),
        decreases b.frames@.len() - i,
    {
        assert(b@.frames[i as int] == b.frames@[i as int]@);
        encode_frame(&mut buf, &b.frames[i]);
        proof {
            lemma_encode_frames_snoc(b@.frames.subrange(0, i as int), b@.frames[i as int]);
            assert(b@.frames.subrange(0, i as int).push(b@.frames[i as int]) =~= b@.frames.subrange(
                0,
                i as int + 1,
            ));
        }
        i = i + 1;
    }
    proof {
        assert(b@.frames.subrange(0, b@.frames.len() as int) =~= b@.frames);
        assert(buf@ =~= spec_encode_batch(b@));
    }
    buf
}

/// Appending one frame to a run extends the run's encoding by that
/// frame's encoding.
pub proof fn lemma_encode_frames_snoc(fs: Seq<FrameModel>, f: FrameModel)
    ensures
        spec_encode_frames(fs.push(f)) == spec_encode_frames(fs) + spec_encode_frame(f),
    decreases fs.len(),
{
    if fs.len() == 0 {
        assert(fs.push(f)[0] == f);
        assert(fs.push(f).drop_first() =~= Seq::<FrameModel>::empty());
        assert(spec_encode_frames(Seq::<FrameModel>::empty()) == Seq::<u8>::empty());
        assert(spec_encode_frames(fs.push(f)) == spec_encode_frame(f) + Seq::<u8>::empty());
        assert(spec_encode_frames(fs.push(f)) =~= spec_encode_frames(fs) + spec_encode_frame(f));
    } else {
        assert(fs.push(f).drop_first() =~= fs.drop_first().push(f));
        lemma_encode_frames_snoc(fs.drop_first(), f);
        assert(spec_encode_frames(fs.push(f)) == spec_encode_frame(fs[0]) + spec_encode_frames(
            fs.drop_first().push(f),
        ));
        assert(spec_encode_frames(fs.push(f)) =~= spec_encode_frames(fs) + spec_encode_frame(f));
    }
}

/// Decodes the tail of a frame (order fields, compound fields and the
/// payload), mirroring `spec_decode_frame_tail` exactly.
#[verifier::rlimit(100)]
fn decode_frame_tail(
    d: &[u8],
    pos: &mut usize,
    rel: Reliability,
    flags: u8,
    bits: u16,
    reliable_index: u32,
    sequence_index: u32,
) -> (r: Result<Frame, DecodeError>)
    ensures
        match spec_decode_frame_tail(
            d@,
            rel,
            flags,
            bits,
            reliable_index,
            sequence_index,
            *old(pos) as int,
        ) {
            Ok((m, j)) => r is Ok && r.unwrap()@ == m && *final(pos) == j,
            Err(e) => r == Result::<Frame, DecodeError>::Err(e),
        },
{
    let (order_index, order_channel) = if rel.is_ordered() {
        let oix = match read_u32_le(d, pos) {
            Some(v) => v,
            None => {
                return Err(DecodeError::Truncated);
            },
        };
        let och = match read_u8(d, pos) {
            Some(v) => v,
            None => {
                return Err(DecodeError::Truncated);
            },
        };
        (oix, och)
    } else {
        (0u32, 0u8)
    };
    let split = flags & SPLIT_BIT_FLAG != 0;
    let (compound_size, compound_id, compound_index) = if split {
        let cs = match read_u32_le(d, pos) {
            Some(v) => v,
            None => {
                return Err(DecodeError::Truncated);
            },
        };
        let cid = match read_u16_le(d, pos) {
            Some(v) => v,
            None => {
                return Err(DecodeError::Truncated);
            },
        };
        let cix = match read_u32_le(d, pos) {
            Some(v) => v,
            None => {
                return Err(DecodeError::Truncated);
            },
        };
        (cs, cid, cix)
    } else {
        (1u32, 0u16, 0u32)
    };
    if split && (compound_size < 2 || compound_index >= compound_size) {
        return Err(DecodeError::InvalidCompound);
    }
    let plen = (bits as usize + 7) / 8;
    if plen > MAX_FRAME_PAYLOAD {
        return Err(DecodeError::Truncated);
    }
    let payload = match read_bytes(d, pos, plen) {
        Some(v) => v,
        None => {
            return Err(DecodeError::Truncated);
        },
    };
    Ok(
        Frame {
            reliability: rel,
            reliable_index,
            sequence_index,
            order_index,
            order_channel,
            compound_id,
            compound_size,
            compound_index,
            payload,
        },
    )
}

/// Decodes one frame, advancing the cursor exactly as the specification
/// decoder does.
#[verifier::rlimit(100)]
pub fn decode_frame(d: &[u8], pos: &mut usize) -> (r: Result<Frame, DecodeError>)
    ensures
        match spec_decode_frame(d@, *old(pos) as int) {
            Ok((m, j)) => r is Ok && r.unwrap()@ == m && *final(pos) == j,
            Err(e) => r == Result::<Frame, DecodeError>::Err(e),
        },
{
    proof {
        reveal(spec_decode_frame);
    }
    let flags = match read_u8(d, pos) {
        Some(v) => v,
        None => {
            return Err(DecodeError::Truncated);
        },
    };
    let rel = match Reliability::from_tag(flags >> 5) {
        Some(v) => v,
        None => {
            return Err(DecodeError::InvalidReliability);
        },
    };
    let bits = match read_u16_le(d, pos) {
        Some(v) => v,
        None => {
            return Err(DecodeError::Truncated);
        },
    };
    let reliable_index = if rel.is_reliable() {
        match read_u24_le(d, pos) {
            Some(v) => v,
            None => {
                return Err(DecodeError::Truncated);
            },
        }
    } else {
        0
    };
    let sequence_index = if rel.is_sequenced() {
        match read_u24_le(d, pos) {
            Some(v) => v,
            None => {
                return Err(DecodeError::Truncated);
            },
        }
    } else {
        0
    };
    decode_frame_tail(d, pos, rel, flags, bits, reliable_index, sequence_index)
}

/// One unfolding step of the run decoder, for use where the frame
/// decoder itself stays opaque.  A decoded frame always consumes at
/// least one byte and never reads past the datagram.
#[verifier::rlimit(100)]
pub proof fn lemma_decode_frames_unfold(d: Seq<u8>, i: int)
    requires
        0 <= i < d.len(),
    ensures
        spec_decode_frame(d, i) matches Ok((f, j)) ==> i < j <= d.len(),
        match spec_decode_frame(d, i) {
            Err(e) => spec_decode_frames(d, i) == Err::<(Seq<FrameModel>, int), DecodeError>(e),
            Ok((f, j)) => if j <= i || j > d.len() {
                spec_decode_frames(d, i) == Err::<(Seq<FrameModel>, int), DecodeError>(
                    DecodeError::Truncated,
                )
            } else {
                match spec_decode_frames(d, j) {
                    Err(e) => spec_decode_frames(d, i) == Err::<
                        (Seq<FrameModel>, int),
                        DecodeError,
                    >(e),
                    Ok((fs, e)) => spec_decode_frames(d, i) == Ok::<
                        (Seq<FrameModel>, int),
                        DecodeError,
                    >((seq![f] + fs, e)),
                }
            },
        },
{
    reveal(spec_decode_frame);
    match spec_read_u8(d, i) {
        None => {},
        Some((flags, i1)) => {
            match Reliability::spec_from_tag(flags >> 5) {
                None => {},
                Some(rel) => {
                    match spec_read_u16_le(d, i1) {
                        None => {},
                        Some((bits, i2)) => {
                            let rel_read = if rel.spec_is_reliable() {
                                spec_read_u24_le(d, i2)
                            } else {
                                Some((0u32, i2))
                            };
                            match rel_read {
                                None => {},
                                Some((rix, i3)) => {
                                    let seq_read = if rel.spec_is_sequenced() {
                                        spec_read_u24_le(d, i3)
                                    } else {
                                        Some((0u32, i3))
                                    };
                                    match seq_read {
                                        None => {},
                                        Some((six, i4)) => {
                                            assert(i < i4 <= d.len());
                                            lemma_decode_frame_tail_bounds(
                                                d,
                                                rel,
                                                flags,
                                                bits,
                                                rix,
                                                six,
                                                i4,
                                            );
                                        },
                                    }
                                },
                            }
                        },
                    }
                },
            }
        },
    }
}

/// A successful tail decode never reads past the datagram and never
/// moves the cursor backwards.
#[verifier::rlimit(100)]
proof fn lemma_decode_frame_tail_bounds(
    d: Seq<u8>,
    rel: Reliability,
    flags: u8,
    bits: u16,
    rix: u32,
    six: u32,
    i4: int,
)
    requires
        0 <= i4 <= d.len(),
    ensures
        spec_decode_frame_tail(d, rel, flags, bits, rix, six, i4) matches Ok((f, j)) ==> i4 <= j
            <= d.len(),
{
}

/// Decodes a whole datagram, reporting exactly the error the
/// specification decoder reports.
///
/// A frame that fails to parse fails the datagram as a whole, including
/// any well-formed frames before it: past a bad length or tag the
/// remaining frame boundaries are unknowable, so nothing after it could
/// be trusted anyway.  The per-frame tolerance the session promises
/// applies one level up, to frames that parse but are semantically
/// unusable (an unknown channel, inconsistent metadata): those are
/// dropped individually while the rest of the batch is processed, and a
/// datagram rejected here is dropped whole with the session going on.
#[verifier::rlimit(30)]
pub fn decode_batch(d: &[u8]) -> (r: Result<FrameBatch, DecodeError>)
    ensures
        match spec_decode_batch(d@) {
            Ok(m) => r is Ok && r.unwrap()@ == m,
            Err(e) => r == Result::<FrameBatch, DecodeError>::Err(e),
        },
{
    let mut pos: usize = 0;
    let _flags = match read_u8(d, &mut pos) {
        Some(v) => v,
        None => {
            return Err(DecodeError::Truncated);
        },
    };
    let sequence_number = match read_u24_le(d, &mut pos) {
        Some(v) => v,
        None => {
            return Err(DecodeError::Truncated);
        },
    };
    let ghost start = pos as int;
    let mut frames: Vec<Frame> = Vec::new();
    while pos < d.len()
        invariant
            pos <= d@.len(),
            start == 4,
            spec_read_u8(d@, 0) is Some,
            spec_read_u24_le(d@, 1) == Some((sequence_number, 4int)),
            match spec_decode_frames(d@, pos as int) {
                Ok((fs, e)) => spec_decode_frames(d@, start) == Ok::<
                    (Seq<FrameModel>, int),
                    DecodeError,
                >((frames.deep_view() + fs, e)),
                Err(er) => spec_decode_frames(d@, start) == Err::<
                    (Seq<FrameModel>, int),
                    DecodeError,
                >(er),
            },
        decreases d@.len() - pos,
    {
        let ghost prev = pos as int;
        let ghost acc0 = frames.deep_view();
        proof {
            lemma_decode_frames_unfold(d@, prev);
        }
        let f = match decode_frame(d, &mut pos) {
            Ok(f) => f,
            Err(e) => {
                return Err(e);
            },
        };
        frames.push(f);
        proof {
            let m = spec_decode_frame(d@, prev).unwrap().0;
            let j = spec_decode_frame(d@, prev).unwrap().1;
            assert(frames.deep_view() =~= acc0 + seq![m]);
            if spec_decode_frames(d@, j) is Ok {
                let fs = spec_decode_frames(d@, j).unwrap().0;
                assert((acc0 + seq![m]) + fs =~= acc0 + (seq![m] + fs));
            }
        }
    }
    let r = FrameBatch { sequence_number, frames };
    proof {
        assert(spec_decode_frames(d@, pos as int) == Ok::<(Seq<FrameModel>, int), DecodeError>(
            (Seq::<FrameModel>::empty(), pos as int),
        ));
        assert(r@.frames =~= r@.frames + Seq::<FrameModel>::empty());
    }
    Ok(r)
}

/// Every regrouping of a ten-part concatenation around one of its parts,
/// as the field-read lemmas need them.
#[verifier::rlimit(100)]
#[verifier::spinoff_prover]
proof fn lemma_regroup<T>(
    pre: Seq<T>,
    a: Seq<T>,
    b: Seq<T>,
    c: Seq<T>,
    e: Seq<T>,
    g: Seq<T>,
    h: Seq<T>,
    k: Seq<T>,
    l: Seq<T>,
    m: Seq<T>,
    n: Seq<T>,
    rest: Seq<T>,
)
    ensures
        pre + (a + b + c + e + g + h + k + l + m + n) + rest == (pre + a) + b + (c + e + g + h + k
            + l + m + n + rest),
        pre + (a + b + c + e + g + h + k + l + m + n) + rest == (pre + a + b) + c + (e + g + h + k
            + l + m + n + rest),
        pre + (a + b + c + e + g + h + k + l + m + n) + rest == (pre + a + b + c) + e + (g + h + k
            + l + m + n + rest),
        pre + (a + b + c + e + g + h + k + l + m + n) + rest == (pre + a + b + c + e) + g + (h + k
            + l + m + n + rest),
        pre + (a + b + c + e + g + h + k + l + m + n) + rest == (pre + a + b + c + e + g) + h + (k
            + l + m + n + rest),
        pre + (a + b + c + e + g + h + k + l + m + n) + rest == (pre + a + b + c + e + g + h) + k
            + (l + m + n + rest),
        pre + (a + b + c + e + g + h + k + l + m + n) + rest == (pre + a + b + c + e + g + h + k)
            + l + (m + n + rest),
        pre + (a + b + c + e + g + h + k + l + m + n) + rest == (pre + a + b + c + e + g + h + k
            + l) + m + (n + rest),
        pre + (a + b + c + e + g + h + k + l + m + n) + rest == (pre + a + b + c + e + g + h + k
            + l + m) + n + rest,
{
    assert(pre + (a + b + c + e + g + h + k + l + m + n) + rest =~= (pre + a) + b + (c + e + g + h
        + k + l + m + n + rest));
    assert(pre + (a + b + c + e + g + h + k + l + m + n) + rest =~= (pre + a + b) + c + (e + g + h
        + k + l + m + n + rest));
    assert(pre + (a + b + c + e + g + h + k + l + m + n) + rest =~= (pre + a + b + c) + e + (g + h
        + k + l + m + n + rest));
    assert(pre + (a + b + c + e + g + h + k + l + m + n) + rest =~= (pre + a + b + c + e) + g + (h
        + k + l + m + n + rest));
    assert(pre + (a + b + c + e + g + h + k + l + m + n) + rest =~= (pre + a + b + c + e + g) + h
        + (k + l + m + n + rest));
    assert(pre + (a + b + c + e + g + h + k + l + m + n) + rest =~= (pre + a + b + c + e + g + h)
        + k + (l + m + n + rest));
    assert(pre + (a + b + c + e + g + h + k + l + m + n) + rest =~= (pre + a + b + c + e + g + h
        + k) + l + (m + n + rest));
    assert(pre + (a + b + c + e + g + h + k + l + m + n) + rest =~= (pre + a + b + c + e + g + h
        + k + l) + m + (n + rest));
    assert(pre + (a + b + c + e + g + h + k + l + m + n) + rest =~= (pre + a + b + c + e + g + h
        + k + l + m) + n + rest);
}

/// Collapses `spec_decode_frame_tail` once all its reads are known.
#[verifier::spinoff_prover]
proof fn lemma_tail_collapse(
    d: Seq<u8>,
    rel: Reliability,
    flags: u8,
    bits: u16,
    rix: u32,
    six: u32,
    i4: int,
    oix: u32,
    och: u8,
    i6: int,
    cs: u32,
    cid: u16,
    cix: u32,
    i9: int,
    pl: Seq<u8>,
    end: int,
)
    requires
        rel.spec_is_ordered() ==> spec_read_u32_le(d, i4) == Some((oix, i4 + 4)) && spec_read_u8(
            d,
            i4 + 4,
        ) == Some((och, i6)),
        !rel.spec_is_ordered() ==> oix == 0 && och == 0 && i6 == i4,
        flags & SPLIT_BIT_FLAG != 0 ==> spec_read_u32_le(d, i6) == Some((cs, i6 + 4))
            && spec_read_u16_le(d, i6 + 4) == Some((cid, i6 + 6)) && spec_read_u32_le(d, i6 + 6)
            == Some((cix, i9)) && cs >= 2 && cix < cs,
        flags & SPLIT_BIT_FLAG == 0 ==> cs == 1 && cid == 0 && cix == 0 && i9 == i6,
        (bits as int + 7) / 8 == pl.len(),
        pl.len() <= MAX_FRAME_PAYLOAD,
        spec_read_bytes(d, i9, pl.len() as int) == Some((pl, end)),
    ensures
        spec_decode_frame_tail(d, rel, flags, bits, rix, six, i4) == Ok::<
            (FrameModel, int),
            DecodeError,
        >(
            (
                FrameModel {
                    reliability: rel,
                    reliable_index: rix,
                    sequence_index: six,
                    order_index: oix,
                    order_channel: och,
                    compound_id: cid,
                    compound_size: cs,
                    compound_index: cix,
                    payload: pl,
                },
                end,
            ),
        ),
{
}

/// Collapses `spec_decode_frame` once its head reads and its tail are
/// known.
#[verifier::spinoff_prover]
proof fn lemma_frame_collapse(
    d: Seq<u8>,
    i: int,
    flags: u8,
    rel: Reliability,
    bits: u16,
    rix: u32,
    six: u32,
    i3: int,
    i4: int,
    f: FrameModel,
    end: int,
)
    requires
        spec_read_u8(d, i) == Some((flags, i + 1)),
        Reliability::spec_from_tag(flags >> 5) == Some(rel),
        spec_read_u16_le(d, i + 1) == Some((bits, i + 3)),
        rel.spec_is_reliable() ==> spec_read_u24_le(d, i + 3) == Some((rix, i3)),
        !rel.spec_is_reliable() ==> rix == 0 && i3 == i + 3,
        rel.spec_is_sequenced() ==> spec_read_u24_le(d, i3) == Some((six, i4)),
        !rel.spec_is_sequenced() ==> six == 0 && i4 == i3,
        spec_decode_frame_tail(d, rel, flags, bits, rix, six, i4) == Ok::<
            (FrameModel, int),
            DecodeError,
        >((f, end)),
    ensures
        spec_decode_frame(d, i) == Ok::<(FrameModel, int), DecodeError>((f, end)),
{
    reveal(spec_decode_frame);
}

/// Offset of the sequence-index field within an encoded frame.
pub open spec fn off_seq(f: FrameModel) -> int {
    3 + part_rel(f).len() as int
}

/// Offset of the order fields within an encoded frame.
pub open spec fn off_ord(f: FrameModel) -> int {
    off_seq(f) + part_seq(f).len() as int
}

/// Offset of the compound fields within an encoded frame.
pub open spec fn off_cmp(f: FrameModel) -> int {
    off_ord(f) + part_oix(f).len() + part_och(f).len() as int
}

/// Offset of the payload within an encoded frame.
pub open spec fn off_payload(f: FrameModel) -> int {
    off_cmp(f) + part_cs(f).len() + part_cid(f).len() + part_cix(f).len() as int
}

/// Reading the head fields of an encoded frame recovers them.
#[verifier::rlimit(100)]
#[verifier::spinoff_prover]
proof fn lemma_read_head(prefix: Seq<u8>, f: FrameModel, rest: Seq<u8>)
    requires
        frame_valid(f),
    ensures
        spec_read_u8(prefix + spec_encode_frame(f) + rest, prefix.len() as int) == Some(
            (spec_frame_flags(f), prefix.len() + 1int),
        ),
        spec_read_u16_le(prefix + spec_encode_frame(f) + rest, prefix.len() + 1int) == Some(
            ((f.payload.len() * 8) as u16, prefix.len() + 3int),
        ),
        f.reliability.spec_is_reliable() ==> spec_read_u24_le(
            prefix + spec_encode_frame(f) + rest,
            prefix.len() + 3int,
        ) == Some((f.reliable_index, prefix.len() + off_seq(f))),
        f.reliability.spec_is_sequenced() ==> spec_read_u24_le(
            prefix + spec_encode_frame(f) + rest,
            prefix.len() + off_seq(f),
        ) == Some((f.sequence_index, prefix.len() + off_ord(f))),
{
    let d = prefix + spec_encode_frame(f) + rest;
    let i = prefix.len() as int;
    lemma_regroup(
        prefix,
        part_flags(f),
        part_bits(f),
        part_rel(f),
        part_seq(f),
        part_oix(f),
        part_och(f),
        part_cs(f),
        part_cid(f),
        part_cix(f),
        f.payload,
        rest,
    );
    assert(d == prefix + part_flags(f) + (part_bits(f) + part_rel(f) + part_seq(f) + part_oix(f)
        + part_och(f) + part_cs(f) + part_cid(f) + part_cix(f) + f.payload + rest)) by {
        assert(d =~= prefix + part_flags(f) + (part_bits(f) + part_rel(f) + part_seq(f) + part_oix(
            f,
        ) + part_och(f) + part_cs(f) + part_cid(f) + part_cix(f) + f.payload + rest));
    }
    assert(d[i] == spec_frame_flags(f)) by {
        assert((prefix + part_flags(f))[i] == part_flags(f)[0]);
    }
    lemma_read_u16_le(
        prefix + part_flags(f),
        (f.payload.len() * 8) as u16,
        part_rel(f) + part_seq(f) + part_oix(f) + part_och(f) + part_cs(f) + part_cid(f) + part_cix(
            f,
        ) + f.payload + rest,
    );
    if f.reliability.spec_is_reliable() {
        lemma_read_u24_le(
            prefix + part_flags(f) + part_bits(f),
            f.reliable_index,
            part_seq(f) + part_oix(f) + part_och(f) + part_cs(f) + part_cid(f) + part_cix(f)
                + f.payload + rest,
        );
    }
    if f.reliability.spec_is_sequenced() {
        lemma_read_u24_le(
            prefix + part_flags(f) + part_bits(f) + part_rel(f),
            f.sequence_index,
            part_oix(f) + part_och(f) + part_cs(f) + part_cid(f) + part_cix(f) + f.payload + rest,
        );
    }
}

/// Reading the order fields of an encoded ordered-class frame recovers
/// them.
#[verifier::rlimit(100)]
#[verifier::spinoff_prover]
proof fn lemma_read_ord(prefix: Seq<u8>, f: FrameModel, rest: Seq<u8>)
    requires
        frame_valid(f),
        f.reliability.spec_is_ordered(),
    ensures
        spec_read_u32_le(prefix + spec_encode_frame(f) + rest, prefix.len() + off_ord(f)) == Some(
            (f.order_index, prefix.len() + off_ord(f) + 4),
        ),
        spec_read_u8(prefix + spec_encode_frame(f) + rest, prefix.len() + off_ord(f) + 4) == Some(
            (f.order_channel, prefix.len() + off_cmp(f)),
        ),
{
    let d = prefix + spec_encode_frame(f) + rest;
    lemma_regroup(
        prefix,
        part_flags(f),
        part_bits(f),
        part_rel(f),
        part_seq(f),
        part_oix(f),
        part_och(f),
        part_cs(f),
        part_cid(f),
        part_cix(f),
        f.payload,
        rest,
    );
    lemma_read_u32_le(
        prefix + part_flags(f) + part_bits(f) + part_rel(f) + part_seq(f),
        f.order_index,
        part_och(f) + part_cs(f) + part_cid(f) + part_cix(f) + f.payload + rest,
    );
    let before = prefix + part_flags(f) + part_bits(f) + part_rel(f) + part_seq(f) + part_oix(f);
    assert(d == before + part_och(f) + (part_cs(f) + part_cid(f) + part_cix(f) + f.payload
        + rest));
    assert(d[prefix.len() + off_ord(f) + 4] == f.order_channel) by {
        assert((before + part_och(f))[before.len() as int] == part_och(f)[0]);
    }
}

/// Reading the compound fields of an encoded split fragment recovers
/// them.
#[verifier::rlimit(100)]
#[verifier::spinoff_prover]
proof fn lemma_read_cmp(prefix: Seq<u8>, f: FrameModel, rest: Seq<u8>)
    requires
        frame_valid(f),
        frame_is_split(f),
    ensures
        spec_read_u32_le(prefix + spec_encode_frame(f) + rest, prefix.len() + off_cmp(f)) == Some(
            (f.compound_size, prefix.len() + off_cmp(f) + 4),
        ),
        spec_read_u16_le(prefix + spec_encode_frame(f) + rest, prefix.len() + off_cmp(f) + 4)
            == Some((f.compound_id, prefix.len() + off_cmp(f) + 6)),
        spec_read_u32_le(prefix + spec_encode_frame(f) + rest, prefix.len() + off_cmp(f) + 6)
            == Some((f.compound_index, prefix.len() + off_payload(f))),
{
    lemma_regroup(
        prefix,
        part_flags(f),
        part_bits(f),
        part_rel(f),
        part_seq(f),
        part_oix(f),
        part_och(f),
        part_cs(f),
        part_cid(f),
        part_cix(f),
        f.payload,
        rest,
    );
    lemma_read_u32_le(
        prefix + part_flags(f) + part_bits(f) + part_rel(f) + part_seq(f) + part_oix(f) + part_och(
            f,
        ),
        f.compound_size,
        part_cid(f) + part_cix(f) + f.payload + rest,
    );
    lemma_read_u16_le(
        prefix + part_flags(f) + part_bits(f) + part_rel(f) + part_seq(f) + part_oix(f) + part_och(
            f,
        ) + part_cs(f),
        f.compound_id,
        part_cix(f) + f.payload + rest,
    );
    lemma_read_u32_le(
        prefix + part_flags(f) + part_bits(f) + part_rel(f) + part_seq(f) + part_oix(f) + part_och(
            f,
        ) + part_cs(f) + part_cid(f),
        f.compound_index,
        f.payload + rest,
    );
}

/// Reading the payload bytes of an encoded frame recovers them.
#[verifier::rlimit(100)]
#[verifier::spinoff_prover]
proof fn lemma_read_payload(prefix: Seq<u8>, f: FrameModel, rest: Seq<u8>)
    requires
        frame_valid(f),
    ensures
        spec_read_bytes(
            prefix + spec_encode_frame(f) + rest,
            prefix.len() + off_payload(f),
            f.payload.len() as int,
        ) == Some((f.payload, prefix.len() + spec_encode_frame(f).len() as int)),
{
    let d = prefix + spec_encode_frame(f) + rest;
    let i9 = prefix.len() + off_payload(f);
    let plen = f.payload.len() as int;
    lemma_regroup(
        prefix,
        part_flags(f),
        part_bits(f),
        part_rel(f),
        part_seq(f),
        part_oix(f),
        part_och(f),
        part_cs(f),
        part_cid(f),
        part_cix(f),
        f.payload,
        rest,
    );
    let before_payload = prefix + part_flags(f) + part_bits(f) + part_rel(f) + part_seq(f)
        + part_oix(f) + part_och(f) + part_cs(f) + part_cid(f) + part_cix(f);
    assert(d == before_payload + f.payload + rest);
    assert(d.subrange(i9, i9 + plen) =~= f.payload) by {
        assert(forall|x: int|
            0 <= x < plen ==> #[trigger] d[i9 + x] == (before_payload + f.payload + rest)[i9 + x]);
    }
}

/// Decoding the tail of an encoded frame (order fields, compound fields,
/// payload) after its head fields gives the frame back.
#[verifier::rlimit(100)]
#[verifier::spinoff_prover]
proof fn lemma_decode_encode_frame_tail(prefix: Seq<u8>, f: FrameModel, rest: Seq<u8>)
    requires
        frame_valid(f),
    ensures
        spec_decode_frame_tail(
            prefix + spec_encode_frame(f) + rest,
            f.reliability,
            spec_frame_flags(f),
            (f.payload.len() * 8) as u16,
            f.reliable_index,
            f.sequence_index,
            prefix.len() + off_ord(f),
        ) == Ok::<(FrameModel, int), DecodeError>(
            (f, prefix.len() + spec_encode_frame(f).len() as int),
        ),
{
    let d = prefix + spec_encode_frame(f) + rest;
    let i = prefix.len() as int;
    let tag = f.reliability.spec_tag();
    let flags = spec_frame_flags(f);
    let bits = (f.payload.len() * 8) as u16;
    assert(tag <= 6);
    assert(tag <= 6 ==> (((tag << 5) | 0x10u8) & 0x10u8 != 0 && (tag << 5) as u8 & 0x10u8 == 0))
        by (bit_vector);
    assert((flags & SPLIT_BIT_FLAG != 0) == frame_is_split(f));
    if f.reliability.spec_is_ordered() {
        lemma_read_ord(prefix, f, rest);
    }
    if frame_is_split(f) {
        lemma_read_cmp(prefix, f, rest);
    }
    lemma_read_payload(prefix, f, rest);
    assert((bits as int + 7) / 8 == f.payload.len());
    lemma_tail_collapse(
        d,
        f.reliability,
        flags,
        bits,
        f.reliable_index,
        f.sequence_index,
        i + off_ord(f),
        f.order_index,
        f.order_channel,
        i + off_cmp(f),
        f.compound_size,
        f.compound_id,
        f.compound_index,
        i + off_payload(f),
        f.payload,
        i + spec_encode_frame(f).len() as int,
    );
    assert(FrameModel {
        reliability: f.reliability,
        reliable_index: f.reliable_index,
        sequence_index: f.sequence_index,
        order_index: f.order_index,
        order_channel: f.order_channel,
        compound_id: f.compound_id,
        compound_size: f.compound_size,
        compound_index: f.compound_index,
        payload: f.payload,
    } =~= f);
}

/// Decoding an encoded frame, wherever it sits in a datagram, gives the
/// frame back and consumes exactly its encoding.
#[verifier::rlimit(100)]
#[verifier::spinoff_prover]
pub proof fn lemma_decode_encode_frame(prefix: Seq<u8>, f: FrameModel, rest: Seq<u8>)
    requires
        frame_valid(f),
    ensures
        spec_decode_frame(prefix + spec_encode_frame(f) + rest, prefix.len() as int) == Ok::<
            (FrameModel, int),
            DecodeError,
        >((f, prefix.len() + spec_encode_frame(f).len() as int)),
{
    let d = prefix + spec_encode_frame(f) + rest;
    let i = prefix.len() as int;
    let tag = f.reliability.spec_tag();
    let flags = spec_frame_flags(f);
    let bits = (f.payload.len() * 8) as u16;
    assert(tag <= 6);
    assert(tag <= 6 ==> (((tag << 5) | 0x10u8) >> 5 == tag && (tag << 5) as u8 >> 5 == tag))
        by (bit_vector);
    assert(flags >> 5 == tag);
    assert(Reliability::spec_from_tag(tag) == Some(f.reliability));
    lemma_read_head(prefix, f, rest);
    lemma_decode_encode_frame_tail(prefix, f, rest);
    lemma_frame_collapse(
        d,
        i,
        flags,
        f.reliability,
        bits,
        f.reliable_index,
        f.sequence_index,
        i + off_seq(f),
        i + off_ord(f),
        f,
        i + spec_encode_frame(f).len() as int,
    );
}

/// Decoding a run of encoded frames that fills the rest of the datagram
/// gives the frames back, in order.
pub proof fn lemma_decode_encode_frames(prefix: Seq<u8>, fs: Seq<FrameModel>)
    requires
        forall|k: int| 0 <= k < fs.len() ==> frame_valid(#[trigger] fs[k]),
    ensures
        spec_decode_frames(prefix + spec_encode_frames(fs), prefix.len() as int) == Ok::<
            (Seq<FrameModel>, int),
            DecodeError,
        >((fs, prefix.len() + spec_encode_frames(fs).len() as int)),
    decreases fs.len(),
{
    let d = prefix + spec_encode_frames(fs);
    let i = prefix.len() as int;
    if fs.len() == 0 {
        assert(d =~= prefix);
        assert(fs =~= Seq::<FrameModel>::empty());
    } else {
        let f0 = fs[0];
        let tail = fs.drop_first();
        let enc0 = spec_encode_frame(f0);
        let enct = spec_encode_frames(tail);
        assert(spec_encode_frames(fs) == enc0 + enct);
        assert(d =~= prefix + enc0 + enct);
        lemma_decode_encode_frame(prefix, f0, enct);
        assert(spec_decode_frame(d, i) == Ok::<(FrameModel, int), DecodeError>((f0, i + enc0.len())));
        let j = i + enc0.len() as int;
        assert(enc0.len() >= 3) by {
            assert(enc0 == seq![spec_frame_flags(f0)] + u16_le_bytes((f0.payload.len() * 8) as u16)
                + (enc0.subrange(3, enc0.len() as int)));
        }
        assert(d =~= (prefix + enc0) + enct);
        lemma_decode_encode_frames(prefix + enc0, tail);
        assert(spec_decode_frames(d, j) == Ok::<(Seq<FrameModel>, int), DecodeError>(
            (tail, j + enct.len()),
        ));
        assert(i < d.len());
        lemma_decode_frames_unfold(d, i);
        assert(seq![f0] + tail =~= fs);
        assert(j + enct.len() == i + spec_encode_frames(fs).len());
    }
}

/// Round trip: decoding the encoding of any valid batch gives the batch
/// back.  Together with the codec contracts this pins the executable
/// `decode_batch(encode_batch(b))` to `b`.
pub proof fn lemma_batch_round_trip(b: FrameBatchModel)
    requires
        batch_valid(b),
    ensures
        spec_decode_batch(spec_encode_batch(b)) == Ok::<FrameBatchModel, DecodeError>(b),
{
    let d = spec_encode_batch(b);
    let h = seq![CONNECTED_PEER_BIT_FLAG];
    let sb = u24_le_bytes(b.sequence_number);
    let encf = spec_encode_frames(b.frames);
    assert(d == h + sb + encf);
    assert(d[0] == CONNECTED_PEER_BIT_FLAG) by {
        assert(d[0] == (h + sb)[0]);
    }
    assert(spec_read_u8(d, 0) == Some((CONNECTED_PEER_BIT_FLAG, 1int)));
    assert(d =~= h + sb + encf);
    lemma_read_u24_le(h, b.sequence_number, encf);
    assert(spec_read_u24_le(d, 1) == Some((b.sequence_number, 4int)));
    assert(d =~= (h + sb) + encf);
    lemma_decode_encode_frames(h + sb, b.frames);
    assert(spec_decode_frames(d, 4) == Ok::<(Seq<FrameModel>, int), DecodeError>(
        (b.frames, 4 + encf.len() as int),
    ));
    assert(spec_decode_batch(d) == Ok::<FrameBatchModel, DecodeError>(
        FrameBatchModel { sequence_number: b.sequence_number, frames: b.frames },
    ));
    assert(FrameBatchModel { sequence_number: b.sequence_number, frames: b.frames } =~= b);
}

} // verus!
