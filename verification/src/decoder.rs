//! The incremental frame decoder: bytes arrive in chunks of any size, frames
//! come out as soon as they are complete.
//!
//! The decoder also watches over header blocks: from a HEADERS or
//! PUSH_PROMISE frame without END_HEADERS until the CONTINUATION frame that
//! carries it, nothing but CONTINUATION frames of the same stream may
//! arrive.

use crate::error::ErrorCode;
use crate::frame::{
    decode_frame, lemma_parse_one_frame, lemma_parse_one_prefix, lemma_round_trip, parse_one,
    spec_encode, Decoded, Frame, FrameType, FrameView, Step, FLAG_END_HEADERS, FRAME_HEADER_LEN,
};
use vstd::prelude::*;
use vstd::slice::*;

verus! {

/// The header block that is open after the frame `f`, given the one that
/// was open before it (the stream it belongs to), or the error that `f`
/// is where it stands.
pub open spec fn block_after(block: Option<u32>, f: FrameView) -> Result<Option<u32>, ErrorCode> {
    match block {
        Some(s) => if f.frame_type == FrameType::Continuation && f.stream_id == s {
            if f.has_flag(FLAG_END_HEADERS) {
                Ok(None)
            } else {
                Ok(Some(s))
            }
        } else {
            Err(ErrorCode::ProtocolError)
        },
        None => if f.frame_type == FrameType::Continuation {
            Err(ErrorCode::ProtocolError)
        } else if (f.frame_type == FrameType::Headers || f.frame_type == FrameType::PushPromise)
            && !f.has_flag(FLAG_END_HEADERS) {
            Ok(Some(f.stream_id))
        } else {
            Ok(None)
        },
    }
}

/// What a byte sequence decodes to.
pub struct Outcome {
    /// The frames, in the order of arrival.
    pub frames: Seq<FrameView>,
    /// The bytes behind the last frame: an incomplete frame, or where an
    /// error stopped the decoder, the input from the offending frame on.
    pub rest: Seq<u8>,
    /// The stream whose header block is still open.
    pub block: Option<u32>,
    /// The error that stopped the decoder.
    pub error: Option<ErrorCode>,
}

/// Decodes as many frames as `buf` holds, starting with the header block
/// `block` open. Frames of an undefined type are skipped, unless a header
/// block is open: there they are an error like any other frame.
pub open spec fn decode_all(buf: Seq<u8>, max: u32, block: Option<u32>) -> Outcome
    decreases buf.len(),
{
    match parse_one(buf, max) {
        Step::NeedMore(_) => Outcome { frames: Seq::empty(), rest: buf, block, error: None },
        Step::TooLarge => Outcome {
            frames: Seq::empty(),
            rest: buf,
            block,
            error: Some(ErrorCode::FrameSizeError),
        },
        Step::Unknown(n) => if block.is_some() {
            Outcome {
                frames: Seq::empty(),
                rest: buf,
                block,
                error: Some(ErrorCode::ProtocolError),
            }
        } else if 0 < n <= buf.len() {
            decode_all(buf.skip(n as int), max, block)
        } else {
            Outcome { frames: Seq::empty(), rest: buf, block, error: None }
        },
        Step::Frame(f, n) => match block_after(block, f) {
            Err(e) => Outcome { frames: Seq::empty(), rest: buf, block, error: Some(e) },
            Ok(b) => if 0 < n <= buf.len() {
                let o = decode_all(buf.skip(n as int), max, b);
                Outcome { frames: seq![f] + o.frames, rest: o.rest, block: o.block, error: o.error }
            } else {
                Outcome { frames: Seq::empty(), rest: buf, block, error: None }
            },
        },
    }
}

/// `first`, and then what the bytes left over by it decode to.
pub open spec fn and_then(first: Outcome, second: Outcome) -> Outcome {
    Outcome {
        frames: first.frames + second.frames,
        rest: second.rest,
        block: second.block,
        error: second.error,
    }
}

/// Decoding a sequence that arrives in two parts: the frames of the first
/// part, then the frames of what the first part left over followed by the
/// second part. Where the first part ends in an error, the second part
/// adds nothing.
pub proof fn lemma_decode_all_append(x: Seq<u8>, y: Seq<u8>, max: u32, block: Option<u32>)
    ensures
        decode_all(x, max, block).error.is_some() ==> decode_all(x + y, max, block) == (Outcome {
            rest: decode_all(x, max, block).rest + y,
            ..decode_all(x, max, block)
        }),
        decode_all(x, max, block).error.is_none() ==> decode_all(x + y, max, block) == and_then(
            decode_all(x, max, block),
            decode_all(decode_all(x, max, block).rest + y, max, decode_all(x, max, block).block),
        ),
    decreases x.len(),
{
    let o = decode_all(x, max, block);
    lemma_parse_one_frame(x, max);
    match parse_one(x, max) {
        Step::NeedMore(_) => {
            let o2 = decode_all(x + y, max, block);
            assert(o.frames + o2.frames =~= o2.frames);
        },
        Step::TooLarge => {
            lemma_parse_one_prefix(x, y, max);
        },
        Step::Unknown(n) => {
            lemma_parse_one_prefix(x, y, max);
            if block.is_none() {
                assert((x + y).skip(n as int) =~= x.skip(n as int) + y);
                lemma_decode_all_append(x.skip(n as int), y, max, block);
            }
        },
        Step::Frame(f, n) => {
            lemma_parse_one_prefix(x, y, max);
            match block_after(block, f) {
                Err(e) => {},
                Ok(b) => {
                    assert((x + y).skip(n as int) =~= x.skip(n as int) + y);
                    lemma_decode_all_append(x.skip(n as int), y, max, b);
                    let o1 = decode_all(x.skip(n as int), max, b);
                    if o1.error.is_none() {
                        let o2 = decode_all(o1.rest + y, max, o1.block);
                        assert(seq![f] + (o1.frames + o2.frames) =~= (seq![f] + o1.frames)
                            + o2.frames);
                    }
                },
            }
        },
    }
}

/// What is left over by decoding holds no complete frame any more: decoding
/// it again gives nothing new.
pub proof fn lemma_decode_all_rest(buf: Seq<u8>, max: u32, block: Option<u32>)
    ensures
        decode_all(buf, max, block).rest.len() <= buf.len(),
        decode_all(decode_all(buf, max, block).rest, max, decode_all(buf, max, block).block) == (
        Outcome { frames: Seq::empty(), ..decode_all(buf, max, block) }),
    decreases buf.len(),
{
    lemma_parse_one_frame(buf, max);
    match parse_one(buf, max) {
        Step::Unknown(n) => {
            if block.is_none() {
                lemma_decode_all_rest(buf.skip(n as int), max, block);
            }
        },
        Step::Frame(f, n) => {
            match block_after(block, f) {
                Err(e) => {},
                Ok(b) => {
                    lemma_decode_all_rest(buf.skip(n as int), max, b);
                },
            }
        },
        _ => {},
    }
}

/// The frames of a vector as mathematical values.
pub open spec fn frame_views(frames: Seq<Frame>) -> Seq<FrameView> {
    frames.map_values(|f: Frame| f@)
}

/// The header block that is open after `f`; see `block_after`.
pub fn next_block(block: Option<u32>, f: &Frame) -> (r: Result<Option<u32>, ErrorCode>)
    ensures
        r == block_after(block, f@),
{
    let ends = f.has_flag(FLAG_END_HEADERS);
    match block {
        Some(s) => match f.frame_type {
            FrameType::Continuation => if f.stream_id == s {
                if ends {
                    Ok(None)
                } else {
                    Ok(Some(s))
                }
            } else {
                Err(ErrorCode::ProtocolError)
            },
            _ => Err(ErrorCode::ProtocolError),
        },
        None => match f.frame_type {
            FrameType::Continuation => Err(ErrorCode::ProtocolError),
            FrameType::Headers | FrameType::PushPromise => if ends {
                Ok(None)
            } else {
                Ok(Some(f.stream_id))
            },
            _ => Ok(None),
        },
    }
}

/// An incremental decoder. It keeps the bytes of a frame that has not
/// arrived in full, and the header block that is open, from one call to
/// the next.
pub struct Decoder {
    buf: Vec<u8>,
    max_frame_size: u32,
    block: Option<u32>,
    failed: Option<ErrorCode>,
}

/// A decoder as a mathematical value.
pub struct DecoderView {
    /// The bytes that have arrived and belong to no frame handed out yet.
    pub pending: Seq<u8>,
    /// The largest payload accepted.
    pub max: u32,
    /// The stream whose header block is open.
    pub block: Option<u32>,
    /// The connection error that the input held. Once set it stays.
    pub failed: Option<ErrorCode>,
}

impl DecoderView {
    /// The pending bytes hold no complete frame, and none at all once the
    /// decoder has failed.
    pub open spec fn wf(self) -> bool {
        if self.failed.is_some() {
            self.pending.len() == 0
        } else {
            decode_all(self.pending, self.max, self.block) == (Outcome {
                frames: Seq::empty(),
                rest: self.pending,
                block: self.block,
                error: None,
            })
        }
    }
}

/// The decoder after one more chunk, and the frames that the chunk
/// completes. A decoder that has failed takes nothing in any more.
pub open spec fn spec_feed(d: DecoderView, chunk: Seq<u8>) -> (DecoderView, Seq<FrameView>) {
    if d.failed.is_some() {
        (d, Seq::empty())
    } else {
        let o = decode_all(d.pending + chunk, d.max, d.block);
        (
            DecoderView {
                pending: if o.error.is_some() {
                    Seq::empty()
                } else {
                    o.rest
                },
                max: d.max,
                block: o.block,
                failed: o.error,
            },
            o.frames,
        )
    }
}

/// The chunks one after another, as one sequence.
pub open spec fn concat(chunks: Seq<Seq<u8>>) -> Seq<u8>
    decreases chunks.len(),
{
    if chunks.len() == 0 {
        Seq::empty()
    } else {
        concat(chunks.drop_last()) + chunks.last()
    }
}

/// The decoder after a series of chunks, and all the frames they gave.
pub open spec fn spec_feed_all(d: DecoderView, chunks: Seq<Seq<u8>>) -> (
    DecoderView,
    Seq<FrameView>,
)
    decreases chunks.len(),
{
    if chunks.len() == 0 {
        (d, Seq::empty())
    } else {
        let (d1, f1) = spec_feed_all(d, chunks.drop_last());
        let (d2, f2) = spec_feed(d1, chunks.last());
        (d2, f1 + f2)
    }
}

/// A chunk leaves the decoder well formed.
pub proof fn lemma_feed_wf(d: DecoderView, chunk: Seq<u8>)
    requires
        d.wf(),
    ensures
        spec_feed(d, chunk).0.wf(),
{
    if d.failed.is_none() {
        lemma_decode_all_rest(d.pending + chunk, d.max, d.block);
    }
}

/// Feeding two chunks one after the other gives the frames, and leaves the
/// decoder in the state, that feeding both as one chunk does.
pub proof fn lemma_feed_split(d: DecoderView, a: Seq<u8>, b: Seq<u8>)
    ensures
        spec_feed(spec_feed(d, a).0, b).0 == spec_feed(d, a + b).0,
        spec_feed(d, a).1 + spec_feed(spec_feed(d, a).0, b).1 == spec_feed(d, a + b).1,
{
    if d.failed.is_none() {
        assert((d.pending + a) + b =~= d.pending + (a + b));
        lemma_decode_all_append(d.pending + a, b, d.max, d.block);
        let o = decode_all(d.pending + a, d.max, d.block);
        assert(o.frames + Seq::<FrameView>::empty() =~= o.frames);
    } else {
        assert(Seq::<FrameView>::empty() + Seq::<FrameView>::empty() =~= Seq::<
            FrameView,
        >::empty());
    }
}

/// Decoding does not depend on how the input is cut into chunks: a byte
/// sequence delivered in any number of chunks of any sizes gives the same
/// frames, and leaves the decoder in the same state, as the sequence
/// delivered at once.
pub proof fn lemma_chunking(d: DecoderView, chunks: Seq<Seq<u8>>)
    requires
        d.wf(),
    ensures
        spec_feed_all(d, chunks) == spec_feed(d, concat(chunks)),
    decreases chunks.len(),
{
    if chunks.len() == 0 {
        assert(d.pending + Seq::<u8>::empty() =~= d.pending);
    } else {
        lemma_chunking(d, chunks.drop_last());
        lemma_feed_split(d, concat(chunks.drop_last()), chunks.last());
    }
}

/// Encoding a frame and feeding its bytes to a decoder that holds no
/// pending input gives back that frame alone, equal in every field, for
/// every type and every payload within the limit, and leaves nothing
/// pending.
///
/// The protocol makes one exception, which is here too: while a header
/// block is open nothing is accepted but the CONTINUATION of its stream,
/// and a CONTINUATION is accepted nowhere else. A frame that stands
/// against this gives no frame and the protocol error that stops the
/// decoder.
pub proof fn lemma_feed_round_trip(d: DecoderView, f: FrameView)
    requires
        d.failed.is_none(),
        d.pending.len() == 0,
        f.wf(),
        f.payload.len() <= d.max,
    ensures
        match block_after(d.block, f) {
            Ok(b) => spec_feed(d, spec_encode(f)) == (
                DecoderView { pending: Seq::empty(), max: d.max, block: b, failed: None },
                seq![f],
            ),
            Err(e) => spec_feed(d, spec_encode(f)) == (
                DecoderView {
                    pending: Seq::empty(),
                    max: d.max,
                    block: d.block,
                    failed: Some(e),
                },
                Seq::<FrameView>::empty(),
            ),
        },
        d.block.is_none() && f.frame_type != FrameType::Continuation ==> spec_feed(
            d,
            spec_encode(f),
        ).1 == seq![f],
        d.block == Some(f.stream_id) && f.frame_type == FrameType::Continuation ==> spec_feed(
            d,
            spec_encode(f),
        ).1 == seq![f],
{
    let bytes = spec_encode(f);
    let input = d.pending + bytes;
    assert(input =~= bytes);
    lemma_round_trip(f, Seq::empty(), d.max);
    assert(bytes + Seq::<u8>::empty() =~= bytes);
    let n = FRAME_HEADER_LEN as nat + f.payload.len();
    assert(bytes.len() == n) by {
        lemma_parse_one_frame(bytes, d.max);
    }
    assert(bytes.skip(n as int) =~= Seq::<u8>::empty());
    match block_after(d.block, f) {
        Ok(b) => {
            let o = decode_all(Seq::<u8>::empty(), d.max, b);
            assert(o.frames =~= Seq::<FrameView>::empty());
            assert(seq![f] + o.frames =~= seq![f]);
        },
        Err(e) => {},
    }
}

impl View for Decoder {
    type V = DecoderView;

    closed spec fn view(&self) -> DecoderView {
        DecoderView {
            pending: self.buf@,
            max: self.max_frame_size,
            block: self.block,
            failed: self.failed,
        }
    }
}

impl Decoder {
    /// A decoder that has seen no input and accepts payloads of up to
    /// `max_frame_size` bytes.
    pub fn new(max_frame_size: u32) -> (r: Decoder)
        ensures
            r@ == (DecoderView {
                pending: Seq::empty(),
                max: max_frame_size,
                block: None,
                failed: None,
            }),
            r@.wf(),
    {
        Decoder { buf: Vec::new(), max_frame_size, block: None, failed: None }
    }

    /// The number of bytes that wait for the rest of their frame.
    pub fn pending_len(&self) -> (r: usize)
        ensures
            r == self@.pending.len(),
    {
        self.buf.len()
    }

    /// The largest payload accepted.
    pub fn max_frame_size(&self) -> (r: u32)
        ensures
            r == self@.max,
    {
        self.max_frame_size
    }

    /// The stream whose header block is open.
    pub fn open_block(&self) -> (r: Option<u32>)
        ensures
            r == self@.block,
    {
        self.block
    }

    /// The error that stopped the decoder.
    pub fn failed(&self) -> (r: Option<ErrorCode>)
        ensures
            r == self@.failed,
    {
        self.failed
    }

    /// Changes the largest payload accepted, as after new SETTINGS of this
    /// end. The pending input is read again under the new limit: a frame
    /// that waits for its rest and is above it stops the decoder with a
    /// frame-size error.
    pub fn set_max_frame_size(&mut self, max_frame_size: u32) -> (r: (
        Vec<Frame>,
        Option<ErrorCode>,
    ))
        ensures
            final(self)@ == spec_feed(
                DecoderView { max: max_frame_size, ..old(self)@ },
                Seq::empty(),
            ).0,
            frame_views(r.0@) == spec_feed(
                DecoderView { max: max_frame_size, ..old(self)@ },
                Seq::empty(),
            ).1,
            r.1 == final(self)@.failed,
            final(self)@.max == max_frame_size,
            old(self)@.failed.is_none() ==> final(self)@.wf(),
    {
        self.max_frame_size = max_frame_size;
        let nothing: Vec<u8> = Vec::new();
        proof {
            let d = DecoderView { max: max_frame_size, ..old(self)@ };
            if d.failed.is_none() {
                lemma_decode_all_rest(d.pending + Seq::<u8>::empty(), d.max, d.block);
            }
        }
        self.feed(nothing.as_slice())
    }

    /// Takes in one chunk of input and hands out the frames that are
    /// complete with it, in order, with the error that stopped the
    /// decoder, if one did. An incomplete frame at the end is kept for the
    /// next call and is no error.
    pub fn feed(&mut self, chunk: &[u8]) -> (r: (Vec<Frame>, Option<ErrorCode>))
        ensures
            final(self)@ == spec_feed(old(self)@, chunk@).0,
            frame_views(r.0@) == spec_feed(old(self)@, chunk@).1,
            r.1 == final(self)@.failed,
            old(self)@.wf() ==> final(self)@.wf(),
            forall|k: int|
                0 <= k < r.0@.len() ==> (#[trigger] r.0@[k])@.wf() && r.0@[k]@.payload.len()
                    <= old(self)@.max,
    {
        let mut out: Vec<Frame> = Vec::new();
        assert(frame_views(out@) =~= Seq::<FrameView>::empty());
        if self.failed.is_some() {
            return (out, self.failed);
        }
        self.buf.extend_from_slice(chunk);
        let ghost input = self.buf@;
        let ghost block0 = self.block;
        assert(input =~= old(self)@.pending + chunk@);
        proof {
            lemma_decode_all_rest(input, self.max_frame_size, block0);
        }
        let max = self.max_frame_size;
        let mut pos: usize = 0;
        let mut block = self.block;
        let mut error: Option<ErrorCode> = None;
        let mut done = false;
        assert(input.skip(0) =~= input);
        assert(frame_views(out@) + decode_all(input, max, block0).frames =~= decode_all(
            input,
            max,
            block0,
        ).frames);
        while !done
            invariant
                pos <= self.buf.len(),
                self.buf@ == input,
                self.max_frame_size == max,
                decode_all(input, max, block0) == and_then(
                    Outcome {
                        frames: frame_views(out@),
                        rest: Seq::empty(),
                        block: None,
                        error: None,
                    },
                    decode_all(input.skip(pos as int), max, block),
                ),
                !done ==> error.is_none(),
                forall|k: int|
                    0 <= k < out@.len() ==> (#[trigger] out@[k])@.wf() && out@[k]@.payload.len()
                        <= max,
                done ==> decode_all(input.skip(pos as int), max, block) == (Outcome {
                    frames: Seq::empty(),
                    rest: input.skip(pos as int),
                    block,
                    error,
                }),
            decreases self.buf.len() - pos + (if done { 0int } else { 1int }),
        {
            let ghost cur = input.skip(pos as int);
            let ghost before = frame_views(out@);
            proof {
                lemma_parse_one_frame(cur, max);
            }
            let tail = slice_subrange(self.buf.as_slice(), pos, self.buf.len());
            assert(tail@ =~= cur);
            match decode_frame(tail, max) {
                Decoded::Incomplete(_) => {
                    done = true;
                },
                Decoded::FrameSizeError => {
                    error = Some(ErrorCode::FrameSizeError);
                    done = true;
                },
                Decoded::Unknown(n) => {
                    if block.is_some() {
                        error = Some(ErrorCode::ProtocolError);
                        done = true;
                    } else {
                        assert(cur.skip(n as int) =~= input.skip(pos as int + n as int));
                        pos = pos + n;
                    }
                },
                Decoded::Frame(f, n) => {
                    match next_block(block, &f) {
                        Err(e) => {
                            error = Some(e);
                            done = true;
                        },
                        Ok(b) => {
                            proof {
                                assert(cur.skip(n as int) =~= input.skip(pos as int + n as int));
                                let o = decode_all(cur.skip(n as int), max, b);
                                assert(frame_views(out@.push(f)) =~= before.push(f@));
                                assert(before + (seq![f@] + o.frames) =~= before.push(f@)
                                    + o.frames);
                            }
                            block = b;
                            out.push(f);
                            pos = pos + n;
                        },
                    }
                },
            }
        }
        proof {
            assert(frame_views(out@) + Seq::<FrameView>::empty() =~= frame_views(out@));
        }
        if error.is_some() {
            self.buf = Vec::new();
        } else {
            let rest = self.buf.split_off(pos);
            assert(rest@ =~= input.skip(pos as int));
            self.buf = rest;
        }
        self.block = block;
        self.failed = error;
        (out, error)
    }
}

} // verus!
