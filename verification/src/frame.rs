//! The wire format of a frame (RFC 7540, section 4.1): a header of nine
//! bytes, then the payload.
//!
//! ```text
//!  length (24) | type (8) | flags (8) | R (1) + stream id (31) | payload
//! ```

use crate::error::ErrorCode;
use vstd::prelude::*;
use vstd::slice::*;

verus! {

/// The length of a frame header in bytes.
pub const FRAME_HEADER_LEN: usize = 9;

/// The largest payload that an endpoint must accept before it says
/// otherwise in SETTINGS.
pub const DEFAULT_MAX_FRAME_SIZE: u32 = 16384;

/// The largest payload that 24 bits of length can announce.
pub const MAX_PAYLOAD_LEN: u32 = 0xff_ffff;

/// The largest stream identifier: 31 bits.
pub const MAX_STREAM_ID: u32 = 0x7fff_ffff;

pub const FLAG_END_STREAM: u8 = 0x1;

pub const FLAG_ACK: u8 = 0x1;

pub const FLAG_END_HEADERS: u8 = 0x4;

pub const FLAG_PADDED: u8 = 0x8;

pub const FLAG_PRIORITY: u8 = 0x20;

/// The frame types that the protocol defines.
#[derive(Clone, Copy, Debug, PartialEq, Eq, Structural)]
pub enum FrameType {
    Data,
    Headers,
    Priority,
    RstStream,
    Settings,
    PushPromise,
    Ping,
    GoAway,
    WindowUpdate,
    Continuation,
}

impl FrameType {
    /// The byte that stands for the type in a frame header.
    pub open spec fn spec_code(self) -> u8 {
        match self {
            FrameType::Data => 0x0,
            FrameType::Headers => 0x1,
            FrameType::Priority => 0x2,
            FrameType::RstStream => 0x3,
            FrameType::Settings => 0x4,
            FrameType::PushPromise => 0x5,
            FrameType::Ping => 0x6,
            FrameType::GoAway => 0x7,
            FrameType::WindowUpdate => 0x8,
            FrameType::Continuation => 0x9,
        }
    }

    /// The type that a header byte stands for, `None` for a byte that the
    /// protocol leaves undefined.
    pub open spec fn spec_from_code(c: u8) -> Option<FrameType> {
        if c == 0x0 {
            Some(FrameType::Data)
        } else if c == 0x1 {
            Some(FrameType::Headers)
        } else if c == 0x2 {
            Some(FrameType::Priority)
        } else if c == 0x3 {
            Some(FrameType::RstStream)
        } else if c == 0x4 {
            Some(FrameType::Settings)
        } else if c == 0x5 {
            Some(FrameType::PushPromise)
        } else if c == 0x6 {
            Some(FrameType::Ping)
        } else if c == 0x7 {
            Some(FrameType::GoAway)
        } else if c == 0x8 {
            Some(FrameType::WindowUpdate)
        } else if c == 0x9 {
            Some(FrameType::Continuation)
        } else {
            None
        }
    }

    pub fn code(self) -> (r: u8)
        ensures
            r == self.spec_code(),
    {
        match self {
            FrameType::Data => 0x0,
            FrameType::Headers => 0x1,
            FrameType::Priority => 0x2,
            FrameType::RstStream => 0x3,
            FrameType::Settings => 0x4,
            FrameType::PushPromise => 0x5,
            FrameType::Ping => 0x6,
            FrameType::GoAway => 0x7,
            FrameType::WindowUpdate => 0x8,
            FrameType::Continuation => 0x9,
        }
    }

    pub fn from_code(c: u8) -> (r: Option<FrameType>)
        ensures
            r == Self::spec_from_code(c),
    {
        match c {
            0x0 => Some(FrameType::Data),
            0x1 => Some(FrameType::Headers),
            0x2 => Some(FrameType::Priority),
            0x3 => Some(FrameType::RstStream),
            0x4 => Some(FrameType::Settings),
            0x5 => Some(FrameType::PushPromise),
            0x6 => Some(FrameType::Ping),
            0x7 => Some(FrameType::GoAway),
            0x8 => Some(FrameType::WindowUpdate),
            0x9 => Some(FrameType::Continuation),
            _ => None,
        }
    }

    /// Whether frames of this type carry a part of a header block.
    pub open spec fn spec_carries_headers(self) -> bool {
        self == FrameType::Headers || self == FrameType::PushPromise || self
            == FrameType::Continuation
    }

    pub fn carries_headers(self) -> (r: bool)
        ensures
            r == self.spec_carries_headers(),
    {
        match self {
            FrameType::Headers | FrameType::PushPromise | FrameType::Continuation => true,
            _ => false,
        }
    }

    /// Reading back the header byte of a type gives that type.
    pub proof fn lemma_code_round_trip(t: FrameType)
        ensures
            Self::spec_from_code(t.spec_code()) == Some(t),
    {
    }
}

/// One frame. The length that the header announces is the length of
/// `payload`.
#[derive(Debug)]
pub struct Frame {
    pub frame_type: FrameType,
    pub flags: u8,
    pub stream_id: u32,
    pub payload: Vec<u8>,
}

/// A frame as a mathematical value.
pub struct FrameView {
    pub frame_type: FrameType,
    pub flags: u8,
    pub stream_id: u32,
    pub payload: Seq<u8>,
}

impl View for Frame {
    type V = FrameView;

    open spec fn view(&self) -> FrameView {
        FrameView {
            frame_type: self.frame_type,
            flags: self.flags,
            stream_id: self.stream_id,
            payload: self.payload@,
        }
    }
}

impl FrameView {
    /// A frame that the wire format can carry: the stream identifier fits
    /// in 31 bits and the payload's length in 24.
    pub open spec fn wf(self) -> bool {
        self.stream_id <= MAX_STREAM_ID && self.payload.len() <= MAX_PAYLOAD_LEN
    }

    pub open spec fn has_flag(self, flag: u8) -> bool {
        self.flags & flag == flag
    }
}

/// The nine header bytes for a payload of `len` bytes.
pub open spec fn spec_header(len: nat, code: u8, flags: u8, stream_id: u32) -> Seq<u8> {
    seq![
        ((len / 65536) % 256) as u8,
        ((len / 256) % 256) as u8,
        (len % 256) as u8,
        code,
        flags,
        ((stream_id / 16777216) % 256) as u8,
        ((stream_id / 65536) % 256) as u8,
        ((stream_id / 256) % 256) as u8,
        (stream_id % 256) as u8,
    ]
}

/// The bytes of a frame on the wire.
pub open spec fn spec_encode(f: FrameView) -> Seq<u8> {
    spec_header(f.payload.len(), f.frame_type.spec_code(), f.flags, f.stream_id) + f.payload
}

/// The payload length that a header announces: its first three bytes, most
/// significant first.
pub open spec fn spec_length(b: Seq<u8>) -> nat
    recommends
        b.len() >= 3,
{
    (b[0] as nat) * 65536 + (b[1] as nat) * 256 + (b[2] as nat)
}

/// The stream identifier in a header: its last four bytes, most significant
/// first, without the reserved top bit.
pub open spec fn spec_stream_id(b: Seq<u8>) -> u32
    recommends
        b.len() >= 9,
{
    (((b[5] as nat) % 128) * 16777216 + (b[6] as nat) * 65536 + (b[7] as nat) * 256 + (
    b[8] as nat)) as u32
}

/// The 32-bit number that stands in four bytes from `at` on, most
/// significant byte first.
pub open spec fn spec_be32(b: Seq<u8>, at: int) -> u32
    recommends
        0 <= at,
        at + 4 <= b.len(),
{
    ((b[at] as nat) * 16777216 + (b[at + 1] as nat) * 65536 + (b[at + 2] as nat) * 256 + (
    b[at + 3] as nat)) as u32
}

/// The same without the top bit, which the protocol reserves.
pub open spec fn spec_be31(b: Seq<u8>, at: int) -> u32
    recommends
        0 <= at,
        at + 4 <= b.len(),
{
    (((b[at] as nat) % 128) * 16777216 + (b[at + 1] as nat) * 65536 + (b[at + 2] as nat) * 256
        + (b[at + 3] as nat)) as u32
}

/// The four bytes that stand for a 32-bit number, most significant first.
pub open spec fn spec_be32_bytes(v: u32) -> Seq<u8> {
    seq![
        ((v / 16777216) % 256) as u8,
        ((v / 65536) % 256) as u8,
        ((v / 256) % 256) as u8,
        (v % 256) as u8,
    ]
}

pub fn read_be32(buf: &[u8], at: usize) -> (r: u32)
    requires
        at + 4 <= buf@.len(),
    ensures
        r == spec_be32(buf@, at as int),
{
    (buf[at] as u32) * 16777216 + (buf[at + 1] as u32) * 65536 + (buf[at + 2] as u32) * 256 + (
    buf[at + 3] as u32)
}

pub fn read_be31(buf: &[u8], at: usize) -> (r: u32)
    requires
        at + 4 <= buf@.len(),
    ensures
        r == spec_be31(buf@, at as int),
        r <= MAX_STREAM_ID,
{
    ((buf[at] as u32) % 128) * 16777216 + (buf[at + 1] as u32) * 65536 + (buf[at + 2] as u32)
        * 256 + (buf[at + 3] as u32)
}

/// Appends the four bytes of `v` to `out`.
pub fn put_be32(out: &mut Vec<u8>, v: u32)
    ensures
        final(out)@ == old(out)@ + spec_be32_bytes(v),
{
    out.push(((v / 16777216) % 256) as u8);
    out.push(((v / 65536) % 256) as u8);
    out.push(((v / 256) % 256) as u8);
    out.push((v % 256) as u8);
    assert(out@ =~= old(out)@ + spec_be32_bytes(v));
}

/// Reading back the four bytes of a number gives that number, and without
/// its top bit where that is asked for.
pub proof fn lemma_be32_round_trip(v: u32, before: Seq<u8>, after: Seq<u8>)
    ensures
        spec_be32(before + spec_be32_bytes(v) + after, before.len() as int) == v,
        v <= MAX_STREAM_ID ==> spec_be31(before + spec_be32_bytes(v) + after, before.len() as int)
            == v,
{
    let b = before + spec_be32_bytes(v) + after;
    let at = before.len() as int;
    lemma_split32(v);
    assert(b[at] == ((v / 16777216) % 256) as u8);
    assert(b[at + 1] == ((v / 65536) % 256) as u8);
    assert(b[at + 2] == ((v / 256) % 256) as u8);
    assert(b[at + 3] == (v % 256) as u8);
}

impl Frame {
    /// A frame of the given parts, or `None` where the wire format cannot
    /// carry it.
    pub fn new(frame_type: FrameType, flags: u8, stream_id: u32, payload: Vec<u8>) -> (r: Option<
        Frame,
    >)
        ensures
            r.is_some() == (stream_id <= MAX_STREAM_ID && payload@.len() <= MAX_PAYLOAD_LEN),
            r.is_some() ==> r.unwrap()@ == (FrameView {
                frame_type,
                flags,
                stream_id,
                payload: payload@,
            }),
    {
        if stream_id <= MAX_STREAM_ID && payload.len() <= MAX_PAYLOAD_LEN as usize {
            Some(Frame { frame_type, flags, stream_id, payload })
        } else {
            None
        }
    }

    pub fn is_wf(&self) -> (r: bool)
        ensures
            r == self@.wf(),
    {
        self.stream_id <= MAX_STREAM_ID && self.payload.len() <= MAX_PAYLOAD_LEN as usize
    }

    /// The length that the frame's header announces.
    pub fn length(&self) -> (r: usize)
        ensures
            r == self@.payload.len(),
    {
        self.payload.len()
    }

    pub fn has_flag(&self, flag: u8) -> (r: bool)
        ensures
            r == self@.has_flag(flag),
    {
        self.flags & flag == flag
    }

    /// Whether two frames are equal in every field.
    pub fn same(&self, other: &Frame) -> (r: bool)
        ensures
            r == (self@ == other@),
    {
        if !(self.frame_type == other.frame_type && self.flags == other.flags && self.stream_id
            == other.stream_id && self.payload.len() == other.payload.len()) {
            return false;
        }
        let mut i: usize = 0;
        while i < self.payload.len()
            invariant
                0 <= i <= self.payload.len(),
                self.payload.len() == other.payload.len(),
                forall|k: int| 0 <= k < i ==> self.payload[k] == other.payload[k],
            decreases self.payload.len() - i,
        {
            if self.payload[i] != other.payload[i] {
                return false;
            }
            i = i + 1;
        }
        assert(self.payload@ =~= other.payload@);
        true
    }

    /// The frame's bytes on the wire. Consults nothing but the frame.
    pub fn encode(&self) -> (r: Vec<u8>)
        requires
            self@.wf(),
        ensures
            r@ == spec_encode(self@),
            r@.len() == FRAME_HEADER_LEN + self@.payload.len(),
    {
        encode_parts(self.frame_type, self.flags, self.stream_id, self.payload.as_slice())
    }

    /// The frame's bytes on the wire, or the error that stands against
    /// sending it: a payload above `max_frame_size`, or above what 24 bits
    /// can announce, is a frame-size error; a stream identifier of more
    /// than 31 bits a protocol error.
    pub fn try_encode(&self, max_frame_size: u32) -> (r: Result<Vec<u8>, ErrorCode>)
        ensures
            match r {
                Ok(bytes) => self@.wf() && self@.payload.len() <= max_frame_size && bytes@
                    == spec_encode(self@),
                Err(e) => if self@.payload.len() > max_frame_size || self@.payload.len()
                    > MAX_PAYLOAD_LEN {
                    e == ErrorCode::FrameSizeError
                } else {
                    e == ErrorCode::ProtocolError && self@.stream_id > MAX_STREAM_ID
                },
            },
    {
        if self.payload.len() > max_frame_size as usize || self.payload.len()
            > MAX_PAYLOAD_LEN as usize {
            Err(ErrorCode::FrameSizeError)
        } else if self.stream_id > MAX_STREAM_ID {
            Err(ErrorCode::ProtocolError)
        } else {
            Ok(self.encode())
        }
    }
}

/// The bytes on the wire of the frame with the given parts.
pub fn encode_parts(frame_type: FrameType, flags: u8, stream_id: u32, payload: &[u8]) -> (r: Vec<u8>)
    requires
        stream_id <= MAX_STREAM_ID,
        payload@.len() <= MAX_PAYLOAD_LEN,
    ensures
        r@ == spec_encode(FrameView { frame_type, flags, stream_id, payload: payload@ }),
        r@.len() == FRAME_HEADER_LEN + payload@.len(),
{
    let len: u32 = payload.len() as u32;
    let mut out: Vec<u8> = Vec::with_capacity(FRAME_HEADER_LEN + payload.len());
    out.push(((len / 65536) % 256) as u8);
    out.push(((len / 256) % 256) as u8);
    out.push((len % 256) as u8);
    out.push(frame_type.code());
    out.push(flags);
    out.push(((stream_id / 16777216) % 256) as u8);
    out.push(((stream_id / 65536) % 256) as u8);
    out.push(((stream_id / 256) % 256) as u8);
    out.push((stream_id % 256) as u8);
    assert(out@ =~= spec_header(payload@.len(), frame_type.spec_code(), flags, stream_id));
    out.extend_from_slice(payload);
    assert(out@ =~= spec_encode(FrameView { frame_type, flags, stream_id, payload: payload@ }));
    out
}

/// What stands at the front of a byte sequence.
pub enum Step {
    /// The sequence ends inside a frame; so many bytes are missing.
    NeedMore(nat),
    /// The header announces a payload above the limit.
    TooLarge,
    /// A complete frame of a type that the protocol leaves undefined, and
    /// the number of bytes it takes.
    Unknown(nat),
    /// A complete frame, and the number of bytes it takes.
    Frame(FrameView, nat),
}

/// Reads the front of `buf` under the limit `max` on the payload length.
///
/// The limit is tested as soon as the header is there, before the payload
/// has arrived.
pub open spec fn parse_one(buf: Seq<u8>, max: u32) -> Step {
    if buf.len() < FRAME_HEADER_LEN {
        Step::NeedMore((FRAME_HEADER_LEN - buf.len()) as nat)
    } else {
        let len = spec_length(buf);
        if len > max {
            Step::TooLarge
        } else if buf.len() < FRAME_HEADER_LEN + len {
            Step::NeedMore((FRAME_HEADER_LEN + len - buf.len()) as nat)
        } else {
            match FrameType::spec_from_code(buf[3]) {
                None => Step::Unknown(FRAME_HEADER_LEN as nat + len),
                Some(t) => Step::Frame(
                    FrameView {
                        frame_type: t,
                        flags: buf[4],
                        stream_id: spec_stream_id(buf),
                        payload: buf.subrange(
                            FRAME_HEADER_LEN as int,
                            FRAME_HEADER_LEN as int + len as int,
                        ),
                    },
                    FRAME_HEADER_LEN as nat + len,
                ),
            }
        }
    }
}

/// The outcome of reading the front of a buffer.
#[derive(Debug)]
pub enum Decoded {
    /// The buffer ends inside a frame; so many bytes are missing.
    Incomplete(u32),
    /// The header announces a payload above the limit.
    FrameSizeError,
    /// A complete frame of an undefined type, to be skipped, and the number
    /// of bytes it takes.
    Unknown(usize),
    /// A complete frame, and the number of bytes it takes.
    Frame(Frame, usize),
}

impl View for Decoded {
    type V = Step;

    open spec fn view(&self) -> Step {
        match *self {
            Decoded::Incomplete(n) => Step::NeedMore(n as nat),
            Decoded::FrameSizeError => Step::TooLarge,
            Decoded::Unknown(n) => Step::Unknown(n as nat),
            Decoded::Frame(f, n) => Step::Frame(f@, n as nat),
        }
    }
}

/// The payload length in a header.
pub fn read_length(buf: &[u8]) -> (r: u32)
    requires
        buf@.len() >= 3,
    ensures
        r == spec_length(buf@),
        r <= MAX_PAYLOAD_LEN,
{
    (buf[0] as u32) * 65536 + (buf[1] as u32) * 256 + (buf[2] as u32)
}

/// The stream identifier in a header; the reserved bit is dropped.
pub fn read_stream_id(buf: &[u8]) -> (r: u32)
    requires
        buf@.len() >= FRAME_HEADER_LEN,
    ensures
        r == spec_stream_id(buf@),
        r <= MAX_STREAM_ID,
{
    ((buf[5] as u32) % 128) * 16777216 + (buf[6] as u32) * 65536 + (buf[7] as u32) * 256 + (
    buf[8] as u32)
}

/// Reads one frame from the front of `buf`, which may hold less or more
/// than one frame. `max_frame_size` is the largest payload accepted.
pub fn decode_frame(buf: &[u8], max_frame_size: u32) -> (r: Decoded)
    ensures
        r@ == parse_one(buf@, max_frame_size),
{
    if buf.len() < FRAME_HEADER_LEN {
        return Decoded::Incomplete((FRAME_HEADER_LEN - buf.len()) as u32);
    }
    let len: u32 = read_length(buf);
    if len > max_frame_size {
        return Decoded::FrameSizeError;
    }
    let have: usize = buf.len() - FRAME_HEADER_LEN;
    if have < len as usize {
        return Decoded::Incomplete((len as usize - have) as u32);
    }
    let total: usize = FRAME_HEADER_LEN + len as usize;
    match FrameType::from_code(buf[3]) {
        None => Decoded::Unknown(total),
        Some(t) => {
            let payload = slice_to_vec(slice_subrange(buf, FRAME_HEADER_LEN, total));
            Decoded::Frame(
                Frame { frame_type: t, flags: buf[4], stream_id: read_stream_id(buf), payload },
                total,
            )
        },
    }
}

/// A decoded frame is one that the wire format can carry, within the
/// limit, and takes nine bytes more than its payload.
pub proof fn lemma_parse_one_frame(buf: Seq<u8>, max: u32)
    ensures
        match parse_one(buf, max) {
            Step::Frame(f, n) => f.wf() && f.payload.len() <= max && n == FRAME_HEADER_LEN
                + f.payload.len() && n <= buf.len(),
            Step::Unknown(n) => FRAME_HEADER_LEN <= n <= buf.len(),
            Step::NeedMore(n) => n >= 1,
            Step::TooLarge => true,
        },
{
}

/// What stands at the front of a sequence does not depend on what follows
/// it: once the front holds a whole frame, or a header that is refused,
/// more input changes nothing.
pub proof fn lemma_parse_one_prefix(buf: Seq<u8>, more: Seq<u8>, max: u32)
    requires
        !(parse_one(buf, max) is NeedMore),
    ensures
        parse_one(buf + more, max) == parse_one(buf, max),
{
    let all = buf + more;
    assert(forall|i: int| 0 <= i < buf.len() ==> all[i] == buf[i]);
    let len = spec_length(buf);
    if len <= max {
        assert(all.subrange(FRAME_HEADER_LEN as int, FRAME_HEADER_LEN as int + len as int)
            =~= buf.subrange(FRAME_HEADER_LEN as int, FRAME_HEADER_LEN as int + len as int));
    }
}

/// While a frame is incomplete, the bytes that arrive count against what
/// is missing: with fewer than that the frame stays incomplete.
pub proof fn lemma_parse_one_need_more(buf: Seq<u8>, more: Seq<u8>, max: u32)
    requires
        parse_one(buf, max) is NeedMore,
        buf.len() >= FRAME_HEADER_LEN,
    ensures
        parse_one(buf, max)->NeedMore_0 > more.len() ==> parse_one(buf + more, max)
            == Step::NeedMore((parse_one(buf, max)->NeedMore_0 - more.len()) as nat),
        parse_one(buf, max)->NeedMore_0 <= more.len() ==> !(parse_one(buf + more, max)
            is NeedMore),
{
    let all = buf + more;
    assert(forall|i: int| 0 <= i < buf.len() ==> all[i] == buf[i]);
}

/// A number of 24 bits is the sum of its three bytes, each at its place.
pub proof fn lemma_split24(v: u32)
    by (bit_vector)
    requires
        v <= 0xff_ffff,
    ensures
        ((v / 65536) % 256) * 65536 + ((v / 256) % 256) * 256 + (v % 256) == v,
{
}

/// A number of 32 bits is the sum of its four bytes, each at its place;
/// the first byte of a number of 31 bits is below 128.
pub proof fn lemma_split32(v: u32)
    by (bit_vector)
    ensures
        ((v / 16777216) % 256) * 16777216 + ((v / 65536) % 256) * 65536 + ((v / 256) % 256) * 256
            + (v % 256) == v,
        v <= 0x7fff_ffff ==> ((v / 16777216) % 256) % 128 == (v / 16777216) % 256,
{
}

/// The header of a frame holds the payload's length and the stream
/// identifier as they were written.
pub proof fn lemma_header_fields(len: nat, code: u8, flags: u8, stream_id: u32)
    requires
        len <= MAX_PAYLOAD_LEN,
        stream_id <= MAX_STREAM_ID,
    ensures
        spec_length(spec_header(len, code, flags, stream_id)) == len,
        spec_stream_id(spec_header(len, code, flags, stream_id)) == stream_id,
        spec_header(len, code, flags, stream_id).len() == FRAME_HEADER_LEN,
        spec_header(len, code, flags, stream_id)[3] == code,
        spec_header(len, code, flags, stream_id)[4] == flags,
{
    let h = spec_header(len, code, flags, stream_id);
    let v = len as u32;
    lemma_split24(v);
    lemma_split32(stream_id);
    assert(h[0] == ((v / 65536) % 256) as u8);
    assert(h[1] == ((v / 256) % 256) as u8);
    assert(h[2] == (v % 256) as u8);
    assert(h[5] == ((stream_id / 16777216) % 256) as u8);
    assert(h[6] == ((stream_id / 65536) % 256) as u8);
    assert(h[7] == ((stream_id / 256) % 256) as u8);
    assert(h[8] == (stream_id % 256) as u8);
}

/// Encoding a frame and reading the bytes back gives the same frame in
/// every field, whatever bytes follow it, for every type and every payload
/// within the limit.
pub proof fn lemma_round_trip(f: FrameView, rest: Seq<u8>, max: u32)
    requires
        f.wf(),
        f.payload.len() <= max,
    ensures
        parse_one(spec_encode(f) + rest, max) == Step::Frame(
            f,
            FRAME_HEADER_LEN as nat + f.payload.len(),
        ),
{
    let len = f.payload.len();
    let h = spec_header(len, f.frame_type.spec_code(), f.flags, f.stream_id);
    let buf = spec_encode(f) + rest;
    lemma_header_fields(len, f.frame_type.spec_code(), f.flags, f.stream_id);
    assert(buf.len() == FRAME_HEADER_LEN + len + rest.len());
    assert(buf[0] == h[0] && buf[1] == h[1] && buf[2] == h[2] && buf[3] == h[3] && buf[4] == h[4]
        && buf[5] == h[5] && buf[6] == h[6] && buf[7] == h[7] && buf[8] == h[8]);
    assert(spec_length(buf) == spec_length(h));
    assert(spec_stream_id(buf) == spec_stream_id(h));
    FrameType::lemma_code_round_trip(f.frame_type);
    assert(buf.subrange(FRAME_HEADER_LEN as int, FRAME_HEADER_LEN as int + len as int)
        =~= f.payload);
}

} // verus!
