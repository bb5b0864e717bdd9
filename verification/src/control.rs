//! The connection preface, and the frames that an endpoint sends for the
//! connection's own sake: RST_STREAM, GOAWAY, SETTINGS, PING and
//! WINDOW_UPDATE.

use crate::error::ErrorCode;
use crate::flow::MAX_WINDOW;
use crate::frame::{
    encode_parts, spec_be32_bytes, spec_encode, put_be32, FrameType, FrameView, FLAG_ACK,
    MAX_STREAM_ID,
};
use vstd::prelude::*;

verus! {

/// The length of the client's connection preface.
pub const PREFACE_LEN: usize = 24;

/// The client's connection preface: `PRI * HTTP/2.0\r\n\r\nSM\r\n\r\n`.
pub open spec fn spec_preface() -> Seq<u8> {
    seq![
        0x50u8, 0x52, 0x49, 0x20, 0x2a, 0x20, 0x48, 0x54, 0x54, 0x50, 0x2f, 0x32, 0x2e, 0x30, 0x0d,
        0x0a, 0x0d, 0x0a, 0x53, 0x4d, 0x0d, 0x0a, 0x0d, 0x0a,
    ]
}

/// The client's connection preface.
pub fn preface() -> (r: Vec<u8>)
    ensures
        r@ == spec_preface(),
{
    let r = vec![
        0x50u8, 0x52, 0x49, 0x20, 0x2a, 0x20, 0x48, 0x54, 0x54, 0x50, 0x2f, 0x32, 0x2e, 0x30, 0x0d,
        0x0a, 0x0d, 0x0a, 0x53, 0x4d, 0x0d, 0x0a, 0x0d, 0x0a,
    ];
    assert(r@ =~= spec_preface());
    r
}

/// How the start of the input compares with the preface.
#[derive(Clone, Copy, Debug, PartialEq, Eq, Structural)]
pub enum PrefaceCheck {
    /// The input is the start of the preface; so many bytes are missing.
    NeedMore(usize),
    /// The input starts with the whole preface.
    Complete,
    /// The input differs from the preface.
    Mismatch,
}

/// Compares the start of `buf` with the preface. The answer is `Mismatch`
/// as soon as one byte differs, even before the rest has arrived.
pub open spec fn spec_check_preface(buf: Seq<u8>) -> PrefaceCheck {
    if exists|i: int| 0 <= i < buf.len() && i < PREFACE_LEN && buf[i] != spec_preface()[i] {
        PrefaceCheck::Mismatch
    } else if buf.len() >= PREFACE_LEN {
        PrefaceCheck::Complete
    } else {
        PrefaceCheck::NeedMore((PREFACE_LEN - buf.len()) as usize)
    }
}

/// Compares the start of `buf` with the preface.
pub fn check_preface(buf: &[u8]) -> (r: PrefaceCheck)
    ensures
        r == spec_check_preface(buf@),
        r == PrefaceCheck::Complete <==> buf@.len() >= PREFACE_LEN && buf@.subrange(
            0,
            PREFACE_LEN as int,
        ) == spec_preface(),
{
    let p = preface();
    let n = if buf.len() < PREFACE_LEN {
        buf.len()
    } else {
        PREFACE_LEN
    };
    let mut i: usize = 0;
    while i < n
        invariant
            0 <= i <= n,
            n <= PREFACE_LEN,
            n <= buf@.len(),
            n == buf@.len() || n == PREFACE_LEN,
            p@ == spec_preface(),
            forall|k: int| 0 <= k < i ==> buf@[k] == spec_preface()[k],
        decreases n - i,
    {
        if buf[i] != p[i] {
            assert(buf@.len() >= PREFACE_LEN ==> buf@.subrange(0, PREFACE_LEN as int)[i as int]
                != spec_preface()[i as int]);
            return PrefaceCheck::Mismatch;
        }
        i = i + 1;
    }
    if buf.len() >= PREFACE_LEN {
        assert(buf@.subrange(0, PREFACE_LEN as int) =~= spec_preface());
        PrefaceCheck::Complete
    } else {
        PrefaceCheck::NeedMore(PREFACE_LEN - buf.len())
    }
}

/// The bytes of a RST_STREAM frame.
pub open spec fn spec_rst_stream(id: u32, code: ErrorCode) -> Seq<u8> {
    spec_encode(
        FrameView {
            frame_type: FrameType::RstStream,
            flags: 0,
            stream_id: id,
            payload: spec_be32_bytes(code.spec_code()),
        },
    )
}

/// The bytes of a GOAWAY frame without debug data.
pub open spec fn spec_go_away(last_id: u32, code: ErrorCode) -> Seq<u8> {
    spec_encode(
        FrameView {
            frame_type: FrameType::GoAway,
            flags: 0,
            stream_id: 0,
            payload: spec_be32_bytes(last_id) + spec_be32_bytes(code.spec_code()),
        },
    )
}

/// The bytes of a WINDOW_UPDATE frame.
pub open spec fn spec_window_update(id: u32, increment: u32) -> Seq<u8> {
    spec_encode(
        FrameView {
            frame_type: FrameType::WindowUpdate,
            flags: 0,
            stream_id: id,
            payload: spec_be32_bytes(increment),
        },
    )
}

/// The bytes of the frame that acknowledges the peer's SETTINGS.
pub open spec fn spec_settings_ack() -> Seq<u8> {
    spec_encode(
        FrameView {
            frame_type: FrameType::Settings,
            flags: FLAG_ACK,
            stream_id: 0,
            payload: Seq::empty(),
        },
    )
}

/// The bytes of the frame that answers a PING with its payload.
pub open spec fn spec_ping_ack(payload: Seq<u8>) -> Seq<u8> {
    spec_encode(
        FrameView { frame_type: FrameType::Ping, flags: FLAG_ACK, stream_id: 0, payload },
    )
}

/// A RST_STREAM frame for the stream `id`, or `None` where `id` is 0 or
/// needs more than 31 bits.
pub fn rst_stream_frame(id: u32, code: ErrorCode) -> (r: Option<Vec<u8>>)
    ensures
        r.is_some() == (1 <= id <= MAX_STREAM_ID),
        r.is_some() ==> r.unwrap()@ == spec_rst_stream(id, code),
{
    if id < 1 || id > MAX_STREAM_ID {
        return None;
    }
    let mut payload: Vec<u8> = Vec::new();
    put_be32(&mut payload, code.code());
    assert(payload@ =~= spec_be32_bytes(code.spec_code()));
    Some(encode_parts(FrameType::RstStream, 0, id, payload.as_slice()))
}

/// A GOAWAY frame, or `None` where `last_id` needs more than 31 bits.
pub fn go_away_frame(last_id: u32, code: ErrorCode) -> (r: Option<Vec<u8>>)
    ensures
        r.is_some() == (last_id <= MAX_STREAM_ID),
        r.is_some() ==> r.unwrap()@ == spec_go_away(last_id, code),
{
    if last_id > MAX_STREAM_ID {
        return None;
    }
    let mut payload: Vec<u8> = Vec::new();
    put_be32(&mut payload, last_id);
    put_be32(&mut payload, code.code());
    assert(payload@ =~= spec_be32_bytes(last_id) + spec_be32_bytes(code.spec_code()));
    Some(encode_parts(FrameType::GoAway, 0, 0, payload.as_slice()))
}

/// A WINDOW_UPDATE frame for the stream `id`, or for the connection where
/// `id` is 0; `None` where the identifier needs more than 31 bits or the
/// increment is 0 or above the largest window.
pub fn window_update_frame(id: u32, increment: u32) -> (r: Option<Vec<u8>>)
    ensures
        r.is_some() == (id <= MAX_STREAM_ID && 1 <= increment <= MAX_WINDOW),
        r.is_some() ==> r.unwrap()@ == spec_window_update(id, increment),
{
    if id > MAX_STREAM_ID || increment < 1 || increment > MAX_WINDOW {
        return None;
    }
    let mut payload: Vec<u8> = Vec::new();
    put_be32(&mut payload, increment);
    assert(payload@ =~= spec_be32_bytes(increment));
    Some(encode_parts(FrameType::WindowUpdate, 0, id, payload.as_slice()))
}

/// The frame that acknowledges the peer's SETTINGS.
pub fn settings_ack_frame() -> (r: Vec<u8>)
    ensures
        r@ == spec_settings_ack(),
{
    let payload: Vec<u8> = Vec::new();
    assert(payload@ =~= Seq::<u8>::empty());
    encode_parts(FrameType::Settings, FLAG_ACK, 0, payload.as_slice())
}

/// The frame that answers a PING, or `None` where the payload is not of
/// eight bytes.
pub fn ping_ack_frame(payload: &[u8]) -> (r: Option<Vec<u8>>)
    ensures
        r.is_some() == (payload@.len() == 8),
        r.is_some() ==> r.unwrap()@ == spec_ping_ack(payload@),
{
    if payload.len() != 8 {
        return None;
    }
    Some(encode_parts(FrameType::Ping, FLAG_ACK, 0, payload))
}

} // verus!
