use http2_engine::decoder::{next_block, Decoder};
use http2_engine::error::ErrorCode;
use http2_engine::frame::{Frame, FrameType, FLAG_END_HEADERS, FLAG_END_STREAM};

fn frame(frame_type: FrameType, flags: u8, stream_id: u32, payload: Vec<u8>) -> Frame {
    Frame::new(frame_type, flags, stream_id, payload).unwrap()
}

fn wire(frames: &[Frame]) -> Vec<u8> {
    let mut out = Vec::new();
    for f in frames {
        out.extend_from_slice(&f.encode());
    }
    out
}

fn sample() -> Vec<Frame> {
    vec![
        frame(FrameType::Settings, 0, 0, vec![0, 4, 0, 0, 255, 255]),
        frame(FrameType::Headers, 0, 1, vec![1, 2, 3]),
        frame(FrameType::Continuation, 0, 1, vec![4]),
        frame(FrameType::Continuation, FLAG_END_HEADERS, 1, vec![]),
        frame(FrameType::Data, FLAG_END_STREAM, 1, vec![9; 300]),
        frame(FrameType::Ping, 0, 0, vec![0; 8]),
    ]
}

fn same_frames(a: &[Frame], b: &[Frame]) -> bool {
    a.len() == b.len() && a.iter().zip(b.iter()).all(|(x, y)| x.same(y))
}

#[test]
fn one_chunk_gives_all_frames_in_order() {
    let frames = sample();
    let mut d = Decoder::new(16384);
    let (got, err) = d.feed(&wire(&frames));
    assert_eq!(err, None);
    assert!(same_frames(&got, &frames));
    assert_eq!(d.pending_len(), 0);
    assert_eq!(d.open_block(), None);
}

#[test]
fn any_split_in_two_gives_the_same_frames() {
    let frames = sample();
    let bytes = wire(&frames);
    for cut in 0..=bytes.len() {
        let mut d = Decoder::new(16384);
        let (mut got, e1) = d.feed(&bytes[..cut]);
        let (more, e2) = d.feed(&bytes[cut..]);
        got.extend(more);
        assert_eq!(e1, None);
        assert_eq!(e2, None);
        assert!(same_frames(&got, &frames), "cut at {}", cut);
        assert_eq!(d.pending_len(), 0);
    }
}

#[test]
fn byte_by_byte_gives_the_same_frames() {
    let frames = sample();
    let bytes = wire(&frames);
    let mut d = Decoder::new(16384);
    let mut got = Vec::new();
    for b in &bytes {
        let (more, err) = d.feed(&[*b]);
        assert_eq!(err, None);
        got.extend(more);
    }
    assert!(same_frames(&got, &frames));
}

#[test]
fn an_incomplete_frame_waits_for_its_rest() {
    let bytes = wire(&[frame(FrameType::Data, 0, 3, vec![1, 2, 3, 4, 5])]);
    let mut d = Decoder::new(16384);
    let (got, err) = d.feed(&bytes[..11]);
    assert!(got.is_empty());
    assert_eq!(err, None);
    assert_eq!(d.pending_len(), 11);
    assert_eq!(d.failed(), None);
    let (got, err) = d.feed(&bytes[11..]);
    assert_eq!(err, None);
    assert_eq!(got.len(), 1);
    assert_eq!(got[0].payload, vec![1, 2, 3, 4, 5]);
    assert_eq!(d.pending_len(), 0);
}

#[test]
fn a_frame_above_the_limit_stops_the_decoder_for_good() {
    let ok = frame(FrameType::Data, 0, 1, vec![0; 100]);
    let big = frame(FrameType::Data, 0, 1, vec![0; 101]);
    let mut d = Decoder::new(100);
    assert_eq!(d.max_frame_size(), 100);
    let (got, err) = d.feed(&wire(&[ok, big]));
    assert_eq!(got.len(), 1);
    assert_eq!(err, Some(ErrorCode::FrameSizeError));
    assert_eq!(d.failed(), Some(ErrorCode::FrameSizeError));
    assert_eq!(d.pending_len(), 0);
    let (got, err) = d.feed(&wire(&[frame(FrameType::Ping, 0, 0, vec![0; 8])]));
    assert!(got.is_empty());
    assert_eq!(err, Some(ErrorCode::FrameSizeError));
}

#[test]
fn a_frame_of_unknown_type_is_skipped() {
    let mut bytes = wire(&[frame(FrameType::Ping, 0, 0, vec![1; 8])]);
    bytes.extend_from_slice(&[0, 0, 3, 0xfa, 0xff, 0, 0, 0, 9, 7, 7, 7]);
    bytes.extend_from_slice(&wire(&[frame(FrameType::Data, 0, 5, vec![2])]));
    let mut d = Decoder::new(16384);
    let (got, err) = d.feed(&bytes);
    assert_eq!(err, None);
    assert_eq!(got.len(), 2);
    assert_eq!(got[0].frame_type, FrameType::Ping);
    assert_eq!(got[1].frame_type, FrameType::Data);
    assert_eq!(got[1].stream_id, 5);
}

#[test]
fn another_frame_inside_a_header_block_is_a_protocol_error() {
    let bytes = wire(&[
        frame(FrameType::Headers, 0, 1, vec![1]),
        frame(FrameType::Data, 0, 1, vec![2]),
    ]);
    let mut d = Decoder::new(16384);
    let (got, err) = d.feed(&bytes);
    assert_eq!(got.len(), 1);
    assert_eq!(err, Some(ErrorCode::ProtocolError));
}

#[test]
fn a_continuation_of_another_stream_is_a_protocol_error() {
    let bytes = wire(&[
        frame(FrameType::PushPromise, 0, 1, vec![0, 0, 0, 2]),
        frame(FrameType::Continuation, FLAG_END_HEADERS, 3, vec![]),
    ]);
    let mut d = Decoder::new(16384);
    let (got, err) = d.feed(&bytes);
    assert_eq!(got.len(), 1);
    assert_eq!(err, Some(ErrorCode::ProtocolError));
}

#[test]
fn an_unknown_frame_inside_a_header_block_is_a_protocol_error() {
    let mut bytes = wire(&[frame(FrameType::Headers, 0, 1, vec![1])]);
    bytes.extend_from_slice(&[0, 0, 0, 0x77, 0, 0, 0, 0, 1]);
    let mut d = Decoder::new(16384);
    let (got, err) = d.feed(&bytes);
    assert_eq!(got.len(), 1);
    assert_eq!(err, Some(ErrorCode::ProtocolError));
}

#[test]
fn a_continuation_without_a_header_block_is_a_protocol_error() {
    let bytes = wire(&[frame(FrameType::Continuation, FLAG_END_HEADERS, 1, vec![])]);
    let mut d = Decoder::new(16384);
    let (got, err) = d.feed(&bytes);
    assert!(got.is_empty());
    assert_eq!(err, Some(ErrorCode::ProtocolError));
}

#[test]
fn the_open_block_is_kept_between_chunks() {
    let mut d = Decoder::new(16384);
    let (got, err) = d.feed(&wire(&[frame(FrameType::Headers, FLAG_END_STREAM, 7, vec![1])]));
    assert_eq!(got.len(), 1);
    assert_eq!(err, None);
    assert_eq!(d.open_block(), Some(7));
    let (got, err) = d.feed(&wire(&[frame(FrameType::Continuation, FLAG_END_HEADERS, 7, vec![])]));
    assert_eq!(got.len(), 1);
    assert_eq!(err, None);
    assert_eq!(d.open_block(), None);
}

#[test]
fn next_block_follows_the_header_block() {
    let h = frame(FrameType::Headers, 0, 1, vec![]);
    let he = frame(FrameType::Headers, FLAG_END_HEADERS, 1, vec![]);
    let c = frame(FrameType::Continuation, 0, 1, vec![]);
    let ce = frame(FrameType::Continuation, FLAG_END_HEADERS, 1, vec![]);
    let data = frame(FrameType::Data, 0, 1, vec![]);
    assert_eq!(next_block(None, &h), Ok(Some(1)));
    assert_eq!(next_block(None, &he), Ok(None));
    assert_eq!(next_block(None, &data), Ok(None));
    assert_eq!(next_block(None, &c), Err(ErrorCode::ProtocolError));
    assert_eq!(next_block(Some(1), &c), Ok(Some(1)));
    assert_eq!(next_block(Some(1), &ce), Ok(None));
    assert_eq!(next_block(Some(3), &ce), Err(ErrorCode::ProtocolError));
    assert_eq!(next_block(Some(1), &data), Err(ErrorCode::ProtocolError));
    assert_eq!(next_block(Some(1), &h), Err(ErrorCode::ProtocolError));
}

#[test]
fn a_new_limit_is_applied_to_the_input_that_waits() {
    let bytes = wire(&[frame(FrameType::Data, 0, 1, vec![0; 200])]);
    let mut d = Decoder::new(16384);
    let (got, err) = d.feed(&bytes[..50]);
    assert!(got.is_empty());
    assert_eq!(err, None);
    let (got, err) = d.set_max_frame_size(300);
    assert!(got.is_empty());
    assert_eq!(err, None);
    assert_eq!(d.max_frame_size(), 300);
    assert_eq!(d.pending_len(), 50);
    let (got, err) = d.set_max_frame_size(199);
    assert!(got.is_empty());
    assert_eq!(err, Some(ErrorCode::FrameSizeError));
    assert_eq!(d.failed(), Some(ErrorCode::FrameSizeError));
    assert_eq!(d.pending_len(), 0);

    let mut d = Decoder::new(100);
    let (got, err) = d.set_max_frame_size(200);
    assert!(got.is_empty());
    assert_eq!(err, None);
    let (got, err) = d.feed(&bytes);
    assert_eq!(got.len(), 1);
    assert_eq!(err, None);
}

#[test]
fn every_frame_type_but_a_lone_continuation_comes_back_from_a_fresh_decoder() {
    let types = [
        FrameType::Data,
        FrameType::Headers,
        FrameType::Priority,
        FrameType::RstStream,
        FrameType::Settings,
        FrameType::PushPromise,
        FrameType::Ping,
        FrameType::GoAway,
        FrameType::WindowUpdate,
    ];
    for t in types {
        let f = frame(t, FLAG_END_HEADERS, 9, vec![1, 2, 3, 4, 5]);
        let mut d = Decoder::new(16384);
        let (got, err) = d.feed(&f.encode());
        assert_eq!(err, None);
        assert_eq!(got.len(), 1);
        assert!(got[0].same(&f));
        assert_eq!(d.pending_len(), 0);
    }
}
