use http2_engine::error::{ErrorCode, ProtoError};
use http2_engine::frame::{Frame, FrameType, FLAG_END_HEADERS, FLAG_END_STREAM};
use http2_engine::state::{Role, StreamEvent, StreamState};
use http2_engine::stream::{step, Http2Event, Stream};

fn wire(frame_type: FrameType, flags: u8, stream_id: u32, payload: Vec<u8>) -> Vec<u8> {
    Frame::new(frame_type, flags, stream_id, payload).unwrap().encode()
}

#[test]
fn new_client_is_idle_with_default_windows() {
    let s = Stream::new_client().unwrap();
    assert_eq!(s.id(), 1);
    assert_eq!(s.role(), Role::Client);
    assert_eq!(s.state(), StreamState::Idle);
    assert_eq!(s.send_credit(), 65535);
    assert_eq!(s.recv_credit(), 65535);
    assert_eq!(s.pending_len(), 0);
    assert_eq!(s.queued_len(), 0);
}

#[test]
fn new_server_is_idle_with_default_windows() {
    let s = Stream::new_server().unwrap();
    assert_eq!(s.id(), 1);
    assert_eq!(s.role(), Role::Server);
    assert_eq!(s.state(), StreamState::Idle);
    assert_eq!(s.send_credit(), 65535);
    assert_eq!(s.recv_credit(), 65535);
}

#[test]
fn with_id_refuses_what_is_out_of_range() {
    assert!(Stream::with_id(Role::Client, 0, 1, 1, 16384).is_none());
    assert!(Stream::with_id(Role::Client, 0x8000_0000, 1, 1, 16384).is_none());
    assert!(Stream::with_id(Role::Client, 1, 0x8000_0000, 1, 16384).is_none());
    assert!(Stream::with_id(Role::Client, 1, 1, 0x8000_0000, 16384).is_none());
    assert!(Stream::with_id(Role::Client, 1, 1, 1, 0x100_0000).is_none());
    let s = Stream::with_id(Role::Server, 7, 10, 20, 100).unwrap();
    assert_eq!(s.id(), 7);
    assert_eq!(s.send_credit(), 10);
    assert_eq!(s.recv_credit(), 20);
}

#[test]
fn parse_reports_how_many_bytes_are_missing() {
    let bytes = wire(FrameType::Data, 0, 1, vec![1, 2, 3, 4]);
    let mut s = Stream::new_server().unwrap();
    assert_eq!(s.parse(&[]), Err(ProtoError::ParseIncomplete(9)));
    assert_eq!(s.parse(&bytes[..5]), Err(ProtoError::ParseIncomplete(4)));
    assert_eq!(s.pending_len(), 5);
    assert_eq!(s.parse(&bytes[5..10]), Err(ProtoError::ParseIncomplete(3)));
    assert_eq!(s.pending_len(), 10);
    assert_eq!(s.state(), StreamState::Idle);
}

#[test]
fn parse_applies_a_request_to_a_server_stream() {
    let mut s = Stream::new_server().unwrap();
    let headers = wire(FrameType::Headers, FLAG_END_HEADERS, 1, vec![0x82]);
    assert_eq!(s.parse(&headers), Ok(Http2Event::Headers));
    assert_eq!(s.state(), StreamState::Open);
    let data = wire(FrameType::Data, 0, 1, vec![0; 1000]);
    assert_eq!(s.parse(&data[..500]), Err(ProtoError::ParseIncomplete(509)));
    assert_eq!(s.parse(&data[500..]), Ok(Http2Event::Data));
    assert_eq!(s.recv_credit(), 64535);
    assert_eq!(s.state(), StreamState::Open);
    let last = wire(FrameType::Data, FLAG_END_STREAM, 1, vec![0; 35]);
    assert_eq!(s.parse(&last), Ok(Http2Event::EndStream));
    assert_eq!(s.recv_credit(), 64500);
    assert_eq!(s.state(), StreamState::HalfClosedRemote);
    assert_eq!(s.pending_len(), 0);
}

#[test]
fn parse_takes_one_frame_at_a_time() {
    let mut s = Stream::new_server().unwrap();
    let mut bytes = wire(FrameType::Headers, FLAG_END_HEADERS, 1, vec![]);
    bytes.extend_from_slice(&wire(FrameType::Data, FLAG_END_STREAM, 1, vec![5]));
    assert_eq!(s.parse(&bytes), Ok(Http2Event::Headers));
    assert_eq!(s.pending_len(), 10);
    assert_eq!(s.parse(&[]), Ok(Http2Event::EndStream));
    assert_eq!(s.pending_len(), 0);
    assert_eq!(s.parse(&[]), Err(ProtoError::ParseIncomplete(9)));
}

#[test]
fn parse_classifies_frames_that_arrive_in_the_wrong_state() {
    let mut idle = Stream::new_server().unwrap();
    assert_eq!(
        idle.parse(&wire(FrameType::Data, 0, 1, vec![1])),
        Err(ProtoError::ConnectionError(ErrorCode::ProtocolError))
    );
    assert_eq!(idle.state(), StreamState::Idle);
    assert_eq!(idle.recv_credit(), 65535);

    let mut s = Stream::new_server().unwrap();
    assert_eq!(
        s.parse(&wire(FrameType::Headers, FLAG_END_HEADERS | FLAG_END_STREAM, 1, vec![])),
        Ok(Http2Event::EndStream)
    );
    assert_eq!(s.state(), StreamState::HalfClosedRemote);
    assert_eq!(
        s.parse(&wire(FrameType::Data, 0, 1, vec![1])),
        Err(ProtoError::StreamError(ErrorCode::StreamClosed))
    );
    assert_eq!(s.state(), StreamState::HalfClosedRemote);
}

#[test]
fn parse_refuses_data_beyond_the_receive_window() {
    let mut s = Stream::with_id(Role::Server, 1, 65535, 10, 16384).unwrap();
    assert_eq!(
        s.parse(&wire(FrameType::Headers, FLAG_END_HEADERS, 1, vec![])),
        Ok(Http2Event::Headers)
    );
    assert_eq!(s.parse(&wire(FrameType::Data, 0, 1, vec![0; 10])), Ok(Http2Event::Data));
    assert_eq!(s.recv_credit(), 0);
    assert_eq!(
        s.parse(&wire(FrameType::Data, 0, 1, vec![0; 1])),
        Err(ProtoError::ConnectionError(ErrorCode::FlowControlError))
    );
    assert_eq!(s.recv_credit(), 0);
    assert_eq!(s.state(), StreamState::Open);
    assert_eq!(s.parse(&wire(FrameType::Data, 0, 1, vec![])), Ok(Http2Event::Data));
}

#[test]
fn parse_refuses_a_frame_above_the_frame_size() {
    let mut s = Stream::with_id(Role::Server, 1, 65535, 65535, 8).unwrap();
    let bytes = wire(FrameType::Headers, FLAG_END_HEADERS, 1, vec![0; 9]);
    assert_eq!(
        s.parse(&bytes[..9]),
        Err(ProtoError::ConnectionError(ErrorCode::FrameSizeError))
    );
    assert_eq!(s.state(), StreamState::Idle);
}

#[test]
fn parse_handles_reset_window_update_and_priority() {
    let mut s = Stream::new_client().unwrap();
    assert_eq!(s.apply(StreamEvent::HeaderSend), Ok(StreamState::Open));
    assert_eq!(
        s.parse(&wire(FrameType::WindowUpdate, 0, 1, vec![0, 0, 1, 0])),
        Ok(Http2Event::Idle)
    );
    assert_eq!(s.send_credit(), 65535 + 256);
    assert_eq!(
        s.parse(&wire(FrameType::WindowUpdate, 0, 1, vec![0, 0, 0, 0])),
        Err(ProtoError::StreamError(ErrorCode::ProtocolError))
    );
    assert_eq!(
        s.parse(&wire(FrameType::WindowUpdate, 0, 1, vec![0x7f, 0xff, 0xff, 0xff])),
        Err(ProtoError::ConnectionError(ErrorCode::FlowControlError))
    );
    assert_eq!(
        s.parse(&wire(FrameType::WindowUpdate, 0, 1, vec![0, 0, 1])),
        Err(ProtoError::ConnectionError(ErrorCode::FrameSizeError))
    );
    assert_eq!(s.send_credit(), 65535 + 256);
    assert_eq!(
        s.parse(&wire(FrameType::Priority, 0, 1, vec![0, 0, 0, 0, 16])),
        Ok(Http2Event::Idle)
    );
    assert_eq!(
        s.parse(&wire(FrameType::Priority, 0, 1, vec![0, 0, 0, 0])),
        Err(ProtoError::StreamError(ErrorCode::FrameSizeError))
    );
    assert_eq!(
        s.parse(&wire(FrameType::RstStream, 0, 1, vec![0, 0, 0])),
        Err(ProtoError::ConnectionError(ErrorCode::FrameSizeError))
    );
    assert_eq!(
        s.parse(&wire(FrameType::RstStream, 0, 1, vec![0, 0, 0, 8])),
        Ok(Http2Event::EndStream)
    );
    assert_eq!(s.state(), StreamState::Closed);
    assert_eq!(
        s.parse(&wire(FrameType::Data, 0, 1, vec![])),
        Err(ProtoError::StreamError(ErrorCode::StreamClosed))
    );
}

#[test]
fn parse_passes_over_frames_for_others() {
    let mut s = Stream::new_client().unwrap();
    assert_eq!(
        s.parse(&wire(FrameType::Settings, 0, 0, vec![])),
        Ok(Http2Event::Settings)
    );
    assert_eq!(s.parse(&wire(FrameType::Ping, 0, 0, vec![0; 8])), Ok(Http2Event::Idle));
    assert_eq!(s.parse(&wire(FrameType::Data, 0, 3, vec![1, 2])), Ok(Http2Event::Idle));
    assert_eq!(s.parse(&[0, 0, 1, 0x50, 0, 0, 0, 0, 1, 9]), Ok(Http2Event::Idle));
    assert_eq!(s.state(), StreamState::Idle);
    assert_eq!(s.recv_credit(), 65535);
    assert_eq!(s.pending_len(), 0);
    assert_eq!(
        s.parse(&wire(FrameType::Ping, 0, 1, vec![0; 8])),
        Err(ProtoError::ConnectionError(ErrorCode::ProtocolError))
    );
}

#[test]
fn parse_accepts_a_push_promise_on_a_client_stream_only() {
    let mut c = Stream::new_client().unwrap();
    let pp = wire(FrameType::PushPromise, FLAG_END_HEADERS, 1, vec![0, 0, 0, 2]);
    assert_eq!(
        c.parse(&pp),
        Err(ProtoError::ConnectionError(ErrorCode::ProtocolError))
    );
    assert_eq!(c.apply(StreamEvent::HeaderSend), Ok(StreamState::Open));
    assert_eq!(c.parse(&pp), Ok(Http2Event::PushPromise));
    assert_eq!(c.state(), StreamState::Open);
    let mut s = Stream::new_server().unwrap();
    assert_eq!(s.apply(StreamEvent::HeaderRecv), Ok(StreamState::Open));
    assert_eq!(
        s.parse(&pp),
        Err(ProtoError::ConnectionError(ErrorCode::ProtocolError))
    );
    assert_eq!(
        s.parse(&wire(FrameType::Continuation, FLAG_END_HEADERS, 1, vec![])),
        Err(ProtoError::ConnectionError(ErrorCode::ProtocolError))
    );
}

#[test]
fn create_frames_the_queued_payloads_in_order() {
    let mut s = Stream::new_client().unwrap();
    assert!(s.queue(vec![0x82, 0x84]));
    assert!(s.queue(vec![b'h', b'i']));
    assert_eq!(s.queued_len(), 2);
    assert_eq!(
        s.create(Http2Event::Headers),
        Ok((vec![0, 0, 2, 1, 4, 0, 0, 0, 1, 0x82, 0x84], Http2Event::Headers))
    );
    assert_eq!(s.state(), StreamState::Open);
    assert_eq!(
        s.create(Http2Event::EndStream),
        Ok((vec![0, 0, 2, 0, 1, 0, 0, 0, 1, b'h', b'i'], Http2Event::EndStream))
    );
    assert_eq!(s.state(), StreamState::HalfClosedLocal);
    assert_eq!(s.send_credit(), 65533);
    assert_eq!(s.queued_len(), 0);
    assert_eq!(
        s.create(Http2Event::Data),
        Err(ProtoError::StreamError(ErrorCode::StreamClosed))
    );
}

#[test]
fn create_without_a_payload_makes_an_empty_frame() {
    let mut s = Stream::new_client().unwrap();
    assert_eq!(
        s.create(Http2Event::Headers),
        Ok((vec![0, 0, 0, 1, 4, 0, 0, 0, 1], Http2Event::Headers))
    );
    assert_eq!(
        s.create(Http2Event::Data),
        Ok((vec![0, 0, 0, 0, 0, 0, 0, 0, 1], Http2Event::Data))
    );
    assert_eq!(s.send_credit(), 65535);
}

#[test]
fn create_blocks_when_the_window_is_too_small_and_keeps_the_payload() {
    let mut s = Stream::with_id(Role::Client, 3, 4, 65535, 16384).unwrap();
    assert_eq!(s.apply(StreamEvent::HeaderSend), Ok(StreamState::Open));
    assert!(s.queue(vec![1, 2, 3, 4, 5]));
    assert_eq!(s.create(Http2Event::Data), Err(ProtoError::WouldBlock));
    assert_eq!(s.queued_len(), 1);
    assert_eq!(s.send_credit(), 4);
    assert_eq!(s.state(), StreamState::Open);
    assert_eq!(s.create(Http2Event::EndStream), Err(ProtoError::WouldBlock));
    assert_eq!(s.state(), StreamState::Open);
    assert_eq!(s.grant_send(1), Ok(()));
    assert_eq!(
        s.create(Http2Event::Data),
        Ok((vec![0, 0, 5, 0, 0, 0, 0, 0, 3, 1, 2, 3, 4, 5], Http2Event::Data))
    );
    assert_eq!(s.send_credit(), 0);
    assert_eq!(s.queued_len(), 0);
}

#[test]
fn create_refuses_what_the_state_does_not_allow() {
    let mut s = Stream::new_client().unwrap();
    assert!(s.queue(vec![1]));
    assert_eq!(
        s.create(Http2Event::Data),
        Err(ProtoError::StreamError(ErrorCode::ProtocolError))
    );
    assert_eq!(
        s.create(Http2Event::PushPromise),
        Err(ProtoError::StreamError(ErrorCode::ProtocolError))
    );
    for e in [
        Http2Event::Settings,
        Http2Event::Continuation,
        Http2Event::Preface,
        Http2Event::Idle,
    ] {
        assert_eq!(
            s.create(e),
            Err(ProtoError::StreamError(ErrorCode::ProtocolError))
        );
    }
    assert_eq!(s.queued_len(), 1);
    assert_eq!(s.state(), StreamState::Idle);
}

#[test]
fn create_makes_a_push_promise_on_a_server_stream() {
    let mut s = Stream::new_server().unwrap();
    assert_eq!(s.apply(StreamEvent::HeaderRecv), Ok(StreamState::Open));
    assert!(s.queue(vec![0, 0, 0, 2, 0x82]));
    assert_eq!(
        s.create(Http2Event::PushPromise),
        Ok((
            vec![0, 0, 5, 5, 4, 0, 0, 0, 1, 0, 0, 0, 2, 0x82],
            Http2Event::PushPromise
        ))
    );
    assert_eq!(s.state(), StreamState::Open);
}

#[test]
fn queue_refuses_a_payload_above_the_frame_size() {
    let mut s = Stream::with_id(Role::Client, 1, 100, 100, 4).unwrap();
    assert!(!s.queue(vec![0; 5]));
    assert_eq!(s.queued_len(), 0);
    assert!(s.queue(vec![0; 4]));
    assert_eq!(s.queued_len(), 1);
}

#[test]
fn what_one_end_creates_the_other_end_parses() {
    let mut client = Stream::new_client().unwrap();
    let mut server = Stream::new_server().unwrap();
    assert!(client.queue(vec![1, 2, 3]));
    assert!(client.queue(vec![4; 100]));
    let (h, _) = client.create(Http2Event::Headers).unwrap();
    let (d, _) = client.create(Http2Event::EndStream).unwrap();
    assert_eq!(server.parse(&h), Ok(Http2Event::Headers));
    assert_eq!(server.parse(&d), Ok(Http2Event::EndStream));
    assert_eq!(server.state(), StreamState::HalfClosedRemote);
    assert_eq!(client.state(), StreamState::HalfClosedLocal);
    assert_eq!(client.send_credit(), server.recv_credit());
    assert!(server.queue(vec![9]));
    let (h, _) = server.create(Http2Event::Headers).unwrap();
    let (d, _) = server.create(Http2Event::EndStream).unwrap();
    assert_eq!(client.parse(&h), Ok(Http2Event::Headers));
    assert_eq!(client.parse(&d), Ok(Http2Event::EndStream));
    assert_eq!(server.state(), StreamState::Closed);
    assert_eq!(client.state(), StreamState::Closed);
}

#[test]
fn window_operations_on_a_stream() {
    let mut s = Stream::with_id(Role::Client, 1, 100, 50, 16384).unwrap();
    assert!(s.covers_send(100));
    assert!(!s.covers_send(101));
    assert!(s.take_send(30));
    assert!(!s.take_send(71));
    assert_eq!(s.send_credit(), 70);
    assert!(s.take_recv(50));
    assert!(!s.take_recv(1));
    assert_eq!(s.grant_recv(10), Ok(()));
    assert_eq!(s.recv_credit(), 10);
    assert_eq!(s.grant_recv(0), Err(ErrorCode::ProtocolError));
    assert!(s.can_resize_send(0x7fff_ffff));
    assert_eq!(s.resize_send(10), Ok(()));
    assert_eq!(s.send_credit(), -20);
    assert_eq!(s.grant_send(0x7fff_ffff), Ok(()));
    assert!(!s.can_resize_send(31));
    assert_eq!(s.resize_send(31), Err(ErrorCode::FlowControlError));
    assert_eq!(s.resize_send(30), Ok(()));
    assert_eq!(s.send_credit(), 0x7fff_ffff);
}

#[test]
fn a_header_block_admits_nothing_but_its_continuation() {
    let mut s = Stream::new_server().unwrap();
    assert_eq!(s.parse(&wire(FrameType::Headers, 0, 1, vec![1])), Ok(Http2Event::Headers));
    assert_eq!(s.open_block(), Some(1));
    assert_eq!(s.state(), StreamState::Open);
    assert_eq!(
        s.parse(&wire(FrameType::Data, 0, 1, vec![2])),
        Err(ProtoError::ConnectionError(ErrorCode::ProtocolError))
    );
    assert_eq!(s.open_block(), Some(1));
    assert_eq!(s.pending_len(), 0);
    assert_eq!(s.recv_credit(), 65535);
    assert_eq!(
        s.parse(&wire(FrameType::Ping, 0, 0, vec![0; 8])),
        Err(ProtoError::ConnectionError(ErrorCode::ProtocolError))
    );
    assert_eq!(
        s.parse(&wire(FrameType::Continuation, FLAG_END_HEADERS, 3, vec![])),
        Err(ProtoError::ConnectionError(ErrorCode::ProtocolError))
    );
    assert_eq!(
        s.parse(&[0, 0, 0, 0x77, 0, 0, 0, 0, 1]),
        Err(ProtoError::ConnectionError(ErrorCode::ProtocolError))
    );
    assert_eq!(
        s.parse(&wire(FrameType::Continuation, 0, 1, vec![3])),
        Ok(Http2Event::Continuation)
    );
    assert_eq!(s.open_block(), Some(1));
    assert_eq!(
        s.parse(&wire(FrameType::Continuation, FLAG_END_HEADERS, 1, vec![4])),
        Ok(Http2Event::Continuation)
    );
    assert_eq!(s.open_block(), None);
    assert_eq!(s.parse(&wire(FrameType::Data, 0, 1, vec![2])), Ok(Http2Event::Data));
    assert_eq!(s.recv_credit(), 65534);
}

#[test]
fn a_header_block_of_another_stream_is_watched_too() {
    let mut s = Stream::new_server().unwrap();
    assert_eq!(s.parse(&wire(FrameType::Headers, 0, 5, vec![1])), Ok(Http2Event::Idle));
    assert_eq!(s.open_block(), Some(5));
    assert_eq!(
        s.parse(&wire(FrameType::Headers, FLAG_END_HEADERS, 1, vec![])),
        Err(ProtoError::ConnectionError(ErrorCode::ProtocolError))
    );
    assert_eq!(s.state(), StreamState::Idle);
    assert_eq!(
        s.parse(&wire(FrameType::Continuation, FLAG_END_HEADERS, 5, vec![])),
        Ok(Http2Event::Idle)
    );
    assert_eq!(s.open_block(), None);
    assert_eq!(
        s.parse(&wire(FrameType::Headers, FLAG_END_HEADERS, 1, vec![])),
        Ok(Http2Event::Headers)
    );
}

#[test]
fn a_stream_takes_headers_where_the_table_has_no_row() {
    for role in [Role::Client, Role::Server] {
        assert_eq!(
            step(role, StreamState::ReservedLocal, StreamEvent::HeaderSend),
            Some(StreamState::HalfClosedRemote)
        );
        assert_eq!(
            step(role, StreamState::ReservedRemote, StreamEvent::HeaderRecv),
            Some(StreamState::HalfClosedLocal)
        );
        assert_eq!(
            step(role, StreamState::Open, StreamEvent::HeaderSend),
            Some(StreamState::Open)
        );
        assert_eq!(
            step(role, StreamState::Open, StreamEvent::HeaderRecv),
            Some(StreamState::Open)
        );
        assert_eq!(
            step(role, StreamState::HalfClosedRemote, StreamEvent::HeaderSend),
            Some(StreamState::HalfClosedRemote)
        );
        assert_eq!(
            step(role, StreamState::HalfClosedLocal, StreamEvent::HeaderRecv),
            Some(StreamState::HalfClosedLocal)
        );
        assert_eq!(step(role, StreamState::HalfClosedLocal, StreamEvent::HeaderSend), None);
        assert_eq!(step(role, StreamState::HalfClosedRemote, StreamEvent::HeaderRecv), None);
        assert_eq!(step(role, StreamState::ReservedLocal, StreamEvent::HeaderRecv), None);
        assert_eq!(step(role, StreamState::ReservedRemote, StreamEvent::HeaderSend), None);
        assert_eq!(step(role, StreamState::Closed, StreamEvent::HeaderRecv), None);
        assert_eq!(step(role, StreamState::Idle, StreamEvent::HeaderRecv), Some(StreamState::Open));
        assert_eq!(step(role, StreamState::Idle, StreamEvent::DataRecv), None);
        assert_eq!(
            step(role, StreamState::Open, StreamEvent::EndStreamRecv),
            Some(StreamState::HalfClosedRemote)
        );
    }
}

fn request_bytes() -> Vec<u8> {
    let mut bytes = wire(FrameType::Settings, 0, 0, vec![]);
    bytes.extend_from_slice(&wire(FrameType::Headers, 0, 1, vec![1, 2]));
    bytes.extend_from_slice(&wire(FrameType::Continuation, FLAG_END_HEADERS, 1, vec![3]));
    bytes.extend_from_slice(&[0, 0, 2, 0x60, 0, 0, 0, 0, 1, 9, 9]);
    bytes.extend_from_slice(&wire(FrameType::Data, 0, 1, vec![7; 40]));
    bytes.extend_from_slice(&wire(FrameType::Priority, 0, 1, vec![0; 4]));
    bytes.extend_from_slice(&wire(FrameType::Data, FLAG_END_STREAM, 1, vec![8; 5]));
    bytes
}

#[test]
fn parse_all_gives_every_result_of_a_chunk() {
    let mut s = Stream::new_server().unwrap();
    assert_eq!(
        s.parse_all(&request_bytes()),
        vec![
            Ok(Http2Event::Settings),
            Ok(Http2Event::Headers),
            Ok(Http2Event::Continuation),
            Ok(Http2Event::Idle),
            Ok(Http2Event::Data),
            Err(ProtoError::StreamError(ErrorCode::FrameSizeError)),
            Ok(Http2Event::EndStream),
        ]
    );
    assert_eq!(s.state(), StreamState::HalfClosedRemote);
    assert_eq!(s.recv_credit(), 65490);
    assert_eq!(s.pending_len(), 0);
    assert_eq!(s.parse_all(&[]), vec![]);
}

#[test]
fn parse_all_gives_the_same_however_the_input_is_cut() {
    let bytes = request_bytes();
    let mut whole = Stream::new_server().unwrap();
    let expected = whole.parse_all(&bytes);
    for cut in 0..=bytes.len() {
        for cut2 in [cut, (cut + 7).min(bytes.len()), bytes.len()] {
            let mut s = Stream::new_server().unwrap();
            let mut got = s.parse_all(&bytes[..cut]);
            got.extend(s.parse_all(&bytes[cut..cut2]));
            got.extend(s.parse_all(&bytes[cut2..]));
            assert_eq!(got, expected, "cut at {} and {}", cut, cut2);
            assert_eq!(s.state(), whole.state());
            assert_eq!(s.recv_credit(), whole.recv_credit());
            assert_eq!(s.pending_len(), 0);
            assert_eq!(s.open_block(), None);
        }
    }
}

#[test]
fn parse_all_stops_at_the_result_that_ends_the_connection() {
    let mut bytes = wire(FrameType::Headers, FLAG_END_HEADERS, 1, vec![]);
    bytes.extend_from_slice(&wire(FrameType::Ping, 0, 1, vec![0; 8]));
    bytes.extend_from_slice(&wire(FrameType::Data, 0, 1, vec![1]));
    let mut s = Stream::new_server().unwrap();
    assert_eq!(
        s.parse_all(&bytes),
        vec![
            Ok(Http2Event::Headers),
            Err(ProtoError::ConnectionError(ErrorCode::ProtocolError)),
        ]
    );
    assert_eq!(s.pending_len(), 10);
    let mut t = Stream::new_server().unwrap();
    let mut got = t.parse_all(&bytes[..12]);
    got.extend(t.parse_all(&bytes[12..30]));
    assert_eq!(
        got,
        vec![
            Ok(Http2Event::Headers),
            Err(ProtoError::ConnectionError(ErrorCode::ProtocolError)),
        ]
    );
}
