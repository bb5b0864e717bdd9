use http2_engine::conn::Connection;
use http2_engine::model::{CloseReason, ConnEvent, ConnectionState};
use http2_engine::error::{ErrorCode, ProtoError};
use http2_engine::frame::{
    Frame, FrameType, FLAG_ACK, FLAG_END_HEADERS, FLAG_END_STREAM,
};
use http2_engine::state::{Role, StreamEvent, StreamState};
use http2_engine::stream::Http2Event;

fn frame(frame_type: FrameType, flags: u8, stream_id: u32, payload: Vec<u8>) -> Frame {
    Frame::new(frame_type, flags, stream_id, payload).unwrap()
}

fn headers(id: u32, end_stream: bool) -> Frame {
    let flags = if end_stream {
        FLAG_END_HEADERS | FLAG_END_STREAM
    } else {
        FLAG_END_HEADERS
    };
    frame(FrameType::Headers, flags, id, vec![0x82])
}

fn data(id: u32, len: usize, end_stream: bool) -> Frame {
    let flags = if end_stream { FLAG_END_STREAM } else { 0 };
    frame(FrameType::Data, flags, id, vec![7; len])
}

fn settings(entries: &[(u16, u32)]) -> Frame {
    let mut payload = Vec::new();
    for (key, value) in entries {
        payload.extend_from_slice(&key.to_be_bytes());
        payload.extend_from_slice(&value.to_be_bytes());
    }
    frame(FrameType::Settings, 0, 0, payload)
}

fn server() -> Connection {
    let mut c = Connection::new(Role::Server, 8);
    assert_eq!(c.handshake(StreamEvent::PrefaceRecv), Ok(ConnectionState::Awaiting));
    assert_eq!(c.handshake(StreamEvent::SettingsSend), Ok(ConnectionState::Open));
    c
}

fn client() -> Connection {
    let mut c = Connection::new(Role::Client, 8);
    assert_eq!(c.handshake(StreamEvent::PrefaceSend), Ok(ConnectionState::Awaiting));
    assert_eq!(c.recv_frame(&settings(&[])), vec![ConnEvent::SendSettingsAck]);
    assert_eq!(c.state(), ConnectionState::Open);
    c
}

fn goaway_and_close(last_id: u32, code: ErrorCode, open: &[u32]) -> Vec<ConnEvent> {
    let mut events = vec![ConnEvent::SendGoAway { last_id, code }];
    for id in open {
        events.push(ConnEvent::StreamClosed {
            id: *id,
            reason: CloseReason::Error(code),
        });
    }
    events.push(ConnEvent::ConnectionClosed { reason: code });
    events
}

#[test]
fn a_new_connection_has_default_windows_and_no_streams() {
    let c = Connection::new(Role::Server, 3);
    assert_eq!(c.role(), Role::Server);
    assert_eq!(c.state(), ConnectionState::Init);
    assert_eq!(c.stream_count(), 0);
    assert_eq!(c.tombstone_count(), 0);
    assert_eq!(c.send_credit(), 65535);
    assert_eq!(c.recv_credit(), 65535);
    assert_eq!(c.last_peer_id(), 0);
    assert_eq!(c.last_local_id(), 0);
}

#[test]
fn the_handshake_has_one_way_for_each_role() {
    let mut c = Connection::new(Role::Client, 0);
    assert_eq!(
        c.handshake(StreamEvent::PrefaceRecv),
        Err(ProtoError::ConnectionError(ErrorCode::ProtocolError))
    );
    assert_eq!(c.state(), ConnectionState::Init);
    assert_eq!(c.handshake(StreamEvent::PrefaceSend), Ok(ConnectionState::Awaiting));
    assert_eq!(
        c.handshake(StreamEvent::SettingsSend),
        Err(ProtoError::ConnectionError(ErrorCode::ProtocolError))
    );
    assert_eq!(c.handshake(StreamEvent::SettingsRecv), Ok(ConnectionState::Open));
    assert_eq!(
        c.handshake(StreamEvent::PrefaceSend),
        Err(ProtoError::ConnectionError(ErrorCode::ProtocolError))
    );
    let mut s = Connection::new(Role::Server, 0);
    assert_eq!(
        s.handshake(StreamEvent::SettingsSend),
        Err(ProtoError::ConnectionError(ErrorCode::ProtocolError))
    );
    assert_eq!(s.handshake(StreamEvent::PrefaceRecv), Ok(ConnectionState::Awaiting));
    assert_eq!(s.handshake(StreamEvent::SettingsSend), Ok(ConnectionState::Open));
}

#[test]
fn before_the_handshake_is_over_only_settings_are_taken() {
    let mut c = Connection::new(Role::Server, 8);
    assert_eq!(
        c.recv_frame(&settings(&[])),
        goaway_and_close(0, ErrorCode::ProtocolError, &[])
    );
    assert_eq!(c.state(), ConnectionState::Closed);

    let mut c = Connection::new(Role::Server, 8);
    assert_eq!(c.handshake(StreamEvent::PrefaceRecv), Ok(ConnectionState::Awaiting));
    assert_eq!(c.recv_frame(&settings(&[])), vec![ConnEvent::SendSettingsAck]);
    assert_eq!(c.state(), ConnectionState::Awaiting);
    assert_eq!(
        c.recv_frame(&headers(1, false)),
        goaway_and_close(0, ErrorCode::ProtocolError, &[])
    );
    assert_eq!(c.state(), ConnectionState::Closed);
}

#[test]
fn a_request_and_its_response_close_the_stream_once_on_the_server() {
    let mut c = server();
    assert_eq!(
        c.recv_frame(&headers(1, false)),
        vec![
            ConnEvent::StreamOpened { id: 1, initiator: Role::Client },
            ConnEvent::Headers { id: 1, end_stream: false, end_headers: true },
        ]
    );
    assert_eq!(c.stream_state(1), Some(StreamState::Open));
    assert_eq!(c.last_peer_id(), 1);
    assert_eq!(
        c.recv_frame(&data(1, 10, true)),
        vec![ConnEvent::Data { id: 1, len: 10, end_stream: true }]
    );
    assert_eq!(c.stream_state(1), Some(StreamState::HalfClosedRemote));
    assert_eq!(c.recv_credit(), 65525);
    assert_eq!(c.stream_recv_credit(1), Some(65525));

    let (bytes, closed) = c.send(1, Http2Event::Headers, &[0x88]).unwrap();
    assert_eq!(bytes, vec![0, 0, 1, 1, 4, 0, 0, 0, 1, 0x88]);
    assert_eq!(closed, None);
    assert_eq!(c.stream_state(1), Some(StreamState::HalfClosedRemote));
    let (bytes, closed) = c.send(1, Http2Event::EndStream, b"ok").unwrap();
    assert_eq!(bytes, vec![0, 0, 2, 0, 1, 0, 0, 0, 1, b'o', b'k']);
    assert_eq!(
        closed,
        Some(ConnEvent::StreamClosed { id: 1, reason: CloseReason::Normal })
    );
    assert_eq!(c.stream_state(1), None);
    assert_eq!(c.stream_count(), 0);
    assert_eq!(c.tombstone(1), Some(CloseReason::Normal));
    assert_eq!(c.send_credit(), 65533);
    assert_eq!(
        c.send(1, Http2Event::Data, b"late"),
        Err(ProtoError::StreamError(ErrorCode::StreamClosed))
    );
    assert_eq!(c.state(), ConnectionState::Open);
}

#[test]
fn a_request_and_its_response_close_the_stream_once_on_the_client() {
    let mut c = client();
    assert_eq!(c.open_stream(), Ok(1));
    assert_eq!(c.stream_state(1), Some(StreamState::Idle));
    assert_eq!(c.last_local_id(), 1);
    let (_, closed) = c.send(1, Http2Event::Headers, &[0x82]).unwrap();
    assert_eq!(closed, None);
    assert_eq!(c.stream_state(1), Some(StreamState::Open));
    let (_, closed) = c.send(1, Http2Event::EndStream, &[1, 2, 3]).unwrap();
    assert_eq!(closed, None);
    assert_eq!(c.stream_state(1), Some(StreamState::HalfClosedLocal));
    assert_eq!(
        c.recv_frame(&headers(1, false)),
        vec![ConnEvent::Headers { id: 1, end_stream: false, end_headers: true }]
    );
    assert_eq!(
        c.recv_frame(&data(1, 4, true)),
        vec![
            ConnEvent::Data { id: 1, len: 4, end_stream: true },
            ConnEvent::StreamClosed { id: 1, reason: CloseReason::Normal },
        ]
    );
    assert_eq!(c.stream_state(1), None);
    assert_eq!(c.tombstone(1), Some(CloseReason::Normal));
    assert_eq!(c.open_stream(), Ok(3));
}

#[test]
fn data_beyond_the_window_is_a_flow_control_error_of_the_connection() {
    let mut c = server();
    c.recv_frame(&headers(1, false));
    for _ in 0..3 {
        assert_eq!(
            c.recv_frame(&data(1, 16384, false)),
            vec![ConnEvent::Data { id: 1, len: 16384, end_stream: false }]
        );
    }
    assert_eq!(c.recv_credit(), 65535 - 49152);
    assert_eq!(
        c.recv_frame(&data(1, 16384, false)),
        goaway_and_close(1, ErrorCode::FlowControlError, &[1])
    );
    assert_eq!(c.state(), ConnectionState::Closed);
    assert_eq!(c.stream_count(), 0);
}

#[test]
fn the_last_byte_of_the_window_is_still_accepted() {
    let mut c = server();
    c.recv_frame(&headers(1, false));
    for _ in 0..3 {
        c.recv_frame(&data(1, 16384, false));
    }
    assert_eq!(
        c.recv_frame(&data(1, 16383, false)),
        vec![ConnEvent::Data { id: 1, len: 16383, end_stream: false }]
    );
    assert_eq!(c.recv_credit(), 0);
    assert_eq!(c.stream_recv_credit(1), Some(0));
    assert_eq!(
        c.recv_frame(&data(1, 1, false)),
        goaway_and_close(1, ErrorCode::FlowControlError, &[1])
    );
}

#[test]
fn sending_beyond_the_window_would_block() {
    let mut c = client();
    assert_eq!(c.open_stream(), Ok(1));
    c.send(1, Http2Event::Headers, &[]).unwrap();
    let chunk = vec![0u8; 16384];
    for _ in 0..3 {
        assert!(c.send(1, Http2Event::Data, &chunk).is_ok());
    }
    assert_eq!(c.send(1, Http2Event::Data, &chunk), Err(ProtoError::WouldBlock));
    assert_eq!(c.send_credit(), 16383);
    assert_eq!(c.stream_send_credit(1), Some(16383));
    assert_eq!(c.stream_state(1), Some(StreamState::Open));
    assert_eq!(
        c.recv_frame(&frame(FrameType::WindowUpdate, 0, 1, vec![0, 0, 0, 1])),
        vec![]
    );
    assert_eq!(c.send(1, Http2Event::Data, &chunk), Err(ProtoError::WouldBlock));
    assert_eq!(c.stream_send_credit(1), Some(16384));
    assert_eq!(
        c.recv_frame(&frame(FrameType::WindowUpdate, 0, 0, vec![0, 0, 0, 1])),
        vec![]
    );
    assert!(c.send(1, Http2Event::Data, &chunk).is_ok());
    assert_eq!(c.send_credit(), 0);
    assert_eq!(c.stream_send_credit(1), Some(0));
}

#[test]
fn a_reset_stream_is_known_as_closed_and_an_unknown_one_is_not() {
    let mut c = server();
    c.recv_frame(&headers(1, false));
    c.recv_frame(&headers(3, false));
    assert_eq!(c.stream_state(3), Some(StreamState::Open));
    assert_eq!(
        c.recv_frame(&frame(FrameType::RstStream, 0, 3, vec![0, 0, 0, 8])),
        vec![ConnEvent::StreamClosed {
            id: 3,
            reason: CloseReason::Reset(ErrorCode::Cancel)
        }]
    );
    assert_eq!(c.stream_state(3), None);
    assert_eq!(c.tombstone(3), Some(CloseReason::Reset(ErrorCode::Cancel)));
    assert_eq!(
        c.recv_frame(&data(3, 5, false)),
        vec![ConnEvent::SendRstStream { id: 3, code: ErrorCode::StreamClosed }]
    );
    assert_eq!(c.state(), ConnectionState::Open);
    assert_eq!(c.stream_state(1), Some(StreamState::Open));
    assert_eq!(
        c.recv_frame(&frame(FrameType::WindowUpdate, 0, 3, vec![0, 0, 0, 1])),
        vec![]
    );
    assert_eq!(
        c.recv_frame(&data(5, 5, false)),
        goaway_and_close(3, ErrorCode::ProtocolError, &[1])
    );
    assert_eq!(c.state(), ConnectionState::Closed);
}

#[test]
fn stream_identifiers_must_grow() {
    let mut c = server();
    c.recv_frame(&headers(5, false));
    assert_eq!(c.last_peer_id(), 5);
    assert_eq!(
        c.recv_frame(&headers(3, false)),
        goaway_and_close(5, ErrorCode::ProtocolError, &[5])
    );
    assert_eq!(c.state(), ConnectionState::Closed);
    assert_eq!(c.recv_frame(&headers(7, false)), vec![]);
}

#[test]
fn a_server_takes_no_stream_with_an_even_identifier() {
    let mut c = server();
    assert_eq!(
        c.recv_frame(&headers(2, false)),
        goaway_and_close(0, ErrorCode::ProtocolError, &[])
    );
}

#[test]
fn a_forgotten_stream_counts_as_stale() {
    let mut c = Connection::new(Role::Server, 1);
    c.handshake(StreamEvent::PrefaceRecv).unwrap();
    c.handshake(StreamEvent::SettingsSend).unwrap();
    c.recv_frame(&headers(1, false));
    c.recv_frame(&headers(3, false));
    c.recv_frame(&frame(FrameType::RstStream, 0, 1, vec![0, 0, 0, 0]));
    assert_eq!(c.tombstone(1), Some(CloseReason::Reset(ErrorCode::NoError)));
    c.recv_frame(&frame(FrameType::RstStream, 0, 3, vec![0, 0, 0, 2]));
    assert_eq!(c.tombstone_count(), 1);
    assert_eq!(c.tombstone(1), None);
    assert_eq!(c.tombstone(3), Some(CloseReason::Reset(ErrorCode::InternalError)));
    assert_eq!(
        c.recv_frame(&data(1, 1, false)),
        goaway_and_close(3, ErrorCode::ProtocolError, &[])
    );
}

#[test]
fn a_stream_error_resets_the_stream_and_spares_the_connection() {
    let mut c = server();
    c.recv_frame(&headers(1, true));
    assert_eq!(c.stream_state(1), Some(StreamState::HalfClosedRemote));
    assert_eq!(
        c.recv_frame(&data(1, 1, false)),
        vec![
            ConnEvent::SendRstStream { id: 1, code: ErrorCode::StreamClosed },
            ConnEvent::StreamClosed {
                id: 1,
                reason: CloseReason::Error(ErrorCode::StreamClosed)
            },
        ]
    );
    assert_eq!(c.state(), ConnectionState::Open);
    assert_eq!(c.tombstone(1), Some(CloseReason::Error(ErrorCode::StreamClosed)));
    assert_eq!(c.recv_credit(), 65535);
}

#[test]
fn connection_frames_on_a_stream_and_stream_frames_on_the_connection_fail() {
    let mut c = server();
    assert_eq!(
        c.recv_frame(&frame(FrameType::Ping, 0, 1, vec![0; 8])),
        goaway_and_close(0, ErrorCode::ProtocolError, &[])
    );
    let mut c = server();
    assert_eq!(
        c.recv_frame(&data(0, 1, false)),
        goaway_and_close(0, ErrorCode::ProtocolError, &[])
    );
}

#[test]
fn ping_is_answered_and_its_answer_is_not() {
    let mut c = server();
    assert_eq!(
        c.recv_frame(&frame(FrameType::Ping, 0, 0, vec![1; 8])),
        vec![ConnEvent::SendPingAck]
    );
    assert_eq!(c.recv_frame(&frame(FrameType::Ping, FLAG_ACK, 0, vec![1; 8])), vec![]);
    assert_eq!(
        c.recv_frame(&frame(FrameType::Ping, 0, 0, vec![1; 7])),
        goaway_and_close(0, ErrorCode::FrameSizeError, &[])
    );
}

#[test]
fn settings_move_the_send_window_of_every_stream() {
    let mut c = client();
    assert_eq!(c.open_stream(), Ok(1));
    assert_eq!(c.open_stream(), Ok(3));
    c.send(1, Http2Event::Headers, &[]).unwrap();
    c.send(1, Http2Event::Data, &[0; 100]).unwrap();
    assert_eq!(
        c.recv_frame(&settings(&[(4, 50), (5, 32768), (2, 0), (99, 1)])),
        vec![ConnEvent::SendSettingsAck]
    );
    assert_eq!(c.stream_send_credit(1), Some(-50));
    assert_eq!(c.stream_send_credit(3), Some(50));
    assert_eq!(c.send_credit(), 65435);
    assert_eq!(c.send(1, Http2Event::Data, &[]), Err(ProtoError::WouldBlock));
    assert_eq!(c.open_stream(), Ok(5));
    assert_eq!(c.stream_send_credit(5), Some(50));
    assert_eq!(c.peer_max_frame_size(), 32768);
    assert_eq!(c.recv_frame(&frame(FrameType::Settings, FLAG_ACK, 0, vec![])), vec![]);
}

#[test]
fn settings_that_break_the_rules_end_the_connection() {
    let cases: Vec<(Frame, ErrorCode)> = vec![
        (settings(&[(4, 0x8000_0000)]), ErrorCode::FlowControlError),
        (settings(&[(5, 16383)]), ErrorCode::ProtocolError),
        (settings(&[(5, 0x100_0000)]), ErrorCode::ProtocolError),
        (settings(&[(2, 2)]), ErrorCode::ProtocolError),
        (frame(FrameType::Settings, 0, 0, vec![0; 5]), ErrorCode::FrameSizeError),
        (frame(FrameType::Settings, FLAG_ACK, 0, vec![0; 6]), ErrorCode::FrameSizeError),
    ];
    for (f, code) in cases {
        let mut c = server();
        assert_eq!(c.recv_frame(&f), goaway_and_close(0, code, &[]));
        assert_eq!(c.state(), ConnectionState::Closed);
    }
}

#[test]
fn a_window_change_that_overflows_a_stream_changes_nothing() {
    let mut c = client();
    assert_eq!(c.open_stream(), Ok(1));
    assert_eq!(c.open_stream(), Ok(3));
    assert_eq!(c.grant(3, 10), Ok(()));
    assert_eq!(
        c.apply_initial_window_change(0x7fff_ffff - 9),
        Err(ProtoError::ConnectionError(ErrorCode::FlowControlError))
    );
    assert_eq!(c.stream_send_credit(1), Some(65535));
    assert_eq!(c.stream_send_credit(3), Some(65545));
    assert_eq!(c.apply_initial_window_change(0x7fff_ffff - 10), Ok(()));
    assert_eq!(c.stream_send_credit(1), Some(0x7fff_ffff - 10));
    assert_eq!(c.stream_send_credit(3), Some(0x7fff_ffff));
    assert_eq!(
        c.apply_initial_window_change(0x8000_0000),
        Err(ProtoError::ConnectionError(ErrorCode::FlowControlError))
    );
}

#[test]
fn reserve_send_takes_from_both_windows_or_from_neither() {
    let mut c = client();
    assert_eq!(c.open_stream(), Ok(1));
    assert_eq!(c.open_stream(), Ok(3));
    assert_eq!(c.reserve_send(1, 60000), Ok(()));
    assert_eq!(c.send_credit(), 5535);
    assert_eq!(c.stream_send_credit(1), Some(5535));
    assert_eq!(c.reserve_send(3, 5536), Err(ProtoError::WouldBlock));
    assert_eq!(c.send_credit(), 5535);
    assert_eq!(c.stream_send_credit(3), Some(65535));
    assert_eq!(c.reserve_send(1, 5536), Err(ProtoError::WouldBlock));
    assert_eq!(c.reserve_send(3, 5535), Ok(()));
    assert_eq!(c.send_credit(), 0);
    assert_eq!(c.stream_send_credit(3), Some(60000));
    assert_eq!(
        c.reserve_send(5, 1),
        Err(ProtoError::StreamError(ErrorCode::StreamClosed))
    );
}

#[test]
fn consume_recv_fails_beyond_the_window() {
    let mut c = server();
    c.recv_frame(&headers(1, false));
    assert_eq!(c.consume_recv(1, 65535), Ok(()));
    assert_eq!(c.recv_credit(), 0);
    assert_eq!(c.stream_recv_credit(1), Some(0));
    assert_eq!(
        c.consume_recv(1, 1),
        Err(ProtoError::ConnectionError(ErrorCode::FlowControlError))
    );
    assert_eq!(c.recv_credit(), 0);
    assert_eq!(
        c.consume_recv(3, 0),
        Err(ProtoError::StreamError(ErrorCode::StreamClosed))
    );
}

#[test]
fn grant_adds_to_a_stream_or_to_the_connection() {
    let mut c = client();
    assert_eq!(c.open_stream(), Ok(1));
    assert_eq!(c.grant(0, 100), Ok(()));
    assert_eq!(c.send_credit(), 65635);
    assert_eq!(c.grant(1, 7), Ok(()));
    assert_eq!(c.stream_send_credit(1), Some(65542));
    assert_eq!(
        c.grant(0, 0),
        Err(ProtoError::ConnectionError(ErrorCode::ProtocolError))
    );
    assert_eq!(c.grant(1, 0), Err(ProtoError::StreamError(ErrorCode::ProtocolError)));
    assert_eq!(
        c.grant(0, 0x7fff_ffff),
        Err(ProtoError::ConnectionError(ErrorCode::FlowControlError))
    );
    assert_eq!(
        c.grant(1, 0x7fff_ffff),
        Err(ProtoError::ConnectionError(ErrorCode::FlowControlError))
    );
    assert_eq!(c.grant(9, 1), Err(ProtoError::StreamError(ErrorCode::StreamClosed)));
    assert_eq!(c.send_credit(), 65635);
    assert_eq!(c.stream_send_credit(1), Some(65542));
}

#[test]
fn a_window_update_that_overflows_the_connection_window_ends_the_connection() {
    let mut c = server();
    assert_eq!(
        c.recv_frame(&frame(FrameType::WindowUpdate, 0, 0, vec![0x7f, 0xff, 0xff, 0xff])),
        goaway_and_close(0, ErrorCode::FlowControlError, &[])
    );
    let mut c = server();
    assert_eq!(
        c.recv_frame(&frame(FrameType::WindowUpdate, 0, 0, vec![0, 0, 0, 0])),
        goaway_and_close(0, ErrorCode::ProtocolError, &[])
    );
}

#[test]
fn going_away_lets_open_streams_finish_and_refuses_new_ones() {
    let mut c = server();
    c.recv_frame(&headers(1, false));
    assert_eq!(
        c.recv_frame(&frame(FrameType::GoAway, 0, 0, vec![0, 0, 0, 0, 0, 0, 0, 0])),
        vec![]
    );
    assert_eq!(c.state(), ConnectionState::GoingAway);
    assert_eq!(
        c.recv_frame(&headers(3, false)),
        vec![ConnEvent::SendRstStream { id: 3, code: ErrorCode::RefusedStream }]
    );
    assert_eq!(c.stream_state(3), None);
    assert_eq!(
        c.recv_frame(&data(1, 3, true)),
        vec![ConnEvent::Data { id: 1, len: 3, end_stream: true }]
    );
    let (_, closed) = c.send(1, Http2Event::EndStream, &[]).unwrap();
    assert_eq!(
        closed,
        Some(ConnEvent::StreamClosed { id: 1, reason: CloseReason::Normal })
    );
    assert_eq!(
        c.recv_frame(&frame(FrameType::GoAway, 0, 0, vec![0, 0, 0, 0, 0, 0, 0, 0xb])),
        vec![ConnEvent::ConnectionClosed { reason: ErrorCode::EnhanceYourCalm }]
    );
    assert_eq!(c.state(), ConnectionState::Closed);
}

#[test]
fn sending_go_away_twice_closes_the_connection() {
    let mut c = client();
    assert_eq!(c.open_stream(), Ok(1));
    let (bytes, events) = c.go_away(ErrorCode::NoError);
    assert_eq!(bytes, Some(vec![0, 0, 8, 7, 0, 0, 0, 0, 0, 0, 0, 0, 0, 0, 0, 0, 0]));
    assert_eq!(events, vec![]);
    assert_eq!(c.state(), ConnectionState::GoingAway);
    assert_eq!(
        c.open_stream(),
        Err(ProtoError::StreamError(ErrorCode::RefusedStream))
    );
    let (bytes, events) = c.go_away(ErrorCode::Cancel);
    assert_eq!(bytes, Some(vec![0, 0, 8, 7, 0, 0, 0, 0, 0, 0, 0, 0, 0, 0, 0, 0, 8]));
    assert_eq!(
        events,
        vec![
            ConnEvent::StreamClosed { id: 1, reason: CloseReason::Error(ErrorCode::Cancel) },
            ConnEvent::ConnectionClosed { reason: ErrorCode::Cancel },
        ]
    );
    assert_eq!(c.state(), ConnectionState::Closed);
    assert_eq!(c.go_away(ErrorCode::NoError), (None, vec![]));
}

#[test]
fn abort_resets_every_stream_before_the_connection_closes() {
    let mut c = server();
    c.recv_frame(&headers(1, false));
    c.recv_frame(&headers(3, true));
    c.recv_frame(&headers(5, false));
    assert_eq!(
        c.abort(ErrorCode::InternalError),
        vec![
            ConnEvent::StreamClosed { id: 1, reason: CloseReason::Error(ErrorCode::InternalError) },
            ConnEvent::StreamClosed { id: 3, reason: CloseReason::Error(ErrorCode::InternalError) },
            ConnEvent::StreamClosed { id: 5, reason: CloseReason::Error(ErrorCode::InternalError) },
            ConnEvent::ConnectionClosed { reason: ErrorCode::InternalError },
        ]
    );
    assert_eq!(c.state(), ConnectionState::Closed);
    assert_eq!(c.stream_count(), 0);
    assert_eq!(c.abort(ErrorCode::InternalError), vec![]);
    assert_eq!(
        c.send(1, Http2Event::Data, &[]),
        Err(ProtoError::StreamError(ErrorCode::RefusedStream))
    );
}

#[test]
fn reset_stream_closes_a_live_stream() {
    let mut c = client();
    assert_eq!(c.open_stream(), Ok(1));
    assert_eq!(
        c.reset_stream(1, ErrorCode::Cancel),
        Err(ProtoError::StreamError(ErrorCode::ProtocolError))
    );
    c.send(1, Http2Event::Headers, &[]).unwrap();
    assert_eq!(
        c.reset_stream(1, ErrorCode::Cancel),
        Ok((
            vec![0, 0, 4, 3, 0, 0, 0, 0, 1, 0, 0, 0, 8],
            ConnEvent::StreamClosed { id: 1, reason: CloseReason::Error(ErrorCode::Cancel) }
        ))
    );
    assert_eq!(c.tombstone(1), Some(CloseReason::Error(ErrorCode::Cancel)));
    assert_eq!(
        c.reset_stream(1, ErrorCode::Cancel),
        Err(ProtoError::StreamError(ErrorCode::StreamClosed))
    );
    assert_eq!(
        c.recv_frame(&headers(1, false)),
        vec![ConnEvent::SendRstStream { id: 1, code: ErrorCode::StreamClosed }]
    );
}

#[test]
fn a_promise_reserves_a_stream_on_both_ends() {
    let mut s = server();
    s.recv_frame(&headers(1, false));
    let (id, bytes) = s.promise(1, &[0x82]).unwrap();
    assert_eq!(id, 2);
    assert_eq!(bytes, vec![0, 0, 5, 5, 4, 0, 0, 0, 1, 0, 0, 0, 2, 0x82]);
    assert_eq!(s.stream_state(2), Some(StreamState::ReservedLocal));
    assert_eq!(s.last_local_id(), 2);
    let (_, closed) = s.send(2, Http2Event::Headers, &[0x88]).unwrap();
    assert_eq!(closed, None);
    assert_eq!(s.stream_state(2), Some(StreamState::HalfClosedRemote));
    assert_eq!(s.promise(1, &[]).map(|r| r.0), Ok(4));

    let mut c = client();
    assert_eq!(c.open_stream(), Ok(1));
    c.send(1, Http2Event::Headers, &[]).unwrap();
    assert_eq!(
        c.recv_frame(&frame(FrameType::PushPromise, FLAG_END_HEADERS, 1, vec![0, 0, 0, 2, 0x82])),
        vec![ConnEvent::StreamOpened { id: 2, initiator: Role::Server }]
    );
    assert_eq!(c.stream_state(2), Some(StreamState::ReservedRemote));
    assert_eq!(c.last_peer_id(), 2);
    assert_eq!(
        c.recv_frame(&headers(2, false)),
        vec![ConnEvent::Headers { id: 2, end_stream: false, end_headers: true }]
    );
    assert_eq!(c.stream_state(2), Some(StreamState::HalfClosedLocal));
    assert_eq!(
        c.recv_frame(&data(2, 1, true)),
        vec![
            ConnEvent::Data { id: 2, len: 1, end_stream: true },
            ConnEvent::StreamClosed { id: 2, reason: CloseReason::Normal },
        ]
    );
}

#[test]
fn a_promise_with_a_stale_or_odd_identifier_ends_the_connection() {
    for promised in [vec![0u8, 0, 0, 3], vec![0, 0, 0, 0], vec![0, 0, 0]] {
        let mut c = client();
        assert_eq!(c.open_stream(), Ok(1));
        c.send(1, Http2Event::Headers, &[]).unwrap();
        let code = if promised.len() < 4 {
            ErrorCode::FrameSizeError
        } else {
            ErrorCode::ProtocolError
        };
        assert_eq!(
            c.recv_frame(&frame(FrameType::PushPromise, FLAG_END_HEADERS, 1, promised)),
            goaway_and_close(0, code, &[1])
        );
    }
}

#[test]
fn promise_and_open_stream_are_each_for_one_role() {
    let mut s = server();
    s.recv_frame(&headers(1, false));
    assert_eq!(
        s.open_stream(),
        Err(ProtoError::StreamError(ErrorCode::ProtocolError))
    );
    assert_eq!(
        s.promise(3, &[]),
        Err(ProtoError::StreamError(ErrorCode::StreamClosed))
    );
    assert_eq!(
        s.promise(1, &vec![0; 16381]),
        Err(ProtoError::StreamError(ErrorCode::FrameSizeError))
    );
    assert!(s.promise(1, &vec![0; 16380]).is_ok());
    let mut c = client();
    assert_eq!(c.open_stream(), Ok(1));
    assert_eq!(
        c.promise(1, &[]),
        Err(ProtoError::StreamError(ErrorCode::ProtocolError))
    );
    assert_eq!(
        c.send(1, Http2Event::PushPromise, &[]),
        Err(ProtoError::StreamError(ErrorCode::ProtocolError))
    );
    assert_eq!(
        c.send(1, Http2Event::Headers, &vec![0; 16385]),
        Err(ProtoError::StreamError(ErrorCode::FrameSizeError))
    );
}

#[test]
fn priority_may_come_before_the_stream_is_opened() {
    let mut c = server();
    assert_eq!(
        c.recv_frame(&frame(FrameType::Priority, 0, 1, vec![0, 0, 0, 0, 1])),
        vec![]
    );
    assert_eq!(c.stream_count(), 0);
    assert_eq!(c.last_peer_id(), 0);
    assert_eq!(
        c.recv_frame(&headers(1, false)),
        vec![
            ConnEvent::StreamOpened { id: 1, initiator: Role::Client },
            ConnEvent::Headers { id: 1, end_stream: false, end_headers: true },
        ]
    );
}

#[test]
fn replenish_restores_receive_credit_and_makes_the_window_update() {
    let mut c = server();
    c.recv_frame(&headers(1, false));
    c.recv_frame(&data(1, 1000, false));
    assert_eq!(c.recv_credit(), 64535);
    assert_eq!(
        c.replenish(0, 1000),
        Ok(vec![0, 0, 4, 8, 0, 0, 0, 0, 0, 0, 0, 3, 0xe8])
    );
    assert_eq!(c.recv_credit(), 65535);
    assert_eq!(
        c.replenish(1, 500),
        Ok(vec![0, 0, 4, 8, 0, 0, 0, 0, 1, 0, 0, 1, 0xf4])
    );
    assert_eq!(c.stream_recv_credit(1), Some(65035));
    assert_eq!(
        c.replenish(0, 0),
        Err(ProtoError::ConnectionError(ErrorCode::ProtocolError))
    );
    assert_eq!(
        c.replenish(1, 0),
        Err(ProtoError::StreamError(ErrorCode::ProtocolError))
    );
    assert_eq!(
        c.replenish(1, 0x7fff_ffff),
        Err(ProtoError::ConnectionError(ErrorCode::FlowControlError))
    );
    assert_eq!(
        c.replenish(3, 1),
        Err(ProtoError::StreamError(ErrorCode::StreamClosed))
    );
    assert_eq!(c.recv_credit(), 65535);
    assert_eq!(c.stream_recv_credit(1), Some(65035));
}

#[test]
fn the_peers_frame_size_bounds_what_is_sent() {
    let mut c = client();
    assert_eq!(c.peer_max_frame_size(), 16384);
    assert_eq!(c.open_stream(), Ok(1));
    c.send(1, Http2Event::Headers, &[]).unwrap();
    assert_eq!(
        c.send(1, Http2Event::Data, &vec![0; 16385]),
        Err(ProtoError::StreamError(ErrorCode::FrameSizeError))
    );
    assert_eq!(c.recv_frame(&settings(&[(5, 20000)])), vec![ConnEvent::SendSettingsAck]);
    assert_eq!(c.peer_max_frame_size(), 20000);
    let (bytes, _) = c.send(1, Http2Event::Data, &vec![0; 20000]).unwrap();
    assert_eq!(bytes.len(), 20009);
    assert_eq!(&bytes[..3], &[0, 0x4e, 0x20]);
    assert_eq!(c.send_credit(), 45535);
    assert_eq!(
        c.send(1, Http2Event::Data, &vec![0; 20001]),
        Err(ProtoError::StreamError(ErrorCode::FrameSizeError))
    );
    assert_eq!(c.recv_frame(&settings(&[(5, 16384)])), vec![ConnEvent::SendSettingsAck]);
    assert_eq!(
        c.send(1, Http2Event::Data, &vec![0; 16385]),
        Err(ProtoError::StreamError(ErrorCode::FrameSizeError))
    );
}

#[test]
fn a_header_block_in_parts_reaches_the_application_part_by_part() {
    let mut c = server();
    assert_eq!(
        c.recv_frame(&frame(FrameType::Headers, 0, 1, vec![1])),
        vec![
            ConnEvent::StreamOpened { id: 1, initiator: Role::Client },
            ConnEvent::Headers { id: 1, end_stream: false, end_headers: false },
        ]
    );
    assert_eq!(
        c.recv_frame(&frame(FrameType::Continuation, 0, 1, vec![2])),
        vec![ConnEvent::Continuation { id: 1, end_headers: false }]
    );
    assert_eq!(
        c.recv_frame(&frame(FrameType::Continuation, FLAG_END_HEADERS, 1, vec![3])),
        vec![ConnEvent::Continuation { id: 1, end_headers: true }]
    );
    assert_eq!(
        c.recv_frame(&frame(FrameType::Continuation, FLAG_END_HEADERS, 1, vec![3])),
        vec![]
    );
    assert_eq!(c.stream_state(1), Some(StreamState::Open));
}

#[test]
fn the_rest_of_a_header_block_that_closed_its_stream_is_still_handed_on() {
    let mut c = client();
    assert_eq!(c.open_stream(), Ok(1));
    c.send(1, Http2Event::Headers, &[]).unwrap();
    c.send(1, Http2Event::EndStream, &[]).unwrap();
    assert_eq!(
        c.recv_frame(&frame(FrameType::Headers, FLAG_END_STREAM, 1, vec![1])),
        vec![
            ConnEvent::Headers { id: 1, end_stream: true, end_headers: false },
            ConnEvent::StreamClosed { id: 1, reason: CloseReason::Normal },
        ]
    );
    assert_eq!(c.stream_state(1), None);
    assert_eq!(
        c.recv_frame(&frame(FrameType::Continuation, FLAG_END_HEADERS, 1, vec![2])),
        vec![ConnEvent::Continuation { id: 1, end_headers: true }]
    );
    assert_eq!(
        c.recv_frame(&frame(FrameType::Continuation, FLAG_END_HEADERS, 1, vec![2])),
        vec![ConnEvent::SendRstStream { id: 1, code: ErrorCode::StreamClosed }]
    );
    assert_eq!(c.state(), ConnectionState::Open);
}

#[test]
fn the_rest_of_a_promise_is_handed_on_under_the_stream_it_came_on() {
    let mut c = client();
    assert_eq!(c.open_stream(), Ok(1));
    c.send(1, Http2Event::Headers, &[]).unwrap();
    assert_eq!(
        c.recv_frame(&frame(FrameType::PushPromise, 0, 1, vec![0, 0, 0, 2, 0x82])),
        vec![ConnEvent::StreamOpened { id: 2, initiator: Role::Server }]
    );
    assert_eq!(
        c.recv_frame(&frame(FrameType::Continuation, FLAG_END_HEADERS, 1, vec![0x84])),
        vec![ConnEvent::Continuation { id: 1, end_headers: true }]
    );
}

#[test]
fn one_closed_stream_is_remembered_even_where_none_is_asked_for() {
    let mut c = Connection::new(Role::Server, 0);
    c.handshake(StreamEvent::PrefaceRecv).unwrap();
    c.handshake(StreamEvent::SettingsSend).unwrap();
    c.recv_frame(&headers(1, false));
    c.recv_frame(&frame(FrameType::RstStream, 0, 1, vec![0, 0, 0, 8]));
    assert_eq!(c.tombstone_count(), 1);
    assert_eq!(c.tombstone(1), Some(CloseReason::Reset(ErrorCode::Cancel)));
    assert_eq!(
        c.recv_frame(&data(1, 1, false)),
        vec![ConnEvent::SendRstStream { id: 1, code: ErrorCode::StreamClosed }]
    );
    assert_eq!(c.state(), ConnectionState::Open);
}

#[test]
fn a_connection_error_found_by_this_end_fails_the_connection() {
    let mut c = server();
    c.recv_frame(&headers(1, false));
    c.recv_frame(&headers(3, false));
    assert_eq!(
        c.connection_error(ErrorCode::FrameSizeError),
        goaway_and_close(3, ErrorCode::FrameSizeError, &[1, 3])
    );
    assert_eq!(c.state(), ConnectionState::Closed);
    assert_eq!(c.stream_count(), 0);
    assert_eq!(c.connection_error(ErrorCode::FrameSizeError), vec![]);
}

#[test]
fn a_server_answers_a_request_with_headers_on_the_half_closed_stream() {
    let mut c = server();
    c.recv_frame(&headers(1, true));
    assert_eq!(c.stream_state(1), Some(StreamState::HalfClosedRemote));
    assert!(c.send(1, Http2Event::Headers, &[0x88]).is_ok());
    assert_eq!(c.stream_state(1), Some(StreamState::HalfClosedRemote));
    assert_eq!(
        c.recv_frame(&headers(1, false)),
        vec![
            ConnEvent::SendRstStream { id: 1, code: ErrorCode::StreamClosed },
            ConnEvent::StreamClosed {
                id: 1,
                reason: CloseReason::Error(ErrorCode::StreamClosed)
            },
        ]
    );
}

#[test]
fn a_new_initial_size_of_this_end_moves_every_receive_window() {
    let mut c = server();
    c.recv_frame(&headers(1, false));
    c.recv_frame(&headers(3, false));
    c.recv_frame(&data(1, 100, false));
    assert_eq!(c.apply_local_window_change(50), Ok(()));
    assert_eq!(c.stream_recv_credit(1), Some(-50));
    assert_eq!(c.stream_recv_credit(3), Some(50));
    assert_eq!(c.recv_credit(), 65435);
    c.recv_frame(&headers(5, false));
    assert_eq!(c.stream_recv_credit(5), Some(50));
    assert_eq!(c.replenish(3, 10), Ok(vec![0, 0, 4, 8, 0, 0, 0, 0, 3, 0, 0, 0, 10]));
    assert_eq!(
        c.apply_local_window_change(0x7fff_ffff - 9),
        Err(ProtoError::ConnectionError(ErrorCode::FlowControlError))
    );
    assert_eq!(c.stream_recv_credit(3), Some(60));
    assert_eq!(c.apply_local_window_change(0x7fff_ffff - 10), Ok(()));
    assert_eq!(c.stream_recv_credit(3), Some(0x7fff_ffff));
    assert_eq!(c.stream_recv_credit(1), Some(0x7fff_ffff - 110));
    assert_eq!(
        c.recv_frame(&data(1, 51, false)),
        vec![ConnEvent::Data { id: 1, len: 51, end_stream: false }]
    );
}
