use http2_engine::error::ErrorCode;
use http2_engine::flow::{FlowWindow, DEFAULT_WINDOW, MAX_WINDOW};

#[test]
fn a_new_window_holds_its_initial_size() {
    assert_eq!(FlowWindow::default_window().credit(), 65535);
    assert_eq!(DEFAULT_WINDOW, 65535);
    assert_eq!(FlowWindow::new(0).unwrap().credit(), 0);
    assert_eq!(FlowWindow::new(MAX_WINDOW).unwrap().credit(), 2147483647);
    assert_eq!(FlowWindow::new(MAX_WINDOW + 1), Err(ErrorCode::FlowControlError));
}

#[test]
fn take_uses_credit_up_and_never_more_than_there_is() {
    let mut w = FlowWindow::new(100).unwrap();
    assert!(w.covers(100));
    assert!(!w.covers(101));
    assert!(w.take(60));
    assert_eq!(w.credit(), 40);
    assert!(!w.take(41));
    assert_eq!(w.credit(), 40);
    assert!(w.take(40));
    assert_eq!(w.credit(), 0);
    assert!(w.take(0));
    assert!(!w.take(1));
}

#[test]
fn grant_restores_credit() {
    let mut w = FlowWindow::new(10).unwrap();
    assert!(w.take(10));
    assert_eq!(w.grant(25), Ok(()));
    assert_eq!(w.credit(), 25);
    assert_eq!(w.initial(), 10);
}

#[test]
fn grant_of_zero_is_a_protocol_error() {
    let mut w = FlowWindow::default_window();
    assert_eq!(w.grant(0), Err(ErrorCode::ProtocolError));
    assert_eq!(w.credit(), 65535);
}

#[test]
fn grant_above_the_maximum_is_a_flow_control_error() {
    let mut w = FlowWindow::default_window();
    assert_eq!(w.grant(MAX_WINDOW - 65535), Ok(()));
    assert_eq!(w.credit(), 2147483647);
    assert_eq!(w.grant(1), Err(ErrorCode::FlowControlError));
    assert_eq!(w.credit(), 2147483647);
    let mut v = FlowWindow::default_window();
    assert_eq!(v.grant(MAX_WINDOW - 65534), Err(ErrorCode::FlowControlError));
    assert_eq!(v.credit(), 65535);
}

#[test]
fn a_smaller_initial_size_may_turn_the_window_negative() {
    let mut w = FlowWindow::new(1000).unwrap();
    assert!(w.take(900));
    assert_eq!(w.resize(500), Ok(()));
    assert_eq!(w.credit(), -400);
    assert!(!w.take(0));
    assert!(!w.covers(0));
    assert_eq!(w.grant(400), Ok(()));
    assert_eq!(w.credit(), 0);
    assert!(w.take(0));
    assert_eq!(w.resize(0), Ok(()));
    assert_eq!(w.credit(), -500);
    assert_eq!(w.resize(MAX_WINDOW), Ok(()));
    assert_eq!(w.credit(), 2147483147);
}

#[test]
fn a_larger_initial_size_must_not_pass_the_maximum() {
    let mut w = FlowWindow::new(10).unwrap();
    assert_eq!(w.grant(5), Ok(()));
    assert_eq!(w.resize(MAX_WINDOW - 4), Err(ErrorCode::FlowControlError));
    assert_eq!(w.credit(), 15);
    assert_eq!(w.initial(), 10);
    assert_eq!(w.resize(MAX_WINDOW - 5), Ok(()));
    assert_eq!(w.credit(), 2147483647);
    assert_eq!(w.resize(MAX_WINDOW + 1), Err(ErrorCode::FlowControlError));
}

#[test]
fn the_window_stays_within_the_maximum_through_a_series_of_steps() {
    let mut w = FlowWindow::default_window();
    let steps: [(u8, u32); 9] = [
        (1, 2_000_000_000),
        (1, 2_000_000_000),
        (0, 70_000),
        (2, MAX_WINDOW),
        (0, 2_000_065_535),
        (1, MAX_WINDOW),
        (2, 0),
        (1, 1),
        (0, 3),
    ];
    for (kind, n) in steps {
        match kind {
            0 => {
                let before = w.credit();
                let took = w.take(n);
                assert_eq!(took, n as i64 <= before);
            }
            1 => {
                let _ = w.grant(n);
            }
            _ => {
                let _ = w.resize(n);
            }
        }
        assert!(w.credit() <= MAX_WINDOW as i64);
    }
}
