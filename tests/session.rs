use ws::session::{Event, Frame, FrameKind, Next, Outbound, Output, Phase, Session, Step, LINGER_SECS};

fn step(output: Option<Output>, send: Option<Outbound>, next: Next) -> Step {
    Step { output, send, next }
}

#[test]
fn ping_gets_exactly_one_pong() {
    let mut s = Session::new();
    let r = s.on_frame(&Frame::Ping(vec![1, 2, 3]));
    assert_eq!(r, step(None, Some(Outbound::Pong(vec![1, 2, 3])), Next::ReadNext));
    assert_eq!(s.phase(), Phase::Open);
}

#[test]
fn close_frame_ends_receiving_then_own_close() {
    let mut s = Session::new();
    let r = s.on_frame(&Frame::Close);
    assert_eq!(r, step(None, None, Next::Linger));
    assert_eq!(s.phase(), Phase::Lingering { close_owed: true });
    let later = s.on_frame(&Frame::Ping(vec![9]));
    assert_eq!(later, step(None, None, Next::Linger));
    let end = s.on_linger_elapsed();
    assert_eq!(end, step(None, Some(Outbound::Close), Next::Finish));
    assert_eq!(s.phase(), Phase::Closed);
    assert_eq!(LINGER_SECS, 10);
}

#[test]
fn utf8_binary_is_shown_and_echoed() {
    let mut s = Session::new();
    let r = s.on_frame(&Frame::Binary(b"hello".to_vec()));
    assert_eq!(
        r,
        step(
            Some(Output::BinaryText("hello".to_string())),
            Some(Outbound::Text("hello".to_string())),
            Next::ReadNext
        )
    );
}

#[test]
fn multibyte_binary_is_decoded() {
    let mut s = Session::new();
    let r = s.on_frame(&Frame::Binary(vec![0xc3, 0xa9]));
    assert_eq!(r.output, Some(Output::BinaryText("é".to_string())));
}

#[test]
fn invalid_binary_reports_and_continues() {
    let mut s = Session::new();
    let r = s.on_frame(&Frame::Binary(vec![0xff, 0xfe, 0x41]));
    assert_eq!(r, step(Some(Output::DecodeFailed), None, Next::ReadNext));
    assert_eq!(s.phase(), Phase::Open);
    let next = s.on_frame(&Frame::Text("after".to_string()));
    assert_eq!(next, step(Some(Output::Text("after".to_string())), None, Next::ReadNext));
}

#[test]
fn text_frame_is_shown_without_reply() {
    let mut s = Session::new();
    let r = s.on_frame(&Frame::Text("ok".to_string()));
    assert_eq!(r, step(Some(Output::Text("ok".to_string())), None, Next::ReadNext));
}

#[test]
fn pong_and_raw_frames_are_ignored() {
    let mut s = Session::new();
    assert_eq!(
        s.on_frame(&Frame::Pong(vec![1])),
        step(Some(Output::Unhandled(FrameKind::Pong)), None, Next::ReadNext)
    );
    assert_eq!(s.on_frame(&Frame::Raw), step(Some(Output::Unhandled(FrameKind::Raw)), None, Next::ReadNext));
    assert_eq!(s.phase(), Phase::Open);
}

#[test]
fn closing_session_sends_nothing() {
    let mut s = Session::new();
    assert!(!s.is_closing());
    s.begin_closing();
    assert!(s.is_closing());
    assert_eq!(s.phase(), Phase::Draining);
    let r = s.on_frame(&Frame::Ping(vec![7]));
    assert_eq!(r, step(None, None, Next::Linger));
    assert_eq!(s.on_frame(&Frame::Binary(b"hello".to_vec())), step(None, None, Next::Linger));
    let end = s.on_linger_elapsed();
    assert_eq!(end, step(None, None, Next::Finish));
    assert!(s.is_closing());
}

#[test]
fn closing_during_linger_skips_own_close() {
    let mut s = Session::new();
    s.on_stream_end();
    assert_eq!(s.phase(), Phase::Lingering { close_owed: true });
    s.begin_closing();
    assert_eq!(s.on_linger_elapsed().send, None);
}

#[test]
fn stream_end_lingers_then_closes() {
    let mut s = Session::new();
    assert_eq!(s.on_stream_end(), step(None, None, Next::Linger));
    assert_eq!(s.on_linger_elapsed(), step(None, Some(Outbound::Close), Next::Finish));
    assert_eq!(s.on_stream_end(), step(None, None, Next::Finish));
}

#[test]
fn end_to_end_text_ping_close() {
    let mut s = Session::new();
    let events = vec![
        Event::Received(Frame::Text("ok".to_string())),
        Event::Received(Frame::Ping(Vec::new())),
        Event::Received(Frame::Close),
        Event::LingerElapsed,
    ];
    let steps = s.replay(&events);
    assert_eq!(
        steps,
        vec![
            step(Some(Output::Text("ok".to_string())), None, Next::ReadNext),
            step(None, Some(Outbound::Pong(Vec::new())), Next::ReadNext),
            step(None, None, Next::Linger),
            step(None, Some(Outbound::Close), Next::Finish),
        ]
    );
    assert_eq!(s.phase(), Phase::Closed);
}
