use termd::attach::raw::RawHandler;
use termd::attach::{EventResult, PtyEvent};

#[test]
fn init_writes_refresh_data() {
    let mut h = RawHandler::new();
    let mut out = Vec::new();
    let result = h.init(b"hello", &[], &mut out);
    assert!(matches!(result, EventResult::Continue));
    assert_eq!(out, b"hello");
}

#[test]
fn init_replays_buffered_chunks() {
    let mut h = RawHandler::new();
    let mut out = Vec::new();
    let buffered = vec![(2, b"world".to_vec())];
    let result = h.init(b"hello", &buffered, &mut out);
    assert!(matches!(result, EventResult::Continue));
    assert_eq!(out, b"helloworld");
}

#[test]
fn stream_copies_data_to_output() {
    let mut h = RawHandler::new();
    let mut out = Vec::new();
    let result = h.on_pty_event(PtyEvent::Stream { data: b"test" }, &mut out);
    assert!(matches!(result, EventResult::Continue));
    assert_eq!(out, b"test");
}

#[test]
fn refresh_copies_data_to_output() {
    let mut h = RawHandler::new();
    let mut out = Vec::new();
    let result = h.on_pty_event(
        PtyEvent::Refresh { cols: 80, rows: 24, data: b"screen" },
        &mut out,
    );
    assert!(matches!(result, EventResult::Continue));
    assert_eq!(out, b"screen");
}

#[test]
fn resize_clears_screen() {
    let mut h = RawHandler::new();
    let mut out = Vec::new();
    h.on_pty_event(PtyEvent::Resize { cols: 80, rows: 24 }, &mut out);
    assert_eq!(out, b"\x1b[2J");
}

#[test]
fn sigwinch_requests_refresh() {
    let mut h = RawHandler::new();
    let mut out = Vec::new();
    let result = h.on_sigwinch(100, 40, &mut out);
    assert!(matches!(result, EventResult::RequestRefresh));
    assert!(out.is_empty());
}

#[test]
fn closed_is_noop() {
    let mut h = RawHandler::new();
    let mut out = Vec::new();
    let result = h.on_pty_event(PtyEvent::Closed, &mut out);
    assert!(matches!(result, EventResult::Continue));
    assert!(out.is_empty());
}
