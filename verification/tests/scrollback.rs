use termd::attach::scrollback::{
    empty_page, format_page, key_to_op, pager_escape, pager_step, PagerStep,
};
use termd::proto::ScrollbackOpKind;

#[test]
fn key_up_moves_one_row_older() {
    assert_eq!(key_to_op(&[0x1b, b'[', b'A'], 24), Some((ScrollbackOpKind::ScrollbackMove, 1)));
}

#[test]
fn key_down_moves_one_row_newer() {
    assert_eq!(key_to_op(&[0x1b, b'[', b'B'], 24), Some((ScrollbackOpKind::ScrollbackMove, -1)));
}

#[test]
fn key_page_back_moves_a_screenful_older() {
    assert_eq!(key_to_op(&[0x02], 24), Some((ScrollbackOpKind::ScrollbackMove, 24)));   // Ctrl-B
    assert_eq!(key_to_op(b"b", 24), Some((ScrollbackOpKind::ScrollbackMove, 24)));
}

#[test]
fn key_page_forward_moves_a_screenful_newer() {
    assert_eq!(key_to_op(&[0x06], 24), Some((ScrollbackOpKind::ScrollbackMove, -24)));  // Ctrl-F
    assert_eq!(key_to_op(b"f", 24), Some((ScrollbackOpKind::ScrollbackMove, -24)));
}

#[test]
fn key_home_jumps_to_oldest_end_jumps_to_tail() {
    assert_eq!(key_to_op(b"g", 24), Some((ScrollbackOpKind::ScrollbackMove, i32::MAX)));   // g: top
    assert_eq!(key_to_op(b"G", 24), Some((ScrollbackOpKind::ScrollbackOpen, 0)));          // G: tail
}

#[test]
fn key_quit_returns_none() {
    assert_eq!(key_to_op(b"q", 24), None);
    assert_eq!(key_to_op(&[0x11], 24), None); // Ctrl-Q
}

#[test]
fn format_page_starts_with_clear_and_home() {
    let out = format_page(b"hello", 0, 50, 24);
    assert!(out.starts_with(b"\x1b[2J\x1b[H"));
}

#[test]
fn format_page_includes_content_bytes() {
    let out = format_page(b"some scrollback content", 0, 50, 24);
    let s = String::from_utf8_lossy(&out);
    assert!(s.contains("some scrollback content"));
}

#[test]
fn format_page_status_bar_on_last_row() {
    let out = format_page(b"", 0, 50, 24);
    let s = String::from_utf8_lossy(&out);
    assert!(s.contains("\x1b[24;1H"), "status bar should move cursor to row 24");
}

#[test]
fn format_page_status_shows_offset_and_total() {
    let out = format_page(b"", 4, 100, 24);
    let s = String::from_utf8_lossy(&out);
    assert!(s.contains("row 5 / 100"), "status should show 1-based offset and total");
}

#[test]
fn format_page_exactly() {
    let out = format_page(b"x", 4, 100, 24);
    assert_eq!(
        String::from_utf8(out).unwrap(),
        "\x1b[2J\x1b[Hx\x1b[24;1H\x1b[2K\x1b[7m SCROLLBACK  row 5 / 100  (q/ESC exit  ^B/^F page  ↑↓ line  g/G top/tail) \x1b[0m"
    );
}

#[test]
fn pager_keys() {
    let fetch = |kind, amount| PagerStep::Fetch { kind, amount };
    assert_eq!(pager_step(&[0x1b], 24), PagerStep::AwaitEscape);
    assert_eq!(pager_step(b"q", 24), PagerStep::Exit);
    assert_eq!(pager_step(&[0x11], 24), PagerStep::Exit);
    assert_eq!(pager_step(b"z", 24), PagerStep::Ignore);
    assert_eq!(pager_step(b"qq", 24), PagerStep::Ignore);
    assert_eq!(pager_step(b"\x1b[Axyz", 24), fetch(ScrollbackOpKind::ScrollbackMove, 1));
    assert_eq!(pager_step(b"f", 10), fetch(ScrollbackOpKind::ScrollbackMove, -10));
    assert_eq!(pager_escape(Some(b"[A")), fetch(ScrollbackOpKind::ScrollbackMove, 1));
    assert_eq!(pager_escape(Some(b"[B")), fetch(ScrollbackOpKind::ScrollbackMove, -1));
    assert_eq!(pager_escape(Some(b"[")), PagerStep::Exit);
    assert_eq!(pager_escape(None), PagerStep::Exit);
}

#[test]
fn no_history_page() {
    assert_eq!(empty_page(), b"\x1b[2J\x1b[H[No scrollback available]\r\n(any key to exit)");
}
