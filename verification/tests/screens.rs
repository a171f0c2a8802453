use termd::attach::screens::{
    error_note, info_note, reset_terminal_modes, session_end, session_note, session_start, terminal_end, Reconnect, WaitEnd, POP_TITLE, PUSH_TITLE,
    RESET_TERMINAL_MODES,
};
use termd::attach::RenderMode;

#[test]
fn reset_clears_both_csi_u_keyboard_protocols() {
    let bytes = RESET_TERMINAL_MODES.as_bytes();
    let has = |needle: &[u8]| bytes.windows(needle.len()).any(|w| w == needle);
    // kitty keyboard: depth-independent absolute clear of the current entry, plus a pop
    assert!(has(b"\x1b[=0;1u"), "reset must clear current kitty keyboard flags to 0");
    assert!(has(b"\x1b[<1u"), "reset must pop a passed-through kitty keyboard stack level");
    // xterm modifyOtherKeys
    assert!(has(b"\x1b[>4;0m"), "reset must disable xterm modifyOtherKeys");
}

#[test]
fn reset_resets_cursor_shape_with_decscusr() {
    let bytes = RESET_TERMINAL_MODES.as_bytes();
    let has = |needle: &[u8]| bytes.windows(needle.len()).any(|w| w == needle);
    // DECSCUSR is CSI Ps SP q — the space intermediate is required. CSI 0 q (no space)
    // is DECLL (load LEDs), which does not touch the cursor shape.
    assert!(has(b"\x1b[0 q"), "reset must reset cursor shape via DECSCUSR (CSI 0 SP q)");
    assert!(!has(b"\x1b[0q"), "CSI 0 q without the space is DECLL, not a cursor-shape reset");
}

#[test]
fn reset_gives_the_colors_back() {
    for code in ["110", "111", "112"] {
        assert!(RESET_TERMINAL_MODES.contains(&format!("\x1b]{code}\x1b\\")));
    }
    assert_eq!((PUSH_TITLE, POP_TITLE), ("\x1b[22;0t", "\x1b[23;0t"));
}

#[test]
fn a_session_leaves_the_terminal_as_it_was() {
    assert_eq!(session_start(), b"\x1b[22;0t");
    assert_eq!(reset_terminal_modes(), RESET_TERMINAL_MODES.as_bytes());
    let end = session_end(24);
    assert_eq!(end, format!("{RESET_TERMINAL_MODES}\x1b[23;0t\x1b[24;1H\r\n").as_bytes());
    for part in [&b"\x1b]110\x1b\\"[..], b"\x1b]111\x1b\\", b"\x1b]112\x1b\\", b"\x1b[23;0t"] {
        assert!(end.windows(part.len()).any(|w| w == part));
    }
}

#[test]
fn notes() {
    assert_eq!(info_note("hi"), b"\r\n[hi]\r\n");
    assert_eq!(error_note("no"), b"\r\n[Error: no]\r\n");
    assert_eq!(terminal_end(24), b"\x1b[24;1H\r\n");
    assert_eq!(
        session_note(RenderMode::Region, RenderMode::Cell, 0xab, (80, 24), (100, 30)),
        b"\r\n[requested=Region actual=Cell pty=00000000000000ab server=80x24 client=100x30]\r\n"
    );
}

#[test]
fn waits_double_up_to_the_longest() {
    let mut wait = Reconnect::new();
    let mut seen = Vec::new();
    for _ in 0..6 {
        seen.push(wait.backoff_ms);
        assert!(wait.after_wait(WaitEnd::Elapsed));
    }
    assert_eq!(seen, [500, 1000, 2000, 4000, 5000, 5000]);
}

#[test]
fn the_user_may_give_up() {
    let mut wait = Reconnect::new();
    assert!(wait.after_wait(WaitEnd::Input(b"xyz")));
    assert!(!wait.after_wait(WaitEnd::Input(b"xq")));
    assert!(!wait.after_wait(WaitEnd::Input(b"\x03")));
    assert!(!wait.after_wait(WaitEnd::InputClosed));
    assert_eq!(wait.backoff_ms, 1000);
}

#[test]
fn what_is_shown_meanwhile() {
    let mut wait = Reconnect::new();
    assert_eq!(
        String::from_utf8(wait.begin_attempt()).unwrap(),
        "\x1b[2J\x1b[H[Connection lost — reconnecting (attempt 1)…  Ctrl-C/q to quit]\r\n"
    );
    assert_eq!(
        String::from_utf8(wait.failure_note("refused")).unwrap(),
        "\x1b[2J\x1b[H[Reconnect failed: refused — retrying in 0.5s  (Ctrl-C/q to quit)]\r\n"
    );
}
