use termd::pty::snapshot::{
    do_refresh, do_scrollback, screen_corner, scrollback_data, CursorStyle, Pins, ScreenParts,
    ScrollbackPlan,
};
use termd::pty::{RefreshData, ScrollbackData, ScrollbackOp};

// What a terminal formats of its screen, with its cursor.
struct Terminal {
    vt: Vec<u8>,
    style: CursorStyle,
    blinking: bool,
}

fn make_terminal() -> Terminal {
    Terminal { vt: Vec::new(), style: CursorStyle::Block, blinking: false }
}

fn refresh(t: &Terminal, generation: u64) -> RefreshData {
    do_refresh(ScreenParts {
        vt: &t.vt,
        cols: 80,
        rows: 24,
        cursor_visible: Some(true),
        cursor_style: Some(t.style),
        cursor_blinking: Some(t.blinking),
    })
    .stamped(generation, false)
}

// The rows of a terminal's history, and where each subscriber's place is.
struct History {
    lines: Vec<String>,
    pins: Pins,
    rows: std::collections::HashMap<String, u32>,
}

fn history(n: usize) -> History {
    let mut h = History { lines: Vec::new(), pins: Pins::new(), rows: std::collections::HashMap::new() };
    write_lines(&mut h, n);
    h
}

fn write_lines(h: &mut History, n: usize) {
    for i in 0..n {
        h.lines.push(format!("line{i}\n"));
    }
}

fn scroll(
    h: &mut History,
    id: &str,
    op: ScrollbackOp,
    amount: i32,
    row_count: u32,
    generation: u64,
) -> ScrollbackData {
    let row = h.rows.get(id).copied();
    let plan = do_scrollback(&mut h.pins, id, op, amount, row_count, h.lines.len() as u32, row);
    let mut shown = Vec::new();
    match plan {
        ScrollbackPlan::Show { start_y, end_y, .. } => {
            h.rows.insert(id.to_string(), start_y);
            for y in start_y..=end_y {
                shown.extend_from_slice(h.lines[y as usize].as_bytes());
            }
        }
        ScrollbackPlan::Nothing { .. } => {
            if !h.pins.contains(id) {
                h.rows.remove(id);
            }
        }
    }
    scrollback_data(generation, plan, shown)
}

fn contains(haystack: &[u8], needle: &[u8]) -> bool {
    find(haystack, needle).is_some()
}

fn find(haystack: &[u8], needle: &[u8]) -> Option<usize> {
    haystack.windows(needle.len()).position(|w| w == needle)
}

#[test]
fn snapshot_do_scrollback_empty_when_row_count_zero() {
    let mut h = history(0);
    let result = scroll(&mut h, "s", ScrollbackOp::Open, 0, 0, 42);
    assert_eq!(result.generation, 42);
    assert!(result.data.is_empty());
}

#[test]
fn do_scrollback_handles_more_rows_than_history() {
    let mut h = history(15);
    let total = h.lines.len() as u32;
    assert!(total > 0, "expected rows");
    let result = scroll(&mut h, "s", ScrollbackOp::Open, 0, 1000, 7);
    assert_eq!(result.total_scrollback_rows, total);
    assert_eq!(result.row_offset, 0);
}

#[test]
fn scrollback_open_anchors_at_live_tail() {
    let mut h = history(20);
    let r = scroll(&mut h, "s", ScrollbackOp::Open, 0, 5, 1);
    assert_eq!(r.row_offset, 0, "OPEN shows the live tail");
    assert!(!r.data.is_empty());
    assert_eq!(h.pins.ids.len(), 1, "OPEN creates a pin");
}

#[test]
fn scrollback_move_up_increases_offset() {
    let mut h = history(20);
    scroll(&mut h, "s", ScrollbackOp::Open, 0, 5, 1);
    let r = scroll(&mut h, "s", ScrollbackOp::Move, 3, 5, 2);
    assert_eq!(r.row_offset, 3, "MOVE +3 scrolls 3 rows up from the tail");
}

#[test]
fn scrollback_content_stays_put_while_streaming() {
    let mut h = history(20); // line0..line19
    scroll(&mut h, "s", ScrollbackOp::Open, 0, 5, 1);
    // Park 8 rows up; capture what we see.
    let parked = scroll(&mut h, "s", ScrollbackOp::Move, 8, 5, 2);
    // Stream more output.
    write_lines(&mut h, 30);
    // Re-render with no movement (MOVE 0). Content must be identical.
    let after = scroll(&mut h, "s", ScrollbackOp::Move, 0, 5, 3);
    assert_eq!(parked.data, after.data, "parked content drifted while streaming");
}

#[test]
fn scrollback_move_clamps_at_top() {
    let mut h = history(20);
    scroll(&mut h, "s", ScrollbackOp::Open, 0, 5, 1);
    let r = scroll(&mut h, "s", ScrollbackOp::Move, i32::MAX, 5, 2);
    let total = h.lines.len() as u32;
    assert_eq!(r.row_offset, total - 5, "top clamp: bottom edge sits row_count above oldest");
}

#[test]
fn scrollback_close_drops_pin() {
    let mut h = history(20);
    scroll(&mut h, "s", ScrollbackOp::Open, 0, 5, 1);
    let r = scroll(&mut h, "s", ScrollbackOp::Close, 0, 5, 2);
    assert!(r.data.is_empty());
    assert!(h.pins.ids.is_empty(), "CLOSE removes the pin");
}

#[test]
fn snapshot_do_scrollback_renders_history_content() {
    // 12 lines, as seen on a 5-row screen.
    let mut h = history(12);
    let total = h.lines.len() as u32;
    let r = scroll(&mut h, "s", ScrollbackOp::Open, 0, total, 9);
    assert_eq!(r.generation, 9);
    assert_eq!(r.total_scrollback_rows, total);
    assert_eq!(r.row_offset, 0, "full-height OPEN sits at the tail with the oldest row visible");
    assert!(!r.data.is_empty(), "do_scrollback produced no output");
    assert!(contains(&r.data, b"line0"), "scrollback output missing an early history line");
}

#[test]
fn snapshot_do_refresh_renders_selection_content() {
    let mut terminal = make_terminal();
    terminal.vt = b"Hello World".to_vec();
    let r = refresh(&terminal, 7);
    assert_eq!(r.generation, 7);
    assert!(!r.data.is_empty(), "do_refresh produced no output");
    assert!(contains(&r.data, b"Hello World"), "rendered output missing the screen content");
}

#[test]
fn snapshot_do_refresh_empty_terminal_does_not_crash() {
    let terminal = make_terminal();
    let r = refresh(&terminal, 1);
    assert_eq!(r.generation, 1);
}

#[test]
fn do_refresh_restores_bar_cursor_with_blink() {
    let mut terminal = make_terminal();
    terminal.style = CursorStyle::Bar;
    terminal.blinking = true;
    let r = refresh(&terminal, 1);
    assert!(contains(&r.data, b"\x1b[5 q"), "missing blinking-bar DECSCUSR restore");
}

#[test]
fn do_refresh_restores_steady_underline_cursor() {
    let mut terminal = make_terminal();
    terminal.style = CursorStyle::Underline;
    let r = refresh(&terminal, 1);
    assert!(contains(&r.data, b"\x1b[4 q"), "missing steady-underline DECSCUSR restore");
}

#[test]
fn do_refresh_restores_blinking_block_cursor() {
    let mut terminal = make_terminal();
    terminal.blinking = true;
    let r = refresh(&terminal, 1);
    assert!(contains(&r.data, b"\x1b[1 q"), "missing blinking-block DECSCUSR restore");
}

#[test]
fn do_refresh_omits_decscusr_for_default_cursor() {
    let terminal = make_terminal();
    let r = refresh(&terminal, 1);
    assert!(!contains(&r.data, b" q"), "default cursor must not emit a DECSCUSR code");
}

#[test]
fn do_refresh_restores_kitty_keyboard_state() {
    let mut terminal = make_terminal();
    terminal.vt = b"\x1b[=5;1u".to_vec();
    let r = refresh(&terminal, 1);
    let clear = find(&r.data, b"\x1b[=0;1u").expect("preamble missing kitty clear");
    let restore = find(&r.data, b"\x1b[=5;1u").expect("missing kitty keyboard restore");
    assert!(clear < restore, "kitty clear must precede restore");
}

#[test]
fn do_refresh_restores_modify_other_keys() {
    let mut terminal = make_terminal();
    terminal.vt = b"\x1b[>4;2m".to_vec();
    let r = refresh(&terminal, 1);
    let clear = find(&r.data, b"\x1b[>4;0m").expect("preamble missing modifyOtherKeys disable");
    let restore = find(&r.data, b"\x1b[>4;2m").expect("missing modifyOtherKeys restore");
    assert!(clear < restore, "modifyOtherKeys clear must precede restore");
}

#[test]
fn do_refresh_clears_keyboard_when_pty_has_none() {
    let mut terminal = make_terminal();
    terminal.vt = b"plain shell".to_vec();
    let r = refresh(&terminal, 1);
    assert!(find(&r.data, b"\x1b[=0;1u").is_some(), "missing kitty clear for plain PTY");
    assert!(find(&r.data, b"\x1b[>4;0m").is_some(), "missing modifyOtherKeys clear for plain PTY");
}

#[test]
fn do_refresh_clears_dynamic_colors_when_pty_has_none() {
    let mut terminal = make_terminal();
    terminal.vt = b"plain shell".to_vec();
    let r = refresh(&terminal, 1);
    assert!(find(&r.data, b"\x1b]110\x1b\\").is_some(), "missing default-fg reset (OSC 110)");
    assert!(find(&r.data, b"\x1b]111\x1b\\").is_some(), "missing default-bg reset (OSC 111)");
    assert!(find(&r.data, b"\x1b]112\x1b\\").is_some(), "missing cursor-color reset (OSC 112)");
}

#[test]
fn do_refresh_restores_cursor_color_after_clear() {
    let mut terminal = make_terminal();
    terminal.vt = b"\x1b]12;rgb:ff/88/00\x1b\\".to_vec();
    let r = refresh(&terminal, 1);
    let clear = find(&r.data, b"\x1b]112\x1b\\").expect("preamble missing cursor-color reset");
    let restore = find(&r.data, b"\x1b]12;rgb:ff/88/00").expect("missing cursor-color restore");
    assert!(clear < restore, "cursor-color reset must precede restore");
}

#[test]
fn do_refresh_clears_bg_before_erasing_screen() {
    let mut terminal = make_terminal();
    terminal.vt = b"plain shell".to_vec();
    let r = refresh(&terminal, 1);
    let reset = find(&r.data, b"\x1b]111\x1b\\").expect("missing default-bg reset");
    let erase = find(&r.data, b"\x1b[2J").expect("missing clear-screen");
    assert!(reset < erase, "default-bg reset must precede clear-screen");
}

#[test]
fn do_refresh_clears_title_when_pty_has_none() {
    let mut terminal = make_terminal();
    terminal.vt = b"plain shell".to_vec();
    let r = refresh(&terminal, 1);
    assert!(find(&r.data, b"\x1b]0;\x1b\\").is_some(), "missing empty-title clear");
}

#[test]
fn do_refresh_restores_title_after_clear() {
    let mut terminal = make_terminal();
    terminal.vt = b"\x1b]0;my window\x1b\\".to_vec();
    let r = refresh(&terminal, 1);
    let clear = find(&r.data, b"\x1b]0;\x1b\\").expect("preamble missing empty-title clear");
    let restore = find(&r.data, b"\x1b]0;my window").expect("missing title restore");
    assert!(clear < restore, "title clear must precede restore");
}

#[test]
fn pty_do_scrollback_empty_when_row_count_zero() {
    let mut h = history(0);
    let result = scroll(&mut h, "s", ScrollbackOp::Open, 0, 0, 42);
    assert_eq!(result.generation, 42);
    assert!(result.data.is_empty());
}

#[test]
fn pty_do_refresh_renders_selection_content() {
    let mut terminal = make_terminal();
    terminal.vt = b"Hello World".to_vec();
    let r = refresh(&terminal, 7);
    assert_eq!(r.generation, 7);
    assert!(!r.data.is_empty(), "do_refresh produced no output");
    assert!(contains(&r.data, b"Hello World"), "rendered output missing the screen content");
}

#[test]
fn pty_do_refresh_empty_terminal_does_not_crash() {
    let terminal = make_terminal();
    let r = refresh(&terminal, 1);
    assert_eq!(r.generation, 1);
}

#[test]
fn pty_do_scrollback_renders_history_content() {
    // 12 lines, as seen on a 5-row screen.
    let mut h = history(12);
    let total = h.lines.len() as u32;
    let r = scroll(&mut h, "s", ScrollbackOp::Open, 0, total, 9);
    assert_eq!(r.generation, 9);
    assert_eq!(r.total_scrollback_rows, total);
    assert!(!r.data.is_empty(), "do_scrollback produced no output");
    assert!(contains(&r.data, b"line0"), "scrollback output missing an early history line");
}

#[test]
fn refresh_exactly() {
    let parts = ScreenParts {
        vt: b"VT",
        cols: 3,
        rows: 2,
        cursor_visible: Some(false),
        cursor_style: None,
        cursor_blinking: Some(true),
    };
    let s = do_refresh(parts);
    assert_eq!((s.cols, s.rows), (3, 2));
    assert_eq!(
        &s.data[..],
        &b"\x1b[!p\x1b[?1000l\x1b[?1002l\x1b[?1003l\x1b[?1006l\x1b[=0;1u\x1b[>4;0m\x1b]110\x1b\\\x1b]111\x1b\\\x1b]112\x1b\\\x1b]0;\x1b\\\x1b[2J\x1b[HVT\x1b[0m\x1b[?25l"[..]
    );
}

#[test]
fn cursor_shapes() {
    let shape = |style, blinking| {
        let s = do_refresh(ScreenParts {
            vt: b"", cols: 1, rows: 1, cursor_visible: None, cursor_style: style, cursor_blinking: blinking,
        });
        let at = find(&s.data, b"\x1b[?25h").expect("an unknown cursor is shown");
        s.data[at + 6..].to_vec()
    };
    assert_eq!(shape(Some(CursorStyle::Underline), Some(true)), b"\x1b[3 q");
    assert_eq!(shape(Some(CursorStyle::Bar), None), b"\x1b[6 q");
    assert_eq!(shape(Some(CursorStyle::BlockHollow), Some(true)), b"\x1b[1 q");
    assert_eq!(shape(Some(CursorStyle::Block), Some(false)), b"");
    assert_eq!(shape(None, Some(true)), b"");
}

#[test]
fn corner_of_a_screen() {
    assert_eq!(screen_corner(80, 24), (79, 23));
    assert_eq!(screen_corner(0, 0), (0, 0));
}

#[test]
fn move_and_back() {
    let mut h = history(40);
    scroll(&mut h, "s", ScrollbackOp::Open, 0, 5, 1);
    let before = scroll(&mut h, "s", ScrollbackOp::Move, 10, 5, 2);
    scroll(&mut h, "s", ScrollbackOp::Move, 7, 5, 3);
    let after = scroll(&mut h, "s", ScrollbackOp::Move, -7, 5, 4);
    assert_eq!(before.data, after.data);
    assert_eq!(after.row_offset, 10);
    let end = scroll(&mut h, "s", ScrollbackOp::Move, -1000, 5, 5);
    assert_eq!(end.row_offset, 0);
}

#[test]
fn places_are_kept_apart() {
    let mut h = history(40);
    scroll(&mut h, "a", ScrollbackOp::Open, 0, 5, 1);
    scroll(&mut h, "a", ScrollbackOp::Move, 20, 5, 1);
    let b = scroll(&mut h, "b", ScrollbackOp::Move, 2, 5, 1);
    assert_eq!(b.row_offset, 2, "without a place a move begins at the end");
    let a = scroll(&mut h, "a", ScrollbackOp::Move, 0, 5, 1);
    assert_eq!(a.row_offset, 20);
    scroll(&mut h, "a", ScrollbackOp::Close, 0, 5, 1);
    assert!(!h.pins.contains("a") && h.pins.contains("b"));
}

#[test]
fn no_history_shows_nothing() {
    let mut pins = Pins::new();
    let plan = do_scrollback(&mut pins, "s", ScrollbackOp::Open, 0, 5, 0, None);
    assert_eq!(plan, ScrollbackPlan::Nothing { total: 0 });
    assert!(!pins.contains("s"));
    let data = scrollback_data(3, plan, Vec::new());
    assert_eq!((data.generation, data.total_scrollback_rows, data.row_offset), (3, 0, 0));
}

#[test]
fn a_place_beyond_the_history_counts_as_its_last_row() {
    let mut pins = Pins::new();
    pins.insert("s");
    let plan = do_scrollback(&mut pins, "s", ScrollbackOp::Move, 0, 5, 10, Some(99));
    assert_eq!(plan, ScrollbackPlan::Show { start_y: 5, end_y: 9, row_offset: 0, total: 10 });
}
