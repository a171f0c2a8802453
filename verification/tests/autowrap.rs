use termd::attach::autowrap::{unit_width, AutowrapHandler, Seen, Tracking, WrapInjector};
use termd::attach::{EventResult, PtyEvent, RenderMode};
use unicode_width::UnicodeWidthChar;

#[derive(Clone, Copy, PartialEq)]
enum Parser {
    Ground,
    Utf8(usize),
    Esc,
    Csi,
    Osc,
    OscEsc,
}

/// A small terminal: enough of one to follow the streams below.
struct Terminal {
    cols: u16,
    rows: u16,
    x: u16,
    y: u16,
    pending_wrap: bool,
    // Margins, counted from 0 and inclusive.
    top: u16,
    bottom: u16,
    left: u16,
    right: u16,
    side_margins: bool,
    origin: bool,
    parser: Parser,
    held: Vec<u8>,
    grid: Vec<Vec<char>>,
}

impl Terminal {
    fn new(cols: u16, rows: u16) -> Self {
        Terminal {
            cols,
            rows,
            x: 0,
            y: 0,
            pending_wrap: false,
            top: 0,
            bottom: rows - 1,
            left: 0,
            right: cols - 1,
            side_margins: false,
            origin: false,
            parser: Parser::Ground,
            held: Vec::new(),
            grid: vec![vec![' '; cols as usize]; rows as usize],
        }
    }

    fn at_boundary(&self) -> bool {
        self.parser == Parser::Ground
    }

    fn resize(&mut self, cols: u16, rows: u16) {
        self.cols = cols;
        self.rows = rows;
        for row in self.grid.iter_mut() {
            row.resize(cols as usize, ' ');
        }
        self.grid.resize(rows as usize, vec![' '; cols as usize]);
        self.reset_margins();
        self.x = self.x.min(cols - 1);
        self.y = self.y.min(rows - 1);
        self.pending_wrap = false;
    }

    fn reset_margins(&mut self) {
        self.top = 0;
        self.bottom = self.rows - 1;
        self.left = 0;
        self.right = self.cols - 1;
    }

    fn vt_write(&mut self, bytes: &[u8]) {
        for &b in bytes {
            self.byte(b);
        }
    }

    fn byte(&mut self, b: u8) {
        match self.parser {
            Parser::Ground => self.ground(b),
            Parser::Utf8(left) => {
                self.held.push(b);
                if left > 1 {
                    self.parser = Parser::Utf8(left - 1);
                } else {
                    self.parser = Parser::Ground;
                    let text = String::from_utf8_lossy(&self.held).into_owned();
                    self.held.clear();
                    for c in text.chars() {
                        self.print(c);
                    }
                }
            }
            Parser::Esc => match b {
                b'[' => self.parser = Parser::Csi,
                b']' => self.parser = Parser::Osc,
                b'c' => *self = Terminal::new(self.cols, self.rows),
                _ => self.parser = Parser::Ground,
            },
            Parser::Csi => {
                if (0x40..0x7f).contains(&b) {
                    self.parser = Parser::Ground;
                    let body = String::from_utf8(std::mem::take(&mut self.held)).unwrap();
                    self.csi(&body, b);
                } else {
                    self.held.push(b);
                }
            }
            Parser::Osc => match b {
                0x07 => self.parser = Parser::Ground,
                0x1b => self.parser = Parser::OscEsc,
                _ => {}
            },
            Parser::OscEsc => self.parser = Parser::Ground,
        }
    }

    fn ground(&mut self, b: u8) {
        match b {
            0x1b => self.parser = Parser::Esc,
            b'\r' => {
                self.x = if self.x >= self.left { self.left } else { 0 };
                self.pending_wrap = false;
            }
            b'\n' => self.line_feed(),
            b'\t' => self.x = (self.x / 8 * 8 + 8).min(self.cols - 1),
            0x08 => self.x = self.x.saturating_sub(1),
            0..=0x1f | 0x7f => {}
            0x20..=0x7e => self.print(b as char),
            0xc0..=0xdf => self.start_utf8(b, 1),
            0xe0..=0xef => self.start_utf8(b, 2),
            _ => self.start_utf8(b, 3),
        }
    }

    fn start_utf8(&mut self, b: u8, left: usize) {
        self.held.push(b);
        self.parser = Parser::Utf8(left);
    }

    fn line_feed(&mut self) {
        self.pending_wrap = false;
        if self.y == self.bottom {
            self.grid.remove(self.top as usize);
            self.grid.insert(self.bottom as usize, vec![' '; self.cols as usize]);
        } else if self.y + 1 < self.rows {
            self.y += 1;
        }
    }

    fn print(&mut self, c: char) {
        let width = c.width().unwrap_or(0) as u16;
        if width == 0 {
            return;
        }
        if self.pending_wrap || self.x + width > self.right + 1 {
            self.line_feed();
            self.x = self.left;
        }
        self.grid[self.y as usize][self.x as usize] = c;
        if self.x + width > self.right {
            self.x = self.right;
            self.pending_wrap = true;
        } else {
            self.x += width;
        }
    }

    fn csi(&mut self, body: &str, last: u8) {
        let numbers: Vec<u16> = body.split(';').map(|s| s.parse().unwrap_or(0)).collect();
        let number = |i: usize| numbers.get(i).copied().unwrap_or(0);
        match (body, last) {
            (_, b'H') => {
                let first = if self.origin { self.top } else { 0 };
                self.y = (first + number(0).max(1) - 1).min(self.rows - 1);
                self.x = (number(1).max(1) - 1).min(self.cols - 1);
                self.pending_wrap = false;
            }
            (_, b'G') => self.x = (number(0).max(1) - 1).min(self.cols - 1),
            ("2", b'J') => self.grid = vec![vec![' '; self.cols as usize]; self.rows as usize],
            ("!", b'p') => {
                self.reset_margins();
                self.origin = false;
            }
            ("?69", b'h') => self.side_margins = true,
            ("?6", b'h') => self.origin = true,
            (_, b's') => {
                if self.side_margins {
                    self.left = number(0).max(1) - 1;
                    self.right = number(1).min(self.cols) - 1;
                }
            }
            (_, b'r') => {
                if !body.starts_with('?') {
                    self.top = number(0).max(1) - 1;
                    self.bottom = if number(1) == 0 { self.rows } else { number(1).min(self.rows) } - 1;
                    self.x = 0;
                    self.y = if self.origin { self.top } else { 0 };
                }
            }
            _ => {}
        }
    }

    /// Takes `data` byte by byte and tells what it shows after each.
    fn follow(&mut self, data: &[u8]) -> Vec<Seen> {
        data.iter()
            .map(|&b| {
                self.byte(b);
                Seen { at_boundary: self.at_boundary(), x: self.x, y: self.y }
            })
            .collect()
    }
}

/// A `WrapInjector` with the terminal that it watches.
struct Injector {
    inj: WrapInjector,
    term: Terminal,
}

impl Injector {
    fn new(cols: u16, rows: u16) -> Self {
        Injector { inj: WrapInjector::new(rows as u32), term: Terminal::new(cols, rows) }
    }

    fn process(&mut self, data: &[u8], out: &mut Vec<u8>) {
        let seen = self.term.follow(data);
        self.inj.process(data, &seen, out);
    }

    fn resize(&mut self, cols: u16, rows: u16) {
        self.term.resize(cols, rows);
        self.inj.resize(rows as u32, self.term.x, self.term.y);
    }

    fn emit_region_setup(&mut self, out: &mut Vec<u8>) {
        self.inj.emit_region_setup(out);
    }

    fn emit_screen_setup(&mut self, out: &mut Vec<u8>) {
        self.inj.emit_screen_setup(out);
    }

    fn restore_client_region(&mut self, out: &mut Vec<u8>) {
        self.inj.restore_client_region(self.term.x, self.term.y, self.term.origin, out);
    }
}

/// An `AutowrapHandler` with the terminal that it watches, on a client of a given size.
struct Handler {
    handler: AutowrapHandler,
    term: Terminal,
    client: (u32, u32),
}

impl Handler {
    fn new(cols: u32, rows: u32) -> Self {
        Handler {
            handler: AutowrapHandler::new(cols, rows),
            term: Terminal::new(cols as u16, rows as u16),
            client: (0, 0),
        }
    }

    fn init(&mut self, data: &[u8], out: &mut Vec<u8>) -> EventResult {
        let (cols, rows) = self.client;
        let mut seen = Vec::new();
        if self.handler.fits_client(cols, rows) {
            self.term = Terminal::new(self.handler.server_cols as u16, self.handler.server_rows as u16);
            seen = self.term.follow(data);
        }
        self.handler.init(data, cols, rows, &seen, out)
    }

    fn on_pty_event(&mut self, event: PtyEvent, out: &mut Vec<u8>) -> EventResult {
        let (cols, rows) = self.client;
        let data: &[u8] = match event {
            PtyEvent::Stream { data } => data,
            PtyEvent::Refresh { data, .. } => data,
            _ => b"",
        };
        let mut seen = Vec::new();
        match self.handler.tracking(&event, cols, rows) {
            Tracking::Keep => {}
            Tracking::Follow => seen = self.term.follow(data),
            Tracking::Rebuild { cols, rows } => {
                self.term = Terminal::new(cols as u16, rows as u16);
                seen = self.term.follow(data);
            }
            Tracking::Resize { cols, rows } => self.term.resize(cols as u16, rows as u16),
        }
        self.handler.on_pty_event(event, cols, rows, &seen, self.term.x, self.term.y, out)
    }

    fn cleanup(&mut self, out: &mut Vec<u8>) {
        self.handler.cleanup(out);
    }
}

fn run_bytes(server_cols: u16, server_rows: u16, chunks: &[&[u8]]) -> Vec<u8> {
    let mut wi = Injector::new(server_cols, server_rows);
    let mut out = Vec::new();
    for c in chunks {
        wi.process(c, &mut out);
    }
    out
}

fn screen_rows(client: &Terminal, _cols: u16, rows: u16) -> Vec<String> {
    (0..rows).map(|y| client.grid[y as usize].iter().collect::<String>().trim_end().to_string()).collect()
}

#[test]
fn plain_text_passes_through() {
    assert_eq!(run_bytes(80, 24, &[b"hello world"]), b"hello world");
}

#[test]
fn escape_sequence_passes_through() {
    // A CUP and an SGR sequence, no printing past the edge: identity.
    assert_eq!(run_bytes(80, 24, &[b"\x1b[5;5Hhi\x1b[0m"]), b"\x1b[5;5Hhi\x1b[0m");
}

#[test]
fn utf8_split_across_chunks_passes_through() {
    // "é" = 0xC3 0xA9 split across two process() calls.
    assert_eq!(run_bytes(80, 24, &[b"a\xc3", b"\xa9b"]), b"a\xc3\xa9b");
}

#[test]
fn long_osc_streams_eagerly() {
    // An OSC payload longer than the control hold cap must be emitted
    // before its terminator arrives — no unbounded buffering.
    let mut wi = Injector::new(80, 24);
    let mut out = Vec::new();
    let mut osc = b"\x1b]52;c;".to_vec();
    osc.extend(std::iter::repeat_n(b'A', 4096)); // no ST yet
    wi.process(&osc, &mut out);
    assert!(
        out.len() >= 4000,
        "payload must stream out before the terminator, got {} bytes",
        out.len()
    );
    // Terminator arrives later; everything matches the original stream.
    wi.process(b"\x1b\\", &mut out);
    osc.extend_from_slice(b"\x1b\\");
    assert_eq!(out, osc);
}

#[test]
fn carry_is_bounded() {
    // Only an incomplete printable unit (max 4 bytes of UTF-8) or a short
    // control prefix may be held across calls.
    let mut wi = Injector::new(80, 24);
    let mut out = Vec::new();
    wi.process(b"ab\xf0\x9f\x98", &mut out); // incomplete 4-byte emoji
    assert_eq!(out, b"ab");
    wi.process(b"\x80", &mut out); // 😀 completes
    assert_eq!(out, "ab😀".as_bytes());
}

// 4 columns wide, 3 rows tall server.

#[test]
fn full_line_then_printable_injects_break() {
    // "abcd" fills cols 0..3 (deferred wrap), "e" then wraps.
    // Expect a break injected before "e".
    assert_eq!(run_bytes(4, 3, &[b"abcde"]), b"abcd\r\ne");
}

#[test]
fn full_line_then_control_does_not_inject() {
    // "abcd" sets pending wrap; a CUP move clears it without wrapping.
    // No spurious break may be injected.
    assert_eq!(run_bytes(4, 3, &[b"abcd\x1b[2;1Hx"]), b"abcd\x1b[2;1Hx");
}

#[test]
fn exact_fill_no_premature_break() {
    // Exactly cols glyphs and nothing after: no break at all.
    assert_eq!(run_bytes(4, 3, &[b"abcd"]), b"abcd");
}

#[test]
fn wide_char_at_edge_injects_break() {
    // "abc" fills cols 0..2, leaving one column. A 2-wide glyph cannot fit,
    // so the server wraps it to the next line. Detected by cursor movement
    // even though pending-wrap was not set. Expect a break before "世".
    let out = run_bytes(4, 3, &["abc世".as_bytes()]);
    assert_eq!(out, "abc\r\n世".as_bytes());
}

#[test]
fn bottom_margin_scroll_injects_break() {
    // Fill row 0 ("abcd"), wrap to row 1 with "efgh", wrap to row 2 (last)
    // with "ijkl", then "m" wraps again — at the bottom the screen scrolls
    // and cursor_y does not increase, but cursor_x moves left. Expect a
    // break before each wrap, including the scrolling one before "m".
    let out = run_bytes(4, 3, &[b"abcdefghijklm"]);
    assert_eq!(out, b"abcd\r\nefgh\r\nijkl\r\nm");
}

#[test]
fn combining_mark_does_not_inject() {
    // base 'e' + combining acute U+0301 (0xCC 0x81), width 0, attaches to
    // the same cell — no wrap, no break.
    let out = run_bytes(4, 3, &["e\u{0301}f".as_bytes()]);
    assert_eq!(out, "e\u{0301}f".as_bytes());
}

#[test]
fn tab_does_not_inject_a_break() {
    // HT is a C0 control on the control path; it advances the cursor but
    // never itself causes a wrap, so no break may be injected for it. (The
    // exact column HT lands on is terminal-defined; we only assert that the
    // tab passes through untouched. A printable that wraps *after* a tab is
    // covered by the cursor-movement detector, exercised in the other
    // injection tests.)
    assert_eq!(run_bytes(4, 3, &[b"\t"]), b"\t");
}

#[test]
fn wrap_survives_chunk_split() {
    // Same as full_line_then_printable, but "e" arrives in a later chunk and
    // the 4th glyph is split mid-stream. The break must still land before "e".
    assert_eq!(run_bytes(4, 3, &[b"abc", b"d", b"e"]), b"abcd\r\ne");
}

#[test]
fn resize_preserves_cursor_state_for_wrap_detection() {
    // Print "abc" into a 4-col terminal (cursor at col 3), then resize the
    // server to 5 cols. resize() must preserve the cursor so the next glyph
    // wraps at the *new* width: "ab" fills cols 3..4 (deferred wrap at col 5)
    // and "c" then wraps. A reset() would zero the cursor and mis-detect.
    let mut wi = Injector::new(4, 3);
    let mut out = Vec::new();
    wi.process(b"abc", &mut out);
    wi.resize(5, 3);
    wi.process(b"de", &mut out); // now at col 5 (cols 0..4 filled): pending wrap
    wi.process(b"f", &mut out); // wraps
    assert_eq!(out, b"abcde\r\nf");
}

#[test]
fn wide_glyph_split_across_calls_not_sliced_at_wrap() {
    // 世 (E4 B8 96) is 2 wide. "abc" leaves one column, so 世 wraps. The glyph
    // arrives split across two process() calls. The break must land before the
    // whole glyph — its bytes must never be sliced by the \r\n.
    let mut wi = Injector::new(4, 3);
    let mut out = Vec::new();
    wi.process(b"abc\xe4", &mut out); // up to the first byte of 世
    wi.process(b"\xb8\x96", &mut out); // the rest of 世
    assert_eq!(out, "abc\r\n世".as_bytes());
}

#[test]
fn wrap_with_left_margin_emits_cha() {
    // App enables DECLRMM and sets left margin 2, right margin 4 on an
    // 8-col server. Cursor to row 1 col 2; "abc" fills cols 2..4 (pending
    // wrap at the right margin); "x" wraps to row 2 *column 2*, not column
    // 1. The injected break must be \r\n followed by CHA to column 2.
    let mut wi = Injector::new(8, 4);
    let mut out = Vec::new();
    wi.process(b"\x1b[?69h\x1b[2;4s\x1b[1;2Habcx", &mut out);
    let s = String::from_utf8(out).unwrap();
    assert!(
        s.ends_with("abc\r\n\x1b[2Gx"),
        "expected break + CHA to the left margin before 'x', got {:?}", s
    );
}

#[test]
fn wrap_without_margin_has_no_cha() {
    // Plain wrap at column 1 must stay a bare \r\n (no redundant CHA).
    assert_eq!(run_bytes(4, 3, &[b"abcde"]), b"abcd\r\ne");
}

#[test]
fn wide_char_wrap_with_left_margin_emits_cha() {
    // Same margins; 世 (2 wide) can't fit in the last column and wraps to
    // the left margin. left = cx_after - 2.
    let mut wi = Injector::new(8, 4);
    let mut out = Vec::new();
    wi.process("\x1b[?69h\x1b[2;5s\x1b[1;4H".as_bytes(), &mut out);
    wi.process("a世".as_bytes(), &mut out);
    let s = String::from_utf8(out).unwrap();
    assert!(
        s.ends_with("a\r\n\x1b[2G世"),
        "expected CHA to left margin before the wide glyph, got {:?}", s
    );
}

#[test]
fn region_setup_emits_decstbm() {
    let mut wi = Injector::new(4, 3);
    let mut out = Vec::new();
    wi.emit_region_setup(&mut out);
    assert_eq!(out, b"\x1b[1;3r");
}

#[test]
fn app_decstbm_bottom_clamped_to_server_rows() {
    // App asks for rows 1..50 on a 24-row server: clamp bottom to 24.
    assert_eq!(run_bytes(80, 24, &[b"\x1b[1;50r"]), b"\x1b[1;24r");
}

#[test]
fn app_decstbm_full_reset_becomes_server_region() {
    // Bare ESC[r means "full screen" to the app — which is the *server*
    // screen, not the taller client. Rewrite to 1..server_rows.
    assert_eq!(run_bytes(80, 24, &[b"\x1b[r"]), b"\x1b[1;24r");
}

#[test]
fn app_decstbm_within_bounds_passes() {
    assert_eq!(run_bytes(80, 24, &[b"\x1b[5;20r"]), b"\x1b[5;20r");
}

#[test]
fn private_csi_r_not_rewritten() {
    // ESC[?...r is DEC private mode *restore*, not DECSTBM.
    assert_eq!(run_bytes(80, 24, &[b"\x1b[?1049r"]), b"\x1b[?1049r");
}

#[test]
fn ris_reestablishes_region() {
    let out = run_bytes(80, 24, &[b"\x1bc"]);
    let s = String::from_utf8(out).unwrap();
    assert!(s.starts_with("\x1bc"), "RIS passes through first");
    assert!(s.contains("\x1b[1;24r"), "region setup must follow RIS");
}

#[test]
fn decstr_reestablishes_region_and_restores_cursor() {
    // DECSTR resets margins but does NOT move the cursor; our re-emitted
    // DECSTBM homes it, so a CUP back to the tracked position must follow.
    let mut wi = Injector::new(80, 24);
    let mut out = Vec::new();
    wi.process(b"\x1b[5;10H\x1b[!p", &mut out);
    let s = String::from_utf8(out).unwrap();
    assert!(s.contains("\x1b[!p"), "DECSTR passes through");
    assert!(s.contains("\x1b[1;24r"), "region setup follows DECSTR");
    assert!(s.ends_with("\x1b[5;10H"), "cursor restored after region setup, got {:?}", s);
}

#[test]
fn closed_flushes_held_bytes() {
    // A partial CSI held for rewriting must not be swallowed when the PTY
    // closes mid-sequence.
    let mut h = Handler::new(80, 24);
    let mut out = Vec::new();
    h.init(b"", &mut out);
    out.clear();
    h.on_pty_event(PtyEvent::Stream { data: b"\x1b[5;10" }, &mut out);
    assert_eq!(out, b"", "partial CSI must be held");
    h.on_pty_event(PtyEvent::Closed, &mut out);
    assert_eq!(out, b"\x1b[5;10", "Closed must flush the held bytes");
}

#[test]
fn cleanup_flushes_then_releases_region() {
    let mut h = Handler::new(80, 24);
    let mut out = Vec::new();
    h.init(b"", &mut out);
    out.clear();
    h.on_pty_event(PtyEvent::Stream { data: b"ab\xc3" }, &mut out); // partial é
    out.clear();
    h.cleanup(&mut out);
    assert_eq!(out, b"\xc3\x1b[r", "cleanup must flush the carry before releasing the region");
}

#[test]
fn screen_setup_sets_region_then_clears() {
    // init/Refresh use this: DECSTBM (which homes) followed by ED2 so
    // stale client content never survives a (re)attach. We test the
    // injector method directly because handler.init consults the real
    // terminal size, which is (0,0) in the test environment.
    let mut wi = Injector::new(80, 24);
    let mut out = Vec::new();
    wi.emit_screen_setup(&mut out);
    assert_eq!(out, b"\x1b[1;24r\x1b[2J");
}

#[test]
fn falls_back_to_cell_when_client_too_small_on_resize() {
    // Server grows wider than the client on resize -> hand off to cell mode.
    // get_terminal_size() reads the real terminal; to keep this deterministic
    // we drive the Resize arm with a server size guaranteed larger than any
    // plausible test terminal.
    let mut h = Handler::new(80, 24);
    let mut out = Vec::new();
    let r = h.on_pty_event(PtyEvent::Resize { cols: 100_000, rows: 100_000 }, &mut out);
    match r {
        EventResult::ChangeRenderMode(RenderMode::Cell) => {}
        _ => panic!("expected fallback to Cell"),
    }
}

#[test]
fn taller_client_scrolls_at_server_bottom() {
    // Server 4x3, client 10x6: the region setup must make the client
    // scroll at row 3, keeping the last three lines in rows 0..2.
    let mut wi = Injector::new(4, 3);
    let mut out = Vec::new();
    wi.emit_screen_setup(&mut out);
    wi.process(b"a\r\nb\r\nc\r\nd\r\ne", &mut out);
    let mut client = Terminal::new(10, 6);
    client.vt_write(&out);
    assert_eq!(screen_rows(&client, 10, 6), vec!["c", "d", "e", "", "", ""]);
    assert!(client.y <= 2);
}

#[test]
fn client_resize_restores_region_and_scrolling() {
    // A client window resize resets the client's scroll margins; the
    // restore emitted for SIGWINCH must re-establish the region (and the
    // cursor position) so subsequent output keeps scrolling at the
    // server's last row instead of walking into the extra client rows.
    let mut wi = Injector::new(4, 3);
    let mut out = Vec::new();
    wi.emit_screen_setup(&mut out);
    wi.process(b"a\r\nb\r\nc", &mut out);
    let mut client = Terminal::new(10, 6);
    client.vt_write(&out);

    // The user makes the client window even taller: margins reset.
    client.resize(10, 8);
    out.clear();
    wi.restore_client_region(&mut out);
    client.vt_write(&out);

    out.clear();
    wi.process(b"\r\nd\r\ne", &mut out);
    client.vt_write(&out);
    assert_eq!(
        screen_rows(&client, 10, 8),
        vec!["c", "d", "e", "", "", "", "", ""],
        "output must keep scrolling inside the server's 3 rows"
    );
    assert!(client.y <= 2);
}

#[test]
fn restore_preserves_app_scroll_region() {
    // The app set its own DECSTBM; the restore must re-emit that region,
    // not the full-server one.
    let mut wi = Injector::new(80, 24);
    let mut out = Vec::new();
    wi.emit_screen_setup(&mut out);
    wi.process(b"\x1b[5;20r\x1b[10;3H", &mut out);
    out.clear();
    wi.restore_client_region(&mut out);
    assert_eq!(out, b"\x1b[5;20r\x1b[10;3H");
}

#[test]
fn restore_cursor_is_region_relative_under_decom() {
    // With origin mode on, the restoring CUP must be relative to the
    // region top (absolute row 10 inside a region starting at row 5 is
    // region-relative row 6).
    let mut wi = Injector::new(80, 24);
    let mut out = Vec::new();
    wi.emit_screen_setup(&mut out);
    wi.process(b"\x1b[5;20r\x1b[?6h\x1b[6;3H", &mut out);
    out.clear();
    wi.restore_client_region(&mut out);
    assert_eq!(out, b"\x1b[5;20r\x1b[6;3H");
}

#[test]
fn handler_paints_and_repaints() {
    let mut h = Handler::new(4, 3);
    h.client = (10, 6);
    let mut out = Vec::new();
    assert_eq!(h.init(b"abcde", &mut out), EventResult::Continue);
    assert_eq!(out, b"\x1b[1;3r\x1b[2Jabcd\r\ne");
    out.clear();
    let refresh = PtyEvent::Refresh { cols: 5, rows: 4, data: b"abcdef" };
    assert_eq!(h.on_pty_event(refresh, &mut out), EventResult::Continue);
    assert_eq!(out, b"\x1b[1;4r\x1b[2Jabcde\r\nf");
    out.clear();
    assert_eq!(h.on_pty_event(PtyEvent::Resize { cols: 6, rows: 5 }, &mut out), EventResult::Continue);
    assert!(out.is_empty());
    assert_eq!((h.handler.server_cols, h.handler.server_rows), (6, 5));
    let too_large = PtyEvent::Refresh { cols: 11, rows: 4, data: b"x" };
    assert_eq!(h.on_pty_event(too_large, &mut out), EventResult::ChangeRenderMode(RenderMode::Cell));
    assert!(out.is_empty());
}

#[test]
fn handler_follows_the_window() {
    let mut h = Handler::new(4, 3);
    h.client = (10, 6);
    let mut out = Vec::new();
    h.init(b"ab", &mut out);
    out.clear();
    let (x, y) = (h.term.x, h.term.y);
    assert_eq!(h.handler.on_sigwinch(12, 7, x, y, false, &mut out), EventResult::RequestRefresh);
    assert_eq!(out, b"\x1b[1;3r\x1b[1;3H");
    out.clear();
    let cell = EventResult::ChangeRenderMode(RenderMode::Cell);
    assert_eq!(h.handler.on_sigwinch(3, 7, x, y, false, &mut out), cell);
    assert!(out.is_empty());
    h.handler = AutowrapHandler::new(20, 3);
    assert_eq!(h.init(b"ab", &mut out), cell);
}

#[test]
fn widths_of_units() {
    assert_eq!(unit_width(b"a"), 1);
    assert_eq!(unit_width("世".as_bytes()), 2);
    assert_eq!(unit_width("\u{301}".as_bytes()), 0);
    assert_eq!(unit_width(b"\xe4\xb8"), 1, "no codepoint");
    assert_eq!(unit_width(b"\x07"), 1, "a control character has no width");
    assert_eq!(unit_width(b""), 1);
}

#[test]
fn pieces_of_a_stream_make_no_difference() {
    let stream = "ab世cd\x1b[1;9refgh\x1b[!pij\x1bckl\u{301}mnop".as_bytes();
    let whole = run_bytes(4, 3, &[stream]);
    for cut in 0..stream.len() {
        assert_eq!(run_bytes(4, 3, &[&stream[..cut], &stream[cut..]]), whole);
    }
}

#[test]
fn a_margin_that_swallows_the_screen_starts_at_the_top() {
    assert_eq!(run_bytes(80, 24, &[b"\x1b[30;99r"]), b"\x1b[1;24r");
    assert_eq!(run_bytes(80, 24, &[b"\x1b[9;9r"]), b"\x1b[1;9r");
    assert_eq!(run_bytes(80, 24, &[b"\x1b[99999999999;3r"]), b"\x1b[1;3r", "too large a number counts as none");
}
