use termd::attach::cell::{
    render_dirty, CellHandler, CellPlan, CellStyle, CellView, Dirty, Rgb, RowView, ScreenView, Underline,
};
use termd::attach::{EventResult, PtyEvent, RenderMode};

const PLAIN: CellStyle = CellStyle {
    bold: false,
    faint: false,
    italic: false,
    underline: Underline::Absent,
    blink: false,
    inverse: false,
    invisible: false,
    strikethrough: false,
    overline: false,
};

fn cell(text: &str) -> CellView {
    CellView { text: text.to_string(), style: PLAIN, fg: None, bg: None }
}

/// A terminal that knows plain text only, and which of its rows changed since it was painted.
struct LocalTerminal {
    grid: Vec<Vec<Option<char>>>,
    changed: Vec<bool>,
    all_changed: bool,
    x: usize,
}

impl LocalTerminal {
    fn new(cols: usize, rows: usize) -> Self {
        LocalTerminal {
            grid: vec![vec![None; cols]; rows],
            changed: vec![false; rows],
            all_changed: true,
            x: 0,
        }
    }

    fn resize(&mut self, cols: usize, rows: usize) {
        for row in self.grid.iter_mut() {
            row.resize(cols, None);
        }
        self.grid.resize(rows, vec![None; cols]);
        self.changed.resize(rows, false);
        self.all_changed = true;
    }

    fn vt_write(&mut self, data: &[u8]) {
        for &b in data {
            self.grid[0][self.x] = Some(b as char);
            self.changed[0] = true;
            self.x += 1;
        }
    }

    /// The screen as it is, which counts as painted from here on.
    fn view(&mut self) -> ScreenView {
        let dirty = if self.all_changed {
            Dirty::Full
        } else if self.changed.contains(&true) {
            Dirty::Partial
        } else {
            Dirty::Clean
        };
        let rows = self
            .grid
            .iter()
            .zip(self.changed.iter())
            .map(|(row, &dirty)| RowView {
                dirty,
                cells: row.iter().map(|c| cell(&c.map(String::from).unwrap_or_default())).collect(),
            })
            .collect();
        self.all_changed = false;
        self.changed.fill(false);
        ScreenView {
            dirty,
            rows,
            cursor_visible: Some(true),
            viewport_cursor: None,
            cursor_x: Some(self.x as u16),
            cursor_y: Some(0),
        }
    }

    fn render(&mut self, force_full: bool, out: &mut Vec<u8>) -> bool {
        let view = self.view();
        render_dirty(&view, force_full, out)
    }
}

/// A `CellHandler` with its terminal, on a client of an unknown size.
struct Handler {
    handler: CellHandler,
    lt: LocalTerminal,
}

impl Handler {
    fn new(cols: u32, rows: u32, upgrade_to: Option<RenderMode>) -> Self {
        Handler {
            handler: CellHandler::new(cols, rows, upgrade_to),
            lt: LocalTerminal::new(cols as usize, rows as usize),
        }
    }

    fn init(&mut self, data: &[u8], buffered: &[(u64, Vec<u8>)], out: &mut Vec<u8>) -> EventResult {
        self.lt.vt_write(data);
        let screen = self.lt.view();
        let mut updates = Vec::new();
        for (_, data) in buffered {
            self.lt.vt_write(data);
            updates.push(self.lt.view());
        }
        self.handler.init(&screen, &updates, out)
    }

    fn on_pty_event(&mut self, event: PtyEvent, out: &mut Vec<u8>) -> EventResult {
        let data: &[u8] = match event {
            PtyEvent::Stream { data } => data,
            PtyEvent::Refresh { data, .. } => data,
            _ => b"",
        };
        match self.handler.on_pty_event(&event, 0, 0) {
            CellPlan::Keep => {}
            CellPlan::Change(mode) => return EventResult::ChangeRenderMode(mode),
            CellPlan::Write => {
                self.lt.vt_write(data);
                self.lt.render(false, out);
            }
            CellPlan::Redraw { cols, rows } => {
                self.lt.resize(cols as usize, rows as usize);
                self.lt.vt_write(data);
                self.lt.render(true, out);
            }
            CellPlan::Resize { cols, rows } => self.lt.resize(cols as usize, rows as usize),
        }
        EventResult::Continue
    }

    fn on_sigwinch(&mut self, cols: u32, rows: u32, out: &mut Vec<u8>) -> EventResult {
        let screen = self.lt.view();
        self.handler.on_sigwinch(cols, rows, &screen, out)
    }
}

#[test]
fn cell_render_dirty_produces_no_output_when_clean() {
    let mut lt = LocalTerminal::new(80, 24);
    let mut out = Vec::new();
    lt.render(false, &mut out);
    out.clear();
    let changed = lt.render(false, &mut out);
    assert!(!changed, "clean terminal should produce no output");
    assert!(out.is_empty());
}

#[test]
fn cell_render_dirty_emits_only_changed_rows() {
    let mut lt = LocalTerminal::new(80, 24);
    let mut out = Vec::new();
    lt.render(false, &mut out);
    out.clear();

    lt.vt_write(b"Hello");

    let changed = lt.render(false, &mut out);
    assert!(changed);
    let s = String::from_utf8_lossy(&out);
    assert!(s.contains("\x1b[1;1H"), "row 1 cursor-goto expected");
    assert!(!s.contains("\x1b[2;1H"), "row 2 should not be rendered");
}

#[test]
fn cell_force_full_renders_all_rows() {
    let mut lt = LocalTerminal::new(80, 24);
    let mut out = Vec::new();
    lt.render(false, &mut out);
    out.clear();

    let changed = lt.render(true, &mut out);
    assert!(changed, "force_full should always produce output");
    let s = String::from_utf8_lossy(&out);
    assert!(s.contains("\x1b[1;1H"));
    assert!(s.contains("\x1b[24;1H"));
}

#[test]
fn cell_init_renders_content() {
    let mut h = Handler::new(80, 24, None);
    let mut out = Vec::new();
    let result = h.init(b"Hello", &[], &mut out);
    assert!(matches!(result, EventResult::Continue));
    assert!(!out.is_empty(), "init should render refresh data");
}

#[test]
fn cell_init_replays_buffered() {
    let mut h = Handler::new(80, 24, None);
    let mut out = Vec::new();
    h.init(b"", &[], &mut out);
    let initial_len = out.len();

    let buffered = vec![(2, b"World".to_vec())];
    out.clear();
    let mut h2 = Handler::new(80, 24, None);
    h2.init(b"", &buffered, &mut out);
    assert!(out.len() > initial_len, "init with buffered should produce more output");
}

#[test]
fn cell_stream_renders_dirty() {
    let mut h = Handler::new(80, 24, None);
    let mut out = Vec::new();
    h.init(b"", &[], &mut out);
    out.clear();

    let result = h.on_pty_event(PtyEvent::Stream { data: b"Test" }, &mut out);
    assert!(matches!(result, EventResult::Continue));
    assert!(!out.is_empty(), "stream data should produce render output");
}

#[test]
fn cell_refresh_resizes_and_renders() {
    let mut h = Handler::new(80, 24, None);
    let mut out = Vec::new();
    h.init(b"", &[], &mut out);
    out.clear();

    let result = h.on_pty_event(
        PtyEvent::Refresh { cols: 100, rows: 30, data: b"New" },
        &mut out,
    );
    assert!(matches!(result, EventResult::Continue));
    assert!(!out.is_empty());
}

#[test]
fn cell_no_upgrade_when_not_allowed() {
    let mut h = Handler::new(80, 24, None);
    let mut out = Vec::new();
    h.init(b"", &[], &mut out);
    out.clear();

    let result = h.on_pty_event(
        PtyEvent::Refresh { cols: 80, rows: 24, data: b"content" },
        &mut out,
    );
    assert!(matches!(result, EventResult::Continue));
}

#[test]
fn cell_sigwinch_re_renders() {
    let mut h = Handler::new(80, 24, None);
    let mut out = Vec::new();
    h.init(b"Hello", &[], &mut out);
    out.clear();

    let result = h.on_sigwinch(120, 40, &mut out);
    assert!(matches!(result, EventResult::Continue));
    assert!(!out.is_empty());
}

#[test]
fn attach_render_dirty_produces_no_output_when_clean() {
    let mut lt = LocalTerminal::new(80, 24);
    // Initial render to clear the startup-dirty state
    let mut out = Vec::new();
    lt.render(false, &mut out);
    out.clear();
    // No changes — second render should produce nothing
    let changed = lt.render(false, &mut out);
    assert!(!changed, "clean terminal should produce no render output");
    assert!(out.is_empty());
}

#[test]
fn attach_render_dirty_emits_only_changed_rows() {
    let mut lt = LocalTerminal::new(80, 24);
    // Clear initial dirty state
    let mut out = Vec::new();
    lt.render(false, &mut out);
    out.clear();

    // Write text — lands on row 0 (ANSI row 1)
    lt.vt_write(b"Hello");

    let changed = lt.render(false, &mut out);
    assert!(changed);
    let s = String::from_utf8_lossy(&out);
    assert!(s.contains("\x1b[1;1H"), "row 1 cursor position expected");
    assert!(!s.contains("\x1b[2;1H"), "row 2 should not be re-rendered");
}

#[test]
fn attach_force_full_renders_all_rows() {
    let mut lt = LocalTerminal::new(80, 24);
    // Clear initial dirty state
    let mut out = Vec::new();
    lt.render(false, &mut out);
    out.clear();

    // Force full repaint with no terminal changes
    let changed = lt.render(true, &mut out);
    assert!(changed, "force_full should produce output even with no changes");
    let s = String::from_utf8_lossy(&out);
    // All 24 rows should appear
    assert!(s.contains("\x1b[1;1H"));
    assert!(s.contains("\x1b[24;1H"));
}

fn screen(dirty: Dirty, rows: Vec<RowView>) -> ScreenView {
    ScreenView {
        dirty,
        rows,
        cursor_visible: Some(false),
        viewport_cursor: Some((2, 3)),
        cursor_x: Some(9),
        cursor_y: Some(9),
    }
}

#[test]
fn cells_exactly() {
    let mut bold = cell("x");
    bold.style.bold = true;
    bold.style.underline = Underline::Curly;
    bold.fg = Some(Rgb { r: 1, g: 20, b: 255 });
    let mut blank = cell("");
    blank.bg = Some(Rgb { r: 7, g: 8, b: 9 });
    let rows = vec![
        RowView { dirty: false, cells: vec![cell("no")] },
        RowView { dirty: true, cells: vec![bold, cell(""), blank, cell("é")] },
    ];
    let mut out = Vec::new();
    assert!(render_dirty(&screen(Dirty::Partial, rows), false, &mut out));
    assert_eq!(
        String::from_utf8(out).unwrap(),
        "\x1b[?7l\x1b[2;1H\x1b[0;1;4;38;2;1;20;255mx \x1b[0;48;2;7;8;9m \x1b[0mé\x1b[0m\x1b[?7h\x1b[?25l\x1b[4;3H"
    );
}

#[test]
fn every_attribute() {
    let mut c = cell("x");
    c.style = CellStyle {
        bold: true,
        faint: true,
        italic: true,
        underline: Underline::Double,
        blink: true,
        inverse: true,
        invisible: true,
        strikethrough: true,
        overline: true,
    };
    let rows = vec![RowView { dirty: false, cells: vec![c] }];
    let mut view = screen(Dirty::Full, rows);
    view.cursor_visible = None;
    view.viewport_cursor = None;
    view.cursor_x = None;
    let mut out = Vec::new();
    assert!(render_dirty(&view, false, &mut out));
    assert_eq!(
        String::from_utf8(out).unwrap(),
        "\x1b[2J\x1b[H\x1b[?7l\x1b[1;1H\x1b[0;1;2;3;21;5;7;8;9;53mx\x1b[0m\x1b[?7h\x1b[?25h\x1b[10;1H"
    );
}

#[test]
fn rows_that_did_not_change_add_nothing() {
    let row = |dirty| RowView { dirty, cells: vec![cell("a")] };
    let mut with = Vec::new();
    let mut without = Vec::new();
    render_dirty(&screen(Dirty::Partial, vec![row(true), row(false), row(false)]), false, &mut with);
    render_dirty(&screen(Dirty::Partial, vec![row(true)]), false, &mut without);
    assert_eq!(with, without);
}

#[test]
fn a_better_mode_takes_over_once_the_screen_fits() {
    let mut h = CellHandler::new(80, 24, Some(RenderMode::Region));
    let refresh = PtyEvent::Refresh { cols: 100, rows: 30, data: b"" };
    assert_eq!(h.on_pty_event(&refresh, 99, 30), CellPlan::Redraw { cols: 100, rows: 30 });
    assert_eq!(h.on_pty_event(&refresh, 100, 30), CellPlan::Change(RenderMode::Region));
    let resize = PtyEvent::Resize { cols: 90, rows: 20 };
    assert_eq!(h.on_pty_event(&resize, 10, 10), CellPlan::Resize { cols: 90, rows: 20 });
    assert_eq!((h.server_cols, h.server_rows), (90, 20));
    assert_eq!(h.on_pty_event(&resize, 90, 20), CellPlan::Change(RenderMode::Region));
    assert_eq!(h.on_pty_event(&PtyEvent::Closed, 90, 20), CellPlan::Keep);
    let mut out = Vec::new();
    let view = screen(Dirty::Clean, Vec::new());
    assert_eq!(h.on_sigwinch(90, 20, &view, &mut out), EventResult::ChangeRenderMode(RenderMode::Region));
    assert!(out.is_empty());
    assert_eq!(h.on_sigwinch(89, 20, &view, &mut out), EventResult::Continue);
    assert!(!out.is_empty());
}
