//! Rendering cell by cell from a copy of the server's screen, on a client of any size.
use super::csi::push_csi_pair;
#[allow(unused_imports)]
use super::csi::{csi_pair, law_pair_bytes};
#[allow(unused_imports)]
use super::fits;
use super::{server_fits_client, EventResult, PtyEvent, RenderMode};
#[allow(unused_imports)]
use crate::text::{bytes_of, decimal, is_digit, law_decimal_reads_back, lemma_append_assoc, lemma_split_first,
    split_on};
use crate::text::{push_decimal, push_str};
use vstd::prelude::*;
#[allow(unused_imports)]
use vstd::utf8::*;

verus! {

/// How much of a screen changed since it was painted last.
#[derive(Clone, Copy, Debug, PartialEq, Eq, Structural)]
pub enum Dirty {
    Clean,
    Partial,
    Full,
}

/// How text is underlined.
#[derive(Clone, Copy, Debug, PartialEq, Eq, Structural)]
pub enum Underline {
    Absent,
    Single,
    Double,
    Curly,
    Dotted,
    Dashed,
}

/// A colour by its parts.
#[derive(Clone, Copy, Debug, PartialEq, Eq, Structural)]
pub struct Rgb {
    pub r: u8,
    pub g: u8,
    pub b: u8,
}

/// The attributes of a cell's text.
#[derive(Clone, Copy, Debug, PartialEq, Eq, Structural)]
pub struct CellStyle {
    pub bold: bool,
    pub faint: bool,
    pub italic: bool,
    pub underline: Underline,
    pub blink: bool,
    pub inverse: bool,
    pub invisible: bool,
    pub strikethrough: bool,
    pub overline: bool,
}

/// One cell: its text, empty where nothing was written, and how it looks.
pub struct CellView {
    pub text: String,
    pub style: CellStyle,
    pub fg: Option<Rgb>,
    pub bg: Option<Rgb>,
}

/// One row of cells, and whether it changed.
pub struct RowView {
    pub dirty: bool,
    pub cells: Vec<CellView>,
}

/// A screen as it is to be painted. What a terminal could not tell is `None`.
pub struct ScreenView {
    pub dirty: Dirty,
    pub rows: Vec<RowView>,
    pub cursor_visible: Option<bool>,
    /// The cursor's column and row within the viewport.
    pub viewport_cursor: Option<(u16, u16)>,
    pub cursor_x: Option<u16>,
    pub cursor_y: Option<u16>,
}

/// `s` where `on`, nothing otherwise.
pub open spec fn when(on: bool, s: &str) -> Seq<u8> {
    if on {
        bytes_of(s)
    } else {
        Seq::empty()
    }
}

/// The parameters that select a colour, after `kind`, which says foreground or background.
pub open spec fn color_params(kind: &str, color: Option<Rgb>) -> Seq<u8> {
    match color {
        Some(c) => bytes_of(kind) + decimal(c.r as nat) + bytes_of(";") + decimal(c.g as nat) + bytes_of(
            ";",
        ) + decimal(c.b as nat),
        None => Seq::empty(),
    }
}

/// The parameter for an underline: all but the double one look the same.
pub open spec fn underline_params(u: Underline) -> Seq<u8> {
    match u {
        Underline::Absent => Seq::empty(),
        Underline::Double => bytes_of(";21"),
        _ => bytes_of(";4"),
    }
}

/// The parameters for all attributes of a style, in ascending order.
pub open spec fn style_params(s: CellStyle) -> Seq<u8> {
    when(s.bold, ";1") + when(s.faint, ";2") + when(s.italic, ";3") + underline_params(s.underline) + when(
        s.blink,
        ";5",
    ) + when(s.inverse, ";7") + when(s.invisible, ";8") + when(s.strikethrough, ";9") + when(
        s.overline,
        ";53",
    )
}

/// What paints a cell: a blank, with its background where it has one; or the attributes and
/// colours from scratch, and the text.
pub open spec fn cell_output(c: CellView) -> Seq<u8> {
    if c.text@.len() == 0 {
        match c.bg {
            Some(_) => bytes_of("\x1b[0") + color_params(";48;2;", c.bg) + bytes_of("m "),
            None => bytes_of(" "),
        }
    } else {
        bytes_of("\x1b[0") + style_params(c.style) + color_params(";38;2;", c.fg) + color_params(
            ";48;2;",
            c.bg,
        ) + bytes_of("m") + bytes_of_string(c.text)
    }
}

/// The UTF-8 bytes of a `String`.
pub open spec fn bytes_of_string(s: String) -> Seq<u8> {
    vstd::utf8::encode_utf8(s@)
}

/// What paints a sequence of cells.
pub open spec fn cells_output(cells: Seq<CellView>) -> Seq<u8>
    decreases cells.len(),
{
    if cells.len() == 0 {
        Seq::empty()
    } else {
        cells_output(cells.drop_last()) + cell_output(cells.last())
    }
}

/// The rows that are painted: all of them, or those that changed.
pub open spec fn is_painted(full: bool, row: RowView) -> bool {
    full || row.dirty
}

/// What paints the rows: each from its first column.
pub open spec fn rows_output(full: bool, rows: Seq<RowView>) -> Seq<u8>
    decreases rows.len(),
{
    if rows.len() == 0 {
        Seq::empty()
    } else {
        rows_output(full, rows.drop_last()) + (if is_painted(full, rows.last()) {
            csi_pair(rows.len() as u32, 1, "H") + cells_output(rows.last().cells@)
        } else {
            Seq::empty()
        })
    }
}

/// Where the cursor goes: its place in the viewport, or else on the screen, or else the corner.
pub open spec fn cursor_column(view: ScreenView) -> u16 {
    match view.viewport_cursor {
        Some(c) => c.0,
        None => match view.cursor_x {
            Some(x) => x,
            None => 0,
        },
    }
}

pub open spec fn cursor_row(view: ScreenView) -> u16 {
    match view.viewport_cursor {
        Some(c) => c.1,
        None => match view.cursor_y {
            Some(y) => y,
            None => 0,
        },
    }
}

/// What is painted again: everything where that is forced.
pub open spec fn dirty_of(view: ScreenView, force_full: bool) -> Dirty {
    if force_full {
        Dirty::Full
    } else {
        view.dirty
    }
}

/// What paints a screen. Line wrapping is off meanwhile, so that a full line does not run over;
/// the cursor is placed at the end.
pub open spec fn screen_output(view: ScreenView, force_full: bool) -> Seq<u8> {
    let full = dirty_of(view, force_full) == Dirty::Full;
    when(full, "\x1b[2J\x1b[H") + bytes_of("\x1b[?7l") + rows_output(full, view.rows@) + bytes_of(
        "\x1b[0m\x1b[?7h",
    ) + (if view.cursor_visible == Some(false) {
        bytes_of("\x1b[?25l")
    } else {
        bytes_of("\x1b[?25h")
    }) + csi_pair((cursor_row(view) + 1) as u32, (cursor_column(view) + 1) as u32, "H")
}

/// Appends `s` where `on`.
fn push_when(out: &mut Vec<u8>, on: bool, s: &str)
    ensures
        final(out)@ == old(out)@ + when(on, s),
{
    if on {
        push_str(out, s);
    } else {
        assert(out@ + Seq::<u8>::empty() =~= out@);
    }
}

/// Appends the parameters that select a colour.
fn push_color(out: &mut Vec<u8>, kind: &str, color: Option<Rgb>)
    ensures
        final(out)@ == old(out)@ + color_params(kind, color),
{
    let ghost before = out@;
    if let Some(c) = color {
        push_str(out, kind);
        push_decimal(out, c.r as u64);
        push_str(out, ";");
        push_decimal(out, c.g as u64);
        push_str(out, ";");
        push_decimal(out, c.b as u64);
    }
    assert(out@ =~= before + color_params(kind, color));
}

/// Appends the parameters for all attributes of a style.
fn push_style(out: &mut Vec<u8>, s: CellStyle)
    ensures
        final(out)@ == old(out)@ + style_params(s),
{
    broadcast use crate::text::lemma_append_assoc;

    push_when(out, s.bold, ";1");
    push_when(out, s.faint, ";2");
    push_when(out, s.italic, ";3");
    match s.underline {
        Underline::Absent => {
            assert(out@ + Seq::<u8>::empty() =~= out@);
        },
        Underline::Double => push_str(out, ";21"),
        _ => push_str(out, ";4"),
    }
    push_when(out, s.blink, ";5");
    push_when(out, s.inverse, ";7");
    push_when(out, s.invisible, ";8");
    push_when(out, s.strikethrough, ";9");
    push_when(out, s.overline, ";53");
}

/// Paints a cell.
fn push_cell(out: &mut Vec<u8>, cell: &CellView)
    ensures
        final(out)@ == old(out)@ + cell_output(*cell),
{
    let ghost before = out@;
    if cell.text.as_str().is_empty() {
        if cell.bg.is_some() {
            push_str(out, "\x1b[0");
            push_color(out, ";48;2;", cell.bg);
            push_str(out, "m ");
        } else {
            push_str(out, " ");
        }
    } else {
        push_str(out, "\x1b[0");
        push_style(out, cell.style);
        push_color(out, ";38;2;", cell.fg);
        push_color(out, ";48;2;", cell.bg);
        push_str(out, "m");
        push_str(out, cell.text.as_str());
    }
    assert(out@ =~= before + cell_output(*cell));
}

/// Paints all cells of a row.
fn push_cells(out: &mut Vec<u8>, cells: &Vec<CellView>)
    ensures
        final(out)@ == old(out)@ + cells_output(cells@),
{
    let ghost before = out@;
    let mut i: usize = 0;
    assert(before + cells_output(cells@.take(0)) =~= before);
    while i < cells.len()
        invariant
            i <= cells.len(),
            out@ == before + cells_output(cells@.take(i as int)),
        decreases cells.len() - i,
    {
        push_cell(out, &cells[i]);
        assert(cells@.take(i + 1).drop_last() =~= cells@.take(i as int));
        assert(out@ =~= before + cells_output(cells@.take(i + 1)));
        i = i + 1;
    }
    assert(cells@.take(i as int) =~= cells@);
}

/// True when a row is painted.
pub fn row_painted(dirty: Dirty, row_dirty: bool) -> (yes: bool)
    ensures
        yes == (dirty == Dirty::Full || row_dirty),
{
    dirty == Dirty::Full || row_dirty
}

/// Paints what changed, or everything where that is forced. Returns whether anything was painted.
pub fn render_dirty(view: &ScreenView, force_full: bool, out: &mut Vec<u8>) -> (painted: bool)
    requires
        view.rows.len() <= u32::MAX,
    ensures
        painted == (dirty_of(*view, force_full) != Dirty::Clean),
        final(out)@ == old(out)@ + (if painted {
            screen_output(*view, force_full)
        } else {
            Seq::empty()
        }),
{
    let ghost before = out@;
    let dirty = if force_full { Dirty::Full } else { view.dirty };
    if dirty == Dirty::Clean {
        assert(out@ =~= before + Seq::<u8>::empty());
        return false;
    }
    let full = dirty == Dirty::Full;
    push_when(out, full, "\x1b[2J\x1b[H");
    let cursor_visible = match view.cursor_visible {
        Some(visible) => visible,
        None => true,
    };
    let (x, y): (u16, u16) = match view.viewport_cursor {
        Some(c) => (c.0, c.1),
        None => (
            match view.cursor_x {
                Some(x) => x,
                None => 0,
            },
            match view.cursor_y {
                Some(y) => y,
                None => 0,
            },
        ),
    };
    push_str(out, "\x1b[?7l");
    let ghost start = out@;
    let mut i: usize = 0;
    assert(start + rows_output(full, view.rows@.take(0)) =~= start);
    while i < view.rows.len()
        invariant
            i <= view.rows.len() <= u32::MAX,
            full == (dirty == Dirty::Full),
            out@ == start + rows_output(full, view.rows@.take(i as int)),
        decreases view.rows.len() - i,
    {
        let ghost was = out@;
        let ghost next = view.rows@.take(i + 1);
        assert(next.drop_last() =~= view.rows@.take(i as int));
        if row_painted(dirty, view.rows[i].dirty) {
            push_csi_pair(out, i as u32 + 1, 1, "H");
            push_cells(out, &view.rows[i].cells);
        }
        assert(out@ =~= start + rows_output(full, next));
        i = i + 1;
    }
    assert(view.rows@.take(i as int) =~= view.rows@);
    push_str(out, "\x1b[0m\x1b[?7h");
    if cursor_visible {
        push_str(out, "\x1b[?25h");
    } else {
        push_str(out, "\x1b[?25l");
    }
    push_csi_pair(out, y as u32 + 1, x as u32 + 1, "H");
    proof {
        broadcast use crate::text::lemma_append_assoc;

    }
    true
}

/// Renders from a copy of the server's screen.
pub struct CellHandler {
    pub upgrade_to: Option<RenderMode>,
    pub server_cols: u32,
    pub server_rows: u32,
}

/// What the copy of the screen has to do for an event, and what follows.
#[derive(Clone, Copy, Debug, PartialEq, Eq, Structural)]
pub enum CellPlan {
    /// Nothing.
    Keep,
    /// Hand over to a mode that the client's size now allows.
    Change(RenderMode),
    /// Take the event's data, and paint what changed.
    Write,
    /// Change its size, take the event's data, and paint everything.
    Redraw { cols: u32, rows: u32 },
    /// Change its size.
    Resize { cols: u32, rows: u32 },
}

/// The mode that takes over on a client of this size, if one may.
pub open spec fn upgrade(
    upgrade_to: Option<RenderMode>,
    server_cols: u32,
    server_rows: u32,
    client_cols: u32,
    client_rows: u32,
) -> Option<RenderMode> {
    if fits(server_cols, server_rows, client_cols, client_rows) {
        upgrade_to
    } else {
        None
    }
}

/// What an event asks for on a client of this size.
pub open spec fn cell_plan(
    upgrade_to: Option<RenderMode>,
    event: PtyEvent,
    client_cols: u32,
    client_rows: u32,
) -> CellPlan {
    match event {
        PtyEvent::Stream { .. } => CellPlan::Write,
        PtyEvent::Refresh { cols, rows, .. } => match upgrade(
            upgrade_to,
            cols,
            rows,
            client_cols,
            client_rows,
        ) {
            Some(mode) => CellPlan::Change(mode),
            None => CellPlan::Redraw { cols, rows },
        },
        PtyEvent::Resize { cols, rows } => match upgrade(
            upgrade_to,
            cols,
            rows,
            client_cols,
            client_rows,
        ) {
            Some(mode) => CellPlan::Change(mode),
            None => CellPlan::Resize { cols, rows },
        },
        PtyEvent::Closed => CellPlan::Keep,
    }
}

/// What painting the screens one after the other writes, each by what changed.
pub open spec fn updates_output(views: Seq<ScreenView>) -> Seq<u8>
    decreases views.len(),
{
    if views.len() == 0 {
        Seq::empty()
    } else {
        updates_output(views.drop_last()) + (if views.last().dirty != Dirty::Clean {
            screen_output(views.last(), false)
        } else {
            Seq::empty()
        })
    }
}

impl CellHandler {
    pub fn new(cols: u32, rows: u32, upgrade_to: Option<RenderMode>) -> (handler: Self)
        ensures
            handler == (CellHandler { upgrade_to, server_cols: cols, server_rows: rows }),
    {
        CellHandler { upgrade_to, server_cols: cols, server_rows: rows }
    }

    /// Paints the screen as it was after the snapshot, and then the changes of what came after
    /// it. `updates` holds the screen after each such chunk.
    pub fn init(&mut self, screen: &ScreenView, updates: &[ScreenView], out: &mut Vec<u8>) -> (result: EventResult)
        requires
            screen.rows.len() <= u32::MAX,
            forall|i: int| 0 <= i < updates.len() ==> (#[trigger] updates[i]).rows.len() <= u32::MAX,
        ensures
            *final(self) == *old(self),
            result == EventResult::Continue,
            final(out)@ == old(out)@ + screen_output(*screen, true) + updates_output(updates@),
    {
        render_dirty(screen, true, out);
        let ghost start = out@;
        let mut i: usize = 0;
        assert(start + updates_output(updates@.take(0)) =~= start);
        while i < updates.len()
            invariant
                i <= updates.len(),
                forall|i: int| 0 <= i < updates.len() ==> (#[trigger] updates[i]).rows.len() <= u32::MAX,
                out@ == start + updates_output(updates@.take(i as int)),
            decreases updates.len() - i,
        {
            let ghost was = out@;
            let ghost next = updates@.take(i + 1);
            assert(next.drop_last() =~= updates@.take(i as int));
            render_dirty(&updates[i], false, out);
            assert(out@ =~= start + updates_output(next));
            i = i + 1;
        }
        assert(updates@.take(i as int) =~= updates@);
        EventResult::Continue
    }

    /// Decides what an event asks for, and takes note of the server's size.
    pub fn on_pty_event(&mut self, event: &PtyEvent, client_cols: u32, client_rows: u32) -> (plan: CellPlan)
        ensures
            plan == cell_plan(old(self).upgrade_to, *event, client_cols, client_rows),
            final(self).upgrade_to == old(self).upgrade_to,
            match *event {
                PtyEvent::Refresh { cols, rows, .. } => final(self).server_cols == cols && final(self).server_rows
                    == rows,
                PtyEvent::Resize { cols, rows } => final(self).server_cols == cols && final(self).server_rows
                    == rows,
                _ => final(self).server_cols == old(self).server_cols && final(self).server_rows == old(self).server_rows,
            },
    {
        match *event {
            PtyEvent::Stream { .. } => CellPlan::Write,
            PtyEvent::Refresh { cols, rows, .. } => {
                self.server_cols = cols;
                self.server_rows = rows;
                match self.takes_over(client_cols, client_rows) {
                    Some(mode) => CellPlan::Change(mode),
                    None => CellPlan::Redraw { cols, rows },
                }
            },
            PtyEvent::Resize { cols, rows } => {
                self.server_cols = cols;
                self.server_rows = rows;
                match self.takes_over(client_cols, client_rows) {
                    Some(mode) => CellPlan::Change(mode),
                    None => CellPlan::Resize { cols, rows },
                }
            },
            PtyEvent::Closed => CellPlan::Keep,
        }
    }

    /// The mode that takes over on a client of this size, if one may.
    fn takes_over(&self, client_cols: u32, client_rows: u32) -> (mode: Option<RenderMode>)
        ensures
            mode == upgrade(self.upgrade_to, self.server_cols, self.server_rows, client_cols, client_rows),
    {
        if server_fits_client(self.server_cols, self.server_rows, client_cols, client_rows) {
            self.upgrade_to
        } else {
            None
        }
    }

    /// Follows a new size of the client's terminal: another mode takes over where it may, and
    /// otherwise everything is painted again.
    pub fn on_sigwinch(&mut self, cols: u32, rows: u32, screen: &ScreenView, out: &mut Vec<u8>) -> (result: EventResult)
        requires
            screen.rows.len() <= u32::MAX,
        ensures
            *final(self) == *old(self),
            match upgrade(old(self).upgrade_to, old(self).server_cols, old(self).server_rows, cols, rows) {
                Some(mode) => result == EventResult::ChangeRenderMode(mode) && final(out)@ == old(out)@,
                None => result == EventResult::Continue && final(out)@ == old(out)@ + screen_output(
                    *screen,
                    true,
                ),
            },
    {
        match self.takes_over(cols, rows) {
            Some(mode) => EventResult::ChangeRenderMode(mode),
            None => {
                render_dirty(screen, true, out);
                EventResult::Continue
            },
        }
    }
}

/// Law: rows that did not change add nothing to what is painted.
pub proof fn law_clean_rows_add_nothing(rows: Seq<RowView>, more: Seq<RowView>)
    requires
        forall|i: int| 0 <= i < more.len() ==> !(#[trigger] more[i]).dirty,
    ensures
        rows_output(false, rows + more) == rows_output(false, rows),
    decreases more.len(),
{
    if more.len() > 0 {
        let less = more.drop_last();
        assert forall|i: int| 0 <= i < less.len() implies !(#[trigger] less[i]).dirty by {
            assert(less[i] == more[i]);
        }
        law_clean_rows_add_nothing(rows, less);
        assert((rows + more).drop_last() =~= rows + less);
        assert((rows + more).last() == more.last());
        assert(!more[more.len() - 1].dirty);
        assert(rows_output(false, rows) + Seq::<u8>::empty() =~= rows_output(false, rows));
    } else {
        assert(rows + more =~= rows);
    }
}

/// Law: a screen on which every row changed is painted the same whether that is forced or not, but
/// for the clearing.
pub proof fn law_full_paints_every_row(rows: Seq<RowView>)
    requires
        forall|i: int| 0 <= i < rows.len() ==> (#[trigger] rows[i]).dirty,
    ensures
        rows_output(true, rows) == rows_output(false, rows),
    decreases rows.len(),
{
    if rows.len() > 0 {
        let less = rows.drop_last();
        assert forall|i: int| 0 <= i < less.len() implies (#[trigger] less[i]).dirty by {
            assert(less[i] == rows[i]);
        }
        law_full_paints_every_row(less);
        assert(rows[rows.len() - 1].dirty);
    }
}

/// Some pieces one behind the other.
spec fn joined(pieces: Seq<Seq<u8>>) -> Seq<u8>
    decreases pieces.len(),
{
    if pieces.len() == 0 {
        Seq::empty()
    } else {
        joined(pieces.drop_last()) + pieces.last()
    }
}

proof fn lemma_joined_one(piece: Seq<u8>)
    ensures
        joined(seq![piece]) == piece,
{
    reveal_with_fuel(joined, 2);
    assert(seq![piece].drop_last() =~= Seq::<Seq<u8>>::empty());
    assert(joined(seq![piece]) =~= piece);
}

proof fn lemma_joined_add(a: Seq<Seq<u8>>, b: Seq<Seq<u8>>)
    ensures
        joined(a + b) == joined(a) + joined(b),
    decreases b.len(),
{
    if b.len() == 0 {
        assert(a + b =~= a);
        assert(joined(a) + Seq::<u8>::empty() =~= joined(a));
    } else {
        assert((a + b).drop_last() =~= a + b.drop_last());
        lemma_joined_add(a, b.drop_last());
        assert(joined(a + b) =~= joined(a) + joined(b));
    }
}

/// The parameters of a style, piece by piece.
spec fn style_pieces(s: CellStyle) -> Seq<Seq<u8>> {
    seq![
        when(s.bold, ";1"),
        when(s.faint, ";2"),
        when(s.italic, ";3"),
        underline_params(s.underline),
        when(s.blink, ";5"),
        when(s.inverse, ";7"),
        when(s.invisible, ";8"),
        when(s.strikethrough, ";9"),
        when(s.overline, ";53"),
    ]
}

proof fn lemma_style_pieces(s: CellStyle)
    ensures
        joined(style_pieces(s)) == style_params(s),
{
    let p = style_pieces(s);
    assert(p.drop_last() =~= p.take(8));
    assert(p.take(8).drop_last() =~= p.take(7));
    assert(p.take(7).drop_last() =~= p.take(6));
    assert(p.take(6).drop_last() =~= p.take(5));
    assert(p.take(5).drop_last() =~= p.take(4));
    assert(p.take(4).drop_last() =~= p.take(3));
    assert(p.take(3).drop_last() =~= p.take(2));
    assert(p.take(2).drop_last() =~= p.take(1));
    assert(p.take(1) =~= seq![when(s.bold, ";1")]);
    lemma_joined_one(when(s.bold, ";1"));
    assert(joined(p.take(2)) == joined(p.take(1)) + p[1]);
    assert(joined(p.take(3)) == joined(p.take(2)) + p[2]);
    assert(joined(p.take(4)) == joined(p.take(3)) + p[3]);
    assert(joined(p.take(5)) == joined(p.take(4)) + p[4]);
    assert(joined(p.take(6)) == joined(p.take(5)) + p[5]);
    assert(joined(p.take(7)) == joined(p.take(6)) + p[6]);
    assert(joined(p.take(8)) == joined(p.take(7)) + p[7]);
}

/// What paints a cell with text, piece by piece.
spec fn cell_pieces(c: CellView) -> Seq<Seq<u8>> {
    seq![bytes_of("\x1b[0")] + style_pieces(c.style) + seq![
        color_params(";38;2;", c.fg),
        color_params(";48;2;", c.bg),
        bytes_of("m"),
        bytes_of_string(c.text),
    ]
}

proof fn lemma_cell_pieces(c: CellView)
    requires
        c.text@.len() > 0,
    ensures
        joined(cell_pieces(c)) == cell_output(c),
{
    let intro = seq![bytes_of("\x1b[0")];
    let style = style_pieces(c.style);
    let fg = color_params(";38;2;", c.fg);
    let bg = color_params(";48;2;", c.bg);
    let rest = seq![fg, bg, bytes_of("m"), bytes_of_string(c.text)];
    lemma_style_pieces(c.style);
    lemma_joined_add(intro, style);
    lemma_joined_add(intro + style, rest);
    lemma_joined_one(bytes_of("\x1b[0"));
    assert(rest.drop_last() =~= seq![fg, bg, bytes_of("m")]);
    assert(seq![fg, bg, bytes_of("m")].drop_last() =~= seq![fg, bg]);
    assert(seq![fg, bg].drop_last() =~= seq![fg]);
    lemma_joined_one(fg);
    assert(joined(seq![fg, bg]) == fg + bg);
    assert(joined(seq![fg, bg, bytes_of("m")]) == fg + bg + bytes_of("m"));
    assert(joined(rest) == fg + bg + bytes_of("m") + bytes_of_string(c.text));
    assert(cell_output(c) =~= bytes_of("\x1b[0") + style_params(c.style) + joined(rest));
}

/// The bytes `a` with `part` put in at a place.
pub open spec fn with_part(a: Seq<u8>, part: Seq<u8>, at: int) -> Seq<u8> {
    a.take(at) + part + a.skip(at)
}

/// Filling one empty piece puts it in where that piece stands.
proof fn lemma_joined_update(pieces: Seq<Seq<u8>>, k: int, part: Seq<u8>)
    requires
        0 <= k < pieces.len(),
        pieces[k].len() == 0,
    ensures
        joined(pieces.take(k)).len() <= joined(pieces).len(),
        joined(pieces.update(k, part)) == with_part(joined(pieces), part, joined(pieces.take(k)).len() as int),
{
    let filled = pieces.update(k, part);
    let head = pieces.take(k);
    let tail = pieces.skip(k + 1);
    assert(pieces =~= head + seq![pieces[k]] + tail);
    assert(filled =~= head + seq![part] + tail);
    lemma_joined_add(head, seq![pieces[k]]);
    lemma_joined_add(head + seq![pieces[k]], tail);
    lemma_joined_add(head, seq![part]);
    lemma_joined_add(head + seq![part], tail);
    lemma_joined_one(pieces[k]);
    lemma_joined_one(part);
    assert(joined(pieces) =~= joined(head) + joined(tail));
    assert(joined(pieces).take(joined(head).len() as int) =~= joined(head));
    assert(joined(pieces).skip(joined(head).len() as int) =~= joined(tail));
    assert(joined(filled) =~= joined(head) + part + joined(tail));
}

/// True when `on` is `off` with a parameter put in behind the introducer `ESC [ 0` and before the `m`
/// that the text of the cell follows.
pub open spec fn shows(c: CellView, off: Seq<u8>, part: Seq<u8>, on: Seq<u8>) -> bool {
    exists|at: int|
        3 <= at <= off.len() - 1 - bytes_of_string(c.text).len() && on == #[trigger] with_part(off, part, at)
}

/// A cell that differs from another in one piece, which is empty there.
proof fn lemma_piece(off: CellView, on: CellView, k: int, part: Seq<u8>)
    requires
        1 <= k <= 11,
        off.text == on.text,
        off.text@.len() > 0,
        cell_pieces(off)[k].len() == 0,
        cell_pieces(on) == cell_pieces(off).update(k, part),
    ensures
        shows(off, cell_output(off), part, cell_output(on)),
{
    let pieces = cell_pieces(off);
    lemma_cell_pieces(off);
    lemma_cell_pieces(on);
    lemma_joined_update(pieces, k, part);
    lemma_sgr_bytes();
    let at = joined(pieces.take(k)).len() as int;
    // The introducer stands before it.
    let first = pieces.take(1);
    lemma_joined_add(first, pieces.subrange(1, k));
    assert(first + pieces.subrange(1, k) =~= pieces.take(k));
    lemma_joined_one(bytes_of("\x1b[0"));
    assert(first =~= seq![bytes_of("\x1b[0")]);
    // The end stands behind it.
    let last = pieces.skip(12);
    assert(last =~= seq![bytes_of("m"), bytes_of_string(off.text)]);
    assert(last.drop_last() =~= seq![bytes_of("m")]);
    lemma_joined_one(bytes_of("m"));
    assert(joined(last) =~= bytes_of("m") + bytes_of_string(off.text));
    lemma_joined_add(pieces.take(k), pieces.subrange(k, 12));
    assert(pieces.take(k) + pieces.subrange(k, 12) =~= pieces.take(12));
    lemma_joined_add(pieces.take(12), last);
    assert(pieces.take(12) + last =~= pieces);
    assert(cell_output(on) == with_part(cell_output(off), part, at));
}

/// The same, with the pieces held against each other one by one.
proof fn lemma_attribute(off: CellView, on: CellView, k: int, part: Seq<u8>)
    requires
        1 <= k <= 9,
        off.text == on.text,
        off.fg == on.fg,
        off.bg == on.bg,
        off.text@.len() > 0,
        style_pieces(off.style)[k - 1].len() == 0,
        style_pieces(on.style)[k - 1] == part,
        forall|i: int| 0 <= i < 9 && i != k - 1 ==> #[trigger] style_pieces(on.style)[i] == style_pieces(off.style)[i],
    ensures
        shows(off, cell_output(off), part, cell_output(on)),
{
    let a = style_pieces(off.style);
    let b = style_pieces(on.style);
    assert(b =~= a.update(k - 1, part));
    assert(cell_pieces(on) =~= cell_pieces(off).update(k, part));
    lemma_piece(off, on, k, part);
}

/// The parameters as bytes.
proof fn lemma_sgr_bytes()
    ensures
        bytes_of(";1") == seq![';' as u8, '1' as u8],
        bytes_of(";2") == seq![';' as u8, '2' as u8],
        bytes_of(";3") == seq![';' as u8, '3' as u8],
        bytes_of(";4") == seq![';' as u8, '4' as u8],
        bytes_of(";21") == seq![';' as u8, '2' as u8, '1' as u8],
        bytes_of(";5") == seq![';' as u8, '5' as u8],
        bytes_of(";7") == seq![';' as u8, '7' as u8],
        bytes_of(";8") == seq![';' as u8, '8' as u8],
        bytes_of(";9") == seq![';' as u8, '9' as u8],
        bytes_of(";53") == seq![';' as u8, '5' as u8, '3' as u8],
        bytes_of(";") == seq![';' as u8],
        bytes_of(";38;2;") == seq![';' as u8, '3' as u8, '8' as u8, ';' as u8, '2' as u8, ';' as u8],
        bytes_of(";48;2;") == seq![';' as u8, '4' as u8, '8' as u8, ';' as u8, '2' as u8, ';' as u8],
        bytes_of("m") == seq!['m' as u8],
        bytes_of("m ") == seq!['m' as u8, ' ' as u8],
        bytes_of(" ") == seq![' ' as u8],
        bytes_of("\x1b[0") == seq![0x1bu8, '[' as u8, '0' as u8],
{
    reveal_strlit(";1");
    is_ascii_chars_encode_utf8(";1"@);
    assert(bytes_of(";1") =~= seq![';' as u8, '1' as u8]);
    reveal_strlit(";2");
    is_ascii_chars_encode_utf8(";2"@);
    assert(bytes_of(";2") =~= seq![';' as u8, '2' as u8]);
    reveal_strlit(";3");
    is_ascii_chars_encode_utf8(";3"@);
    assert(bytes_of(";3") =~= seq![';' as u8, '3' as u8]);
    reveal_strlit(";4");
    is_ascii_chars_encode_utf8(";4"@);
    assert(bytes_of(";4") =~= seq![';' as u8, '4' as u8]);
    reveal_strlit(";21");
    is_ascii_chars_encode_utf8(";21"@);
    assert(bytes_of(";21") =~= seq![';' as u8, '2' as u8, '1' as u8]);
    reveal_strlit(";5");
    is_ascii_chars_encode_utf8(";5"@);
    assert(bytes_of(";5") =~= seq![';' as u8, '5' as u8]);
    reveal_strlit(";7");
    is_ascii_chars_encode_utf8(";7"@);
    assert(bytes_of(";7") =~= seq![';' as u8, '7' as u8]);
    reveal_strlit(";8");
    is_ascii_chars_encode_utf8(";8"@);
    assert(bytes_of(";8") =~= seq![';' as u8, '8' as u8]);
    reveal_strlit(";9");
    is_ascii_chars_encode_utf8(";9"@);
    assert(bytes_of(";9") =~= seq![';' as u8, '9' as u8]);
    reveal_strlit(";53");
    is_ascii_chars_encode_utf8(";53"@);
    assert(bytes_of(";53") =~= seq![';' as u8, '5' as u8, '3' as u8]);
    reveal_strlit(";");
    is_ascii_chars_encode_utf8(";"@);
    assert(bytes_of(";") =~= seq![';' as u8]);
    reveal_strlit(";38;2;");
    is_ascii_chars_encode_utf8(";38;2;"@);
    assert(bytes_of(";38;2;") =~= seq![';' as u8, '3' as u8, '8' as u8, ';' as u8, '2' as u8, ';' as u8]);
    reveal_strlit(";48;2;");
    is_ascii_chars_encode_utf8(";48;2;"@);
    assert(bytes_of(";48;2;") =~= seq![';' as u8, '4' as u8, '8' as u8, ';' as u8, '2' as u8, ';' as u8]);
    reveal_strlit("m");
    is_ascii_chars_encode_utf8("m"@);
    assert(bytes_of("m") =~= seq!['m' as u8]);
    reveal_strlit("m ");
    is_ascii_chars_encode_utf8("m "@);
    assert(bytes_of("m ") =~= seq!['m' as u8, ' ' as u8]);
    reveal_strlit(" ");
    is_ascii_chars_encode_utf8(" "@);
    assert(bytes_of(" ") =~= seq![' ' as u8]);
    reveal_strlit("\x1b[0");
    is_ascii_chars_encode_utf8("\x1b[0"@);
    assert(bytes_of("\x1b[0") =~= seq![0x1bu8, '[' as u8, '0' as u8]);
}

/// The parameters of a colour: three numbers behind the bytes that say what it colours.
pub open spec fn rgb_bytes(kind: Seq<u8>, color: Rgb) -> Seq<u8> {
    kind + decimal(color.r as nat) + seq![';' as u8] + decimal(color.g as nat) + seq![';' as u8] + decimal(
        color.b as nat,
    )
}

/// Law: a cell with text, but without attributes and colours, is painted as `ESC [ 0 m` and the text, so
/// that nothing of the cell before it shows.
pub proof fn law_plain_cells(c: CellView)
    requires
        c.text@.len() > 0,
    ensures
        ({
            let plain = CellStyle {
                bold: false,
                faint: false,
                italic: false,
                underline: Underline::Absent,
                blink: false,
                inverse: false,
                invisible: false,
                strikethrough: false,
                overline: false,
            };
            cell_output(CellView { style: plain, fg: None, bg: None, ..c }) == seq![
                0x1bu8,
                '[' as u8,
                '0' as u8,
                'm' as u8,
            ] + bytes_of_string(c.text)
        }),
{
    lemma_sgr_bytes();
    let plain = CellStyle {
        bold: false,
        faint: false,
        italic: false,
        underline: Underline::Absent,
        blink: false,
        inverse: false,
        invisible: false,
        strikethrough: false,
        overline: false,
    };
    assert(style_params(plain) =~= Seq::<u8>::empty());
    assert(cell_output(CellView { style: plain, fg: None, bg: None, ..c }) =~= seq![
        0x1bu8,
        '[' as u8,
        '0' as u8,
        'm' as u8,
    ] + bytes_of_string(c.text));
}

/// Law: each attribute adds its own parameter and nothing else, whatever the others are.
pub proof fn law_attributes_show(c: CellView)
    requires
        c.text@.len() > 0,
    ensures
        shows(
            c,
            cell_output(CellView { style: CellStyle { bold: false, ..c.style }, ..c }),
            seq![';' as u8, '1' as u8],
            cell_output(CellView { style: CellStyle { bold: true, ..c.style }, ..c }),
        ),
        shows(
            c,
            cell_output(CellView { style: CellStyle { faint: false, ..c.style }, ..c }),
            seq![';' as u8, '2' as u8],
            cell_output(CellView { style: CellStyle { faint: true, ..c.style }, ..c }),
        ),
        shows(
            c,
            cell_output(CellView { style: CellStyle { italic: false, ..c.style }, ..c }),
            seq![';' as u8, '3' as u8],
            cell_output(CellView { style: CellStyle { italic: true, ..c.style }, ..c }),
        ),
        shows(
            c,
            cell_output(CellView { style: CellStyle { blink: false, ..c.style }, ..c }),
            seq![';' as u8, '5' as u8],
            cell_output(CellView { style: CellStyle { blink: true, ..c.style }, ..c }),
        ),
        shows(
            c,
            cell_output(CellView { style: CellStyle { inverse: false, ..c.style }, ..c }),
            seq![';' as u8, '7' as u8],
            cell_output(CellView { style: CellStyle { inverse: true, ..c.style }, ..c }),
        ),
        shows(
            c,
            cell_output(CellView { style: CellStyle { invisible: false, ..c.style }, ..c }),
            seq![';' as u8, '8' as u8],
            cell_output(CellView { style: CellStyle { invisible: true, ..c.style }, ..c }),
        ),
        shows(
            c,
            cell_output(CellView { style: CellStyle { strikethrough: false, ..c.style }, ..c }),
            seq![';' as u8, '9' as u8],
            cell_output(CellView { style: CellStyle { strikethrough: true, ..c.style }, ..c }),
        ),
        shows(
            c,
            cell_output(CellView { style: CellStyle { overline: false, ..c.style }, ..c }),
            seq![';' as u8, '5' as u8, '3' as u8],
            cell_output(CellView { style: CellStyle { overline: true, ..c.style }, ..c }),
        ),
{
    lemma_bold(c);
    lemma_faint(c);
    lemma_italic(c);
    lemma_blink(c);
    lemma_inverse(c);
    lemma_invisible(c);
    lemma_strikethrough(c);
    lemma_overline(c);
}

proof fn lemma_bold(c: CellView)
    requires
        c.text@.len() > 0,
    ensures
        shows(
            c,
            cell_output(CellView { style: CellStyle { bold: false, ..c.style }, ..c }),
            seq![';' as u8, '1' as u8],
            cell_output(CellView { style: CellStyle { bold: true, ..c.style }, ..c }),
        ),
{
    let off = CellView { style: CellStyle { bold: false, ..c.style }, ..c };
    let on = CellView { style: CellStyle { bold: true, ..c.style }, ..c };
    assert(bytes_of(";1") == seq![';' as u8, '1' as u8]) by {
        lemma_sgr_bytes();
    }
    lemma_attribute(off, on, 1, seq![';' as u8, '1' as u8]);
}

proof fn lemma_faint(c: CellView)
    requires
        c.text@.len() > 0,
    ensures
        shows(
            c,
            cell_output(CellView { style: CellStyle { faint: false, ..c.style }, ..c }),
            seq![';' as u8, '2' as u8],
            cell_output(CellView { style: CellStyle { faint: true, ..c.style }, ..c }),
        ),
{
    let off = CellView { style: CellStyle { faint: false, ..c.style }, ..c };
    let on = CellView { style: CellStyle { faint: true, ..c.style }, ..c };
    assert(bytes_of(";2") == seq![';' as u8, '2' as u8]) by {
        lemma_sgr_bytes();
    }
    lemma_attribute(off, on, 2, seq![';' as u8, '2' as u8]);
}

proof fn lemma_italic(c: CellView)
    requires
        c.text@.len() > 0,
    ensures
        shows(
            c,
            cell_output(CellView { style: CellStyle { italic: false, ..c.style }, ..c }),
            seq![';' as u8, '3' as u8],
            cell_output(CellView { style: CellStyle { italic: true, ..c.style }, ..c }),
        ),
{
    let off = CellView { style: CellStyle { italic: false, ..c.style }, ..c };
    let on = CellView { style: CellStyle { italic: true, ..c.style }, ..c };
    assert(bytes_of(";3") == seq![';' as u8, '3' as u8]) by {
        lemma_sgr_bytes();
    }
    lemma_attribute(off, on, 3, seq![';' as u8, '3' as u8]);
}

proof fn lemma_blink(c: CellView)
    requires
        c.text@.len() > 0,
    ensures
        shows(
            c,
            cell_output(CellView { style: CellStyle { blink: false, ..c.style }, ..c }),
            seq![';' as u8, '5' as u8],
            cell_output(CellView { style: CellStyle { blink: true, ..c.style }, ..c }),
        ),
{
    let off = CellView { style: CellStyle { blink: false, ..c.style }, ..c };
    let on = CellView { style: CellStyle { blink: true, ..c.style }, ..c };
    assert(bytes_of(";5") == seq![';' as u8, '5' as u8]) by {
        lemma_sgr_bytes();
    }
    lemma_attribute(off, on, 5, seq![';' as u8, '5' as u8]);
}

proof fn lemma_inverse(c: CellView)
    requires
        c.text@.len() > 0,
    ensures
        shows(
            c,
            cell_output(CellView { style: CellStyle { inverse: false, ..c.style }, ..c }),
            seq![';' as u8, '7' as u8],
            cell_output(CellView { style: CellStyle { inverse: true, ..c.style }, ..c }),
        ),
{
    let off = CellView { style: CellStyle { inverse: false, ..c.style }, ..c };
    let on = CellView { style: CellStyle { inverse: true, ..c.style }, ..c };
    assert(bytes_of(";7") == seq![';' as u8, '7' as u8]) by {
        lemma_sgr_bytes();
    }
    lemma_attribute(off, on, 6, seq![';' as u8, '7' as u8]);
}

proof fn lemma_invisible(c: CellView)
    requires
        c.text@.len() > 0,
    ensures
        shows(
            c,
            cell_output(CellView { style: CellStyle { invisible: false, ..c.style }, ..c }),
            seq![';' as u8, '8' as u8],
            cell_output(CellView { style: CellStyle { invisible: true, ..c.style }, ..c }),
        ),
{
    let off = CellView { style: CellStyle { invisible: false, ..c.style }, ..c };
    let on = CellView { style: CellStyle { invisible: true, ..c.style }, ..c };
    assert(bytes_of(";8") == seq![';' as u8, '8' as u8]) by {
        lemma_sgr_bytes();
    }
    lemma_attribute(off, on, 7, seq![';' as u8, '8' as u8]);
}

proof fn lemma_strikethrough(c: CellView)
    requires
        c.text@.len() > 0,
    ensures
        shows(
            c,
            cell_output(CellView { style: CellStyle { strikethrough: false, ..c.style }, ..c }),
            seq![';' as u8, '9' as u8],
            cell_output(CellView { style: CellStyle { strikethrough: true, ..c.style }, ..c }),
        ),
{
    let off = CellView { style: CellStyle { strikethrough: false, ..c.style }, ..c };
    let on = CellView { style: CellStyle { strikethrough: true, ..c.style }, ..c };
    assert(bytes_of(";9") == seq![';' as u8, '9' as u8]) by {
        lemma_sgr_bytes();
    }
    lemma_attribute(off, on, 8, seq![';' as u8, '9' as u8]);
}

proof fn lemma_overline(c: CellView)
    requires
        c.text@.len() > 0,
    ensures
        shows(
            c,
            cell_output(CellView { style: CellStyle { overline: false, ..c.style }, ..c }),
            seq![';' as u8, '5' as u8, '3' as u8],
            cell_output(CellView { style: CellStyle { overline: true, ..c.style }, ..c }),
        ),
{
    let off = CellView { style: CellStyle { overline: false, ..c.style }, ..c };
    let on = CellView { style: CellStyle { overline: true, ..c.style }, ..c };
    assert(bytes_of(";53") == seq![';' as u8, '5' as u8, '3' as u8]) by {
        lemma_sgr_bytes();
    }
    lemma_attribute(off, on, 9, seq![';' as u8, '5' as u8, '3' as u8]);
}

/// Law: an underline adds its parameter and nothing else: a double one its own, every other one the same.
pub proof fn law_underlines_show(c: CellView, underline: Underline)
    requires
        c.text@.len() > 0,
        underline != Underline::Absent,
    ensures
        shows(
            c,
            cell_output(CellView { style: CellStyle { underline: Underline::Absent, ..c.style }, ..c }),
            if underline == Underline::Double {
                seq![';' as u8, '2' as u8, '1' as u8]
            } else {
                seq![';' as u8, '4' as u8]
            },
            cell_output(CellView { style: CellStyle { underline, ..c.style }, ..c }),
        ),
{
    lemma_sgr_bytes();
    let off = CellView { style: CellStyle { underline: Underline::Absent, ..c.style }, ..c };
    let on = CellView { style: CellStyle { underline, ..c.style }, ..c };
    let part = if underline == Underline::Double {
        seq![';' as u8, '2' as u8, '1' as u8]
    } else {
        seq![';' as u8, '4' as u8]
    };
    assert(cell_pieces(on) =~= cell_pieces(off).update(4, part));
    lemma_piece(off, on, 4, part);
}

/// Law: the colour of the text and the colour behind it show, whatever else the cell is: each adds its
/// parameters and nothing else. The colour behind the text comes last, directly before the `m`. A cell
/// without text is a blank, with the colour behind it where it has one.
pub proof fn law_colors_show(c: CellView, color: Rgb)
    ensures
        c.text@.len() > 0 ==> shows(
            c,
            cell_output(CellView { fg: None, ..c }),
            rgb_bytes(seq![';' as u8, '3' as u8, '8' as u8, ';' as u8, '2' as u8, ';' as u8], color),
            cell_output(CellView { fg: Some(color), ..c }),
        ),
        c.text@.len() > 0 ==> ({
            let off = cell_output(CellView { bg: None, ..c });
            let at = off.len() - 1 - bytes_of_string(c.text).len();
            &&& 3 <= at
            &&& off.skip(at) == seq!['m' as u8] + bytes_of_string(c.text)
            &&& cell_output(CellView { bg: Some(color), ..c }) == with_part(
                off,
                rgb_bytes(seq![';' as u8, '4' as u8, '8' as u8, ';' as u8, '2' as u8, ';' as u8], color),
                at,
            )
        }),
        c.text@.len() == 0 ==> {
            &&& cell_output(CellView { bg: None, ..c }) == seq![' ' as u8]
            &&& cell_output(CellView { bg: Some(color), ..c }) == seq![0x1bu8, '[' as u8, '0' as u8] + rgb_bytes(
                seq![';' as u8, '4' as u8, '8' as u8, ';' as u8, '2' as u8, ';' as u8],
                color,
            ) + seq!['m' as u8, ' ' as u8]
        },
{
    let fore = rgb_bytes(seq![';' as u8, '3' as u8, '8' as u8, ';' as u8, '2' as u8, ';' as u8], color);
    let back = rgb_bytes(seq![';' as u8, '4' as u8, '8' as u8, ';' as u8, '2' as u8, ';' as u8], color);
    lemma_color_bytes(color);
    if c.text@.len() > 0 {
        lemma_text_color(c, color, fore);
        lemma_back_color(c, color, back);
    } else {
        lemma_sgr_bytes();
    }
}

proof fn lemma_color_bytes(color: Rgb)
    ensures
        color_params(";38;2;", Some(color)) == rgb_bytes(
            seq![';' as u8, '3' as u8, '8' as u8, ';' as u8, '2' as u8, ';' as u8],
            color,
        ),
        color_params(";48;2;", Some(color)) == rgb_bytes(
            seq![';' as u8, '4' as u8, '8' as u8, ';' as u8, '2' as u8, ';' as u8],
            color,
        ),
{
    lemma_sgr_bytes();
}

proof fn lemma_text_color(c: CellView, color: Rgb, fore: Seq<u8>)
    requires
        c.text@.len() > 0,
        color_params(";38;2;", Some(color)) == fore,
    ensures
        shows(c, cell_output(CellView { fg: None, ..c }), fore, cell_output(CellView { fg: Some(color), ..c })),
{
    let dark = CellView { fg: None, ..c };
    let lit = CellView { fg: Some(color), ..c };
    assert(cell_pieces(lit) =~= cell_pieces(dark).update(10, fore));
    lemma_piece(dark, lit, 10, fore);
}

proof fn lemma_back_color(c: CellView, color: Rgb, back: Seq<u8>)
    requires
        c.text@.len() > 0,
        color_params(";48;2;", Some(color)) == back,
    ensures
        ({
            let off = cell_output(CellView { bg: None, ..c });
            let at = off.len() - 1 - bytes_of_string(c.text).len();
            &&& 3 <= at
            &&& off.skip(at) == seq!['m' as u8] + bytes_of_string(c.text)
            &&& cell_output(CellView { bg: Some(color), ..c }) == with_part(off, back, at)
        }),
{
    let off = CellView { bg: None, ..c };
    let on = CellView { bg: Some(color), ..c };
    let head = bytes_of("\x1b[0") + style_params(c.style) + color_params(";38;2;", c.fg);
    let text = bytes_of_string(c.text);
    let tail = seq!['m' as u8] + text;
    assert(bytes_of("m") == seq!['m' as u8] && bytes_of("\x1b[0").len() == 3) by {
        lemma_sgr_bytes();
    }
    assert(head + Seq::<u8>::empty() =~= head);
    lemma_append_assoc(head, bytes_of("m"), text);
    lemma_append_assoc(head + back, bytes_of("m"), text);
    assert(cell_output(off) == head + tail);
    assert(cell_output(on) == head + back + tail);
    let at = cell_output(off).len() - 1 - text.len();
    assert(cell_output(off).take(at) =~= head);
    assert(cell_output(off).skip(at) =~= tail);
}

/// The parameters of a colour tell it.
proof fn lemma_rgb_distinct(kind: Seq<u8>, a: Rgb, b: Rgb)
    requires
        rgb_bytes(kind, a) == rgb_bytes(kind, b),
    ensures
        a == b,
{
    let pa = rgb_bytes(kind, a).skip(kind.len() as int);
    let pb = rgb_bytes(kind, b).skip(kind.len() as int);
    lemma_rgb_fields(kind, a);
    lemma_rgb_fields(kind, b);
    assert(pa == pb);
    law_decimal_reads_back(a.r as u32);
    law_decimal_reads_back(a.g as u32);
    law_decimal_reads_back(a.b as u32);
    law_decimal_reads_back(b.r as u32);
    law_decimal_reads_back(b.g as u32);
    law_decimal_reads_back(b.b as u32);
    let f = split_on(pa, ';' as u8);
    assert(f[0] == decimal(a.r as nat) && f[0] == decimal(b.r as nat));
    assert(f[1] == decimal(a.g as nat) && f[1] == decimal(b.g as nat));
    assert(f[2] == decimal(a.b as nat) && f[2] == decimal(b.b as nat));
}

proof fn lemma_rgb_fields(kind: Seq<u8>, color: Rgb)
    ensures
        split_on(rgb_bytes(kind, color).skip(kind.len() as int), ';' as u8) == seq![
            decimal(color.r as nat),
            decimal(color.g as nat),
            decimal(color.b as nat),
        ],
{
    let r = decimal(color.r as nat);
    let g = decimal(color.g as nat);
    let b = decimal(color.b as nat);
    law_decimal_reads_back(color.r as u32);
    law_decimal_reads_back(color.g as u32);
    law_decimal_reads_back(color.b as u32);
    assert forall|i: int| 0 <= i < r.len() implies #[trigger] r[i] != ';' as u8 by {
        assert(is_digit(r[i]));
    }
    assert forall|i: int| 0 <= i < g.len() implies #[trigger] g[i] != ';' as u8 by {
        assert(is_digit(g[i]));
    }
    assert forall|i: int| 0 <= i < b.len() implies #[trigger] b[i] != ';' as u8 by {
        assert(is_digit(b[i]));
    }
    lemma_split_first(r, ';' as u8, g.push(';' as u8) + b);
    lemma_split_first(g, ';' as u8, b);
    lemma_split_first(b, ';' as u8, Seq::empty());
    assert(rgb_bytes(kind, color).skip(kind.len() as int) =~= r.push(';' as u8) + (g.push(';' as u8) + b));
    assert(seq![r] + (seq![g] + seq![b]) =~= seq![r, g, b]);
}

/// Law: two cells that differ only in the colour behind the text, with text or without, are painted by
/// different bytes; two cells with text that differ only in the colour of the text are, too.
pub proof fn law_colors_tell_cells_apart(c: CellView, one: Option<Rgb>, other: Option<Rgb>)
    requires
        one != other,
    ensures
        cell_output(CellView { bg: one, ..c }) != cell_output(CellView { bg: other, ..c }),
        c.text@.len() > 0 ==> cell_output(CellView { fg: one, ..c }) != cell_output(CellView { fg: other, ..c }),
{
    lemma_sgr_bytes();
    let fore = seq![';' as u8, '3' as u8, '8' as u8, ';' as u8, '2' as u8, ';' as u8];
    let back = seq![';' as u8, '4' as u8, '8' as u8, ';' as u8, '2' as u8, ';' as u8];
    lemma_params_tell_apart(";38;2;", fore, one, other);
    lemma_params_tell_apart(";48;2;", back, one, other);
    let p = color_params(";48;2;", one);
    let q = color_params(";48;2;", other);
    if c.text@.len() > 0 {
        let intro = bytes_of("\x1b[0") + style_params(c.style);
        let text = bytes_of_string(c.text);
        let fg = color_params(";38;2;", c.fg);
        lemma_append_assoc(intro + fg + p, bytes_of("m"), text);
        lemma_append_assoc(intro + fg + q, bytes_of("m"), text);
        lemma_middle(intro + fg, p, q, bytes_of("m") + text);
        let m = color_params(";38;2;", one);
        let n = color_params(";38;2;", other);
        let bg = color_params(";48;2;", c.bg);
        lemma_append_assoc(intro + m, bg, bytes_of("m"));
        lemma_append_assoc(intro + n, bg, bytes_of("m"));
        lemma_append_assoc(intro + m, bg + bytes_of("m"), text);
        lemma_append_assoc(intro + n, bg + bytes_of("m"), text);
        lemma_middle(intro, m, n, bg + bytes_of("m") + text);
    } else if one is Some && other is Some {
        lemma_middle(bytes_of("\x1b[0"), p, q, bytes_of("m "));
    } else if one is Some {
        assert(cell_output(CellView { bg: one, ..c }).len() > 1);
    } else {
        assert(cell_output(CellView { bg: other, ..c }).len() > 1);
    }
}

/// What stands between the same bytes tells two texts apart.
proof fn lemma_middle(head: Seq<u8>, p: Seq<u8>, q: Seq<u8>, tail: Seq<u8>)
    requires
        p != q,
    ensures
        head + p + tail != head + q + tail,
{
    let a = head + p + tail;
    let b = head + q + tail;
    if a == b {
        assert(p =~= a.subrange(head.len() as int, a.len() - tail.len()));
        assert(q =~= b.subrange(head.len() as int, b.len() - tail.len()));
    }
}

proof fn lemma_params_tell_apart(kind: &str, bytes: Seq<u8>, one: Option<Rgb>, other: Option<Rgb>)
    requires
        one != other,
        bytes_of(kind) == bytes,
        bytes.len() > 0,
        bytes_of(";") == seq![';' as u8],
    ensures
        color_params(kind, one) != color_params(kind, other),
{
    if let Some(a) = one {
        assert(color_params(kind, one) =~= rgb_bytes(bytes, a));
        assert(color_params(kind, one).len() > 0);
        if let Some(b) = other {
            assert(color_params(kind, other) =~= rgb_bytes(bytes, b));
            if color_params(kind, one) == color_params(kind, other) {
                lemma_rgb_distinct(bytes, a, b);
            }
        }
    } else if let Some(b) = other {
        assert(color_params(kind, other) =~= rgb_bytes(bytes, b));
        assert(color_params(kind, other).len() > 0);
    }
}

/// Law: cells are painted one behind the other, in their order.
pub proof fn law_cells_in_order(a: Seq<CellView>, b: Seq<CellView>, c: CellView)
    ensures
        cells_output(a + b) == cells_output(a) + cells_output(b),
        cells_output(seq![c]) == cell_output(c),
    decreases b.len(),
{
    assert(cells_output(seq![c]) == cell_output(c)) by {
        reveal_with_fuel(cells_output, 2);
        assert(seq![c].drop_last() =~= Seq::<CellView>::empty());
        assert(Seq::<u8>::empty() + cell_output(c) =~= cell_output(c));
    }
    if b.len() == 0 {
        assert(a + b =~= a);
        assert(cells_output(a) + Seq::<u8>::empty() =~= cells_output(a));
    } else {
        assert((a + b).drop_last() =~= a + b.drop_last());
        law_cells_in_order(a, b.drop_last(), c);
        lemma_append_assoc(cells_output(a), cells_output(b.drop_last()), cell_output(b.last()));
    }
}

/// Law: a row that is painted begins at the first column of its own line, the first row on the first
/// line; behind it come the rows below it. A row is painted where everything is, or where it changed.
pub proof fn law_rows_on_their_lines(full: bool, above: Seq<RowView>, row: RowView)
    requires
        above.len() < u32::MAX,
    ensures
        full || row.dirty ==> rows_output(full, above.push(row)) == rows_output(full, above) + (seq![
            0x1bu8,
            '[' as u8,
        ] + decimal(above.len() + 1) + seq![';' as u8, '1' as u8, 'H' as u8]) + cells_output(row.cells@),
        !full && !row.dirty ==> rows_output(full, above.push(row)) == rows_output(full, above),
{
    let rows = above.push(row);
    assert(rows.drop_last() =~= above);
    law_pair_bytes(rows.len() as u32, 1);
    assert(decimal(1) =~= seq!['1' as u8]);
    assert(csi_pair(rows.len() as u32, 1, "H") =~= seq![0x1bu8, '[' as u8] + decimal(above.len() + 1) + seq![
        ';' as u8,
        '1' as u8,
        'H' as u8,
    ]);
    assert(rows_output(full, above) + Seq::<u8>::empty() =~= rows_output(full, above));
    let line = csi_pair(rows.len() as u32, 1, "H");
    assert(rows_output(full, above) + (line + cells_output(row.cells@)) =~= rows_output(full, above) + line
        + cells_output(row.cells@));
}

/// Law: a screen is cleared first where all of it is painted, and only there. Lines do not run over while
/// its rows are painted. Behind them attributes and line wrapping are as they were, the cursor shows
/// unless it is hidden, and it stands where the server's stands: in the viewport, or else on the screen.
pub proof fn law_screen_frame(view: ScreenView, force_full: bool, x: u16, y: u16)
    requires
        view.viewport_cursor == Some((x, y)) || (view.viewport_cursor is None && view.cursor_x == Some(x)
            && view.cursor_y == Some(y)),
    ensures
        ({
            let full = force_full || view.dirty == Dirty::Full;
            let start = if full {
                bytes_of("\x1b[2J\x1b[H\x1b[?7l")
            } else {
                bytes_of("\x1b[?7l")
            };
            let shown = if view.cursor_visible == Some(false) {
                bytes_of("\x1b[0m\x1b[?7h\x1b[?25l")
            } else {
                bytes_of("\x1b[0m\x1b[?7h\x1b[?25h")
            };
            screen_output(view, force_full) == start + rows_output(full, view.rows@) + shown + csi_pair(
                (y + 1) as u32,
                (x + 1) as u32,
                "H",
            )
        }),
{
    lemma_frame_bytes();
    let full = force_full || view.dirty == Dirty::Full;
    let rows = rows_output(full, view.rows@);
    let at = csi_pair((y + 1) as u32, (x + 1) as u32, "H");
    let start = when(full, "\x1b[2J\x1b[H") + bytes_of("\x1b[?7l");
    assert(when(full, "\x1b[2J\x1b[H") + bytes_of("\x1b[?7l") =~= (if full {
        bytes_of("\x1b[2J\x1b[H\x1b[?7l")
    } else {
        bytes_of("\x1b[?7l")
    }));
    let visible = if view.cursor_visible == Some(false) {
        bytes_of("\x1b[?25l")
    } else {
        bytes_of("\x1b[?25h")
    };
    assert(start + rows + bytes_of("\x1b[0m\x1b[?7h") + visible + at =~= start + rows + (bytes_of(
        "\x1b[0m\x1b[?7h",
    ) + visible) + at);
}

proof fn lemma_frame_bytes()
    ensures
        bytes_of("\x1b[2J\x1b[H") + bytes_of("\x1b[?7l") == bytes_of("\x1b[2J\x1b[H\x1b[?7l"),
        bytes_of("\x1b[0m\x1b[?7h") + bytes_of("\x1b[?25l") == bytes_of("\x1b[0m\x1b[?7h\x1b[?25l"),
        bytes_of("\x1b[0m\x1b[?7h") + bytes_of("\x1b[?25h") == bytes_of("\x1b[0m\x1b[?7h\x1b[?25h"),
{
    reveal_strlit("\x1b[2J\x1b[H");
    reveal_strlit("\x1b[?7l");
    reveal_strlit("\x1b[2J\x1b[H\x1b[?7l");
    reveal_strlit("\x1b[0m\x1b[?7h");
    reveal_strlit("\x1b[?25l");
    reveal_strlit("\x1b[?25h");
    reveal_strlit("\x1b[0m\x1b[?7h\x1b[?25l");
    reveal_strlit("\x1b[0m\x1b[?7h\x1b[?25h");
    is_ascii_chars_encode_utf8("\x1b[2J\x1b[H"@);
    is_ascii_chars_encode_utf8("\x1b[?7l"@);
    is_ascii_chars_encode_utf8("\x1b[2J\x1b[H\x1b[?7l"@);
    is_ascii_chars_encode_utf8("\x1b[0m\x1b[?7h"@);
    is_ascii_chars_encode_utf8("\x1b[?25l"@);
    is_ascii_chars_encode_utf8("\x1b[?25h"@);
    is_ascii_chars_encode_utf8("\x1b[0m\x1b[?7h\x1b[?25l"@);
    is_ascii_chars_encode_utf8("\x1b[0m\x1b[?7h\x1b[?25h"@);
    assert(bytes_of("\x1b[2J\x1b[H") + bytes_of("\x1b[?7l") =~= bytes_of("\x1b[2J\x1b[H\x1b[?7l"));
    assert(bytes_of("\x1b[0m\x1b[?7h") + bytes_of("\x1b[?25l") =~= bytes_of("\x1b[0m\x1b[?7h\x1b[?25l"));
    assert(bytes_of("\x1b[0m\x1b[?7h") + bytes_of("\x1b[?25h") =~= bytes_of("\x1b[0m\x1b[?7h\x1b[?25h"));
}

/// Law: another mode takes over as soon as one may and the server's screen fits the client's in both
/// directions, and never otherwise. Else output is painted by what changed, a snapshot in full, and a
/// resize waits for its snapshot.
pub proof fn law_cell_plans(
    upgrade_to: Option<RenderMode>,
    cols: u32,
    rows: u32,
    client_cols: u32,
    client_rows: u32,
    data: &[u8],
)
    ensures
        ({
            let fitting = cols <= client_cols && rows <= client_rows;
            let refresh = cell_plan(upgrade_to, PtyEvent::Refresh { cols, rows, data }, client_cols, client_rows);
            let resize = cell_plan(upgrade_to, PtyEvent::Resize { cols, rows }, client_cols, client_rows);
            &&& fitting ==> (upgrade_to matches Some(mode) ==> refresh == CellPlan::Change(mode) && resize
                == CellPlan::Change(mode) && upgrade(upgrade_to, cols, rows, client_cols, client_rows) == Some(mode))
            &&& upgrade_to is None || !fitting ==> refresh == CellPlan::Redraw { cols, rows } && resize
                == CellPlan::Resize { cols, rows } && upgrade(upgrade_to, cols, rows, client_cols, client_rows) is None
            &&& cell_plan(upgrade_to, PtyEvent::Stream { data }, client_cols, client_rows) == CellPlan::Write
            &&& cell_plan(upgrade_to, PtyEvent::Closed, client_cols, client_rows) == CellPlan::Keep
        }),
{
}

/// Law: changes are painted one behind the other; a screen that did not change adds nothing.
pub proof fn law_updates_in_order(before: Seq<ScreenView>, view: ScreenView)
    ensures
        view.dirty == Dirty::Clean ==> updates_output(before.push(view)) == updates_output(before),
        view.dirty != Dirty::Clean ==> updates_output(before.push(view)) == updates_output(before) + screen_output(
            view,
            false,
        ),
        dirty_of(view, true) == Dirty::Full,
        dirty_of(view, false) == view.dirty,
{
    assert(before.push(view).drop_last() =~= before);
    assert(updates_output(before) + Seq::<u8>::empty() =~= updates_output(before));
}

/// Law: a screen of one row with one cell is painted with that cell's attributes, colours and text, on the
/// first line.
pub proof fn law_one_cell_is_painted(view: &ScreenView, out: &mut Vec<u8>, painted: bool, x: u16, y: u16)
    requires
        view.rows@.len() == 1,
        view.rows@[0].cells@.len() == 1,
        view.viewport_cursor == Some((x, y)),
        view.cursor_visible != Some(false),
        call_ensures(render_dirty, (view, true, out), painted),
    ensures
        painted,
        final(out)@ == old(out)@ + (bytes_of("\x1b[2J\x1b[H\x1b[?7l") + (seq![
            0x1bu8,
            '[' as u8,
            '1' as u8,
            ';' as u8,
            '1' as u8,
            'H' as u8,
        ] + cell_output(view.rows@[0].cells@[0])) + bytes_of("\x1b[0m\x1b[?7h\x1b[?25h") + csi_pair(
            (y + 1) as u32,
            (x + 1) as u32,
            "H",
        )),
{
    let row = view.rows@[0];
    let cell = row.cells@[0];
    law_screen_frame(*view, true, x, y);
    law_rows_on_their_lines(true, Seq::empty(), row);
    law_cells_in_order(Seq::empty(), Seq::empty(), cell);
    assert(Seq::empty().push(row) =~= view.rows@);
    assert(seq![cell] =~= row.cells@);
    assert(rows_output(true, Seq::empty()) =~= Seq::<u8>::empty());
    assert(decimal(1) =~= seq!['1' as u8]);
    assert(Seq::<u8>::empty() + (seq![0x1bu8, '[' as u8] + decimal(1) + seq![';' as u8, '1' as u8, 'H' as u8]) =~= seq![
        0x1bu8,
        '[' as u8,
        '1' as u8,
        ';' as u8,
        '1' as u8,
        'H' as u8,
    ]);
}

/// Law: a screen on which nothing changed is not painted, unless that is forced.
pub proof fn law_clean_screens_are_left(view: &ScreenView, force_full: bool, out: &mut Vec<u8>, painted: bool)
    requires
        view.rows@.len() <= u32::MAX,
        call_ensures(render_dirty, (view, force_full, out), painted),
    ensures
        painted == (force_full || view.dirty != Dirty::Clean),
        !painted ==> final(out)@ == old(out)@,
        painted ==> final(out)@ == old(out)@ + screen_output(*view, force_full),
{
    assert(old(out)@ + Seq::<u8>::empty() =~= old(out)@);
}

/// Law: every row is painted when all is, and otherwise those that changed.
pub proof fn law_painted_rows(dirty: Dirty, row_dirty: bool, yes: bool)
    requires
        call_ensures(row_painted, (dirty, row_dirty), yes),
    ensures
        dirty == Dirty::Full ==> yes,
        dirty != Dirty::Full ==> yes == row_dirty,
{
}

} // verus!
