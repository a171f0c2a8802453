//! Rendering on a wider client by writing out the line wraps that the server's terminal makes.
//!
//! A terminal of the server's size follows the stream byte by byte. What it shows after each byte
//! tells where a glyph wrapped, and there a line break goes into the output.
use super::csi::{end_margin, parse_params, push_csi_pair, start_margin};
#[allow(unused_imports)]
use super::csi::{csi_pair, law_margins_as_asked, law_pair_bytes, law_params_read_back, margin_end, margin_start,
    param_list};
#[allow(unused_imports)]
use super::fits;
use super::{server_fits_client, EventResult, PtyEvent, RenderMode};
#[allow(unused_imports)]
use crate::text::{bytes_of, decimal, is_digit, law_decimal_reads_back};
use crate::text::{push_bytes, push_decimal, push_str};
use vstd::prelude::*;
#[allow(unused_imports)]
use vstd::utf8::*;

verus! {

broadcast use vstd::string::group_string_axioms;

/// The columns that a character takes, as the `unicode-width` crate counts them: none for a
/// control character.
pub uninterp spec fn char_width(c: char) -> Option<usize>;

/// `unicode_width::UnicodeWidthChar::width`: one column for a printable ASCII character, nothing
/// for a control character, and for any other a number out of the crate's tables, which
/// `char_width` names. The tables hold bytes.
#[verifier::external_body]
fn width_of(c: char) -> (width: Option<usize>)
    ensures
        width == char_width(c),
        width is None <==> (c as u32) < 0x20 || (0x7f <= (c as u32) && (c as u32) < 0xa0),
        width is Some ==> width->0 <= 255,
        (0x20 <= (c as u32) && (c as u32) < 0x7f) ==> width == Some(1usize),
{
    unicode_width::UnicodeWidthChar::width(c)
}

/// What kind of unit is being read: a glyph, or a control sequence that is held back or already
/// streamed out.
#[derive(Clone, Copy, Debug, PartialEq, Eq, Structural)]
pub enum UnitKind {
    Printable,
    Control { streamed: bool },
}

/// What the following terminal shows after a byte: whether its parser stands between two units,
/// and where its cursor is.
#[derive(Clone, Copy, Debug, PartialEq, Eq, Structural)]
pub struct Seen {
    pub at_boundary: bool,
    pub x: u16,
    pub y: u16,
}

/// Control units are held only this long, enough for any sequence that is rewritten. Longer ones
/// stream out.
pub const CONTROL_HOLD_MAX: usize = 64;

/// Turns the server's stream into one that shows the same on any client at least as large.
pub struct WrapInjector {
    /// The bytes of the unit that is being read: a codepoint or an escape sequence.
    pub unit: Vec<u8>,
    pub kind: Option<UnitKind>,
    pub prev_x: u16,
    pub prev_y: u16,
    pub server_rows: u32,
    /// The scroll region that stands on the client, to be set again after its terminal changed
    /// size.
    pub region_top: u32,
    pub region_bottom: u32,
}

/// The state of a `WrapInjector`.
pub struct WrapModel {
    pub unit: Seq<u8>,
    pub kind: Option<UnitKind>,
    pub prev_x: u16,
    pub prev_y: u16,
    pub server_rows: u32,
    pub region_top: u32,
    pub region_bottom: u32,
}

/// The state after some bytes, and what was written.
pub struct WrapStep {
    pub next: WrapModel,
    pub out: Seq<u8>,
}

impl WrapModel {
    /// Between units nothing is held, and of a control unit only a short beginning. The region
    /// lies within the server's rows.
    pub open spec fn wf(self) -> bool {
        &&& match self.kind {
            None => self.unit.len() == 0,
            Some(UnitKind::Printable) => true,
            Some(UnitKind::Control { streamed }) => if streamed {
                self.unit.len() == 0
            } else {
                self.unit.len() <= CONTROL_HOLD_MAX
            },
        }
        &&& self.server_rows >= 1 ==> 1 <= self.region_top <= self.region_bottom <= self.server_rows
    }

    /// The same injector with another unit.
    pub open spec fn reading(self, unit: Seq<u8>, kind: Option<UnitKind>) -> WrapModel {
        WrapModel { unit, kind, ..self }
    }

    /// The same injector with another region.
    pub open spec fn scrolling(self, top: u32, bottom: u32) -> WrapModel {
        WrapModel { region_top: top, region_bottom: bottom, ..self }
    }
}

/// A fresh injector for a server with this many rows.
pub open spec fn wrap_start(server_rows: u32) -> WrapModel {
    WrapModel {
        unit: Seq::empty(),
        kind: None,
        prev_x: 0,
        prev_y: 0,
        server_rows,
        region_top: 1,
        region_bottom: server_rows,
    }
}

/// True for a unit that is one printable ASCII character.
pub open spec fn is_ascii_glyph(unit: Seq<u8>) -> bool {
    unit.len() == 1 && 0x20 <= unit[0] < 0x7f
}

/// The columns that the first codepoint of a unit takes: one for an ASCII character, and where there
/// is none or it has no width.
pub open spec fn unit_columns(unit: Seq<u8>) -> u16 {
    if is_ascii_glyph(unit) {
        1
    } else if valid_utf8(unit) && decode_utf8(unit).len() > 0 {
        match char_width(decode_utf8(unit)[0]) {
            Some(w) => w as u16,
            None => 1,
        }
    } else {
        1
    }
}

/// The kind of unit that a byte begins.
pub open spec fn kind_of(byte: u8) -> UnitKind {
    if byte >= 0x20 && byte != 0x7f {
        UnitKind::Printable
    } else {
        UnitKind::Control { streamed: false }
    }
}

/// A line break, followed by a move to the column where the glyph begins, unless that is the
/// first.
pub open spec fn line_break(x: u16, width: u16) -> Seq<u8> {
    bytes_of("\r\n") + (if x > width {
        bytes_of("\x1b[") + decimal((x - width + 1) as nat) + bytes_of("G")
    } else {
        Seq::empty()
    })
}

/// A cursor that moved down or back left since the last unit wrapped.
pub open spec fn wrapped(m: WrapModel, x: u16, y: u16) -> bool {
    y > m.prev_y || x < m.prev_x
}

/// What a complete glyph of `width` columns becomes: itself, after a line break where it wrapped.
pub open spec fn glyph_output(m: WrapModel, x: u16, y: u16, width: u16) -> Seq<u8> {
    if wrapped(m, x, y) {
        line_break(x, width) + m.unit
    } else {
        m.unit
    }
}

/// The sequence that sets the server's region on the client.
pub open spec fn wrap_region(server_rows: u32) -> Seq<u8> {
    csi_pair(1, server_rows, "r")
}

/// True for a held unit that is a control sequence with a final byte.
pub open spec fn is_csi(unit: Seq<u8>) -> bool {
    unit.len() >= 3 && unit[0] == 0x1b && unit[1] == '[' as u8
}

/// True for parameters that are all numbers.
pub open spec fn numeric(body: Seq<u8>) -> bool {
    forall|i: int| 0 <= i < body.len() ==> is_digit(#[trigger] body[i]) || body[i] == ';' as u8
}

/// What a complete, held control unit becomes: resets are followed by the region, and by the
/// cursor where they do not move it themselves; a region that a program sets is confined to the
/// server's rows; everything else stays as it is.
pub open spec fn control_output(m: WrapModel, x: u16, y: u16) -> WrapStep {
    let u = m.unit;
    let body = u.subrange(2, u.len() - 1);
    if u == bytes_of("\x1bc") {
        WrapStep { next: m.scrolling(1, m.server_rows), out: u + wrap_region(m.server_rows) }
    } else if is_csi(u) && u.last() == 'p' as u8 && body.len() > 0 && body[0] == '!' as u8 {
        WrapStep {
            next: m.scrolling(1, m.server_rows),
            out: u + wrap_region(m.server_rows) + csi_pair((y + 1) as u32, (x + 1) as u32, "H"),
        }
    } else if is_csi(u) && u.last() == 'r' as u8 && numeric(body) {
        let bottom = margin_end(param_list(body), m.server_rows);
        let top = margin_start(param_list(body), bottom);
        WrapStep { next: m.scrolling(top, bottom), out: csi_pair(top, bottom, "r") }
    } else {
        WrapStep { next: m, out: u }
    }
}

/// A byte as part of its unit, before it is known whether it completes it.
pub open spec fn unit_step(m: WrapModel, byte: u8) -> WrapStep {
    let kind = match m.kind {
        Some(k) => k,
        None => kind_of(byte),
    };
    let grown = m.unit.push(byte);
    match kind {
        UnitKind::Printable => WrapStep { next: m.reading(grown, Some(kind)), out: Seq::empty() },
        UnitKind::Control { streamed } => if streamed {
            WrapStep { next: m.reading(m.unit, Some(kind)), out: seq![byte] }
        } else if grown.len() > CONTROL_HOLD_MAX {
            WrapStep {
                next: m.reading(Seq::empty(), Some(UnitKind::Control { streamed: true })),
                out: grown,
            }
        } else {
            WrapStep { next: m.reading(grown, Some(kind)), out: Seq::empty() }
        },
    }
}

/// The end of a unit, with the cursor where the following terminal has it then.
pub open spec fn unit_end(m: WrapModel, x: u16, y: u16) -> WrapStep {
    let s = match m.kind {
        Some(UnitKind::Printable) => WrapStep {
            next: m.reading(Seq::empty(), None),
            out: glyph_output(m, x, y, unit_columns(m.unit)),
        },
        Some(UnitKind::Control { streamed: false }) => {
            let c = control_output(m, x, y);
            WrapStep { next: c.next.reading(Seq::empty(), None), out: c.out }
        },
        _ => WrapStep { next: m.reading(m.unit, None), out: Seq::empty() },
    };
    WrapStep { next: WrapModel { prev_x: x, prev_y: y, ..s.next }, out: s.out }
}

/// What one byte of the stream does, given what the following terminal shows after it.
pub open spec fn wrap_step(m: WrapModel, byte: u8, seen: Seen) -> WrapStep {
    let s = unit_step(m, byte);
    if seen.at_boundary {
        let e = unit_end(s.next, seen.x, seen.y);
        WrapStep { next: e.next, out: s.out + e.out }
    } else {
        s
    }
}

/// What a piece of the stream does.
pub open spec fn wrap_run(m: WrapModel, input: Seq<u8>, seen: Seq<Seen>) -> WrapStep
    decreases input.len(),
{
    if input.len() == 0 {
        WrapStep { next: m, out: Seq::empty() }
    } else {
        let s = wrap_step(m, input[0], seen[0]);
        let r = wrap_run(s.next, input.skip(1), seen.skip(1));
        WrapStep { next: r.next, out: s.out + r.out }
    }
}

/// No terminal has more than 65535 rows or columns, so its cursor stays below that.
pub open spec fn cursors_valid(seen: Seq<Seen>) -> bool {
    forall|i: int| 0 <= i < seen.len() ==> #[trigger] seen[i].x < u16::MAX && seen[i].y < u16::MAX
}

impl View for WrapInjector {
    type V = WrapModel;

    open spec fn view(&self) -> WrapModel {
        WrapModel {
            unit: self.unit@,
            kind: self.kind,
            prev_x: self.prev_x,
            prev_y: self.prev_y,
            server_rows: self.server_rows,
            region_top: self.region_top,
            region_bottom: self.region_bottom,
        }
    }
}

impl WrapInjector {
    pub fn new(server_rows: u32) -> (injector: Self)
        ensures
            injector@ == wrap_start(server_rows),
            injector@.wf(),
    {
        WrapInjector {
            unit: Vec::new(),
            kind: None,
            prev_x: 0,
            prev_y: 0,
            server_rows,
            region_top: 1,
            region_bottom: server_rows,
        }
    }

    /// Follows a resize of the following terminal, whose cursor is now at `x`, `y`. What is being
    /// read goes on; a resize drops the region; the cursor may have moved without a wrap.
    pub fn resize(&mut self, server_rows: u32, x: u16, y: u16)
        ensures
            final(self)@ == (WrapModel {
                prev_x: x,
                prev_y: y,
                server_rows,
                region_top: 1,
                region_bottom: server_rows,
                ..old(self)@
            }),
    {
        self.server_rows = server_rows;
        self.region_top = 1;
        self.region_bottom = server_rows;
        self.prev_x = x;
        self.prev_y = y;
    }

    /// Starts over with a fresh following terminal.
    pub fn reset(&mut self, server_rows: u32)
        ensures
            final(self)@ == wrap_start(server_rows),
    {
        self.unit.clear();
        self.kind = None;
        self.prev_x = 0;
        self.prev_y = 0;
        self.server_rows = server_rows;
        self.region_top = 1;
        self.region_bottom = server_rows;
        assert(self@.unit =~= Seq::<u8>::empty());
    }

    /// Sets the scroll region that the client must use: all of the server's rows.
    pub fn emit_region_setup(&mut self, out: &mut Vec<u8>)
        ensures
            final(self)@ == old(self)@.scrolling(1, old(self).server_rows),
            final(out)@ == old(out)@ + wrap_region(old(self).server_rows),
    {
        self.region_top = 1;
        self.region_bottom = self.server_rows;
        push_csi_pair(out, 1, self.server_rows, "r");
    }

    /// Sets the region and clears the screen, before a snapshot is painted.
    pub fn emit_screen_setup(&mut self, out: &mut Vec<u8>)
        ensures
            final(self)@ == old(self)@.scrolling(1, old(self).server_rows),
            final(out)@ == old(out)@ + wrap_region(old(self).server_rows) + bytes_of("\x1b[2J"),
    {
        self.emit_region_setup(out);
        push_str(out, "\x1b[2J");
    }

    /// Sets the region again after the client's terminal changed size, which resets it, and puts
    /// the cursor back to where the following terminal has it. With origin mode on, rows count
    /// from the top of the region.
    pub fn restore_client_region(&mut self, x: u16, y: u16, origin_mode: bool, out: &mut Vec<u8>)
        requires
            origin_mode ==> old(self).region_top <= y + 2,
        ensures
            final(self)@ == old(self)@,
            final(out)@ == old(out)@ + csi_pair(old(self).region_top, old(self).region_bottom, "r")
                + csi_pair(
                (if origin_mode {
                    y + 2 - old(self).region_top
                } else {
                    y + 1
                }) as u32,
                (x + 1) as u32,
                "H",
            ),
    {
        push_csi_pair(out, self.region_top, self.region_bottom, "r");
        let row: u32 = if origin_mode { y as u32 + 2 - self.region_top } else { y as u32 + 1 };
        push_csi_pair(out, row, x as u32 + 1, "H");
    }

    /// Writes the bytes that are held, at the end of the stream.
    pub fn flush(&mut self, out: &mut Vec<u8>)
        ensures
            final(self)@ == old(self)@.reading(Seq::empty(), None),
            final(out)@ == old(out)@ + old(self).unit@,
    {
        push_bytes(out, self.unit.as_slice());
        self.unit.clear();
        self.kind = None;
        assert(self@.unit =~= Seq::<u8>::empty());
    }

    /// Passes `input` on with line breaks where the following terminal wrapped. `seen` holds what
    /// that terminal showed after each byte.
    pub fn process(&mut self, input: &[u8], seen: &[Seen], out: &mut Vec<u8>)
        requires
            seen.len() == input.len(),
            cursors_valid(seen@),
        ensures
            final(self)@ == wrap_run(old(self)@, input@, seen@).next,
            final(out)@ == old(out)@ + wrap_run(old(self)@, input@, seen@).out,
    {
        let ghost before = out@;
        let ghost whole = wrap_run(self@, input@, seen@);
        let mut i: usize = 0;
        assert(input@.skip(0) =~= input@);
        assert(seen@.skip(0) =~= seen@);
        while i < input.len()
            invariant
                i <= input.len(),
                seen.len() == input.len(),
                cursors_valid(seen@),
                whole == wrap_run(old(self)@, input@, seen@),
                before == old(out)@,
                whole.next == wrap_run(self@, input@.skip(i as int), seen@.skip(i as int)).next,
                before + whole.out == out@ + wrap_run(
                    self@,
                    input@.skip(i as int),
                    seen@.skip(i as int),
                ).out,
            decreases input.len() - i,
        {
            let ghost rest = input@.skip(i as int);
            let ghost views = seen@.skip(i as int);
            let ghost was = out@;
            let ghost m = self@;
            assert(rest.skip(1) =~= input@.skip(i + 1));
            assert(views.skip(1) =~= seen@.skip(i + 1));
            self.step(input[i], seen[i], out);
            assert(was + (wrap_step(m, rest[0], views[0]).out + wrap_run(
                self@,
                input@.skip(i + 1),
                seen@.skip(i + 1),
            ).out) =~= out@ + wrap_run(self@, input@.skip(i + 1), seen@.skip(i + 1)).out);
            i = i + 1;
        }
        assert(out@ + Seq::<u8>::empty() =~= out@);
    }

    /// Takes one byte and what the following terminal shows after it.
    pub fn step(&mut self, byte: u8, seen: Seen, out: &mut Vec<u8>)
        requires
            seen.x < u16::MAX && seen.y < u16::MAX,
        ensures
            final(self)@ == wrap_step(old(self)@, byte, seen).next,
            final(out)@ == old(out)@ + wrap_step(old(self)@, byte, seen).out,
    {
        let ghost before = out@;
        let ghost m = self@;
        let kind = match self.kind {
            Some(kind) => kind,
            None => if byte >= 0x20 && byte != 0x7f {
                UnitKind::Printable
            } else {
                UnitKind::Control { streamed: false }
            },
        };
        self.kind = Some(kind);
        match kind {
            UnitKind::Printable => self.unit.push(byte),
            UnitKind::Control { streamed } => {
                if streamed {
                    out.push(byte);
                } else {
                    self.unit.push(byte);
                    if self.unit.len() > CONTROL_HOLD_MAX {
                        push_bytes(out, self.unit.as_slice());
                        self.unit.clear();
                        self.kind = Some(UnitKind::Control { streamed: true });
                    }
                }
            },
        }
        let ghost s = unit_step(m, byte);
        assert(self@.unit =~= s.next.unit);
        assert(out@ =~= before + s.out);
        if seen.at_boundary {
            self.finish_unit(seen.x, seen.y, out);
            assert(out@ =~= before + wrap_step(m, byte, seen).out);
        }
    }

    /// Ends the unit that was read.
    fn finish_unit(&mut self, x: u16, y: u16, out: &mut Vec<u8>)
        requires
            old(self).kind is Some,
            x < u16::MAX && y < u16::MAX,
        ensures
            final(self)@ == unit_end(old(self)@, x, y).next,
            final(out)@ == old(out)@ + unit_end(old(self)@, x, y).out,
    {
        let ghost before = out@;
        let ghost m = self@;
        match self.kind {
            Some(UnitKind::Printable) => {
                let width = unit_width(self.unit.as_slice());
                self.emit_glyph(x, y, width, out);
                self.unit.clear();
            },
            Some(UnitKind::Control { streamed: false }) => {
                self.rewrite_control(x, y, out);
                self.unit.clear();
            },
            _ => {},
        }
        self.kind = None;
        self.prev_x = x;
        self.prev_y = y;
        assert(self@.unit =~= unit_end(m, x, y).next.unit);
        assert(out@ =~= before + unit_end(m, x, y).out);
    }

    /// Writes the glyph that was read, `width` columns wide, after a line break where it wrapped.
    pub fn emit_glyph(&mut self, x: u16, y: u16, width: u16, out: &mut Vec<u8>)
        requires
            x < u16::MAX,
        ensures
            final(self)@ == old(self)@,
            final(out)@ == old(out)@ + glyph_output(old(self)@, x, y, width),
    {
        let ghost before = out@;
        if y > self.prev_y || x < self.prev_x {
            push_str(out, "\r\n");
            if x > width {
                push_str(out, "\x1b[");
                push_decimal(out, (x - width + 1) as u64);
                push_str(out, "G");
            }
            assert(out@ =~= before + line_break(x, width));
        }
        push_bytes(out, self.unit.as_slice());
        assert(out@ =~= before + glyph_output(self@, x, y, width));
    }

    /// Writes the control unit that was read, rewritten where it would upset the region.
    pub fn rewrite_control(&mut self, x: u16, y: u16, out: &mut Vec<u8>)
        requires
            x < u16::MAX && y < u16::MAX,
        ensures
            final(self)@ == control_output(old(self)@, x, y).next,
            final(out)@ == old(out)@ + control_output(old(self)@, x, y).out,
    {
        let ghost before = out@;
        let ghost m = self@;
        let ghost u = self.unit@;
        let ghost body = u.subrange(2, u.len() - 1);
        let len: usize = self.unit.len();
        proof {
            lemma_reset_bytes();
        }
        if len == 2 && self.unit[0] == 0x1b && self.unit[1] == 'c' as u8 {
            assert(u =~= seq![0x1bu8, 'c' as u8]);
            push_bytes(out, self.unit.as_slice());
            self.emit_region_setup(out);
            assert(out@ =~= before + control_output(m, x, y).out);
            return;
        }
        assert(u != bytes_of("\x1bc"));
        if len >= 3 && self.unit[0] == 0x1b && self.unit[1] == '[' as u8 {
            let fin = self.unit[len - 1];
            if fin == 'p' as u8 && len > 3 && self.unit[2] == '!' as u8 {
                assert(body[0] == u[2]);
                push_bytes(out, self.unit.as_slice());
                self.emit_region_setup(out);
                push_csi_pair(out, y as u32 + 1, x as u32 + 1, "H");
                assert(out@ =~= before + control_output(m, x, y).out);
                return;
            }
            assert(!(u.last() == 'p' as u8 && body.len() > 0 && body[0] == '!' as u8)) by {
                if body.len() > 0 {
                    assert(body[0] == u[2]);
                }
            }
            if fin == 'r' as u8 && is_numeric(&self.unit.as_slice()[2..len - 1]) {
                let params = parse_params(&self.unit.as_slice()[2..len - 1]);
                let bottom = end_margin(&params, self.server_rows);
                let top = start_margin(&params, bottom);
                self.region_top = top;
                self.region_bottom = bottom;
                push_csi_pair(out, top, bottom, "r");
                return;
            }
        }
        push_bytes(out, self.unit.as_slice());
    }
}

/// The bytes of the full reset.
proof fn lemma_reset_bytes()
    ensures
        bytes_of("\x1bc") == seq![0x1bu8, 'c' as u8],
{
    reveal_strlit("\x1bc");
    is_ascii_chars_encode_utf8("\x1bc"@);
    assert(bytes_of("\x1bc") =~= seq![0x1bu8, 'c' as u8]);
}

/// True when there are only digits and semicolons.
fn is_numeric(body: &[u8]) -> (yes: bool)
    ensures
        yes == numeric(body@),
{
    let mut i: usize = 0;
    while i < body.len()
        invariant
            i <= body.len(),
            forall|j: int| 0 <= j < i ==> is_digit(#[trigger] body@[j]) || body@[j] == ';' as u8,
        decreases body.len() - i,
    {
        let b = body[i];
        if !(48 <= b && b <= 57) && b != ';' as u8 {
            assert(!is_digit(body@[i as int]));
            return false;
        }
        i = i + 1;
    }
    true
}

/// A printable ASCII character is its own encoding.
proof fn lemma_ascii_glyph(unit: Seq<u8>)
    requires
        is_ascii_glyph(unit),
    ensures
        valid_utf8(unit),
        decode_utf8(unit) == seq![unit[0] as char],
{
    let chars = seq![unit[0] as char];
    assert(is_ascii_chars(chars));
    is_ascii_chars_encode_utf8(chars);
    assert(encode_utf8(chars) =~= unit);
    encode_utf8_valid_utf8(chars);
    encode_utf8_decode_utf8(chars);
}

/// The columns that the first codepoint of a printable unit takes.
pub fn unit_width(unit: &[u8]) -> (columns: u16)
    ensures
        columns == unit_columns(unit@),
        unit@.len() == 1 && 0x20 <= unit@[0] < 0x7f ==> columns == 1,
{
    proof {
        if is_ascii_glyph(unit@) {
            lemma_ascii_glyph(unit@);
        }
    }
    match core::str::from_utf8(unit) {
        Ok(s) => {
            proof {
                encode_utf8_decode_utf8(s@);
            }
            let mut chars = s.chars();
            match chars.next() {
                Some(c) => match width_of(c) {
                    Some(w) => w as u16,
                    None => 1,
                },
                None => 1,
            }
        },
        Err(_) => 1,
    }
}

/// Renders through a `WrapInjector`.
pub struct AutowrapHandler {
    pub inj: WrapInjector,
    pub server_cols: u32,
    pub server_rows: u32,
}

/// What the following terminal has to do for an event before the handler takes it.
#[derive(Clone, Copy, Debug, PartialEq, Eq, Structural)]
pub enum Tracking {
    /// Nothing.
    Keep,
    /// Follow the event's data.
    Follow,
    /// Start over at this size and follow the event's data.
    Rebuild { cols: u32, rows: u32 },
    /// Change its size and keep its contents.
    Resize { cols: u32, rows: u32 },
}

/// What an event asks of the following terminal on a client of this size.
pub open spec fn tracking_for(event: PtyEvent, client_cols: u32, client_rows: u32) -> Tracking {
    match event {
        PtyEvent::Stream { .. } => Tracking::Follow,
        PtyEvent::Refresh { cols, rows, .. } => if fits(cols, rows, client_cols, client_rows) {
            Tracking::Rebuild { cols, rows }
        } else {
            Tracking::Keep
        },
        PtyEvent::Resize { cols, rows } => if fits(cols, rows, client_cols, client_rows) {
            Tracking::Resize { cols, rows }
        } else {
            Tracking::Keep
        },
        PtyEvent::Closed => Tracking::Keep,
    }
}

/// What painting a snapshot from scratch does.
pub open spec fn wrap_repaint(rows: u32, data: Seq<u8>, seen: Seq<Seen>) -> WrapStep {
    let r = wrap_run(wrap_start(rows), data, seen);
    WrapStep { next: r.next, out: wrap_region(rows) + bytes_of("\x1b[2J") + r.out }
}

/// The data that an event carries.
pub open spec fn event_data(event: PtyEvent) -> Seq<u8> {
    match event {
        PtyEvent::Stream { data } => data@,
        PtyEvent::Refresh { data, .. } => data@,
        _ => Seq::empty(),
    }
}

/// What an event does to the injector; `None` where the server's screen does not fit the client's
/// and another mode has to take over.
pub open spec fn wrap_event(
    m: WrapModel,
    event: PtyEvent,
    client_cols: u32,
    client_rows: u32,
    seen: Seq<Seen>,
    x: u16,
    y: u16,
) -> Option<WrapStep> {
    match event {
        PtyEvent::Stream { data } => Some(wrap_run(m, data@, seen)),
        PtyEvent::Refresh { cols, rows, data } => if fits(cols, rows, client_cols, client_rows) {
            Some(wrap_repaint(rows, data@, seen))
        } else {
            None
        },
        PtyEvent::Resize { cols, rows } => if fits(cols, rows, client_cols, client_rows) {
            Some(
                WrapStep {
                    next: WrapModel {
                        prev_x: x,
                        prev_y: y,
                        server_rows: rows,
                        region_top: 1,
                        region_bottom: rows,
                        ..m
                    },
                    out: Seq::empty(),
                },
            )
        } else {
            None
        },
        PtyEvent::Closed => Some(WrapStep { next: m.reading(Seq::empty(), None), out: m.unit }),
    }
}

impl AutowrapHandler {
    pub fn new(server_cols: u32, server_rows: u32) -> (handler: Self)
        ensures
            handler.inj@ == wrap_start(server_rows),
            handler.server_cols == server_cols,
            handler.server_rows == server_rows,
    {
        AutowrapHandler { inj: WrapInjector::new(server_rows), server_cols, server_rows }
    }

    /// True when the server's screen fits a client of this size.
    pub fn fits_client(&self, client_cols: u32, client_rows: u32) -> (yes: bool)
        ensures
            yes == fits(self.server_cols, self.server_rows, client_cols, client_rows),
    {
        server_fits_client(self.server_cols, self.server_rows, client_cols, client_rows)
    }

    /// Paints the snapshot, if the server's screen fits. `seen` is what a fresh following terminal
    /// showed after each byte of it.
    pub fn init(
        &mut self,
        refresh_data: &[u8],
        client_cols: u32,
        client_rows: u32,
        seen: &[Seen],
        out: &mut Vec<u8>,
    ) -> (result: EventResult)
        requires
            fits(old(self).server_cols, old(self).server_rows, client_cols, client_rows) ==> seen.len()
                == refresh_data.len() && cursors_valid(seen@),
        ensures
            final(self).server_cols == old(self).server_cols,
            final(self).server_rows == old(self).server_rows,
            if fits(old(self).server_cols, old(self).server_rows, client_cols, client_rows) {
                let s = wrap_repaint(old(self).server_rows, refresh_data@, seen@);
                result == EventResult::Continue && final(self).inj@ == s.next && final(out)@ == old(out)@
                    + s.out
            } else {
                result == EventResult::ChangeRenderMode(RenderMode::Cell) && final(self).inj@ == old(self).inj@ && final(out)@ == old(out)@
            },
    {
        if !self.fits_client(client_cols, client_rows) {
            return EventResult::ChangeRenderMode(RenderMode::Cell);
        }
        let ghost before = out@;
        self.inj.reset(self.server_rows);
        self.inj.emit_screen_setup(out);
        assert(self.inj@ == wrap_start(self.server_rows));
        self.inj.process(refresh_data, seen, out);
        assert(out@ =~= before + wrap_repaint(self.server_rows, refresh_data@, seen@).out);
        EventResult::Continue
    }

    /// What the following terminal has to do before `on_pty_event` takes this event.
    pub fn tracking(&self, event: &PtyEvent, client_cols: u32, client_rows: u32) -> (tracking: Tracking)
        ensures
            tracking == tracking_for(*event, client_cols, client_rows),
    {
        match *event {
            PtyEvent::Stream { .. } => Tracking::Follow,
            PtyEvent::Refresh { cols, rows, .. } => if server_fits_client(
                cols,
                rows,
                client_cols,
                client_rows,
            ) {
                Tracking::Rebuild { cols, rows }
            } else {
                Tracking::Keep
            },
            PtyEvent::Resize { cols, rows } => if server_fits_client(
                cols,
                rows,
                client_cols,
                client_rows,
            ) {
                Tracking::Resize { cols, rows }
            } else {
                Tracking::Keep
            },
            PtyEvent::Closed => Tracking::Keep,
        }
    }

    /// Takes an event, after the following terminal did what `tracking` asked for: `seen` is what
    /// it showed after each byte of the data, `x` and `y` its cursor at the end.
    pub fn on_pty_event(
        &mut self,
        event: PtyEvent,
        client_cols: u32,
        client_rows: u32,
        seen: &[Seen],
        x: u16,
        y: u16,
        out: &mut Vec<u8>,
    ) -> (result: EventResult)
        requires
            tracking_for(event, client_cols, client_rows) != Tracking::Keep ==> seen.len() == event_data(
                event,
            ).len() && cursors_valid(seen@),
        ensures
            match event {
                PtyEvent::Refresh { cols, rows, .. } => final(self).server_cols == cols && final(self).server_rows == rows,
                PtyEvent::Resize { cols, rows } => final(self).server_cols == cols && final(self).server_rows == rows,
                _ => final(self).server_cols == old(self).server_cols && final(self).server_rows == old(self).server_rows,
            },
            match wrap_event(old(self).inj@, event, client_cols, client_rows, seen@, x, y) {
                Some(s) => result == EventResult::Continue && final(self).inj@ == s.next && final(out)@
                    == old(out)@ + s.out,
                None => result == EventResult::ChangeRenderMode(RenderMode::Cell) && final(self).inj@
                    == old(self).inj@ && final(out)@ == old(out)@,
            },
    {
        let ghost before = out@;
        match event {
            PtyEvent::Stream { data } => {
                self.inj.process(data, seen, out);
            },
            PtyEvent::Refresh { cols, rows, data } => {
                self.server_cols = cols;
                self.server_rows = rows;
                if !self.fits_client(client_cols, client_rows) {
                    return EventResult::ChangeRenderMode(RenderMode::Cell);
                }
                self.inj.reset(rows);
                self.inj.emit_screen_setup(out);
                assert(self.inj@ == wrap_start(rows));
                self.inj.process(data, seen, out);
                assert(out@ =~= before + wrap_repaint(rows, data@, seen@).out);
            },
            PtyEvent::Resize { cols, rows } => {
                self.server_cols = cols;
                self.server_rows = rows;
                if !self.fits_client(client_cols, client_rows) {
                    return EventResult::ChangeRenderMode(RenderMode::Cell);
                }
                self.inj.resize(rows, x, y);
                assert(out@ + Seq::<u8>::empty() =~= out@);
            },
            PtyEvent::Closed => {
                self.inj.flush(out);
            },
        }
        EventResult::Continue
    }

    /// Follows a new size of the client's terminal. As long as the server's screen fits, the stream
    /// stays right once the region stands again; a fresh snapshot repairs the rest.
    pub fn on_sigwinch(
        &mut self,
        cols: u32,
        rows: u32,
        x: u16,
        y: u16,
        origin_mode: bool,
        out: &mut Vec<u8>,
    ) -> (result: EventResult)
        requires
            fits(old(self).server_cols, old(self).server_rows, cols, rows) && origin_mode ==> old(self).inj.region_top <= y + 2,
        ensures
            final(self).inj@ == old(self).inj@,
            final(self).server_cols == old(self).server_cols,
            final(self).server_rows == old(self).server_rows,
            if fits(old(self).server_cols, old(self).server_rows, cols, rows) {
                result == EventResult::RequestRefresh && final(out)@ == old(out)@ + csi_pair(
                    old(self).inj.region_top,
                    old(self).inj.region_bottom,
                    "r",
                ) + csi_pair(
                    (if origin_mode {
                        y + 2 - old(self).inj.region_top
                    } else {
                        y + 1
                    }) as u32,
                    (x + 1) as u32,
                    "H",
                )
            } else {
                result == EventResult::ChangeRenderMode(RenderMode::Cell) && final(out)@ == old(out)@
            },
    {
        if !server_fits_client(self.server_cols, self.server_rows, cols, rows) {
            return EventResult::ChangeRenderMode(RenderMode::Cell);
        }
        self.inj.restore_client_region(x, y, origin_mode, out);
        EventResult::RequestRefresh
    }

    /// Writes what is still held and gives the whole screen back.
    pub fn cleanup(&mut self, out: &mut Vec<u8>)
        ensures
            final(self).inj@ == old(self).inj@.reading(Seq::empty(), None),
            final(self).server_cols == old(self).server_cols,
            final(self).server_rows == old(self).server_rows,
            final(out)@ == old(out)@ + old(self).inj.unit@ + bytes_of("\x1b[r"),
    {
        self.inj.flush(out);
        push_str(out, "\x1b[r");
    }
}

/// Law: how the stream is cut into pieces makes no difference to what is written.
pub proof fn law_wrap_chunks(m: WrapModel, a: Seq<u8>, seen_a: Seq<Seen>, b: Seq<u8>, seen_b: Seq<Seen>)
    requires
        seen_a.len() == a.len(),
        seen_b.len() == b.len(),
    ensures
        ({
            let r = wrap_run(m, a, seen_a);
            let q = wrap_run(r.next, b, seen_b);
            wrap_run(m, a + b, seen_a + seen_b) == WrapStep { next: q.next, out: r.out + q.out }
        }),
    decreases a.len(),
{
    let whole = wrap_run(m, a + b, seen_a + seen_b);
    if a.len() == 0 {
        assert(a + b =~= b);
        assert(seen_a + seen_b =~= seen_b);
        let q = wrap_run(m, b, seen_b);
        assert(Seq::<u8>::empty() + q.out =~= q.out);
    } else {
        let s = wrap_step(m, a[0], seen_a[0]);
        assert((a + b)[0] == a[0]);
        assert((seen_a + seen_b)[0] == seen_a[0]);
        assert((a + b).skip(1) =~= a.skip(1) + b);
        assert((seen_a + seen_b).skip(1) =~= seen_a.skip(1) + seen_b);
        law_wrap_chunks(s.next, a.skip(1), seen_a.skip(1), b, seen_b);
        let r = wrap_run(s.next, a.skip(1), seen_a.skip(1));
        let q = wrap_run(r.next, b, seen_b);
        assert(s.out + (r.out + q.out) =~= (s.out + r.out) + q.out);
    }
}

/// True when a byte completes a unit that is not written as it came: a glyph that wrapped, or a
/// control unit that is rewritten.
pub open spec fn changes(m: WrapModel, byte: u8, seen: Seen) -> bool {
    let n = unit_step(m, byte).next;
    &&& seen.at_boundary
    &&& unit_end(n, seen.x, seen.y).out != n.unit
}

/// True when nothing of the stream is changed.
pub open spec fn unchanged(m: WrapModel, input: Seq<u8>, seen: Seq<Seen>) -> bool
    decreases input.len(),
{
    input.len() > 0 ==> !changes(m, input[0], seen[0]) && unchanged(
        wrap_step(m, input[0], seen[0]).next,
        input.skip(1),
        seen.skip(1),
    )
}

/// A byte leads from a well-formed state to a well-formed state.
proof fn lemma_wrap_step_wf(m: WrapModel, byte: u8, seen: Seen)
    requires
        m.wf(),
    ensures
        wrap_step(m, byte, seen).next.wf(),
{
    let n = unit_step(m, byte).next;
    let body = n.unit.subrange(2, n.unit.len() - 1);
    if m.server_rows >= 1 {
        super::csi::law_margins_stay_inside(param_list(body), m.server_rows);
    }
}

/// Law: whatever the stream, a control unit is held only up to the limit and nothing is held
/// between units; the region that stands on the client never leaves the server's rows.
pub proof fn law_wrap_bounded(m: WrapModel, input: Seq<u8>, seen: Seq<Seen>)
    requires
        m.wf(),
        seen.len() == input.len(),
    ensures
        wrap_run(m, input, seen).next.wf(),
        wrap_run(m, input, seen).next.server_rows == m.server_rows,
    decreases input.len(),
{
    if input.len() > 0 {
        lemma_wrap_step_wf(m, input[0], seen[0]);
        law_wrap_bounded(wrap_step(m, input[0], seen[0]).next, input.skip(1), seen.skip(1));
    }
}

/// Law: where nothing wraps and no sequence contends with the region, the stream passes as it is:
/// what was held and what came in is what was written and what is held now.
pub proof fn law_wrap_conserves(m: WrapModel, input: Seq<u8>, seen: Seq<Seen>)
    requires
        m.wf(),
        seen.len() == input.len(),
        unchanged(m, input, seen),
    ensures
        m.unit + input == wrap_run(m, input, seen).out + wrap_run(m, input, seen).next.unit,
    decreases input.len(),
{
    if input.len() > 0 {
        let b = input[0];
        let u = unit_step(m, b);
        let s = wrap_step(m, b, seen[0]);
        assert(m.unit.push(b) =~= u.out + u.next.unit);
        assert(m.unit.push(b) =~= s.out + s.next.unit);
        lemma_wrap_step_wf(m, b, seen[0]);
        law_wrap_conserves(s.next, input.skip(1), seen.skip(1));
        let r = wrap_run(s.next, input.skip(1), seen.skip(1));
        assert(m.unit + input =~= m.unit.push(b) + input.skip(1));
        assert((s.out + s.next.unit) + input.skip(1) =~= s.out + (s.next.unit + input.skip(1)));
        assert(s.out + (r.out + r.next.unit) =~= (s.out + r.out) + r.next.unit);
    } else {
        assert(m.unit + input =~= Seq::<u8>::empty() + m.unit);
    }
}

/// Law: a break goes before a whole glyph, never into one, however the glyph was cut; and only
/// where the cursor of the following terminal moved down or back.
pub proof fn law_break_before_whole_glyph(m: WrapModel, byte: u8, seen: Seen)
    requires
        m.kind == Some(UnitKind::Printable) || (m.kind is None && kind_of(byte) == UnitKind::Printable),
    ensures
        !seen.at_boundary ==> wrap_step(m, byte, seen).out == Seq::<u8>::empty(),
        seen.at_boundary && !wrapped(m, seen.x, seen.y) ==> wrap_step(m, byte, seen).out
            == m.unit.push(byte),
        seen.at_boundary && wrapped(m, seen.x, seen.y) ==> wrap_step(m, byte, seen).out == line_break(
            seen.x,
            unit_columns(m.unit.push(byte)),
        ) + m.unit.push(byte),
{
    let s = wrap_step(m, byte, seen);
    let glyph = glyph_output(
        unit_step(m, byte).next,
        seen.x,
        seen.y,
        unit_columns(m.unit.push(byte)),
    );
    assert(Seq::<u8>::empty() + glyph =~= glyph);
}

/// Law: control units never cause a break: one that is held is written as it came, or as one of
/// the rewritten resets and regions.
pub proof fn law_control_units_never_break(m: WrapModel, x: u16, y: u16)
    requires
        m.kind == Some(UnitKind::Control { streamed: false }),
        m.unit != bytes_of("\x1bc"),
        !is_csi(m.unit) || (m.unit.last() != 'p' as u8 && m.unit.last() != 'r' as u8),
    ensures
        unit_end(m, x, y).out == m.unit,
{
}

/// The kind of the unit that `first` goes on with or begins.
spec fn kind_from(m: WrapModel, first: u8) -> UnitKind {
    match m.kind {
        Some(kind) => kind,
        None => kind_of(first),
    }
}

/// True for a unit that is held to its end.
spec fn is_held(kind: UnitKind, len: nat) -> bool {
    match kind {
        UnitKind::Printable => true,
        UnitKind::Control { streamed } => !streamed && len <= 64,
    }
}

/// A part of a unit is held.
proof fn lemma_part_of_unit(m: WrapModel, part: Seq<u8>, seen: Seq<Seen>)
    requires
        part.len() > 0,
        seen.len() == part.len(),
        forall|i: int| 0 <= i < seen.len() ==> !(#[trigger] seen[i]).at_boundary,
        is_held(kind_from(m, part[0]), m.unit.len() + part.len()),
    ensures
        wrap_run(m, part, seen) == (WrapStep {
            next: m.reading(m.unit + part, Some(kind_from(m, part[0]))),
            out: Seq::empty(),
        }),
    decreases part.len(),
{
    let s = wrap_step(m, part[0], seen[0]);
    let rest = part.skip(1);
    let views = seen.skip(1);
    assert(!seen[0].at_boundary);
    assert forall|i: int| 0 <= i < views.len() implies !(#[trigger] views[i]).at_boundary by {
        assert(views[i] == seen[i + 1]);
    }
    assert(s.next.unit + rest =~= m.unit + part);
    let kind = kind_from(m, part[0]);
    let end = m.reading(m.unit + part, Some(kind));
    assert(s == WrapStep { next: m.reading(m.unit.push(part[0]), Some(kind)), out: Seq::empty() });
    if rest.len() > 0 {
        lemma_part_of_unit(s.next, rest, views);
        assert(s.next.reading(s.next.unit + rest, Some(kind)) == end);
    } else {
        assert(s.next.unit =~= m.unit + part);
    }
    assert(wrap_run(s.next, rest, views) == WrapStep { next: end, out: Seq::empty() });
    assert(Seq::<u8>::empty() + Seq::<u8>::empty() =~= Seq::<u8>::empty());
}

/// A unit that is held to its end is judged as a whole.
proof fn lemma_whole_unit(m: WrapModel, unit: Seq<u8>, seen: Seq<Seen>)
    requires
        unit.len() > 0,
        one_unit(seen),
        seen.len() == unit.len(),
        is_held(kind_from(m, unit[0]), m.unit.len() + unit.len()),
    ensures
        wrap_run(m, unit, seen) == unit_end(
            m.reading(m.unit + unit, Some(kind_from(m, unit[0]))),
            seen.last().x,
            seen.last().y,
        ),
{
    let head = unit.drop_last();
    let views = seen.drop_last();
    let last = seq![unit.last()];
    let shown = seq![seen.last()];
    assert(unit =~= head + last);
    assert(seen =~= views + shown);
    law_wrap_chunks(m, head, views, last, shown);
    let n = if head.len() > 0 {
        m.reading(m.unit + head, Some(kind_from(m, unit[0])))
    } else {
        m
    };
    if head.len() > 0 {
        assert(head[0] == unit[0]);
        assert forall|i: int| 0 <= i < views.len() implies !(#[trigger] views[i]).at_boundary by {
            assert(views[i] == seen[i]);
        }
        lemma_part_of_unit(m, head, views);
    } else {
        assert(head =~= Seq::<u8>::empty());
    }
    assert(wrap_run(m, head, views) == WrapStep { next: n, out: Seq::empty() });
    assert(n.unit.push(unit.last()) =~= m.unit + unit);
    assert(seen.last().at_boundary);
    let s = wrap_step(n, last[0], shown[0]);
    assert(last.skip(1) =~= Seq::<u8>::empty());
    let e = unit_end(m.reading(m.unit + unit, Some(kind_from(m, unit[0]))), seen.last().x, seen.last().y);
    assert(Seq::<u8>::empty() + e.out =~= e.out);
    assert(e.out + Seq::<u8>::empty() =~= e.out);
    assert(s == e);
    assert(wrap_run(s.next, last.skip(1), shown.skip(1)) == WrapStep { next: s.next, out: Seq::empty() });
    assert(wrap_run(n, last, shown) == e);
}

/// True when the following terminal stood between two units only after the last byte.
pub open spec fn one_unit(seen: Seq<Seen>) -> bool {
    seen.len() > 0 && seen.last().at_boundary && forall|i: int|
        0 <= i < seen.len() - 1 ==> !(#[trigger] seen[i]).at_boundary
}

/// True for an injector that is not in the middle of a unit.
pub open spec fn between_units(m: WrapModel) -> bool {
    m.wf() && m.kind is None
}

/// True for a byte that begins a glyph.
pub open spec fn begins_glyph(b: u8) -> bool {
    b >= 0x20 && b != 0x7f
}

/// Law: a glyph, of one byte or more, passes as it is where the cursor of the following terminal went
/// on along its line, and behind a line break where it went to a lower line or back. The break is a
/// carriage return and a line feed, and a move to the column where the glyph begins, unless that is the
/// first. Either way the cursor is where the next glyph goes on from.
pub proof fn law_glyphs(m: WrapModel, glyph: Seq<u8>, seen: Seq<Seen>)
    requires
        between_units(m),
        glyph.len() > 0,
        begins_glyph(glyph[0]),
        seen.len() == glyph.len(),
        one_unit(seen),
    ensures
        ({
            let r = wrap_run(m, glyph, seen);
            let x = seen.last().x;
            let y = seen.last().y;
            let columns = unit_columns(glyph);
            &&& y <= m.prev_y && x >= m.prev_x ==> r.out == glyph
            &&& (y > m.prev_y || x < m.prev_x) && x <= columns ==> r.out == seq!['\r' as u8, '\n' as u8] + glyph
            &&& (y > m.prev_y || x < m.prev_x) && x > columns ==> r.out == seq![
                '\r' as u8,
                '\n' as u8,
                0x1bu8,
                '[' as u8,
            ] + decimal((x - columns + 1) as nat) + seq!['G' as u8] + glyph
            &&& r.next == WrapModel { prev_x: x, prev_y: y, ..m }
        }),
        glyph.len() == 1 && glyph[0] < 0x7f ==> unit_columns(glyph) == 1,
{
    lemma_whole_unit(m, glyph, seen);
    assert(m.unit =~= Seq::<u8>::empty());
    assert(m.unit + glyph =~= glyph);
    lemma_break_bytes();
    let x = seen.last().x;
    let columns = unit_columns(glyph);
    let r = wrap_run(m, glyph, seen);
    assert(seq!['\r' as u8, '\n' as u8] + Seq::<u8>::empty() =~= seq!['\r' as u8, '\n' as u8]);
    if x > columns {
        assert(line_break(x, columns) + glyph =~= seq!['\r' as u8, '\n' as u8, 0x1bu8, '[' as u8] + decimal(
            (x - columns + 1) as nat,
        ) + seq!['G' as u8] + glyph);
    }
    assert(r.next.unit =~= m.unit);
}

proof fn lemma_break_bytes()
    ensures
        bytes_of("\r\n") == seq!['\r' as u8, '\n' as u8],
        bytes_of("\x1b[") == seq![0x1bu8, '[' as u8],
        bytes_of("G") == seq!['G' as u8],
        bytes_of("\x1b[2J") == seq![0x1bu8, '[' as u8, '2' as u8, 'J' as u8],
{
    reveal_strlit("\r\n");
    reveal_strlit("\x1b[");
    reveal_strlit("G");
    reveal_strlit("\x1b[2J");
    is_ascii_chars_encode_utf8("\r\n"@);
    is_ascii_chars_encode_utf8("\x1b["@);
    is_ascii_chars_encode_utf8("G"@);
    is_ascii_chars_encode_utf8("\x1b[2J"@);
    assert(bytes_of("\r\n") =~= seq!['\r' as u8, '\n' as u8]);
    assert(bytes_of("\x1b[") =~= seq![0x1bu8, '[' as u8]);
    assert(bytes_of("G") =~= seq!['G' as u8]);
    assert(bytes_of("\x1b[2J") =~= seq![0x1bu8, '[' as u8, '2' as u8, 'J' as u8]);
}

/// Law: text of one-byte glyphs that runs along a line passes as it is.
pub proof fn law_text_along_a_line(m: WrapModel, text: Seq<u8>, seen: Seq<Seen>)
    requires
        between_units(m),
        seen.len() == text.len(),
        forall|i: int| 0 <= i < text.len() ==> begins_glyph(#[trigger] text[i]),
        forall|i: int|
            0 <= i < text.len() ==> (#[trigger] seen[i]).at_boundary && seen[i].y == m.prev_y && seen[i].x
                >= (if i == 0 {
                m.prev_x
            } else {
                seen[i - 1].x
            }),
    ensures
        wrap_run(m, text, seen).out == text,
        between_units(wrap_run(m, text, seen).next),
    decreases text.len(),
{
    if text.len() > 0 {
        let one = seq![text[0]];
        let shown = seq![seen[0]];
        let rest = text.skip(1);
        let views = seen.skip(1);
        assert(begins_glyph(text[0]));
        assert(seen[0].at_boundary);
        law_glyphs(m, one, shown);
        assert(text =~= one + rest);
        assert(seen =~= shown + views);
        law_wrap_chunks(m, one, shown, rest, views);
        let n = wrap_run(m, one, shown).next;
        assert forall|i: int| 0 <= i < rest.len() implies begins_glyph(#[trigger] rest[i]) by {
            assert(rest[i] == text[i + 1]);
        }
        assert forall|i: int| 0 <= i < rest.len() implies (#[trigger] views[i]).at_boundary && views[i].y == n.prev_y
            && views[i].x >= (if i == 0 {
            n.prev_x
        } else {
            views[i - 1].x
        }) by {
            assert(views[i] == seen[i + 1]);
            if i > 0 {
                assert(views[i - 1] == seen[i]);
            }
        }
        law_text_along_a_line(n, rest, views);
    } else {
        assert(text =~= Seq::<u8>::empty());
    }
}

/// Law: a control unit that does not concern the region passes as it is, and never causes a break,
/// wherever the cursor goes: control characters, escape sequences, and control sequences but for `r`
/// with nothing but numbers and for a soft reset.
pub proof fn law_controls_pass(m: WrapModel, unit: Seq<u8>, seen: Seq<Seen>)
    requires
        between_units(m),
        0 < unit.len() <= 64,
        !begins_glyph(unit[0]),
        seen.len() == unit.len(),
        one_unit(seen),
        unit != seq![0x1bu8, 'c' as u8],
        unit.len() >= 3 && unit[0] == 0x1b && unit[1] == '[' as u8 ==> {
            &&& unit.last() == 'r' as u8 ==> exists|i: int|
                2 <= i < unit.len() - 1 && !is_digit(#[trigger] unit[i]) && unit[i] != ';' as u8
            &&& unit.last() == 'p' as u8 ==> unit[2] != '!' as u8
        },
    ensures
        wrap_run(m, unit, seen) == (WrapStep {
            next: WrapModel { prev_x: seen.last().x, prev_y: seen.last().y, ..m },
            out: unit,
        }),
{
    lemma_whole_unit(m, unit, seen);
    assert(m.unit =~= Seq::<u8>::empty());
    assert(m.unit + unit =~= unit);
    lemma_reset_bytes();
    let body = unit.subrange(2, unit.len() - 1);
    if unit.len() >= 3 && unit[0] == 0x1b && unit[1] == '[' as u8 {
        if body.len() > 0 {
            assert(body[0] == unit[2]);
        }
        if unit.last() == 'r' as u8 {
            let i = choose|i: int| 2 <= i < unit.len() - 1 && !is_digit(#[trigger] unit[i]) && unit[i] != ';' as u8;
            assert(body[i - 2] == unit[i]);
            assert(!numeric(body));
        }
    }
    let r = wrap_run(m, unit, seen);
    assert(r.next.unit =~= m.unit);
}

/// Law: whatever is neither a glyph nor rewritten is not held for long, and passes: the bytes of a
/// control unit that is too long go out in their order.
pub proof fn law_long_controls_pass(m: WrapModel, unit: Seq<u8>, seen: Seq<Seen>)
    requires
        between_units(m),
        unit.len() > 64,
        !begins_glyph(unit[0]),
        seen.len() == unit.len(),
        forall|i: int| 0 <= i < seen.len() ==> !(#[trigger] seen[i]).at_boundary,
    ensures
        wrap_run(m, unit, seen).out == unit,
{
    let head = unit.take(64);
    let views = seen.take(64);
    let tail = unit.skip(64);
    let shown = seen.skip(64);
    assert(unit =~= head + tail);
    assert(seen =~= views + shown);
    assert forall|i: int| 0 <= i < views.len() implies !(#[trigger] views[i]).at_boundary by {
        assert(views[i] == seen[i]);
    }
    assert forall|i: int| 0 <= i < shown.len() implies !(#[trigger] shown[i]).at_boundary by {
        assert(shown[i] == seen[i + 64]);
    }
    assert(head[0] == unit[0]);
    lemma_part_of_unit(m, head, views);
    law_wrap_chunks(m, head, views, tail, shown);
    assert(m.unit =~= Seq::<u8>::empty());
    assert(m.unit + head =~= head);
    let n = m.reading(head, Some(UnitKind::Control { streamed: false }));
    let s = wrap_step(n, tail[0], shown[0]);
    assert(!shown[0].at_boundary);
    assert(s.out =~= head.push(tail[0]));
    let rest = tail.skip(1);
    let rest_shown = shown.skip(1);
    assert forall|i: int| 0 <= i < rest_shown.len() implies !(#[trigger] rest_shown[i]).at_boundary by {
        assert(rest_shown[i] == shown[i + 1]);
    }
    lemma_streams(s.next, rest, rest_shown);
    assert(wrap_run(n, tail, shown).out =~= head + tail);
    assert(Seq::<u8>::empty() + (head + tail) =~= unit);
}

/// A unit that streams goes out byte by byte.
proof fn lemma_streams(m: WrapModel, input: Seq<u8>, seen: Seq<Seen>)
    requires
        m.kind == Some(UnitKind::Control { streamed: true }),
        seen.len() == input.len(),
        forall|i: int| 0 <= i < seen.len() ==> !(#[trigger] seen[i]).at_boundary,
    ensures
        wrap_run(m, input, seen).out == input,
    decreases input.len(),
{
    if input.len() > 0 {
        let s = wrap_step(m, input[0], seen[0]);
        let views = seen.skip(1);
        assert(!seen[0].at_boundary);
        assert forall|i: int| 0 <= i < views.len() implies !(#[trigger] views[i]).at_boundary by {
            assert(views[i] == seen[i + 1]);
        }
        lemma_streams(s.next, input.skip(1), views);
        assert(input =~= seq![input[0]] + input.skip(1));
    } else {
        assert(input =~= Seq::<u8>::empty());
    }
}

/// The body of a region sequence is numbers, and reads back as they are.
proof fn lemma_region_body(top: u32, bottom: u32)
    ensures
        ({
            let unit = csi_pair(top, bottom, "r");
            let body = unit.subrange(2, unit.len() - 1);
            &&& 3 < unit.len() <= 64
            &&& unit[0] == 0x1b && unit[1] == '[' as u8 && unit.last() == 'r' as u8
            &&& body.len() > 0 && body[0] != '!' as u8
            &&& numeric(body)
            &&& param_list(body) == seq![top, bottom]
        }),
{
    let a = decimal(top as nat);
    let b = decimal(bottom as nat);
    let body = a + seq![';' as u8] + b;
    law_decimal_reads_back(top);
    law_decimal_reads_back(bottom);
    law_pair_bytes(top, bottom);
    law_params_read_back(top, bottom, Seq::empty());
    let unit = csi_pair(top, bottom, "r");
    assert(unit =~= seq![0x1bu8, '[' as u8] + body + seq!['r' as u8]);
    assert(unit.subrange(2, unit.len() - 1) =~= body);
    assert forall|i: int| 0 <= i < body.len() implies is_digit(#[trigger] body[i]) || body[i] == ';' as u8 by {
        if i < a.len() {
            assert(is_digit(a[i]));
        } else if i > a.len() {
            assert(is_digit(b[i - a.len() - 1]));
            assert(body[i] == b[i - a.len() - 1]);
        }
    }
    assert(body[0] == a[0]);
    assert(is_digit(a[0]));
}

/// Law: the region that a program asks for is set as asked where it lies on the server's screen, and cut
/// off at its end where it does not. It is the region that is set again when the client's terminal
/// changes its size.
pub proof fn law_regions(m: WrapModel, top: u32, bottom: u32, seen: Seq<Seen>)
    requires
        between_units(m),
        1 <= top < bottom,
        top < m.server_rows,
        seen.len() == csi_pair(top, bottom, "r").len(),
        one_unit(seen),
    ensures
        ({
            let end = if bottom <= m.server_rows {
                bottom
            } else {
                m.server_rows
            };
            let asked = wrap_run(m, csi_pair(top, bottom, "r"), seen);
            &&& asked.out == csi_pair(top, end, "r")
            &&& asked.next.region_top == top && asked.next.region_bottom == end
            &&& between_units(asked.next)
        }),
{
    let unit = csi_pair(top, bottom, "r");
    lemma_region_body(top, bottom);
    law_margins_as_asked(top, bottom, m.server_rows);
    lemma_reset_bytes();
    lemma_whole_unit(m, unit, seen);
    assert(m.unit =~= Seq::<u8>::empty());
    assert(m.unit + unit =~= unit);
    assert(unit != bytes_of("\x1bc"));
}

/// Law: a program that asks for no region gets all of the server's rows, and none of the client's
/// others.
pub proof fn law_whole_region(m: WrapModel, seen: Seq<Seen>)
    requires
        between_units(m),
        seen.len() == 3,
        one_unit(seen),
    ensures
        ({
            let whole = wrap_run(m, seq![0x1bu8, '[' as u8, 'r' as u8], seen);
            &&& whole.out == csi_pair(1, m.server_rows, "r")
            &&& whole.next.region_top == 1 && whole.next.region_bottom == m.server_rows
        }),
{
    let plain = seq![0x1bu8, '[' as u8, 'r' as u8];
    lemma_reset_bytes();
    lemma_whole_unit(m, plain, seen);
    assert(m.unit =~= Seq::<u8>::empty());
    assert(m.unit + plain =~= plain);
    assert(plain.subrange(2, plain.len() - 1) =~= Seq::<u8>::empty());
    lemma_no_params();
}

/// No text is one field that is no number.
proof fn lemma_no_params()
    ensures
        param_list(Seq::empty()).len() == 1,
        param_list(Seq::empty())[0] == 0,
{
    let none = Seq::<u8>::empty();
    assert(none.take(0) =~= none);
    crate::text::lemma_ascii_is_utf8(none);
}

/// Law: a full reset passes with the region behind it; a soft reset passes with the region and the
/// cursor behind it, since setting the region moves the cursor. The region is all of the server's rows
/// from then on.
pub proof fn law_region_survives_resets(m: WrapModel, full: Seq<Seen>, soft: Seq<Seen>)
    requires
        between_units(m),
        full.len() == 2,
        one_unit(full),
        soft.len() == 4,
        one_unit(soft),
    ensures
        ({
            let a = wrap_run(m, seq![0x1bu8, 'c' as u8], full);
            let b = wrap_run(m, seq![0x1bu8, '[' as u8, '!' as u8, 'p' as u8], soft);
            &&& a.out == seq![0x1bu8, 'c' as u8] + csi_pair(1, m.server_rows, "r")
            &&& a.next.region_top == 1 && a.next.region_bottom == m.server_rows
            &&& b.out == seq![0x1bu8, '[' as u8, '!' as u8, 'p' as u8] + csi_pair(1, m.server_rows, "r") + csi_pair(
                (soft.last().y + 1) as u32,
                (soft.last().x + 1) as u32,
                "H",
            )
            &&& b.next.region_top == 1 && b.next.region_bottom == m.server_rows
        }),
{
    let f = seq![0x1bu8, 'c' as u8];
    let s = seq![0x1bu8, '[' as u8, '!' as u8, 'p' as u8];
    lemma_reset_bytes();
    lemma_whole_unit(m, f, full);
    lemma_whole_unit(m, s, soft);
    assert(m.unit =~= Seq::<u8>::empty());
    assert(m.unit + f =~= f);
    assert(m.unit + s =~= s);
    assert(s.subrange(2, s.len() - 1)[0] == '!' as u8);
}

/// Law: a resize that fits is no wrap. A glyph that then goes on along the line from where the cursor
/// stands is written as it is, with nothing before it.
pub proof fn law_resize_is_no_wrap(
    m: WrapModel,
    cols: u32,
    rows: u32,
    client_cols: u32,
    client_rows: u32,
    x: u16,
    y: u16,
    glyph: &[u8],
    seen: Seq<Seen>,
)
    requires
        between_units(m),
        cols <= client_cols,
        1 <= rows <= client_rows,
        glyph@.len() > 0,
        begins_glyph(glyph@[0]),
        seen.len() == glyph@.len(),
        one_unit(seen),
        seen.last().y == y,
        seen.last().x >= x,
    ensures
        ({
            let resize = wrap_event(m, PtyEvent::Resize { cols, rows }, client_cols, client_rows, Seq::empty(), x, y);
            &&& resize matches Some(r) && {
                let s = wrap_event(r.next, PtyEvent::Stream { data: glyph }, client_cols, client_rows, seen, x, y);
                &&& r.out.len() == 0
                &&& s matches Some(s) && s.out == glyph@
            }
        }),
{
    let resize = wrap_event(m, PtyEvent::Resize { cols, rows }, client_cols, client_rows, Seq::empty(), x, y);
    law_glyphs(resize->0.next, glyph@, seen);
}

/// Law: a resize that fits loses nothing of a unit that is cut by it. A glyph is written whole once the
/// rest of it came, and so is a control unit that is not rewritten.
pub proof fn law_resize_keeps_the_unit(
    m: WrapModel,
    cols: u32,
    rows: u32,
    client_cols: u32,
    client_rows: u32,
    first: Seq<u8>,
    first_seen: Seq<Seen>,
    second: &[u8],
    second_seen: Seq<Seen>,
    x: u16,
    y: u16,
)
    requires
        between_units(m),
        cols <= client_cols,
        1 <= rows <= client_rows,
        first.len() > 0,
        first_seen.len() == first.len(),
        forall|i: int| 0 <= i < first_seen.len() ==> !(#[trigger] first_seen[i]).at_boundary,
        second@.len() > 0,
        second_seen.len() == second@.len(),
        one_unit(second_seen),
        second_seen.last().y == y,
        second_seen.last().x >= x,
        begins_glyph(first[0]) || (first.len() + second@.len() <= 64 && first[0] == 0x1b && (first + second@).len() > 2
            && (first + second@)[1] == '[' as u8 && second@.last() != 'r' as u8 && second@.last() != 'p' as u8),
    ensures
        ({
            let begun = wrap_run(m, first, first_seen);
            let resize = wrap_event(
                begun.next,
                PtyEvent::Resize { cols, rows },
                client_cols,
                client_rows,
                Seq::empty(),
                x,
                y,
            );
            &&& resize matches Some(r) && {
                let rest = wrap_event(
                    r.next,
                    PtyEvent::Stream { data: second },
                    client_cols,
                    client_rows,
                    second_seen,
                    x,
                    y,
                );
                rest matches Some(s) && begun.out + r.out + s.out == first + second@
            }
        }),
{
    lemma_part_of_unit(m, first, first_seen);
    assert(m.unit =~= Seq::<u8>::empty());
    assert(m.unit + first =~= first);
    let begun = wrap_run(m, first, first_seen).next;
    let n = WrapModel { prev_x: x, prev_y: y, server_rows: rows, region_top: 1, region_bottom: rows, ..begun };
    lemma_whole_unit(n, second@, second_seen);
    let whole = first + second@;
    assert(n.unit + second@ == whole);
    lemma_reset_bytes();
    assert(whole.last() == second@.last());
    let e = unit_end(n.reading(whole, n.kind), second_seen.last().x, second_seen.last().y);
    assert(e.out == whole);
    let none = Seq::<u8>::empty();
    assert(none + none + whole =~= whole);
}

/// Law: a snapshot that fits is painted from scratch, whatever was before: the region of all the server's
/// rows, a clear screen, and the snapshot as a fresh injector passes it. A snapshot or a resize that does
/// not fit, in any direction, is left to another mode. The end of the PTY writes what is held.
pub proof fn law_wrap_events(
    m: WrapModel,
    cols: u32,
    rows: u32,
    client_cols: u32,
    client_rows: u32,
    data: &[u8],
    seen: Seq<Seen>,
    x: u16,
    y: u16,
)
    ensures
        ({
            let refresh = wrap_event(m, PtyEvent::Refresh { cols, rows, data }, client_cols, client_rows, seen, x, y);
            let resize = wrap_event(m, PtyEvent::Resize { cols, rows }, client_cols, client_rows, seen, x, y);
            let closed = wrap_event(m, PtyEvent::Closed, client_cols, client_rows, seen, x, y);
            let stream = wrap_event(m, PtyEvent::Stream { data }, client_cols, client_rows, seen, x, y);
            let fresh = WrapModel {
                unit: Seq::empty(),
                kind: None,
                prev_x: 0,
                prev_y: 0,
                server_rows: rows,
                region_top: 1,
                region_bottom: rows,
            };
            let run = wrap_run(fresh, data@, seen);
            let fitting = cols <= client_cols && rows <= client_rows;
            &&& refresh is Some <==> fitting
            &&& resize is Some <==> fitting
            &&& refresh matches Some(s) ==> s.next == run.next && s.out == csi_pair(1, rows, "r") + seq![
                0x1bu8,
                '[' as u8,
                '2' as u8,
                'J' as u8,
            ] + run.out
            &&& closed matches Some(s) && s.out == m.unit && s.next.unit.len() == 0
            &&& stream == Some(wrap_run(m, data@, seen))
        }),
        ({
            let fitting = cols <= client_cols && rows <= client_rows;
            &&& tracking_for(PtyEvent::Stream { data }, client_cols, client_rows) == Tracking::Follow
            &&& tracking_for(PtyEvent::Closed, client_cols, client_rows) == Tracking::Keep
            &&& tracking_for(PtyEvent::Refresh { cols, rows, data }, client_cols, client_rows) == (if fitting {
                Tracking::Rebuild { cols, rows }
            } else {
                Tracking::Keep
            })
            &&& tracking_for(PtyEvent::Resize { cols, rows }, client_cols, client_rows) == (if fitting {
                Tracking::Resize { cols, rows }
            } else {
                Tracking::Keep
            })
        }),
{
    lemma_break_bytes();
}

/// Law: a handler that follows a resize takes a glyph that goes on from the cursor as no wrap: what it
/// writes for the resize and the glyph is the glyph.
pub proof fn law_handler_resize_is_no_wrap(
    handler: &mut AutowrapHandler,
    again: &mut AutowrapHandler,
    cols: u32,
    rows: u32,
    client_cols: u32,
    client_rows: u32,
    none: &[Seen],
    x: u16,
    y: u16,
    glyph: &[u8],
    seen: &[Seen],
    out: &mut Vec<u8>,
    more: &mut Vec<u8>,
    first: EventResult,
    second: EventResult,
)
    requires
        call_ensures(
            AutowrapHandler::on_pty_event,
            (handler, PtyEvent::Resize { cols, rows }, client_cols, client_rows, none, x, y, out),
            first,
        ),
        *old(again) == *final(handler),
        *old(more) == *final(out),
        call_ensures(
            AutowrapHandler::on_pty_event,
            (again, PtyEvent::Stream { data: glyph }, client_cols, client_rows, seen, x, y, more),
            second,
        ),
        between_units(old(handler).inj@),
        cols <= client_cols,
        1 <= rows <= client_rows,
        glyph@.len() > 0,
        begins_glyph(glyph@[0]),
        seen@.len() == glyph@.len(),
        one_unit(seen@),
        seen@.last().y == y,
        seen@.last().x >= x,
    ensures
        first == EventResult::Continue,
        second == EventResult::Continue,
        final(more)@ == old(out)@ + glyph@,
        final(again).server_cols == cols,
        final(again).server_rows == rows,
{
    law_resize_is_no_wrap(old(handler).inj@, cols, rows, client_cols, client_rows, x, y, glyph, seen@);
    let r = wrap_event(old(handler).inj@, PtyEvent::Resize { cols, rows }, client_cols, client_rows, none@, x, y);
    assert(r->0.out =~= Seq::<u8>::empty());
    assert(old(out)@ + Seq::<u8>::empty() =~= old(out)@);
}

/// Law: when the client's terminal changes its size and the server's screen still fits, the region that
/// stands is set again and the cursor goes back to where it was, counted from the region's top in origin
/// mode; a fresh snapshot is asked for. Otherwise nothing is written and another mode takes over.
pub proof fn law_wrap_follows_client(
    handler: &mut AutowrapHandler,
    cols: u32,
    rows: u32,
    x: u16,
    y: u16,
    origin_mode: bool,
    out: &mut Vec<u8>,
    result: EventResult,
)
    requires
        origin_mode ==> old(handler).inj.region_top <= y + 2,
        call_ensures(AutowrapHandler::on_sigwinch, (handler, cols, rows, x, y, origin_mode, out), result),
    ensures
        ({
            let h = *old(handler);
            if h.server_cols <= cols && h.server_rows <= rows {
                &&& result == EventResult::RequestRefresh
                &&& final(out)@ == old(out)@ + csi_pair(h.inj.region_top, h.inj.region_bottom, "r") + csi_pair(
                    (if origin_mode {
                        y + 1 - (h.inj.region_top - 1)
                    } else {
                        y + 1
                    }) as u32,
                    (x + 1) as u32,
                    "H",
                )
            } else {
                result == EventResult::ChangeRenderMode(RenderMode::Cell) && final(out)@ == old(out)@
            }
        }),
        final(handler).inj@ == old(handler).inj@,
{
}

/// Law: a session in this mode ends with what is still held, and with the whole screen as the region.
pub proof fn law_wrap_ends(handler: &mut AutowrapHandler, out: &mut Vec<u8>)
    requires
        call_ensures(AutowrapHandler::cleanup, (handler, out), ()),
    ensures
        final(out)@ == old(out)@ + old(handler).inj@.unit + bytes_of("\x1b[r"),
        final(handler).inj@.unit.len() == 0,
{
}

/// Law: a character of more than one byte takes the columns that it is wide, and one where it has no width.
pub proof fn law_wide_glyphs(c: char)
    requires
        encode_utf8(seq![c]).len() > 1,
    ensures
        char_width(c) matches Some(w) ==> (w <= u16::MAX ==> unit_columns(encode_utf8(seq![c])) == w),
        char_width(c) is None ==> unit_columns(encode_utf8(seq![c])) == 1,
{
    encode_utf8_valid_utf8(seq![c]);
    encode_utf8_decode_utf8(seq![c]);
}

/// Law: text along a line is written as it is, behind what was written before.
pub proof fn law_process_passes_text(inj: &mut WrapInjector, input: &[u8], seen: &[Seen], out: &mut Vec<u8>)
    requires
        seen@.len() == input@.len(),
        cursors_valid(seen@),
        call_ensures(WrapInjector::process, (inj, input, seen, out), ()),
        between_units(old(inj)@),
        forall|i: int| 0 <= i < input@.len() ==> begins_glyph(#[trigger] input@[i]),
        forall|i: int|
            0 <= i < input@.len() ==> (#[trigger] seen@[i]).at_boundary && seen@[i].y == old(inj)@.prev_y && seen@[i].x
                >= (if i == 0 {
                old(inj)@.prev_x
            } else {
                seen@[i - 1].x
            }),
    ensures
        final(out)@ == old(out)@ + input@,
        between_units(final(inj)@),
{
    law_text_along_a_line(old(inj)@, input@, seen@);
}

/// Law: the parts of an injector. A resize goes on with what is held, from the cursor that it is given, with all
/// rows as the region; the setup of a screen sets that region and clears; at the end what is held is written.
pub proof fn law_injector_parts(
    inj: &mut WrapInjector,
    server_rows: u32,
    x: u16,
    y: u16,
    setup: &mut WrapInjector,
    setup_out: &mut Vec<u8>,
    screen: &mut WrapInjector,
    screen_out: &mut Vec<u8>,
    ending: &mut WrapInjector,
    ending_out: &mut Vec<u8>,
)
    requires
        call_ensures(WrapInjector::resize, (inj, server_rows, x, y), ()),
        call_ensures(WrapInjector::emit_region_setup, (setup, setup_out), ()),
        call_ensures(WrapInjector::emit_screen_setup, (screen, screen_out), ()),
        call_ensures(WrapInjector::flush, (ending, ending_out), ()),
    ensures
        final(inj)@.unit == old(inj)@.unit && final(inj)@.kind == old(inj)@.kind,
        final(inj)@.prev_x == x && final(inj)@.prev_y == y,
        final(inj)@.server_rows == server_rows && final(inj)@.region_top == 1 && final(inj)@.region_bottom == server_rows,
        final(setup_out)@ == old(setup_out)@ + csi_pair(1, old(setup)@.server_rows, "r"),
        final(setup)@.region_top == 1 && final(setup)@.region_bottom == old(setup)@.server_rows,
        final(setup)@.unit == old(setup)@.unit && final(setup)@.prev_x == old(setup)@.prev_x,
        final(screen_out)@ == old(screen_out)@ + csi_pair(1, old(screen)@.server_rows, "r") + bytes_of("\x1b[2J"),
        final(ending_out)@ == old(ending_out)@ + old(ending)@.unit,
        final(ending)@.unit.len() == 0 && final(ending)@.kind is None,
        final(ending)@.prev_x == old(ending)@.prev_x && final(ending)@.prev_y == old(ending)@.prev_y,
{
}

/// Law: a glyph that did not wrap is written as it is held, and the injector stays as it was.
pub proof fn law_glyphs_are_written(inj: &mut WrapInjector, x: u16, y: u16, width: u16, out: &mut Vec<u8>)
    requires
        x < u16::MAX,
        call_ensures(WrapInjector::emit_glyph, (inj, x, y, width, out), ()),
    ensures
        final(inj)@ == old(inj)@,
        y <= old(inj)@.prev_y && x >= old(inj)@.prev_x ==> final(out)@ == old(out)@ + old(inj)@.unit,
        (y > old(inj)@.prev_y || x < old(inj)@.prev_x) && x <= width ==> final(out)@ == old(out)@ + (bytes_of("\r\n")
            + old(inj)@.unit),
{
    assert(bytes_of("\r\n") + Seq::<u8>::empty() =~= bytes_of("\r\n"));
}

} // verus!
