//! Snapshots of a terminal's screen, and views of its history.
use super::reader::Snapshot;
use super::{ScrollbackData, ScrollbackOp};
#[allow(unused_imports)]
use crate::shared_bytes::held_bytes;
use crate::shared_bytes::bytes_from_vec;
#[allow(unused_imports)]
use crate::text::bytes_of;
use crate::text::{push_bytes, push_str};
use bytes::Bytes;
use vstd::prelude::*;
#[allow(unused_imports)]
use vstd::utf8::*;

verus! {

broadcast use vstd::string::group_string_axioms;

/// The shape of a cursor.
#[derive(Clone, Copy, Debug, PartialEq, Eq, Structural)]
pub enum CursorStyle {
    Block,
    BlockHollow,
    Bar,
    Underline,
}

/// What a terminal tells of its screen. What it could not tell is `None`.
pub struct ScreenParts<'a> {
    /// The sequences that paint the active screen and set its modes.
    pub vt: &'a [u8],
    pub cols: u32,
    pub rows: u32,
    pub cursor_visible: Option<bool>,
    pub cursor_style: Option<CursorStyle>,
    pub cursor_blinking: Option<bool>,
}

/// The sequence that sets the cursor's shape. The steady block is what every terminal begins with,
/// and the client's own setting of it is left alone.
pub open spec fn cursor_shape_bytes(style: Option<CursorStyle>, blinking: Option<bool>) -> Seq<u8> {
    let blinks = blinking == Some(true);
    match style {
        Some(CursorStyle::Underline) => if blinks {
            bytes_of("\x1b[3 q")
        } else {
            bytes_of("\x1b[4 q")
        },
        Some(CursorStyle::Bar) => if blinks {
            bytes_of("\x1b[5 q")
        } else {
            bytes_of("\x1b[6 q")
        },
        Some(_) => if blinks {
            bytes_of("\x1b[1 q")
        } else {
            Seq::empty()
        },
        None => Seq::empty(),
    }
}

/// What undoes the state of another PTY on the client, in this order: a soft reset, mouse
/// reporting, keyboard protocols, colours, the title; and then clears the screen, which it does in
/// the background colour that is set by then.
pub open spec fn preamble() -> Seq<u8> {
    bytes_of("\x1b[!p") + bytes_of("\x1b[?1000l\x1b[?1002l\x1b[?1003l\x1b[?1006l") + bytes_of(
        "\x1b[=0;1u\x1b[>4;0m",
    ) + bytes_of("\x1b]110\x1b\\\x1b]111\x1b\\\x1b]112\x1b\\") + bytes_of("\x1b]0;\x1b\\") + bytes_of(
        "\x1b[2J\x1b[H",
    )
}

/// The bytes that bring a client's terminal to show a screen, whatever it showed before.
pub open spec fn refresh_bytes(parts: ScreenParts) -> Seq<u8> {
    preamble() + parts.vt@ + bytes_of("\x1b[0m") + (if parts.cursor_visible == Some(false) {
        bytes_of("\x1b[?25l")
    } else {
        bytes_of("\x1b[?25h")
    }) + cursor_shape_bytes(parts.cursor_style, parts.cursor_blinking)
}

/// Appends what undoes the state of another PTY.
fn push_preamble(out: &mut Vec<u8>)
    ensures
        final(out)@ == old(out)@ + preamble(),
{
    broadcast use crate::text::lemma_append_assoc;

    push_str(out, "\x1b[!p");
    push_str(out, "\x1b[?1000l\x1b[?1002l\x1b[?1003l\x1b[?1006l");
    push_str(out, "\x1b[=0;1u\x1b[>4;0m");
    push_str(out, "\x1b]110\x1b\\\x1b]111\x1b\\\x1b]112\x1b\\");
    push_str(out, "\x1b]0;\x1b\\");
    push_str(out, "\x1b[2J\x1b[H");
}

/// Appends the sequence that sets the cursor's shape.
fn push_cursor_shape(out: &mut Vec<u8>, style: Option<CursorStyle>, blinking: Option<bool>)
    ensures
        final(out)@ == old(out)@ + cursor_shape_bytes(style, blinking),
{
    let ghost before = out@;
    let blinks = match blinking {
        Some(b) => b,
        None => false,
    };
    match style {
        Some(CursorStyle::Underline) => if blinks {
            push_str(out, "\x1b[3 q");
        } else {
            push_str(out, "\x1b[4 q");
        },
        Some(CursorStyle::Bar) => if blinks {
            push_str(out, "\x1b[5 q");
        } else {
            push_str(out, "\x1b[6 q");
        },
        Some(_) => if blinks {
            push_str(out, "\x1b[1 q");
        },
        None => {},
    }
    assert(out@ =~= before + cursor_shape_bytes(style, blinking));
}

/// Puts a snapshot of the screen together.
pub fn do_refresh(parts: ScreenParts) -> (snapshot: Snapshot)
    ensures
        held_bytes(snapshot.data) == refresh_bytes(parts),
        snapshot.cols == parts.cols,
        snapshot.rows == parts.rows,
{
    let mut out: Vec<u8> = Vec::new();
    push_preamble(&mut out);
    assert(out@ =~= preamble());
    push_bytes(&mut out, parts.vt);
    push_str(&mut out, "\x1b[0m");
    let visible = match parts.cursor_visible {
        Some(v) => v,
        None => true,
    };
    if visible {
        push_str(&mut out, "\x1b[?25h");
    } else {
        push_str(&mut out, "\x1b[?25l");
    }
    push_cursor_shape(&mut out, parts.cursor_style, parts.cursor_blinking);
    Snapshot { data: bytes_from_vec(out), cols: parts.cols, rows: parts.rows }
}

/// The last column and row of a screen of this size.
pub fn screen_corner(cols: u32, rows: u32) -> (corner: (u32, u32))
    ensures
        corner.0 == (if cols > 0 {
            cols - 1
        } else {
            0
        }),
        corner.1 == (if rows > 0 {
            rows - 1
        } else {
            0
        }),
{
    (cols.saturating_sub(1), rows.saturating_sub(1))
}

/// Which subscribers hold a place in the history.
pub struct Pins {
    pub ids: Vec<String>,
}

impl View for Pins {
    type V = Set<Seq<char>>;

    open spec fn view(&self) -> Set<Seq<char>> {
        Set::new(|id: Seq<char>| exists|i: int| 0 <= i < self.ids@.len() && #[trigger] self.ids@[i]@ == id)
    }
}

impl Pins {
    /// Nobody is listed twice.
    pub open spec fn wf(self) -> bool {
        forall|i: int, j: int| 0 <= i < j < self.ids@.len() ==> (#[trigger] self.ids@[i])@ != (#[trigger] self.ids@[j])@
    }

    pub fn new() -> (pins: Self)
        ensures
            pins.wf(),
            pins@ == Set::<Seq<char>>::empty(),
    {
        let pins = Pins { ids: Vec::new() };
        assert(pins@ =~= Set::<Seq<char>>::empty());
        pins
    }

    /// The place of a subscriber in the list; its length where they are not in it.
    fn find(&self, id: &str) -> (at: usize)
        ensures
            at <= self.ids.len(),
            at < self.ids.len() ==> self.ids@[at as int]@ == id@ && self@.contains(id@),
            at == self.ids.len() ==> !self@.contains(id@),
    {
        let wanted = id.to_owned();
        let mut i: usize = 0;
        while i < self.ids.len() && self.ids[i] != wanted
            invariant
                i <= self.ids.len(),
                wanted@ == id@,
                forall|j: int| 0 <= j < i ==> (#[trigger] self.ids@[j])@ != wanted@,
            decreases self.ids.len() - i,
        {
            i = i + 1;
        }
        i
    }

    /// True when a subscriber holds a place.
    pub fn contains(&self, id: &str) -> (yes: bool)
        ensures
            yes == self@.contains(id@),
    {
        self.find(id) < self.ids.len()
    }

    /// Notes that a subscriber holds a place.
    pub fn insert(&mut self, id: &str)
        requires
            old(self).wf(),
        ensures
            final(self).wf(),
            final(self)@ == old(self)@.insert(id@),
    {
        let ghost before = *self;
        if self.find(id) == self.ids.len() {
            self.ids.push(id.to_owned());
            let ghost n = before.ids@.len();
            assert forall|x: Seq<char>| #[trigger] self@.contains(x) <==> before@.insert(id@).contains(x) by {
                if before@.contains(x) {
                    let i = choose|i: int| 0 <= i < before.ids@.len() && #[trigger] before.ids@[i]@ == x;
                    assert(self.ids@[i]@ == x);
                }
                if x == id@ {
                    assert(self.ids@[n as int]@ == x);
                }
                if self@.contains(x) {
                    let i = choose|i: int| 0 <= i < self.ids@.len() && #[trigger] self.ids@[i]@ == x;
                    if i < n {
                        assert(before.ids@[i]@ == x);
                    }
                }
            }
            assert(self.wf()) by {
                assert forall|i: int, j: int| 0 <= i < j < self.ids@.len() implies (#[trigger] self.ids@[i])@
                    != (#[trigger] self.ids@[j])@ by {
                    assert(before.ids@[i]@ == self.ids@[i]@);
                    if j == n {
                        assert(before@.contains(before.ids@[i]@));
                    }
                }
            }
        }
        assert(self@ =~= before@.insert(id@));
    }

    /// Notes that a subscriber gave their place up.
    pub fn remove(&mut self, id: &str)
        requires
            old(self).wf(),
        ensures
            final(self).wf(),
            final(self)@ == old(self)@.remove(id@),
    {
        let ghost before = *self;
        let at = self.find(id);
        if at < self.ids.len() {
            self.ids.remove(at);
            assert forall|x: Seq<char>| #[trigger] self@.contains(x) <==> before@.remove(id@).contains(x) by {
                if before@.remove(id@).contains(x) {
                    let i = choose|i: int| 0 <= i < before.ids@.len() && #[trigger] before.ids@[i]@ == x;
                    let k = if i < at { i } else { i - 1 };
                    assert(self.ids@[k]@ == x);
                }
                if self@.contains(x) {
                    let i = choose|i: int| 0 <= i < self.ids@.len() && #[trigger] self.ids@[i]@ == x;
                    let k = if i < at { i } else { i + 1 };
                    assert(before.ids@[k]@ == x);
                }
            }
            assert(self.wf()) by {
                assert forall|i: int, j: int| 0 <= i < j < self.ids@.len() implies (#[trigger] self.ids@[i])@
                    != (#[trigger] self.ids@[j])@ by {
                    let a = if i < at { i } else { i + 1 };
                    let b = if j < at { j } else { j + 1 };
                    assert(before.ids@[a]@ == self.ids@[i]@);
                    assert(before.ids@[b]@ == self.ids@[j]@);
                }
            }
        }
        assert(self@ =~= before@.remove(id@));
    }
}

/// What to show of the history.
#[derive(Clone, Copy, Debug, PartialEq, Eq, Structural)]
pub enum ScrollbackPlan {
    /// Nothing of `total` rows.
    Nothing { total: u32 },
    /// The rows from `start_y`, where the subscriber's place is from now on, to `end_y`. Rows count
    /// from the oldest; `row_offset` is how far the last of them is above the newest.
    Show { start_y: u32, end_y: u32, row_offset: u32, total: u32 },
}

/// The first row of a full view at the end of the history.
pub open spec fn tail_start(total: u32, row_count: u32) -> u32 {
    if total > row_count {
        (total - row_count) as u32
    } else {
        0
    }
}

/// `n`, but not below zero and not above `high`.
pub open spec fn clamped(n: int, high: u32) -> u32 {
    if n < 0 {
        0
    } else if n > high {
        high
    } else {
        n as u32
    }
}

/// The row from which a move starts: the subscriber's place, or the end where they hold none.
pub open spec fn move_base(total: u32, row_count: u32, place: Option<u32>) -> u32 {
    match place {
        Some(y) => if y < total {
            y
        } else {
            (total - 1) as u32
        },
        None => tail_start(total, row_count),
    }
}

/// The first row to show. A positive amount moves to older rows, a negative one to newer rows.
pub open spec fn view_start(op: ScrollbackOp, amount: i32, total: u32, row_count: u32, place: Option<u32>) -> u32 {
    match op {
        ScrollbackOp::Move => clamped(
            move_base(total, row_count, place) - amount,
            tail_start(total, row_count),
        ),
        _ => tail_start(total, row_count),
    }
}

/// The view that begins at a row.
pub open spec fn view_from(start_y: u32, total: u32, row_count: u32) -> ScrollbackPlan {
    let shown: int = if row_count < total - start_y {
        row_count as int
    } else {
        total - start_y
    };
    ScrollbackPlan::Show {
        start_y,
        end_y: (start_y + shown - 1) as u32,
        row_offset: (total - start_y - shown) as u32,
        total,
    }
}

/// What a request for the history shows.
pub open spec fn scrollback_plan(
    op: ScrollbackOp,
    amount: i32,
    row_count: u32,
    total: u32,
    place: Option<u32>,
) -> ScrollbackPlan {
    if op == ScrollbackOp::Close || total == 0 || row_count == 0 {
        ScrollbackPlan::Nothing { total }
    } else {
        view_from(view_start(op, amount, total, row_count, place), total, row_count)
    }
}

/// Decides what a request for the history shows, and notes who holds a place in it. `row` is the
/// row where the subscriber's place is now, if they hold one and it can be told.
pub fn do_scrollback(
    pins: &mut Pins,
    subscriber_id: &str,
    op: ScrollbackOp,
    amount: i32,
    row_count: u32,
    total: u32,
    row: Option<u32>,
) -> (plan: ScrollbackPlan)
    requires
        old(pins).wf(),
    ensures
        final(pins).wf(),
        plan == scrollback_plan(
            op,
            amount,
            row_count,
            total,
            if old(pins)@.contains(subscriber_id@) {
                row
            } else {
                None
            },
        ),
        final(pins)@ == (if op == ScrollbackOp::Close {
            old(pins)@.remove(subscriber_id@)
        } else if total == 0 || row_count == 0 {
            old(pins)@
        } else {
            old(pins)@.insert(subscriber_id@)
        }),
{
    if op == ScrollbackOp::Close {
        pins.remove(subscriber_id);
        return ScrollbackPlan::Nothing { total };
    }
    if total == 0 || row_count == 0 {
        return ScrollbackPlan::Nothing { total };
    }
    let max_start: u32 = total.saturating_sub(row_count);
    let start_y: u32 = match op {
        ScrollbackOp::Move => {
            let place = if pins.contains(subscriber_id) { row } else { None };
            let base: u32 = match place {
                Some(y) => if y < total {
                    y
                } else {
                    total - 1
                },
                None => max_start,
            };
            let moved: i64 = base as i64 - amount as i64;
            if moved < 0 {
                0
            } else if moved > max_start as i64 {
                max_start
            } else {
                moved as u32
            }
        },
        _ => max_start,
    };
    pins.insert(subscriber_id);
    let shown: u32 = if row_count < total - start_y { row_count } else { total - start_y };
    ScrollbackPlan::Show { start_y, end_y: start_y + (shown - 1), row_offset: total - start_y - shown, total }
}

/// The answer to a request for the history, with the rows that the plan asked for.
pub fn scrollback_data(generation: u64, plan: ScrollbackPlan, rows: Vec<u8>) -> (data: ScrollbackData)
    ensures
        data.generation == generation,
        match plan {
            ScrollbackPlan::Nothing { total } => held_bytes(data.data) == Seq::<u8>::empty()
                && data.total_scrollback_rows == total && data.row_offset == 0,
            ScrollbackPlan::Show { row_offset, total, .. } => held_bytes(data.data) == rows@
                && data.total_scrollback_rows == total && data.row_offset == row_offset,
        },
{
    match plan {
        ScrollbackPlan::Nothing { total } => ScrollbackData {
            generation,
            data: Bytes::new(),
            total_scrollback_rows: total,
            row_offset: 0,
        },
        ScrollbackPlan::Show { row_offset, total, .. } => ScrollbackData {
            generation,
            data: bytes_from_vec(rows),
            total_scrollback_rows: total,
            row_offset,
        },
    }
}

/// Law: a view of the history is as tall as asked for, or as the history where that is shorter, and
/// lies within it.
pub proof fn law_view_inside(op: ScrollbackOp, amount: i32, row_count: u32, total: u32, place: Option<u32>)
    requires
        op != ScrollbackOp::Close,
        total > 0,
        row_count > 0,
    ensures
        ({
            let plan = scrollback_plan(op, amount, row_count, total, place);
            &&& plan is Show
            &&& plan->start_y <= plan->end_y < total
            &&& plan->end_y - plan->start_y + 1 == (if row_count < total {
                row_count
            } else {
                total
            })
            &&& plan->row_offset == total - 1 - plan->end_y
        }),
{
}

/// Law: opening the history shows its end.
pub proof fn law_open_shows_tail(amount: i32, row_count: u32, total: u32, place: Option<u32>)
    requires
        total > 0,
        row_count > 0,
    ensures
        scrollback_plan(ScrollbackOp::Open, amount, row_count, total, place)->row_offset == 0,
{
}

/// Law: a move by some rows moves by so many, as far as there are any: up to the oldest row, down to
/// the newest. A move of none stays where the place is.
pub proof fn law_move_is_relative(amount: i32, row_count: u32, total: u32, place: u32)
    requires
        total > 0,
        row_count > 0,
        place <= tail_start(total, row_count),
    ensures
        ({
            let stay = scrollback_plan(ScrollbackOp::Move, 0, row_count, total, Some(place));
            let moved = scrollback_plan(ScrollbackOp::Move, amount, row_count, total, Some(place));
            &&& stay->start_y == place
            &&& 0 <= place - amount <= tail_start(total, row_count) ==> moved->row_offset == stay->row_offset
                + amount
            &&& place - amount < 0 ==> moved->start_y == 0
            &&& place - amount > tail_start(total, row_count) ==> moved->row_offset == 0
        }),
{
}

/// Law: a move and the move back end where they began, unless an end of the history was in the way.
pub proof fn law_move_and_back(amount: i32, row_count: u32, total: u32, place: u32)
    requires
        total > 0,
        row_count > 0,
        amount > i32::MIN,
        place <= tail_start(total, row_count),
        0 <= place - amount <= tail_start(total, row_count),
    ensures
        ({
            let there = scrollback_plan(ScrollbackOp::Move, amount, row_count, total, Some(place));
            let back = scrollback_plan(
                ScrollbackOp::Move,
                (-amount) as i32,
                row_count,
                total,
                Some(there->start_y),
            );
            back->start_y == place
        }),
{
}

/// Law: a place that keeps to its row shows the same rows however much the history grows below it.
pub proof fn law_place_keeps_while_growing(row_count: u32, total: u32, grown: u32, place: u32)
    requires
        total > 0,
        row_count > 0,
        place <= tail_start(total, row_count),
        row_count <= total <= grown,
    ensures
        scrollback_plan(ScrollbackOp::Move, 0, row_count, grown, Some(place))->start_y == place,
        scrollback_plan(ScrollbackOp::Move, 0, row_count, grown, Some(place))->end_y == scrollback_plan(
            ScrollbackOp::Move,
            0,
            row_count,
            total,
            Some(place),
        )->end_y,
{
}

/// True when `needle` occurs in `s` at `at`.
pub open spec fn occurs_at(s: Seq<u8>, needle: Seq<u8>, at: int) -> bool {
    0 <= at && at + needle.len() <= s.len() && s.subrange(at, at + needle.len()) == needle
}

/// Law: whatever the screen, a snapshot resets the colours, among them the background, before it
/// clears the screen, and clears the screen before it paints anything.
pub proof fn law_reset_before_paint(parts: ScreenParts)
    ensures
        exists|reset: int, erase: int|
            #![trigger occurs_at(refresh_bytes(parts), bytes_of("\x1b]110\x1b\\\x1b]111\x1b\\\x1b]112\x1b\\"), reset), occurs_at(refresh_bytes(parts), bytes_of("\x1b[2J\x1b[H"), erase)]
            occurs_at(
                refresh_bytes(parts),
                bytes_of("\x1b]110\x1b\\\x1b]111\x1b\\\x1b]112\x1b\\"),
                reset,
            ) && occurs_at(refresh_bytes(parts), bytes_of("\x1b[2J\x1b[H"), erase) && reset < erase && erase
                + bytes_of("\x1b[2J\x1b[H").len() == preamble().len(),
        occurs_at(refresh_bytes(parts), preamble(), 0),
        occurs_at(refresh_bytes(parts), parts.vt@, preamble().len() as int),
{
    let all = refresh_bytes(parts);
    let a = bytes_of("\x1b[!p") + bytes_of("\x1b[?1000l\x1b[?1002l\x1b[?1003l\x1b[?1006l") + bytes_of(
        "\x1b[=0;1u\x1b[>4;0m",
    );
    let colors = bytes_of("\x1b]110\x1b\\\x1b]111\x1b\\\x1b]112\x1b\\");
    let title = bytes_of("\x1b]0;\x1b\\");
    let erase_bytes = bytes_of("\x1b[2J\x1b[H");
    let reset = a.len() as int;
    let erase = (a + colors + title).len() as int;
    assert(all.subrange(0, preamble().len() as int) =~= preamble());
    assert(all.subrange(preamble().len() as int, (preamble().len() + parts.vt@.len()) as int) =~= parts.vt@);
    assert(all.subrange(reset, (reset + colors.len()) as int) =~= colors);
    assert(all.subrange(erase, (erase + erase_bytes.len()) as int) =~= erase_bytes);
    assert(colors.len() > 0) by {
        reveal_strlit("\x1b]110\x1b\\\x1b]111\x1b\\\x1b]112\x1b\\");
        vstd::utf8::is_ascii_chars_encode_utf8("\x1b]110\x1b\\\x1b]111\x1b\\\x1b]112\x1b\\"@);
    }
    assert(occurs_at(all, colors, reset));
    assert(occurs_at(all, erase_bytes, erase));
}

/// Law: a snapshot is what undoes the state before it, what paints the screen, and then the cursor as it is:
/// hidden where the terminal says so, shown otherwise, and in its shape.
pub proof fn law_snapshots(parts: ScreenParts, snapshot: Snapshot)
    requires
        call_ensures(do_refresh, (parts,), snapshot),
    ensures
        snapshot.cols == parts.cols,
        snapshot.rows == parts.rows,
        parts.cursor_visible == Some(false) ==> held_bytes(snapshot.data) == preamble() + parts.vt@ + bytes_of("\x1b[0m")
            + bytes_of("\x1b[?25l") + cursor_shape_bytes(parts.cursor_style, parts.cursor_blinking),
        parts.cursor_visible != Some(false) ==> held_bytes(snapshot.data) == preamble() + parts.vt@ + bytes_of("\x1b[0m")
            + bytes_of("\x1b[?25h") + cursor_shape_bytes(parts.cursor_style, parts.cursor_blinking),
{
}

/// Law: what comes first undoes everything that another PTY may have set: modes by a soft reset, mouse
/// reporting, both keyboard protocols, the three colours and the title; and then it clears the screen.
pub proof fn law_preamble()
    ensures
        preamble() == bytes_of(
            "\x1b[!p\x1b[?1000l\x1b[?1002l\x1b[?1003l\x1b[?1006l\x1b[=0;1u\x1b[>4;0m\x1b]110\x1b\\\x1b]111\x1b\\\x1b]112\x1b\\\x1b]0;\x1b\\\x1b[2J\x1b[H",
        ),
{
    reveal_strlit("\x1b[!p");
    reveal_strlit("\x1b[?1000l\x1b[?1002l\x1b[?1003l\x1b[?1006l");
    reveal_strlit("\x1b[=0;1u\x1b[>4;0m");
    reveal_strlit("\x1b]110\x1b\\\x1b]111\x1b\\\x1b]112\x1b\\");
    reveal_strlit("\x1b]0;\x1b\\");
    reveal_strlit("\x1b[2J\x1b[H");
    reveal_strlit(
        "\x1b[!p\x1b[?1000l\x1b[?1002l\x1b[?1003l\x1b[?1006l\x1b[=0;1u\x1b[>4;0m\x1b]110\x1b\\\x1b]111\x1b\\\x1b]112\x1b\\\x1b]0;\x1b\\\x1b[2J\x1b[H",
    );
    is_ascii_chars_encode_utf8("\x1b[!p"@);
    is_ascii_chars_encode_utf8("\x1b[?1000l\x1b[?1002l\x1b[?1003l\x1b[?1006l"@);
    is_ascii_chars_encode_utf8("\x1b[=0;1u\x1b[>4;0m"@);
    is_ascii_chars_encode_utf8("\x1b]110\x1b\\\x1b]111\x1b\\\x1b]112\x1b\\"@);
    is_ascii_chars_encode_utf8("\x1b]0;\x1b\\"@);
    is_ascii_chars_encode_utf8("\x1b[2J\x1b[H"@);
    is_ascii_chars_encode_utf8(
        "\x1b[!p\x1b[?1000l\x1b[?1002l\x1b[?1003l\x1b[?1006l\x1b[=0;1u\x1b[>4;0m\x1b]110\x1b\\\x1b]111\x1b\\\x1b]112\x1b\\\x1b]0;\x1b\\\x1b[2J\x1b[H"@,
    );
    assert(preamble() =~= bytes_of(
        "\x1b[!p\x1b[?1000l\x1b[?1002l\x1b[?1003l\x1b[?1006l\x1b[=0;1u\x1b[>4;0m\x1b]110\x1b\\\x1b]111\x1b\\\x1b]112\x1b\\\x1b]0;\x1b\\\x1b[2J\x1b[H",
    ));
}

/// Law: the shape of the cursor is sent, blinking or steady, unless it is the steady block or not known.
pub proof fn law_cursor_shapes(blinking: Option<bool>)
    ensures
        cursor_shape_bytes(Some(CursorStyle::Underline), Some(true)) == bytes_of("\x1b[3 q"),
        cursor_shape_bytes(Some(CursorStyle::Bar), Some(true)) == bytes_of("\x1b[5 q"),
        cursor_shape_bytes(Some(CursorStyle::Block), Some(true)) == bytes_of("\x1b[1 q"),
        cursor_shape_bytes(Some(CursorStyle::BlockHollow), Some(true)) == bytes_of("\x1b[1 q"),
        blinking != Some(true) ==> {
            &&& cursor_shape_bytes(Some(CursorStyle::Underline), blinking) == bytes_of("\x1b[4 q")
            &&& cursor_shape_bytes(Some(CursorStyle::Bar), blinking) == bytes_of("\x1b[6 q")
            &&& cursor_shape_bytes(Some(CursorStyle::Block), blinking).len() == 0
            &&& cursor_shape_bytes(Some(CursorStyle::BlockHollow), blinking).len() == 0
        },
        cursor_shape_bytes(None, blinking).len() == 0,
{
}

/// Law: a subscriber who looks at the history keeps their place in it until they give it up, and nobody
/// else's place changes. Where they have none, a move starts at the end.
pub proof fn law_places_in_history(
    pins: &mut Pins,
    id: &str,
    op: ScrollbackOp,
    amount: i32,
    row_count: u32,
    total: u32,
    row: Option<u32>,
    plan: ScrollbackPlan,
    other: Seq<char>,
)
    requires
        old(pins).wf(),
        call_ensures(do_scrollback, (pins, id, op, amount, row_count, total, row), plan),
    ensures
        op != ScrollbackOp::Close && total > 0 && row_count > 0 ==> final(pins)@.contains(id@) && plan is Show,
        op == ScrollbackOp::Close ==> !final(pins)@.contains(id@) && plan == (ScrollbackPlan::Nothing { total }),
        total == 0 || row_count == 0 ==> plan == (ScrollbackPlan::Nothing { total }),
        other != id@ ==> final(pins)@.contains(other) == old(pins)@.contains(other),
        op == ScrollbackOp::Open && total > row_count && row_count > 0 ==> (
        plan matches ScrollbackPlan::Show { start_y, end_y, row_offset, .. } && start_y == total - row_count && end_y == total
            - 1 && row_offset == 0),
        op == ScrollbackOp::Move && total > row_count && row_count > 0 && !old(pins)@.contains(id@) && 0 <= amount <= total
            - row_count ==> (plan matches ScrollbackPlan::Show { start_y, row_offset, .. } && start_y == total - row_count
            - amount && row_offset == amount),
        op == ScrollbackOp::Move && total > row_count && row_count > 0 && old(pins)@.contains(id@) ==> (
        row matches Some(y) ==> (0 <= y - amount <= total - row_count && y <= total - row_count ==> (
        plan matches ScrollbackPlan::Show { start_y, end_y, .. } && start_y == y - amount && end_y == start_y + row_count - 1))),
{
}

/// Law: the rows of the history are answered as they were read, with where they are and how many there are;
/// where nothing is shown there is no data.
pub proof fn law_history_data(generation: u64, plan: ScrollbackPlan, rows: Vec<u8>, data: ScrollbackData)
    requires
        call_ensures(scrollback_data, (generation, plan, rows), data),
    ensures
        data.generation == generation,
        plan matches ScrollbackPlan::Show { row_offset, total, .. } ==> held_bytes(data.data) == rows@ && data.row_offset
            == row_offset && data.total_scrollback_rows == total,
        plan matches ScrollbackPlan::Nothing { total } ==> held_bytes(data.data).len() == 0 && data.total_scrollback_rows
            == total && data.row_offset == 0,
{
}

/// Law: the last place of a screen that has any is one before its size, in each direction.
pub proof fn law_corners(cols: u32, rows: u32, corner: (u32, u32))
    requires
        call_ensures(screen_corner, (cols, rows), corner),
    ensures
        cols > 0 ==> corner.0 + 1 == cols,
        rows > 0 ==> corner.1 + 1 == rows,
        cols == 0 ==> corner.0 == 0,
        rows == 0 ==> corner.1 == 0,
{
}

/// Law: a place that was noted is held until it is given up, and nobody else's place changes by either.
pub proof fn law_places(
    pins: &mut Pins,
    id: &str,
    other: &str,
    held: bool,
    held_before: bool,
    held_after: bool,
    back: &mut Pins,
    gone: bool,
    other_still: bool,
)
    requires
        old(pins).wf(),
        call_ensures(Pins::insert, (pins, id), ()),
        call_ensures(Pins::contains, (&*final(pins), id), held),
        call_ensures(Pins::contains, (&*old(pins), other), held_before),
        call_ensures(Pins::contains, (&*final(pins), other), held_after),
        *old(back) == *final(pins),
        call_ensures(Pins::remove, (back, id), ()),
        call_ensures(Pins::contains, (&*final(back), id), gone),
        call_ensures(Pins::contains, (&*final(back), other), other_still),
        other@ != id@,
    ensures
        held,
        !gone,
        held_after == held_before,
        other_still == held_before,
{
}

/// Law: a place is moved by as many rows as were asked for, and not beyond either end: the oldest row is the
/// first that can be shown, and the newest is the last. A place beyond the end counts as the end. A history
/// that is shorter than the screen is shown whole.
pub proof fn law_moves_stay_inside(
    pins: &mut Pins,
    id: &str,
    amount: i32,
    row_count: u32,
    total: u32,
    y: u32,
    plan: ScrollbackPlan,
)
    requires
        old(pins).wf(),
        old(pins)@.contains(id@),
        total > 0,
        row_count > 0,
        call_ensures(do_scrollback, (pins, id, ScrollbackOp::Move, amount, row_count, total, Some(y)), plan),
    ensures
        plan is Show,
        plan matches ScrollbackPlan::Show { start_y, end_y, row_offset, total: t } && t == total && start_y <= end_y
            && end_y < total && (total > row_count ==> end_y == start_y + row_count - 1 && row_offset == total - row_count
            - start_y && (y < total ==> {
            &&& y - amount < 0 ==> start_y == 0
            &&& y - amount > total - row_count ==> start_y == total - row_count
            &&& 0 <= y - amount <= total - row_count ==> start_y == y - amount
        }) && (y >= total ==> {
            &&& total - 1 - amount < 0 ==> start_y == 0
            &&& total - 1 - amount > total - row_count ==> start_y == total - row_count
            &&& 0 <= total - 1 - amount <= total - row_count ==> start_y == total - 1 - amount
        })) && (total <= row_count ==> start_y == 0 && end_y == total - 1 && row_offset == 0),
{
}

} // verus!
