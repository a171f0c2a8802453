//! The list of PTYs on the client: which comes next, which was used last, and the screen on which
//! one is chosen.
use crate::order::sort_by_key;
#[allow(unused_imports)]
use crate::order::{in_order, Keyed};
use crate::proto::PtyItem;
#[allow(unused_imports)]
use crate::proto::Timestamp;
#[allow(unused_imports)]
use crate::text::{bytes_of, decimal, hex16, left_aligned, right_aligned, spaces};
use crate::text::{push_decimal, push_hex16, push_left_aligned, push_right_aligned, push_str};
use vstd::prelude::*;
use vstd::string::StrSliceExecFns;

verus! {

broadcast use vstd::string::group_string_axioms;

/// The size of a PTY; nothing by nothing where it is not told.
pub open spec fn size_of_item(item: PtyItem) -> (u32, u32) {
    match item.size {
        Some(s) => (s.cols, s.rows),
        None => (0, 0),
    }
}

/// The columns and rows of a PTY.
pub fn item_size(item: &PtyItem) -> (size: (u32, u32))
    ensures
        size == size_of_item(*item),
{
    match item.size {
        Some(s) => (s.cols, s.rows),
        None => (0, 0),
    }
}

/// When a PTY was used last: subscribed to, or else created. Times in order; the epoch where
/// neither is told.
pub open spec fn last_used(item: PtyItem) -> int {
    match item.last_subscribed_at {
        Some(t) => t.seconds * 0x1_0000_0000 + t.nanos,
        None => match item.created_at {
            Some(t) => t.seconds * 0x1_0000_0000 + t.nanos,
            None => 0,
        },
    }
}

/// When a PTY was used last, as seconds and nanoseconds.
fn last_used_stamp(item: &PtyItem) -> (stamp: (i64, i32))
    ensures
        stamp.0 * 0x1_0000_0000 + stamp.1 == last_used(*item),
{
    match item.last_subscribed_at {
        Some(t) => (t.seconds, t.nanos),
        None => match item.created_at {
            Some(t) => (t.seconds, t.nanos),
            None => (0, 0),
        },
    }
}

/// The place of a PTY in a list; the length of the list where it is not in it.
pub open spec fn place_of(list: Seq<PtyItem>, id: u64) -> int
    decreases list.len(),
{
    if list.len() == 0 || list[0].pty_id == id {
        0
    } else {
        1 + place_of(list.skip(1), id)
    }
}

/// The place from which to go on: that of the current PTY, or the first.
pub open spec fn current_place(list: Seq<PtyItem>, id: u64) -> int {
    let i = place_of(list, id);
    if i < list.len() {
        i
    } else {
        0
    }
}

/// The place after that of the current PTY, round and round.
pub open spec fn next_place(list: Seq<PtyItem>, id: u64) -> int {
    (current_place(list, id) + 1) % list.len() as int
}

/// The place before that of the current PTY, round and round.
pub open spec fn prev_place(list: Seq<PtyItem>, id: u64) -> int {
    (current_place(list, id) + list.len() - 1) % list.len() as int
}

/// True when no two PTYs of the list have the same id.
pub open spec fn distinct_ids(list: Seq<PtyItem>) -> bool {
    forall|i: int, j: int|
        0 <= i < j < list.len() ==> (#[trigger] list[i]).pty_id != (#[trigger] list[j]).pty_id
}

/// True for the place of the PTY that was used last among those whose id is not `except`; of several
/// the last in the list.
pub open spec fn is_last_used(list: Seq<PtyItem>, except: Option<u64>, at: int) -> bool {
    &&& 0 <= at < list.len()
    &&& except != Some(list[at].pty_id)
    &&& forall|i: int|
        0 <= i < list.len() && except != Some((#[trigger] list[i]).pty_id) ==> if i <= at {
            last_used(list[i]) <= last_used(list[at])
        } else {
            last_used(list[i]) < last_used(list[at])
        }
}

proof fn lemma_place_of(list: Seq<PtyItem>, id: u64)
    ensures
        0 <= place_of(list, id) <= list.len(),
        place_of(list, id) < list.len() ==> list[place_of(list, id)].pty_id == id,
        forall|i: int| 0 <= i < place_of(list, id) ==> (#[trigger] list[i]).pty_id != id,
    decreases list.len(),
{
    if list.len() > 0 && list[0].pty_id != id {
        let t = list.skip(1);
        lemma_place_of(t, id);
        assert forall|i: int| 0 <= i < place_of(list, id) implies (#[trigger] list[i]).pty_id != id by {
            if i > 0 {
                assert(t[i - 1] == list[i]);
            }
        }
        let p = place_of(t, id);
        assert(p < t.len() ==> t[p] == list[p + 1]);
    }
}

proof fn lemma_place_of_is(list: Seq<PtyItem>, id: u64, at: int)
    requires
        0 <= at <= list.len(),
        at < list.len() ==> list[at].pty_id == id,
        forall|i: int| 0 <= i < at ==> (#[trigger] list[i]).pty_id != id,
    ensures
        place_of(list, id) == at,
{
    lemma_place_of(list, id);
    let p = place_of(list, id);
    if p < at {
        assert(list[p].pty_id == id);
    } else if at < p {
        assert(list[at].pty_id != id);
    }
}

/// Finds a PTY in a list; gives the length of the list where it is not in it.
pub fn find_pty(list: &[PtyItem], id: u64) -> (at: usize)
    ensures
        at == place_of(list@, id),
        at <= list.len(),
{
    let mut i: usize = 0;
    while i < list.len() && list[i].pty_id != id
        invariant
            i <= list.len(),
            forall|j: int| 0 <= j < i ==> (#[trigger] list@[j]).pty_id != id,
        decreases list.len() - i,
    {
        i = i + 1;
    }
    proof {
        lemma_place_of_is(list@, id, i as int);
    }
    i
}

/// Finds the PTY that was used last among those whose id is not `except`.
pub fn find_last_used(list: &[PtyItem], except: Option<u64>) -> (at: Option<usize>)
    ensures
        match at {
            Some(i) => is_last_used(list@, except, i as int),
            None => forall|i: int| 0 <= i < list.len() ==> except == Some((#[trigger] list@[i]).pty_id),
        },
{
    let mut best: Option<usize> = None;
    let mut i: usize = 0;
    while i < list.len()
        invariant
            i <= list.len(),
            match best {
                Some(b) => b < i && is_last_used(list@.take(i as int), except, b as int),
                None => forall|j: int| 0 <= j < i ==> except == Some((#[trigger] list@[j]).pty_id),
            },
        decreases list.len() - i,
    {
        let ghost before = list@.take(i as int);
        let ghost now = list@.take(i + 1);
        assert(forall|j: int| 0 <= j < i ==> before[j] == now[j]);
        assert(now[i as int] == list@[i as int]);
        let skip = match except {
            Some(id) => id == list[i].pty_id,
            None => false,
        };
        if !skip {
            let better = match best {
                Some(b) => {
                    let new = last_used_stamp(&list[i]);
                    let old_best = last_used_stamp(&list[b]);
                    assert(before[b as int] == list@[b as int]);
                    new.0 > old_best.0 || (new.0 == old_best.0 && new.1 >= old_best.1)
                },
                None => true,
            };
            let ghost was = best;
            if better {
                best = Some(i);
            }
            proof {
                let b = best->0 as int;
                assert forall|j: int| 0 <= j < now.len() && except != Some((#[trigger] now[j]).pty_id) implies if j
                    <= b {
                    last_used(now[j]) <= last_used(now[b])
                } else {
                    last_used(now[j]) < last_used(now[b])
                } by {
                    if j < i {
                        assert(before[j] == now[j]);
                        assert(list@[j] == now[j]);
                    }
                }
            }
        } else {
            proof {
                if let Some(b) = best {
                    assert(is_last_used(now, except, b as int)) by {
                        assert forall|j: int| 0 <= j < now.len() && except != Some((#[trigger] now[j]).pty_id) implies if j
                            <= b {
                            last_used(now[j]) <= last_used(now[b as int])
                        } else {
                            last_used(now[j]) < last_used(now[b as int])
                        } by {
                            if j < i {
                                assert(before[j] == now[j]);
                            }
                        }
                    }
                }
            }
        }
        i = i + 1;
    }
    assert(list@.take(i as int) =~= list@);
    best
}

/// The PTY that was used last.
pub fn pick_best_pty(items: &[PtyItem]) -> (best: Option<&PtyItem>)
    ensures
        match best {
            Some(item) => exists|i: int| #[trigger] is_last_used(items@, None, i) && *item == items@[i],
            None => items.len() == 0,
        },
{
    match find_last_used(items, None) {
        Some(i) => Some(&items[i]),
        None => {
            proof {
                if items.len() > 0 {
                    assert(None::<u64> == Some(items@[0].pty_id));
                }
            }
            None
        },
    }
}

/// The PTY after the current one, the first after the last.
pub fn next_pty(list: &[PtyItem], current_id: u64) -> (next: Option<&PtyItem>)
    ensures
        match next {
            Some(item) => list.len() > 0 && *item == list@[next_place(list@, current_id)],
            None => list.len() == 0,
        },
{
    if list.len() == 0 {
        return None;
    }
    let at = find_pty(list, current_id);
    let at: usize = if at < list.len() { at } else { 0 };
    let next: usize = if at + 1 < list.len() { at + 1 } else { 0 };
    proof {
        lemma_place_of(list@, current_id);
        if at + 1 < list.len() {
            vstd::arithmetic::div_mod::lemma_small_mod((at + 1) as nat, list.len() as nat);
        } else {
            vstd::arithmetic::div_mod::lemma_mod_self_0(list.len() as int);
        }
    }
    Some(&list[next])
}

/// The PTY before the current one, the last before the first.
pub fn prev_pty(list: &[PtyItem], current_id: u64) -> (prev: Option<&PtyItem>)
    ensures
        match prev {
            Some(item) => list.len() > 0 && *item == list@[prev_place(list@, current_id)],
            None => list.len() == 0,
        },
{
    if list.len() == 0 {
        return None;
    }
    let at = find_pty(list, current_id);
    let at: usize = if at < list.len() { at } else { 0 };
    let prev: usize = if at > 0 { at - 1 } else { list.len() - 1 };
    proof {
        lemma_place_of(list@, current_id);
        let n = list.len() as int;
        if at > 0 {
            vstd::arithmetic::div_mod::lemma_small_mod((at - 1) as nat, n as nat);
            vstd::arithmetic::div_mod::lemma_mod_add_multiples_vanish(at - 1, n);
            assert((at + n - 1) % n == (n + (at - 1)) % n);
        } else {
            vstd::arithmetic::div_mod::lemma_small_mod((n - 1) as nat, n as nat);
        }
    }
    Some(&list[prev])
}

/// The PTY to go back to, by its place: the one before, if it is still there; or else the one of the
/// others that was used last, or else the first. There is none where no PTY came before, or the list
/// is empty.
pub open spec fn is_recent(list: Seq<PtyItem>, previous: Option<u64>, current: u64, at: Option<int>) -> bool {
    match previous {
        None => at is None,
        Some(id) => if place_of(list, id) < list.len() {
            at == Some(place_of(list, id))
        } else if exists|i: int| is_last_used(list, Some(current), i) {
            at is Some && is_last_used(list, Some(current), at->0)
        } else if list.len() > 0 {
            at == Some(0int)
        } else {
            at is None
        },
    }
}

/// True when a PTY came before but is not there any more, and neither is any other.
pub open spec fn is_alone(list: Seq<PtyItem>, previous: Option<u64>, current: u64) -> bool {
    &&& previous is Some
    &&& place_of(list, previous->0) >= list.len()
    &&& forall|i: int| 0 <= i < list.len() ==> (#[trigger] list[i]).pty_id == current
}

/// The PTY to go back to.
pub struct Recent {
    pub at: Option<usize>,
    /// There was no other PTY to go to, which the user is told.
    pub alone: bool,
}

/// Finds the PTY to go back to.
pub fn recent_pty(list: &[PtyItem], previous_pty_id: Option<u64>, current_pty_id: u64) -> (recent: Recent)
    ensures
        is_recent(
            list@,
            previous_pty_id,
            current_pty_id,
            match recent.at {
                Some(i) => Some(i as int),
                None => None,
            },
        ),
        recent.at matches Some(i) ==> i < list.len(),
        recent.alone == is_alone(list@, previous_pty_id, current_pty_id),
{
    match previous_pty_id {
        None => Recent { at: None, alone: false },
        Some(id) => {
            let at = find_pty(list, id);
            proof {
                lemma_place_of(list@, id);
            }
            if at < list.len() {
                return Recent { at: Some(at), alone: false };
            }
            match find_last_used(list, Some(current_pty_id)) {
                Some(i) => {
                    assert(is_last_used(list@, Some(current_pty_id), i as int));
                    assert(list@[i as int].pty_id != current_pty_id);
                    Recent { at: Some(i), alone: false }
                },
                None => {
                    assert forall|i: int| !is_last_used(list@, Some(current_pty_id), i) by {
                        if 0 <= i < list.len() {
                            assert(Some(current_pty_id) == Some(list@[i].pty_id));
                        }
                    }
                    if list.len() > 0 {
                        Recent { at: Some(0), alone: true }
                    } else {
                        Recent { at: None, alone: true }
                    }
                },
            }
        },
    }
}

/// A list as the client keeps it: by the place that the server gave each PTY.
pub fn sorted_list(items: Vec<PtyItem>) -> (list: Vec<PtyItem>)
    ensures
        list@ == in_order(items@),
{
    sort_by_key(items)
}

/// What a line of the list shows as the title: the title, or the device where there is none; not
/// more than 32 characters of it.
pub open spec fn shown_title(item: PtyItem) -> Seq<char> {
    let title = if item.title@.len() == 0 {
        item.pts_name@
    } else {
        item.title@
    };
    if title.len() > 32 {
        title.take(32)
    } else {
        title
    }
}

/// A line of the list: number, id, title and size, in columns.
pub open spec fn list_line(item: PtyItem) -> Seq<u8> {
    bytes_of(" ") + right_aligned(decimal(item.sort_order as nat), 3) + bytes_of("  ") + hex16(item.pty_id)
        + bytes_of("  ") + left_aligned(shown_title(item), 32) + bytes_of("  ") + decimal(
        size_of_item(item).0 as nat,
    ) + bytes_of("x") + decimal(size_of_item(item).1 as nat) + bytes_of("\r\n")
}

/// The lines of the list, with the selected one inverted.
pub open spec fn list_lines(items: Seq<PtyItem>, selected: int) -> Seq<u8>
    decreases items.len(),
{
    if items.len() == 0 {
        Seq::empty()
    } else {
        let line = list_line(items.last());
        list_lines(items.drop_last(), selected) + (if items.len() - 1 == selected {
            bytes_of("\x1b[7m") + line + bytes_of("\x1b[0m")
        } else {
            line
        })
    }
}

/// Appends a line of the list.
fn push_list_line(out: &mut Vec<u8>, item: &PtyItem)
    ensures
        final(out)@ == old(out)@ + list_line(*item),
{
    broadcast use crate::text::lemma_append_assoc;

    let title = if item.title.as_str().is_empty() { item.pts_name.as_str() } else { item.title.as_str() };
    let len = title.unicode_len();
    let shown = if len > 32 { title.substring_char(0, 32) } else { title };
    assert(shown@ =~= shown_title(*item));
    let (cols, rows) = item_size(item);
    push_str(out, " ");
    push_right_aligned(out, item.sort_order as u64, 3);
    push_str(out, "  ");
    push_hex16(out, item.pty_id);
    push_str(out, "  ");
    push_left_aligned(out, shown, 32);
    push_str(out, "  ");
    push_decimal(out, cols as u64);
    push_str(out, "x");
    push_decimal(out, rows as u64);
    push_str(out, "\r\n");
}

/// Paints the list.
pub fn draw_list(items: &[PtyItem], selected: usize) -> (out: Vec<u8>)
    ensures
        out@ == bytes_of("\x1b[2J\x1b[H") + list_lines(items@, selected as int),
{
    let mut out: Vec<u8> = Vec::new();
    push_str(&mut out, "\x1b[2J\x1b[H");
    let ghost start = bytes_of("\x1b[2J\x1b[H");
    assert(out@ =~= start + list_lines(items@.take(0), selected as int));
    let mut i: usize = 0;
    while i < items.len()
        invariant
            i <= items.len(),
            out@ == start + list_lines(items@.take(i as int), selected as int),
        decreases items.len() - i,
    {
        let ghost before = out@;
        let ghost next = items@.take(i + 1);
        assert(next.drop_last() =~= items@.take(i as int));
        if i == selected {
            push_str(&mut out, "\x1b[7m");
        }
        push_list_line(&mut out, &items[i]);
        if i == selected {
            push_str(&mut out, "\x1b[0m");
        }
        assert(out@ =~= start + list_lines(next, selected as int));
        i = i + 1;
    }
    assert(items@.take(i as int) =~= items@);
    out
}

/// The screen on which a PTY is chosen.
pub struct ListScreen {
    pub selected: usize,
}

/// What a key does on that screen.
#[derive(Clone, Copy, Debug, PartialEq, Eq, Structural)]
pub enum ListStep {
    /// This PTY is chosen.
    Choose(u64),
    /// Paint the list again.
    Redraw,
    /// An escape came alone: wait a moment for the rest of an arrow key.
    AwaitEscape,
    /// Nothing is chosen.
    Cancel,
    /// Nothing.
    Ignore,
}

/// The selection one line further up, if there is one.
pub open spec fn up(selected: usize) -> usize {
    if selected > 0 {
        (selected - 1) as usize
    } else {
        0
    }
}

/// The selection one line further down, if there is one.
pub open spec fn down(selected: usize, len: nat) -> usize {
    if selected + 1 < len {
        (selected + 1) as usize
    } else {
        selected
    }
}

/// What input does on the screen; `None` where there will be no more. Arrow keys come as sequences of
/// three bytes.
pub open spec fn list_step(selected: usize, list: Seq<PtyItem>, input: Option<Seq<u8>>) -> (usize, ListStep) {
    match input {
        None => (selected, ListStep::Cancel),
        Some(keys) => if keys == seq!['\r' as u8] || keys == seq!['\n' as u8] {
            (selected, ListStep::Choose(list[selected as int].pty_id))
        } else if keys.len() >= 3 && keys[0] == 0x1b && keys[1] == '[' as u8 && keys[2] == 'A' as u8 {
            (up(selected), ListStep::Redraw)
        } else if keys.len() >= 3 && keys[0] == 0x1b && keys[1] == '[' as u8 && keys[2] == 'B' as u8 {
            (down(selected, list.len()), ListStep::Redraw)
        } else if keys == seq![0x1bu8] {
            (selected, ListStep::AwaitEscape)
        } else {
            (selected, ListStep::Ignore)
        },
    }
}

/// What follows an escape that came alone: the rest of an arrow key, or nothing of the kind.
pub open spec fn list_escape_step(selected: usize, len: nat, rest: Option<Seq<u8>>) -> (usize, ListStep) {
    if rest == Some(seq!['[' as u8, 'A' as u8]) {
        (up(selected), ListStep::Redraw)
    } else if rest == Some(seq!['[' as u8, 'B' as u8]) {
        (down(selected, len), ListStep::Redraw)
    } else {
        (selected, ListStep::Cancel)
    }
}

/// True when the selection is the current PTY, or else the one that was used last.
pub open spec fn is_first_selected(list: Seq<PtyItem>, current: u64, selected: usize) -> bool {
    &&& selected < list.len()
    &&& if place_of(list, current) < list.len() {
        selected == place_of(list, current)
    } else {
        is_last_used(list, None, selected as int)
    }
}

impl ListScreen {
    /// The screen with the current PTY selected, or else the one that was used last. There is none
    /// where there is nothing to choose from.
    pub fn open(items: &[PtyItem], current_pty_id: u64) -> (screen: Option<Self>)
        ensures
            screen is None <==> items@.len() == 0,
            screen matches Some(s) ==> is_first_selected(items@, current_pty_id, s.selected),
    {
        let at = find_pty(items, current_pty_id);
        if at < items.len() {
            return Some(ListScreen { selected: at });
        }
        match find_last_used(items, None) {
            Some(i) => Some(ListScreen { selected: i }),
            None => {
                proof {
                    if items@.len() > 0 {
                        assert(None::<u64> == Some(items@[0].pty_id));
                    }
                }
                None
            },
        }
    }

    /// Takes input; `None` where there will be no more.
    pub fn on_input(&mut self, items: &[PtyItem], input: Option<&[u8]>) -> (step: ListStep)
        requires
            old(self).selected < items@.len(),
        ensures
            final(self).selected < items@.len(),
            (final(self).selected, step) == list_step(
                old(self).selected,
                items@,
                match input {
                    Some(keys) => Some(keys@),
                    None => None,
                },
            ),
    {
        let keys = match input {
            Some(keys) => keys,
            None => {
                return ListStep::Cancel;
            },
        };
        proof {
            lemma_single(keys@);
        }
        if keys.len() == 1 && (keys[0] == '\r' as u8 || keys[0] == '\n' as u8) {
            ListStep::Choose(items[self.selected].pty_id)
        } else if keys.len() >= 3 && keys[0] == 0x1b && keys[1] == '[' as u8 && keys[2] == 'A' as u8 {
            self.move_up();
            ListStep::Redraw
        } else if keys.len() >= 3 && keys[0] == 0x1b && keys[1] == '[' as u8 && keys[2] == 'B' as u8 {
            self.move_down(items.len());
            ListStep::Redraw
        } else if keys.len() == 1 && keys[0] == 0x1b {
            ListStep::AwaitEscape
        } else {
            ListStep::Ignore
        }
    }

    /// Takes what followed an escape that came alone; `None` where nothing did in time.
    pub fn on_escape(&mut self, len: usize, rest: Option<&[u8]>) -> (step: ListStep)
        requires
            old(self).selected < len,
        ensures
            final(self).selected < len,
            (final(self).selected, step) == list_escape_step(
                old(self).selected,
                len as nat,
                match rest {
                    Some(r) => Some(r@),
                    None => None,
                },
            ),
    {
        if let Some(r) = rest {
            proof {
                lemma_pair(r@);
            }
            if r.len() == 2 && r[0] == '[' as u8 && r[1] == 'A' as u8 {
                self.move_up();
                return ListStep::Redraw;
            }
            if r.len() == 2 && r[0] == '[' as u8 && r[1] == 'B' as u8 {
                self.move_down(len);
                return ListStep::Redraw;
            }
        }
        ListStep::Cancel
    }

    fn move_up(&mut self)
        ensures
            final(self).selected == up(old(self).selected),
    {
        if self.selected > 0 {
            self.selected = self.selected - 1;
        }
    }

    fn move_down(&mut self, len: usize)
        requires
            old(self).selected < len,
        ensures
            final(self).selected == down(old(self).selected, len as nat),
    {
        if self.selected < len - 1 {
            self.selected = self.selected + 1;
        }
    }
}

/// A sequence of one byte is known by it.
pub(crate) proof fn lemma_single(s: Seq<u8>)
    ensures
        forall|b: u8| s == #[trigger] seq![b] <==> s.len() == 1 && s[0] == b,
{
    assert forall|b: u8| s == #[trigger] seq![b] <==> s.len() == 1 && s[0] == b by {
        if s.len() == 1 && s[0] == b {
            assert(s =~= seq![b]);
        }
    }
}

/// A sequence of two bytes is known by them.
pub(crate) proof fn lemma_pair(s: Seq<u8>)
    ensures
        forall|a: u8, b: u8| s == #[trigger] seq![a, b] <==> s.len() == 2 && s[0] == a && s[1] == b,
{
    assert forall|a: u8, b: u8| s == #[trigger] seq![a, b] <==> s.len() == 2 && s[0] == a && s[1] == b by {
        if s.len() == 2 && s[0] == a && s[1] == b {
            assert(s =~= seq![a, b]);
        }
    }
}

proof fn lemma_round(len: int, at: int)
    requires
        0 <= at < len,
    ensures
        0 <= (at + 1) % len < len,
        0 <= (at + len - 1) % len < len,
        ((at + 1) % len + len - 1) % len == at,
        ((at + len - 1) % len + 1) % len == at,
{
    if at + 1 < len {
        vstd::arithmetic::div_mod::lemma_small_mod((at + 1) as nat, len as nat);
        vstd::arithmetic::div_mod::lemma_mod_add_multiples_vanish(at, len);
        vstd::arithmetic::div_mod::lemma_small_mod(at as nat, len as nat);
        assert(((at + 1) + len - 1) % len == (len + at) % len);
    } else {
        vstd::arithmetic::div_mod::lemma_mod_self_0(len);
        vstd::arithmetic::div_mod::lemma_small_mod((len - 1) as nat, len as nat);
        assert((0 + len - 1) % len == len - 1);
    }
    if at > 0 {
        vstd::arithmetic::div_mod::lemma_mod_add_multiples_vanish(at - 1, len);
        vstd::arithmetic::div_mod::lemma_small_mod((at - 1) as nat, len as nat);
        vstd::arithmetic::div_mod::lemma_small_mod(at as nat, len as nat);
        assert((at + len - 1) % len == (len + (at - 1)) % len);
    } else {
        vstd::arithmetic::div_mod::lemma_small_mod((len - 1) as nat, len as nat);
        vstd::arithmetic::div_mod::lemma_mod_self_0(len);
    }
}

/// Law: from a PTY of the list to the next and then to the previous one leads back, and the other
/// way round.
pub proof fn law_next_and_prev(list: Seq<PtyItem>, id: u64)
    requires
        distinct_ids(list),
        place_of(list, id) < list.len(),
    ensures
        list[prev_place(list, list[next_place(list, id)].pty_id)].pty_id == id,
        list[next_place(list, list[prev_place(list, id)].pty_id)].pty_id == id,
{
    lemma_place_of(list, id);
    let at = place_of(list, id);
    lemma_round(list.len() as int, at);
    let next = next_place(list, id);
    let prev = prev_place(list, id);
    assert forall|i: int| 0 <= i < next implies (#[trigger] list[i]).pty_id != list[next].pty_id by {}
    lemma_place_of_is(list, list[next].pty_id, next);
    assert forall|i: int| 0 <= i < prev implies (#[trigger] list[i]).pty_id != list[prev].pty_id by {}
    lemma_place_of_is(list, list[prev].pty_id, prev);
}

/// Law: there is only one PTY that was used last.
pub proof fn law_last_used_is_unique(list: Seq<PtyItem>, except: Option<u64>, a: int, b: int)
    requires
        is_last_used(list, except, a),
        is_last_used(list, except, b),
    ensures
        a == b,
{
    if a < b {
        assert(last_used(list[b]) < last_used(list[a]));
        assert(last_used(list[a]) <= last_used(list[b]));
    } else if b < a {
        assert(last_used(list[a]) < last_used(list[b]));
        assert(last_used(list[b]) <= last_used(list[a]));
    }
}

/// True when a time is not after another: fewer seconds, or as many and not more nanoseconds.
pub open spec fn not_after(a: Timestamp, b: Timestamp) -> bool {
    a.seconds < b.seconds || (a.seconds == b.seconds && a.nanos <= b.nanos)
}

/// Law: the PTY that was used last is the one that was subscribed to last, whenever the PTYs were
/// created. The time of creation counts only for a PTY that nobody subscribed to yet. Of several used at
/// the same time it is the last in the list.
pub proof fn law_used_last(list: Seq<PtyItem>, except: Option<u64>, at: int, i: int)
    requires
        is_last_used(list, except, at),
        0 <= i < list.len(),
        except != Some(list[i].pty_id),
    ensures
        list[i].last_subscribed_at matches Some(t) ==> (list[at].last_subscribed_at matches Some(best) ==> not_after(
            t,
            best,
        ) && (i > at ==> !not_after(best, t))),
        list[i].last_subscribed_at matches Some(t) ==> (list[at].last_subscribed_at is None ==> (
        list[at].created_at matches Some(best) ==> not_after(t, best) && (i > at ==> !not_after(best, t)))),
        list[i].last_subscribed_at is None ==> (list[i].created_at matches Some(t) ==> (
        list[at].last_subscribed_at matches Some(best) ==> not_after(t, best) && (i > at ==> !not_after(best, t)))),
        list[i].last_subscribed_at is None ==> (list[i].created_at matches Some(t) ==> (
        list[at].last_subscribed_at is None ==> (list[at].created_at matches Some(best) ==> not_after(t, best) && (i > at
            ==> !not_after(best, t))))),
        list[i].last_subscribed_at is None && list[i].created_at is None ==> (
        list[at].last_subscribed_at matches Some(best) ==> not_after(Timestamp { seconds: 0, nanos: 0 }, best)),
        except != Some(list[at].pty_id),
{
    assert(if i <= at {
        last_used(list[i]) <= last_used(list[at])
    } else {
        last_used(list[i]) < last_used(list[at])
    });
}

/// Law: the place of a PTY in a list is the first one that has its id; where none has it, there is no
/// place.
pub proof fn law_place_of(list: Seq<PtyItem>, id: u64)
    ensures
        0 <= place_of(list, id) <= list.len(),
        place_of(list, id) < list.len() ==> list[place_of(list, id)].pty_id == id,
        forall|i: int| 0 <= i < place_of(list, id) ==> (#[trigger] list[i]).pty_id != id,
{
    lemma_place_of(list, id);
}

/// Law: the next PTY is the one below the current one, and the first below the last; the previous one is
/// the one above it, and the last above the first. Where the current PTY is not in the list, the first
/// stands for it.
pub proof fn law_neighbours(list: Seq<PtyItem>, id: u64, at: int)
    requires
        0 <= at < list.len(),
        list[at].pty_id == id || (at == 0 && forall|i: int| 0 <= i < list.len() ==> (#[trigger] list[i]).pty_id != id),
        forall|i: int| 0 <= i < at ==> (#[trigger] list[i]).pty_id != id,
    ensures
        at + 1 < list.len() ==> next_place(list, id) == at + 1,
        at + 1 == list.len() ==> next_place(list, id) == 0,
        at > 0 ==> prev_place(list, id) == at - 1,
        at == 0 ==> prev_place(list, id) == list.len() - 1,
{
    lemma_place_of(list, id);
    if list[at].pty_id == id {
        lemma_place_of_is(list, id, at);
    } else if place_of(list, id) < list.len() {
        assert(list[place_of(list, id)].pty_id == id);
    }
    assert(current_place(list, id) == at);
    let n = list.len() as int;
    if at + 1 < n {
        vstd::arithmetic::div_mod::lemma_small_mod((at + 1) as nat, n as nat);
    } else {
        vstd::arithmetic::div_mod::lemma_mod_self_0(n);
    }
    if at > 0 {
        vstd::arithmetic::div_mod::lemma_small_mod((at - 1) as nat, n as nat);
        vstd::arithmetic::div_mod::lemma_mod_add_multiples_vanish(at - 1, n);
        assert((at + n - 1) % n == (n + (at - 1)) % n);
    } else {
        vstd::arithmetic::div_mod::lemma_small_mod((n - 1) as nat, n as nat);
    }
}

/// Law: going back leads to the PTY before, wherever it stands now. Where that one is gone it leads to
/// another PTY than the current one, as long as there is one, and otherwise nowhere else; it leads
/// nowhere where no PTY came before.
pub proof fn law_going_back(list: Seq<PtyItem>, previous: Option<u64>, current: u64, at: Option<int>, i: int)
    requires
        is_recent(list, previous, current, at),
        0 <= i < list.len(),
        at matches Some(k) ==> 0 <= k < list.len(),
    ensures
        previous is None ==> at is None && !is_alone(list, previous, current),
        previous matches Some(id) ==> at is Some,
        previous matches Some(id) ==> (list[i].pty_id == id ==> list[at->0].pty_id == id && !is_alone(
            list,
            previous,
            current,
        )),
        previous matches Some(id) ==> ((forall|k: int| 0 <= k < list.len() ==> (#[trigger] list[k]).pty_id != id)
            && list[i].pty_id != current && at->0 != i ==> {
            &&& list[at->0].pty_id != current
            &&& is_last_used(list, Some(current), at->0)
            &&& !is_alone(list, previous, current)
        }),
        previous matches Some(id) ==> (id != current && (forall|k: int|
            0 <= k < list.len() ==> (#[trigger] list[k]).pty_id == current) ==> is_alone(list, previous, current)
            && at == Some(0int)),
{
    if let Some(id) = previous {
        lemma_place_of(list, id);
        if list[i].pty_id == id {
            assert(place_of(list, id) <= i) by {
                if place_of(list, id) > i {
                    assert(list[i].pty_id != id);
                }
            }
        }
        if place_of(list, id) >= list.len() {
            if list[i].pty_id != current {
                lemma_some_last_used(list, Some(current), list.len() as int);
            }
            if exists|k: int| is_last_used(list, Some(current), k) {
                let k = choose|k: int| is_last_used(list, Some(current), k);
                assert(list[k].pty_id != current);
            }
        } else {
            assert(list[place_of(list, id)].pty_id == id);
        }
    }
}

/// Among PTYs of which one counts, one was used last.
proof fn lemma_some_last_used(list: Seq<PtyItem>, except: Option<u64>, n: int)
    requires
        0 <= n <= list.len(),
    ensures
        (exists|i: int| 0 <= i < n && except != Some((#[trigger] list[i]).pty_id)) ==> exists|k: int|
            is_last_used(list.take(n), except, k),
        n == list.len() && (exists|i: int| 0 <= i < n && except != Some((#[trigger] list[i]).pty_id)) ==> exists|k: int|
            is_last_used(list, except, k),
    decreases n,
{
    if exists|i: int| 0 <= i < n && except != Some((#[trigger] list[i]).pty_id) {
        let less = list.take(n - 1);
        let now = list.take(n);
        lemma_some_last_used(list, except, n - 1);
        assert(forall|j: int| 0 <= j < n - 1 ==> less[j] == now[j]);
        assert(now[n - 1] == list[n - 1]);
        if exists|i: int| 0 <= i < n - 1 && except != Some((#[trigger] list[i]).pty_id) {
            let k = choose|k: int| is_last_used(less, except, k);
            if except != Some(list[n - 1].pty_id) && last_used(list[n - 1]) >= last_used(less[k]) {
                assert(is_last_used(now, except, n - 1)) by {
                    assert forall|j: int| 0 <= j < now.len() && except != Some((#[trigger] now[j]).pty_id) implies if j
                        <= n - 1 {
                        last_used(now[j]) <= last_used(now[n - 1])
                    } else {
                        last_used(now[j]) < last_used(now[n - 1])
                    } by {
                        if j < n - 1 {
                            assert(less[j] == now[j]);
                        }
                    }
                }
            } else {
                assert(is_last_used(now, except, k)) by {
                    assert forall|j: int| 0 <= j < now.len() && except != Some((#[trigger] now[j]).pty_id) implies if j
                        <= k {
                        last_used(now[j]) <= last_used(now[k])
                    } else {
                        last_used(now[j]) < last_used(now[k])
                    } by {
                        if j < n - 1 {
                            assert(less[j] == now[j]);
                        }
                    }
                }
            }
        } else {
            let i = choose|i: int| 0 <= i < n && except != Some((#[trigger] list[i]).pty_id);
            assert(i == n - 1);
            assert(is_last_used(now, except, n - 1)) by {
                assert forall|j: int| 0 <= j < now.len() && except != Some((#[trigger] now[j]).pty_id) implies if j <= n
                    - 1 {
                    last_used(now[j]) <= last_used(now[n - 1])
                } else {
                    last_used(now[j]) < last_used(now[n - 1])
                } by {
                    if j < n - 1 {
                        assert(now[j] == list[j]);
                    }
                }
            }
        }
        if n == list.len() {
            assert(list.take(n) =~= list);
        }
    }
}

/// Law: a list is kept by the places that the server gave, and holds the same PTYs.
pub proof fn law_list_by_place(items: Seq<PtyItem>)
    ensures
        in_order(items).to_multiset() == items.to_multiset(),
        in_order(items).len() == items.len(),
        forall|i: int, j: int|
            0 <= i <= j < items.len() ==> (#[trigger] in_order(items)[i]).sort_order <= (#[trigger] in_order(
                items,
            )[j]).sort_order,
{
    crate::order::law_in_order(items);
    let s = in_order(items);
    assert forall|i: int, j: int| 0 <= i <= j < items.len() implies (#[trigger] s[i]).sort_order <= (
    #[trigger] s[j]).sort_order by {
        assert(s[i].key() <= s[j].key());
    }
}

/// Law: keys on the list. Return and line feed choose the selected PTY; the arrow keys move by one line
/// and stop at the ends, whether they come whole or behind a lone escape; a lone escape and the end of
/// input choose nothing; nothing else does anything.
pub proof fn law_list_keys(list: Seq<PtyItem>, selected: usize, more: Seq<u8>, other: Seq<u8>)
    requires
        selected < list.len() <= usize::MAX,
        other.len() > 0,
        other.len() < 3 || !(other[0] == 0x1b && other[1] == '[' as u8 && (other[2] == 'A' as u8 || other[2] == 'B' as u8)),
        other != seq!['\r' as u8],
        other != seq!['\n' as u8],
        other != seq![0x1bu8],
    ensures
        ({
            let above: usize = if selected > 0 {
                (selected - 1) as usize
            } else {
                0
            };
            let below: usize = if selected + 1 < list.len() {
                (selected + 1) as usize
            } else {
                selected
            };
            let up_key = seq![0x1bu8, '[' as u8, 'A' as u8];
            let down_key = seq![0x1bu8, '[' as u8, 'B' as u8];
            &&& list_step(selected, list, Some(seq!['\r' as u8])) == (
                selected,
                ListStep::Choose(list[selected as int].pty_id),
            )
            &&& list_step(selected, list, Some(seq!['\n' as u8])) == (
                selected,
                ListStep::Choose(list[selected as int].pty_id),
            )
            &&& list_step(selected, list, Some(up_key + more)) == (above, ListStep::Redraw)
            &&& list_step(selected, list, Some(down_key + more)) == (below, ListStep::Redraw)
            &&& list_step(selected, list, Some(seq![0x1bu8])) == (selected, ListStep::AwaitEscape)
            &&& list_step(selected, list, Some(other)) == (selected, ListStep::Ignore)
            &&& list_step(selected, list, None) == (selected, ListStep::Cancel)
            &&& list_escape_step(selected, list.len(), Some(seq!['[' as u8, 'A' as u8])) == (above, ListStep::Redraw)
            &&& list_escape_step(selected, list.len(), Some(seq!['[' as u8, 'B' as u8])) == (below, ListStep::Redraw)
            &&& list_escape_step(selected, list.len(), None) == (selected, ListStep::Cancel)
            &&& other != seq!['[' as u8, 'A' as u8] && other != seq!['[' as u8, 'B' as u8] ==> list_escape_step(
                selected,
                list.len(),
                Some(other),
            ) == (selected, ListStep::Cancel)
        }),
{
    let up_key = seq![0x1bu8, '[' as u8, 'A' as u8];
    let down_key = seq![0x1bu8, '[' as u8, 'B' as u8];
    lemma_single(seq!['\r' as u8]);
    lemma_single(seq!['\n' as u8]);
    lemma_single(seq![0x1bu8]);
    lemma_single(up_key + more);
    lemma_single(down_key + more);
    lemma_pair(seq!['[' as u8, 'A' as u8]);
    lemma_pair(seq!['[' as u8, 'B' as u8]);
    assert((up_key + more)[0] == 0x1b && (up_key + more)[1] == '[' as u8 && (up_key + more)[2] == 'A' as u8);
    assert((down_key + more)[0] == 0x1b && (down_key + more)[1] == '[' as u8 && (down_key + more)[2] == 'B' as u8);
}

/// Law: the list opens with the current PTY selected where it is in the list, and otherwise with one that
/// was used last.
pub proof fn law_list_opens_at(list: Seq<PtyItem>, current: u64, selected: usize, i: int)
    requires
        is_first_selected(list, current, selected),
        0 <= i < list.len(),
    ensures
        selected < list.len(),
        list[i].pty_id == current ==> list[selected as int].pty_id == current,
        (forall|k: int| 0 <= k < list.len() ==> (#[trigger] list[k]).pty_id != current) ==> is_last_used(
            list,
            None,
            selected as int,
        ),
{
    lemma_place_of(list, current);
    if list[i].pty_id == current {
        assert(place_of(list, current) <= i) by {
            if place_of(list, current) > i {
                assert(list[i].pty_id != current);
            }
        }
    }
    if place_of(list, current) < list.len() {
        assert(list[place_of(list, current)].pty_id == current);
    }
}

/// Law: the title that is shown is the PTY's own, or its device's name where it has none, and of a longer
/// one the first 32 characters.
pub proof fn law_shown_title(item: PtyItem)
    ensures
        ({
            let title = if item.title@.len() > 0 {
                item.title@
            } else {
                item.pts_name@
            };
            &&& title.len() <= 32 ==> shown_title(item) == title
            &&& title.len() > 32 ==> shown_title(item).len() == 32 && shown_title(item).is_prefix_of(title)
        }),
{
}

/// Law: a line of the list tells the number of a PTY, its id, its title and its size, each in its column
/// and once.
pub proof fn law_list_line(item: PtyItem)
    ensures
        ({
            let number = decimal(item.sort_order as nat);
            let title = shown_title(item);
            let (cols, rows) = match item.size {
                Some(s) => (s.cols, s.rows),
                None => (0u32, 0u32),
            };
            let front = if number.len() < 3 {
                spaces((3 - number.len()) as nat)
            } else {
                Seq::empty()
            };
            let back = if title.len() < 32 {
                spaces((32 - title.len()) as nat)
            } else {
                Seq::empty()
            };
            let text = vstd::utf8::encode_utf8(title) + back;
            list_line(item) == bytes_of(" ") + (front + number) + bytes_of("  ") + hex16(item.pty_id) + bytes_of("  ")
                + text + bytes_of("  ") + decimal(cols as nat) + bytes_of("x") + decimal(rows as nat) + bytes_of("\r\n")
        }),
{
    let number = decimal(item.sort_order as nat);
    assert(Seq::<u8>::empty() + number =~= number);
}

/// Law: the lines of the list stand below each other in its order, and the selected one alone is inverted.
pub proof fn law_list_lines(items: Seq<PtyItem>, item: PtyItem, selected: int)
    ensures
        selected == items.len() ==> list_lines(items.push(item), selected) == list_lines(items, selected) + (bytes_of(
            "\x1b[7m",
        ) + list_line(item) + bytes_of("\x1b[0m")),
        selected != items.len() ==> list_lines(items.push(item), selected) == list_lines(items, selected) + list_line(
            item,
        ),
{
    assert(items.push(item).drop_last() =~= items);
}

/// Law: a bare attach goes to the PTY that was subscribed to last. Where every PTY was subscribed to, the
/// times of their creation do not matter.
pub proof fn law_best_pty(items: &[PtyItem], best: Option<&PtyItem>, i: int)
    requires
        call_ensures(pick_best_pty, (items,), best),
        0 <= i < items@.len(),
    ensures
        best is Some,
        exists|at: int| 0 <= at < items@.len() && *best->0 == #[trigger] items@[at],
        items@[i].last_subscribed_at matches Some(t) ==> (best->0.last_subscribed_at matches Some(b) ==> not_after(t, b)),
        items@[i].last_subscribed_at is None ==> (items@[i].created_at matches Some(t) ==> (
        best->0.last_subscribed_at matches Some(b) ==> not_after(t, b))),
        items@[i].last_subscribed_at matches Some(t) ==> (best->0.last_subscribed_at is None ==> (
        best->0.created_at matches Some(b) ==> not_after(t, b))),
{
    let at = choose|at: int| #[trigger] is_last_used(items@, None, at) && *best->0 == items@[at];
    law_used_last(items@, None, at, i);
}

} // verus!
