//! The pager in which the client shows a PTY's history. Where in the history it stands is the
//! server's to know; the pager only says how to move.
use super::list::{lemma_pair, lemma_single};
use crate::proto::ScrollbackOpKind;
#[allow(unused_imports)]
use crate::text::{bytes_of, decimal};
use crate::text::{push_bytes, push_decimal, push_str};
use vstd::prelude::*;

verus! {

/// A screenful of rows as a signed amount, of the same 32 bits.
pub open spec fn page_of(rows: u32) -> int {
    if rows < 0x8000_0000 {
        rows as int
    } else {
        rows - 0x1_0000_0000
    }
}

/// True for input that begins with this arrow key.
pub open spec fn is_arrow(buf: Seq<u8>, key: u8) -> bool {
    buf.len() >= 3 && buf[0] == 0x1b && buf[1] == '[' as u8 && buf[2] == key
}

/// What a key asks for: one row or one screenful older or newer, the oldest row, or the end. The
/// server keeps moves within the history.
pub open spec fn op_for_key(buf: Seq<u8>, rows: u32) -> Option<(ScrollbackOpKind, int)> {
    if is_arrow(buf, 'A' as u8) {
        Some((ScrollbackOpKind::ScrollbackMove, 1))
    } else if is_arrow(buf, 'B' as u8) {
        Some((ScrollbackOpKind::ScrollbackMove, -1))
    } else if buf == seq![0x02u8] || buf == seq!['b' as u8] {
        Some((ScrollbackOpKind::ScrollbackMove, page_of(rows)))
    } else if buf == seq![0x06u8] || buf == seq!['f' as u8] {
        Some((ScrollbackOpKind::ScrollbackMove, -page_of(rows)))
    } else if buf == seq!['g' as u8] {
        Some((ScrollbackOpKind::ScrollbackMove, i32::MAX as int))
    } else if buf == seq!['G' as u8] {
        Some((ScrollbackOpKind::ScrollbackOpen, 0))
    } else {
        None
    }
}

/// Tells what a key asks for; nothing for any other key.
pub fn key_to_op(buf: &[u8], rows: u32) -> (op: Option<(ScrollbackOpKind, i32)>)
    requires
        rows != 0x8000_0000,
    ensures
        match op {
            Some((kind, amount)) => op_for_key(buf@, rows) == Some((kind, amount as int)),
            None => op_for_key(buf@, rows) is None,
        },
{
    proof {
        lemma_single(buf@);
    }
    let page: i32 = if rows < 0x8000_0000 { rows as i32 } else { (rows as i64 - 0x1_0000_0000) as i32 };
    if buf.len() >= 3 && buf[0] == 0x1b && buf[1] == '[' as u8 && buf[2] == 'A' as u8 {
        Some((ScrollbackOpKind::ScrollbackMove, 1))
    } else if buf.len() >= 3 && buf[0] == 0x1b && buf[1] == '[' as u8 && buf[2] == 'B' as u8 {
        Some((ScrollbackOpKind::ScrollbackMove, -1))
    } else if buf.len() == 1 && (buf[0] == 0x02 || buf[0] == 'b' as u8) {
        Some((ScrollbackOpKind::ScrollbackMove, page))
    } else if buf.len() == 1 && (buf[0] == 0x06 || buf[0] == 'f' as u8) {
        Some((ScrollbackOpKind::ScrollbackMove, -page))
    } else if buf.len() == 1 && buf[0] == 'g' as u8 {
        Some((ScrollbackOpKind::ScrollbackMove, i32::MAX))
    } else if buf.len() == 1 && buf[0] == 'G' as u8 {
        Some((ScrollbackOpKind::ScrollbackOpen, 0))
    } else {
        None
    }
}

/// What the pager does.
#[derive(Clone, Copy, Debug, PartialEq, Eq, Structural)]
pub enum PagerStep {
    /// Ask the server to move, and show what it answers.
    Fetch { kind: ScrollbackOpKind, amount: i32 },
    /// An escape came alone: wait a moment for the rest of an arrow key.
    AwaitEscape,
    /// Give the place in the history up, and leave.
    Exit,
    /// Nothing.
    Ignore,
}

/// Tells what input does in the pager.
pub fn pager_step(chunk: &[u8], rows: u32) -> (step: PagerStep)
    requires
        rows != 0x8000_0000,
    ensures
        step == PagerStep::AwaitEscape <==> chunk@ == seq![0x1bu8],
        step == PagerStep::Exit <==> chunk@ == seq![0x11u8] || chunk@ == seq!['q' as u8],
        match step {
            PagerStep::Fetch { kind, amount } => op_for_key(chunk@, rows) == Some((kind, amount as int)),
            _ => op_for_key(chunk@, rows) is None,
        },
{
    proof {
        lemma_single(chunk@);
    }
    if chunk.len() == 1 && chunk[0] == 0x1b {
        return PagerStep::AwaitEscape;
    }
    if chunk.len() == 1 && (chunk[0] == 0x11 || chunk[0] == 'q' as u8) {
        return PagerStep::Exit;
    }
    match key_to_op(chunk, rows) {
        Some((kind, amount)) => PagerStep::Fetch { kind, amount },
        None => PagerStep::Ignore,
    }
}

/// Tells what follows an escape that came alone: the rest of an arrow key moves, anything else
/// leaves.
pub fn pager_escape(rest: Option<&[u8]>) -> (step: PagerStep)
    ensures
        step == (match rest {
            Some(r) => if r@ == seq!['[' as u8, 'A' as u8] {
                PagerStep::Fetch { kind: ScrollbackOpKind::ScrollbackMove, amount: 1 }
            } else if r@ == seq!['[' as u8, 'B' as u8] {
                PagerStep::Fetch { kind: ScrollbackOpKind::ScrollbackMove, amount: -1i32 }
            } else {
                PagerStep::Exit
            },
            None => PagerStep::Exit,
        }),
{
    if let Some(r) = rest {
        proof {
            lemma_pair(r@);
        }
        if r.len() == 2 && r[0] == '[' as u8 && r[1] == 'A' as u8 {
            return PagerStep::Fetch { kind: ScrollbackOpKind::ScrollbackMove, amount: 1 };
        }
        if r.len() == 2 && r[0] == '[' as u8 && r[1] == 'B' as u8 {
            return PagerStep::Fetch { kind: ScrollbackOpKind::ScrollbackMove, amount: -1 };
        }
    }
    PagerStep::Exit
}

/// A page of the history: the rows from the top of the screen, and a line on where they are in its
/// last row.
pub open spec fn page_bytes(data: Seq<u8>, row_offset: u32, total: u32, rows: u32) -> Seq<u8> {
    bytes_of("\x1b[2J\x1b[H") + data + bytes_of("\x1b[") + decimal(rows as nat) + bytes_of(
        ";1H\x1b[2K\x1b[7m SCROLLBACK  row ",
    ) + decimal((row_offset + 1) as nat) + bytes_of(" / ") + decimal(total as nat) + bytes_of(
        "  (q/ESC exit  ^B/^F page  ↑↓ line  g/G top/tail) \x1b[0m",
    )
}

/// Paints a page of the history.
pub fn format_page(data: &[u8], row_offset: u32, total: u32, rows: u32) -> (out: Vec<u8>)
    requires
        row_offset < u32::MAX,
    ensures
        out@ == page_bytes(data@, row_offset, total, rows),
{
    let mut out: Vec<u8> = Vec::new();
    push_str(&mut out, "\x1b[2J\x1b[H");
    assert(out@ =~= bytes_of("\x1b[2J\x1b[H"));
    push_bytes(&mut out, data);
    push_str(&mut out, "\x1b[");
    push_decimal(&mut out, rows as u64);
    push_str(&mut out, ";1H\x1b[2K\x1b[7m SCROLLBACK  row ");
    push_decimal(&mut out, row_offset as u64 + 1);
    push_str(&mut out, " / ");
    push_decimal(&mut out, total as u64);
    push_str(&mut out, "  (q/ESC exit  ^B/^F page  ↑↓ line  g/G top/tail) \x1b[0m");
    out
}

/// What is shown of a PTY that has no history.
pub fn empty_page() -> (out: Vec<u8>)
    ensures
        out@ == bytes_of("\x1b[2J\x1b[H[No scrollback available]\r\n(any key to exit)"),
{
    let mut out: Vec<u8> = Vec::new();
    push_str(&mut out, "\x1b[2J\x1b[H[No scrollback available]\r\n(any key to exit)");
    assert(out@ =~= bytes_of("\x1b[2J\x1b[H[No scrollback available]\r\n(any key to exit)"));
    out
}

/// Law: each key that moves has a counterpart that moves back by as much.
pub proof fn law_keys_are_opposite(rows: u32)
    ensures
        op_for_key(seq![0x02u8], rows) == Some((ScrollbackOpKind::ScrollbackMove, page_of(rows))),
        op_for_key(seq![0x06u8], rows) == Some((ScrollbackOpKind::ScrollbackMove, -page_of(rows))),
        op_for_key(seq![0x1bu8, '[' as u8, 'A' as u8], rows) == Some((ScrollbackOpKind::ScrollbackMove, 1int)),
        op_for_key(seq![0x1bu8, '[' as u8, 'B' as u8], rows) == Some((ScrollbackOpKind::ScrollbackMove, -1int)),
{
    lemma_single(seq![0x02u8]);
    lemma_single(seq![0x06u8]);
}

/// Law: what keys do in the pager. The arrow keys move by a row, whatever follows them; `b` and `f`, with
/// control or without, move by a screenful; `g` goes to the oldest row and `G` to the newest; older is up.
/// All other keys move nothing.
pub proof fn law_pager_keys(rows: u32, more: Seq<u8>, other: u8, op: Option<(ScrollbackOpKind, i32)>, key: &[u8])
    requires
        0 < rows < 0x8000_0000,
        call_ensures(key_to_op, (key, rows), op),
        other != 0x02,
        other != 0x06,
        other != 'b' as u8,
        other != 'f' as u8,
        other != 'g' as u8,
        other != 'G' as u8,
    ensures
        key@ == seq![0x1bu8, '[' as u8, 'A' as u8] + more ==> op == Some((ScrollbackOpKind::ScrollbackMove, 1i32)),
        key@ == seq![0x1bu8, '[' as u8, 'B' as u8] + more ==> op == Some((ScrollbackOpKind::ScrollbackMove, -1i32)),
        key@ == seq![0x02u8] || key@ == seq!['b' as u8] ==> op == Some((ScrollbackOpKind::ScrollbackMove, rows as i32)),
        key@ == seq![0x06u8] || key@ == seq!['f' as u8] ==> (op matches Some((kind, amount)) && kind
            == ScrollbackOpKind::ScrollbackMove && amount == -rows),
        key@ == seq!['g' as u8] ==> op == Some((ScrollbackOpKind::ScrollbackMove, i32::MAX)),
        key@ == seq!['G' as u8] ==> op == Some((ScrollbackOpKind::ScrollbackOpen, 0i32)),
        key@ == seq![other] ==> op is None,
        key@.len() == 0 ==> op is None,
{
    lemma_single(key@);
    let up = seq![0x1bu8, '[' as u8, 'A' as u8] + more;
    let down = seq![0x1bu8, '[' as u8, 'B' as u8] + more;
    assert(up[0] == 0x1b && up[1] == '[' as u8 && up[2] == 'A' as u8);
    assert(down[0] == 0x1b && down[1] == '[' as u8 && down[2] == 'B' as u8);
}

/// Law: a page begins at the top of a cleared screen with the rows of the history as they are; its last
/// line tells which row of how many the last one is, counted from one at the newest.
pub proof fn law_page(data: &[u8], row_offset: u32, total: u32, rows: u32, out: Vec<u8>)
    requires
        row_offset < u32::MAX,
        call_ensures(format_page, (data, row_offset, total, rows), out),
    ensures
        ({
            let place = bytes_of("\x1b[") + decimal(rows as nat) + bytes_of(";1H\x1b[2K\x1b[7m SCROLLBACK  row ")
                + decimal((row_offset + 1) as nat) + bytes_of(" / ") + decimal(total as nat) + bytes_of(
                "  (q/ESC exit  ^B/^F page  ↑↓ line  g/G top/tail) \x1b[0m",
            );
            out@ == bytes_of("\x1b[2J\x1b[H") + data@ + place
        }),
{
    broadcast use crate::text::lemma_append_assoc;

}

/// Law: the rest of an up or down key moves by one row, up or down; whatever else follows an escape leaves.
pub proof fn law_arrow_keys(rest: Option<&[u8]>, step: PagerStep)
    requires
        call_ensures(pager_escape, (rest,), step),
    ensures
        rest is None ==> step == PagerStep::Exit,
        rest matches Some(r) ==> (r@ == seq!['[' as u8, 'A' as u8] ==> (step matches PagerStep::Fetch { kind, amount }
            && kind == ScrollbackOpKind::ScrollbackMove && amount == 1)),
        rest matches Some(r) ==> (r@ == seq!['[' as u8, 'B' as u8] ==> (step matches PagerStep::Fetch { kind, amount }
            && kind == ScrollbackOpKind::ScrollbackMove && amount == -1)),
        rest matches Some(r) ==> (r@.len() != 2 || r@[0] != '[' as u8 || (r@[1] != 'A' as u8 && r@[1] != 'B' as u8)
            ==> step == PagerStep::Exit),
{
    if let Some(r) = rest {
        let up = seq!['[' as u8, 'A' as u8];
        let down = seq!['[' as u8, 'B' as u8];
        assert(up[0] == '[' as u8 && up[1] == 'A' as u8);
        assert(down[0] == '[' as u8 && down[1] == 'B' as u8);
    }
}

/// Law: control-Q and `q` leave the history, and no other input does at once; an escape alone waits for what
/// follows it; a key that moves does so, and whatever else comes is ignored.
pub proof fn law_pager_steps(chunk: &[u8], rows: u32, step: PagerStep, op: Option<(ScrollbackOpKind, i32)>)
    requires
        0 < rows < 0x8000_0000,
        call_ensures(pager_step, (chunk, rows), step),
        call_ensures(key_to_op, (chunk, rows), op),
    ensures
        chunk@ == seq![0x11u8] ==> step == PagerStep::Exit,
        chunk@ == seq!['q' as u8] ==> step == PagerStep::Exit,
        step == PagerStep::Exit ==> chunk@.len() == 1 && (chunk@[0] == 0x11 || chunk@[0] == 'q' as u8),
        chunk@ == seq![0x1bu8] ==> step == PagerStep::AwaitEscape,
        step == PagerStep::AwaitEscape ==> chunk@.len() == 1 && chunk@[0] == 0x1b,
        op matches Some((kind, amount)) ==> step == (PagerStep::Fetch { kind, amount }),
        op is None ==> !(step is Fetch),
{
    lemma_single(chunk@);
}

} // verus!
