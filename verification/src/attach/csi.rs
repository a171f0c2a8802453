//! Control sequences: their numeric parameters, and margins that are asked for in them.
#[allow(unused_imports)]
use crate::text::{all_digits, bytes_of, decimal, find_byte, is_digit, law_decimal_reads_back, lemma_ascii_is_utf8,
    lemma_split_first, parsed_u32};
use crate::text::{find_from, parse_u32, push_decimal, push_str};
use vstd::prelude::*;
#[allow(unused_imports)]
use vstd::utf8::*;

verus! {

/// `CSI first ; second final`.
pub open spec fn csi_pair(first: u32, second: u32, final_byte: &str) -> Seq<u8> {
    bytes_of("\x1b[") + decimal(first as nat) + bytes_of(";") + decimal(second as nat) + bytes_of(
        final_byte,
    )
}

/// The numbers between semicolons. A field that is no number counts as zero, one that is not even
/// text is left out.
pub open spec fn param_list(s: Seq<u8>) -> Seq<u32>
    decreases s.len(),
{
    let i = find_byte(s, ';' as u8);
    let field = s.take(i);
    let head = if valid_utf8(field) {
        seq![match parsed_u32(field) {
            Some(n) => n,
            None => 0,
        }]
    } else {
        Seq::empty()
    };
    if 0 <= i < s.len() {
        head + param_list(s.skip(i + 1))
    } else {
        head
    }
}

/// The second of two margins: as asked, but no further than `limit`, which is also meant by
/// leaving it out.
pub open spec fn margin_end(params: Seq<u32>, limit: u32) -> u32 {
    if params.len() < 2 || params[1] == 0 || params[1] > limit {
        limit
    } else {
        params[1]
    }
}

/// The first of two margins: as asked, or one where that leaves nothing between them.
pub open spec fn margin_start(params: Seq<u32>, end: u32) -> u32 {
    let asked: u32 = if params.len() < 1 || params[0] == 0 {
        1
    } else {
        params[0]
    };
    if asked >= end {
        1
    } else {
        asked
    }
}

/// Law: whatever margins a program asks for, those that are set lie within the rows or columns
/// that there are, in order.
pub proof fn law_margins_stay_inside(params: Seq<u32>, limit: u32)
    requires
        limit >= 1,
    ensures
        1 <= margin_start(params, margin_end(params, limit)) <= margin_end(params, limit) <= limit,
{
}

/// Law: what is written between the introducer and the final byte of a pair reads back as that pair;
/// a single number reads back as itself, whatever fields follow it, and so does the first of several.
pub proof fn law_params_read_back(first: u32, second: u32, more: Seq<u8>)
    ensures
        param_list(decimal(first as nat)) == seq![first],
        param_list(decimal(first as nat) + seq![';' as u8] + decimal(second as nat)) == seq![first, second],
        param_list(decimal(first as nat) + seq![';' as u8] + more)[0] == first,
        param_list(decimal(first as nat) + seq![';' as u8] + more).len() > 0,
{
    let a = decimal(first as nat);
    let b = decimal(second as nat);
    lemma_number_param(first);
    lemma_number_param(second);
    lemma_split_first(a, ';' as u8, b);
    lemma_split_first(a, ';' as u8, more);
    assert(a + seq![';' as u8] + b =~= a.push(';' as u8) + b);
    assert(a + seq![';' as u8] + more =~= a.push(';' as u8) + more);
    let x = a.push(';' as u8) + b;
    assert(x.take(a.len() as int) =~= a);
    assert(x.skip(a.len() as int + 1) =~= b);
    assert(param_list(x) =~= seq![first, second]);
    let y = a.push(';' as u8) + more;
    assert(y.take(a.len() as int) =~= a);
    assert(y.skip(a.len() as int + 1) =~= more);
    assert(param_list(y) =~= seq![first] + param_list(more));
}

proof fn lemma_number_param(n: u32)
    ensures
        param_list(decimal(n as nat)) == seq![n],
        valid_utf8(decimal(n as nat)),
        parsed_u32(decimal(n as nat)) == Some(n),
        forall|i: int| 0 <= i < decimal(n as nat).len() ==> #[trigger] decimal(n as nat)[i] != ';' as u8,
{
    let a = decimal(n as nat);
    law_decimal_reads_back(n);
    assert forall|i: int| 0 <= i < a.len() implies #[trigger] a[i] != ';' as u8 by {
        assert(is_digit(a[i]));
    }
    assert forall|i: int| 0 <= i < a.len() implies #[trigger] a[i] < 0x80 by {
        assert(is_digit(a[i]));
    }
    lemma_ascii_is_utf8(a);
    lemma_split_first(a, ';' as u8, Seq::empty());
    assert(a.take(a.len() as int) =~= a);
}

/// Law: a pair is written as an introducer, two numbers with a semicolon between them, and the final
/// byte.
pub proof fn law_pair_bytes(first: u32, second: u32)
    ensures
        csi_pair(first, second, "r") == seq![0x1bu8, '[' as u8] + decimal(first as nat) + seq![';' as u8] + decimal(
            second as nat,
        ) + seq!['r' as u8],
        csi_pair(first, second, "s") == seq![0x1bu8, '[' as u8] + decimal(first as nat) + seq![';' as u8] + decimal(
            second as nat,
        ) + seq!['s' as u8],
        csi_pair(first, second, "H") == seq![0x1bu8, '[' as u8] + decimal(first as nat) + seq![';' as u8] + decimal(
            second as nat,
        ) + seq!['H' as u8],
{
    reveal_strlit("\x1b[");
    reveal_strlit(";");
    reveal_strlit("r");
    reveal_strlit("s");
    reveal_strlit("H");
    is_ascii_chars_encode_utf8("\x1b["@);
    is_ascii_chars_encode_utf8(";"@);
    is_ascii_chars_encode_utf8("r"@);
    is_ascii_chars_encode_utf8("s"@);
    is_ascii_chars_encode_utf8("H"@);
    assert(bytes_of("\x1b[") =~= seq![0x1bu8, '[' as u8]);
    assert(bytes_of(";") =~= seq![';' as u8]);
    assert(bytes_of("r") =~= seq!['r' as u8]);
    assert(bytes_of("s") =~= seq!['s' as u8]);
    assert(bytes_of("H") =~= seq!['H' as u8]);
}

/// Law: margins that lie within the limit are set as they were asked for; a second one beyond it, or
/// none, means the limit; no first one means one.
pub proof fn law_margins_as_asked(start: u32, end: u32, limit: u32)
    requires
        1 <= start < end,
        start < limit,
    ensures
        margin_end(seq![start, end], limit) == (if end <= limit {
            end
        } else {
            limit
        }),
        margin_start(seq![start, end], margin_end(seq![start, end], limit)) == start,
        margin_end(seq![start], limit) == limit,
        margin_start(seq![start], limit) == start,
        margin_end(Seq::empty(), limit) == limit,
        margin_start(Seq::empty(), limit) == 1,
{
}

/// Appends `CSI first ; second final`.
pub(crate) fn push_csi_pair(out: &mut Vec<u8>, first: u32, second: u32, final_byte: &str)
    ensures
        final(out)@ == old(out)@ + csi_pair(first, second, final_byte),
{
    let ghost before = out@;
    push_str(out, "\x1b[");
    push_decimal(out, first as u64);
    push_str(out, ";");
    push_decimal(out, second as u64);
    push_str(out, final_byte);
    assert(out@ =~= before + csi_pair(first, second, final_byte));
}

/// Reads the numbers between semicolons.
pub(crate) fn parse_params(text: &[u8]) -> (params: Vec<u32>)
    ensures
        params@ == param_list(text@),
{
    let mut params: Vec<u32> = Vec::new();
    let ghost whole = param_list(text@);
    let mut from: usize = 0;
    let mut more = true;
    assert(text@.skip(0) =~= text@);
    assert(whole =~= params@ + whole);
    while more
        invariant
            from <= text.len(),
            whole == param_list(text@),
            more ==> whole == params@ + param_list(text@.skip(from as int)),
            !more ==> whole == params@,
        decreases (if more { text.len() - from + 1 } else { 0 }),
    {
        let ghost rest = text@.skip(from as int);
        let end = find_from(text, ';' as u8, from);
        let field = &text[from..end];
        assert(field@ =~= rest.take(end - from));
        if core::str::from_utf8(field).is_ok() {
            params.push(
                match parse_u32(field) {
                    Some(n) => n,
                    None => 0,
                },
            );
        }
        if end < text.len() {
            assert(rest.skip(end - from + 1) =~= text@.skip(end + 1));
            from = end + 1;
            assert(whole =~= params@ + param_list(text@.skip(from as int)));
        } else {
            more = false;
            assert(whole =~= params@);
        }
    }
    params
}

/// The second of two margins.
pub(crate) fn end_margin(params: &Vec<u32>, limit: u32) -> (end: u32)
    ensures
        end == margin_end(params@, limit),
{
    if params.len() < 2 || params[1] == 0 || params[1] > limit {
        limit
    } else {
        params[1]
    }
}

/// The first of two margins.
pub(crate) fn start_margin(params: &Vec<u32>, end: u32) -> (start: u32)
    ensures
        start == margin_start(params@, end),
{
    let asked: u32 = if params.len() < 1 || params[0] == 0 { 1 } else { params[0] };
    if asked >= end {
        1
    } else {
        asked
    }
}

} // verus!
