//! The commands on the command line: where to connect, which PTY is meant, and what is printed.
use crate::attach::list::item_size;
#[allow(unused_imports)]
use crate::attach::list::size_of_item;
use crate::order::sort_by_key;
#[allow(unused_imports)]
use crate::order::in_order;
use crate::proto::{PtyItem, SubscriberInfo};
#[allow(unused_imports)]
use crate::text::{bytes_of, decimal, hex16, left_aligned, lemma_hex_digits, right_aligned};
use crate::text::{push_bytes, push_decimal, push_hex16, push_left_aligned, push_right_aligned, push_str};
use vstd::prelude::*;

verus! {

broadcast use vstd::string::group_string_axioms;

/// Where to connect to: a socket by its path, or a host by its address.
pub enum Destination<P> {
    Socket(P),
    Tcp(String),
}

/// What the command line says about the connection.
pub struct ConnectionArgs<P> {
    pub socket: P,
    pub endpoint: Option<String>,
}

impl<P> ConnectionArgs<P> {
    /// An address goes before a socket.
    pub fn destination(self) -> (to: Destination<P>)
        ensures
            to == (match self.endpoint {
                Some(address) => Destination::Tcp(address),
                None => Destination::Socket(self.socket),
            }),
    {
        match self.endpoint {
            Some(address) => Destination::Tcp(address),
            None => Destination::Socket(self.socket),
        }
    }
}

/// The directory of the default socket: that for the session's files, or else that for temporary
/// files, or else the fallback.
pub fn socket_base<P>(runtime_dir: Option<P>, temporary_dir: Option<P>, fallback: P) -> (base: P)
    ensures
        base == (match runtime_dir {
            Some(dir) => dir,
            None => match temporary_dir {
                Some(dir) => dir,
                None => fallback,
            },
        }),
{
    match runtime_dir {
        Some(dir) => dir,
        None => match temporary_dir {
            Some(dir) => dir,
            None => fallback,
        },
    }
}

/// An ASCII capital letter as the small one, any other byte as it is.
pub open spec fn lower(b: u8) -> u8 {
    if 'A' as u8 <= b <= 'Z' as u8 {
        (b + 32) as u8
    } else {
        b
    }
}

/// True when the sixteen digits of an id begin with `prefix`, capital letters or not.
pub open spec fn has_prefix(id: u64, prefix: Seq<u8>) -> bool {
    &&& prefix.len() <= 16
    &&& forall|i: int| 0 <= i < prefix.len() ==> lower(#[trigger] prefix[i]) == hex16(id)[i]
}

/// The places of the items whose ids begin with `prefix`.
pub open spec fn matching(items: Seq<PtyItem>, prefix: Seq<u8>) -> Seq<int>
    decreases items.len(),
{
    if items.len() == 0 {
        Seq::empty()
    } else {
        let before = matching(items.drop_last(), prefix);
        if has_prefix(items.last().pty_id, prefix) {
            before.push(items.len() - 1)
        } else {
            before
        }
    }
}

/// Which PTY a prefix stands for.
pub enum Resolved {
    One(usize),
    NoMatch,
    Ambiguous(Vec<usize>),
}

/// True when the digits of an id begin with `prefix`.
fn id_has_prefix(id: u64, prefix: &[u8]) -> (yes: bool)
    ensures
        yes == has_prefix(id, prefix@),
{
    let mut digits: Vec<u8> = Vec::new();
    push_hex16(&mut digits, id);
    assert(digits@ =~= hex16(id));
    proof {
        lemma_hex_digits(id as nat, 16);
    }
    if prefix.len() > 16 {
        return false;
    }
    let mut i: usize = 0;
    while i < prefix.len()
        invariant
            i <= prefix.len() <= 16,
            digits@ == hex16(id),
            digits.len() == 16,
            forall|j: int| 0 <= j < i ==> lower(#[trigger] prefix@[j]) == hex16(id)[j],
        decreases prefix.len() - i,
    {
        let b = prefix[i];
        let l: u8 = if 'A' as u8 <= b && b <= 'Z' as u8 { b + 32 } else { b };
        if l != digits[i] {
            assert(lower(prefix@[i as int]) != hex16(id)[i as int]);
            return false;
        }
        i = i + 1;
    }
    true
}

/// Finds the PTY that a prefix of its id stands for.
pub fn resolve_pty_item(items: &[PtyItem], prefix: &str) -> (resolved: Resolved)
    ensures
        ({
            let found = matching(items@, bytes_of(prefix));
            match resolved {
                Resolved::One(i) => found == seq![i as int] && i < items.len(),
                Resolved::NoMatch => found.len() == 0,
                Resolved::Ambiguous(places) => found.len() > 1 && found == Seq::new(
                    places@.len(),
                    |k: int| places@[k] as int,
                ) && forall|k: int| 0 <= k < places@.len() ==> (#[trigger] places@[k]) < items.len(),
            }
        }),
{
    let mut places: Vec<usize> = Vec::new();
    let wanted = prefix.as_bytes();
    let mut i: usize = 0;
    assert(matching(items@.take(0), bytes_of(prefix)) =~= Seq::new(0, |k: int| places@[k] as int));
    while i < items.len()
        invariant
            i <= items.len(),
            wanted@ == bytes_of(prefix),
            matching(items@.take(i as int), bytes_of(prefix)) == Seq::new(
                places@.len(),
                |k: int| places@[k] as int,
            ),
            forall|k: int| 0 <= k < places@.len() ==> (#[trigger] places@[k]) < i,
        decreases items.len() - i,
    {
        let ghost before = places@;
        let ghost next = items@.take(i + 1);
        assert(next.drop_last() =~= items@.take(i as int));
        assert(next.last() == items@[i as int]);
        if id_has_prefix(items[i].pty_id, wanted) {
            places.push(i);
            assert(Seq::new(places@.len(), |k: int| places@[k] as int) =~= Seq::new(
                before.len(),
                |k: int| before[k] as int,
            ).push(i as int));
        }
        i = i + 1;
    }
    assert(items@.take(i as int) =~= items@);
    if places.len() == 0 {
        Resolved::NoMatch
    } else if places.len() == 1 {
        assert(Seq::new(places@.len(), |k: int| places@[k] as int) =~= seq![places@[0] as int]);
        Resolved::One(places[0])
    } else {
        Resolved::Ambiguous(places)
    }
}

/// How many zeros stand at the front of `s`, counted up to `max`.
pub open spec fn zeros(s: Seq<u8>, max: nat) -> nat
    decreases max,
{
    if max == 0 || s.len() == 0 || s[0] != '0' as u8 {
        0
    } else {
        1 + zeros(s.skip(1), (max - 1) as nat)
    }
}

/// An id in hexadecimal without leading zeros, but in at least eight digits.
pub open spec fn short_hex(id: u64) -> Seq<u8> {
    hex16(id).skip(zeros(hex16(id), 8) as int)
}

/// The short ids at the given places, with commas between them.
pub open spec fn candidates_text(items: Seq<PtyItem>, places: Seq<usize>) -> Seq<u8>
    decreases places.len(),
{
    if places.len() == 0 {
        Seq::empty()
    } else {
        let last = short_hex(items[places.last() as int].pty_id);
        if places.len() == 1 {
            last
        } else {
            candidates_text(items, places.drop_last()) + bytes_of(", ") + last
        }
    }
}

/// Appends an id in hexadecimal without leading zeros, but in at least eight digits.
fn push_short_hex(out: &mut Vec<u8>, id: u64)
    ensures
        final(out)@ == old(out)@ + short_hex(id),
{
    let ghost before = out@;
    let mut digits: Vec<u8> = Vec::new();
    push_hex16(&mut digits, id);
    assert(digits@ =~= hex16(id));
    proof {
        lemma_hex_digits(id as nat, 16);
    }
    let mut i: usize = 0;
    assert(hex16(id).skip(0) =~= hex16(id));
    while i < 8 && digits[i] == '0' as u8
        invariant
            i <= 8,
            digits@ == hex16(id),
            digits.len() == 16,
            zeros(hex16(id), 8) == i + zeros(hex16(id).skip(i as int), (8 - i) as nat),
        decreases 8 - i,
    {
        assert(hex16(id).skip(i as int).skip(1) =~= hex16(id).skip(i + 1));
        i = i + 1;
    }
    assert(zeros(hex16(id).skip(i as int), (8 - i) as nat) == 0);
    push_bytes(out, &digits.as_slice()[i..16]);
    assert(out@ =~= before + short_hex(id));
}

/// Names the PTYs that an ambiguous prefix may stand for.
pub fn candidates(items: &[PtyItem], places: &[usize]) -> (out: Vec<u8>)
    requires
        forall|k: int| 0 <= k < places.len() ==> (#[trigger] places[k]) < items.len(),
    ensures
        out@ == candidates_text(items@, places@),
{
    let mut out: Vec<u8> = Vec::new();
    let mut i: usize = 0;
    assert(out@ =~= candidates_text(items@, places@.take(0)));
    while i < places.len()
        invariant
            i <= places.len(),
            forall|k: int| 0 <= k < places.len() ==> (#[trigger] places[k]) < items.len(),
            out@ == candidates_text(items@, places@.take(i as int)),
        decreases places.len() - i,
    {
        let ghost next = places@.take(i + 1);
        assert(next.drop_last() =~= places@.take(i as int));
        if i > 0 {
            push_str(&mut out, ", ");
        }
        push_short_hex(&mut out, items[places[i]].pty_id);
        assert(out@ =~= candidates_text(items@, next));
        i = i + 1;
    }
    assert(places@.take(i as int) =~= places@);
    out
}

/// How many rows to print of a PTY: as many as asked for, or its height; at least one.
pub fn dump_rows(asked: Option<u32>, height: u32) -> (rows: u32)
    ensures
        rows == ({
            let n = match asked {
                Some(n) => n,
                None => height,
            };
            if n > 1 {
                n
            } else {
                1
            }
        }),
{
    let n: u32 = match asked {
        Some(n) => n,
        None => height,
    };
    if n > 1 {
        n
    } else {
        1
    }
}

/// What is printed of a screen: its text, with a line end behind it where it has none.
pub fn dump_output(data: Vec<u8>) -> (out: Vec<u8>)
    ensures
        out@ == (if data@.len() > 0 && data@.last() == '\n' as u8 {
            data@
        } else {
            data@.push('\n' as u8)
        }),
{
    let mut out = data;
    if out.len() > 0 && out[out.len() - 1] == '\n' as u8 {
        return out;
    }
    out.push('\n' as u8);
    out
}

/// A line of the printed list.
pub open spec fn item_text(item: PtyItem) -> Seq<u8> {
    right_aligned(decimal(item.sort_order as nat), 3) + bytes_of(" ") + hex16(item.pty_id) + bytes_of(" ")
        + right_aligned(decimal(size_of_item(item).0 as nat), 5) + bytes_of(" ") + right_aligned(
        decimal(size_of_item(item).1 as nat),
        5,
    ) + bytes_of("  ") + vstd::utf8::encode_utf8(item.title@) + bytes_of("\n")
}

/// A line on a subscriber in the printed list.
pub open spec fn subscriber_text(s: SubscriberInfo) -> Seq<u8> {
    bytes_of("    ( ") + left_aligned(s.subscriber_id@, 36) + bytes_of(" ") + vstd::utf8::encode_utf8(
        s.hostname@,
    ) + bytes_of(" ") + decimal(
        (match s.size {
            Some(z) => z.cols,
            None => 0,
        }) as nat,
    ) + bytes_of("x") + decimal(
        (match s.size {
            Some(z) => z.rows,
            None => 0,
        }) as nat,
    ) + bytes_of(" )\n")
}

/// The lines on the subscribers of a PTY.
pub open spec fn subscribers_text(subscribers: Seq<SubscriberInfo>) -> Seq<u8>
    decreases subscribers.len(),
{
    if subscribers.len() == 0 {
        Seq::empty()
    } else {
        subscribers_text(subscribers.drop_last()) + subscriber_text(subscribers.last())
    }
}

/// The lines of the printed list, each followed by those on its subscribers where they are wanted.
pub open spec fn items_text(items: Seq<PtyItem>, verbose: bool) -> Seq<u8>
    decreases items.len(),
{
    if items.len() == 0 {
        Seq::empty()
    } else {
        items_text(items.drop_last(), verbose) + item_text(items.last()) + (if verbose {
            subscribers_text(items.last().subscribers@)
        } else {
            Seq::empty()
        })
    }
}

/// Appends a line of the printed list.
fn push_item(out: &mut Vec<u8>, item: &PtyItem)
    ensures
        final(out)@ == old(out)@ + item_text(*item),
{
    broadcast use crate::text::lemma_append_assoc;

    let (cols, rows) = item_size(item);
    push_right_aligned(out, item.sort_order as u64, 3);
    push_str(out, " ");
    push_hex16(out, item.pty_id);
    push_str(out, " ");
    push_right_aligned(out, cols as u64, 5);
    push_str(out, " ");
    push_right_aligned(out, rows as u64, 5);
    push_str(out, "  ");
    push_str(out, item.title.as_str());
    push_str(out, "\n");
}

/// Appends a line on a subscriber.
fn push_subscriber(out: &mut Vec<u8>, s: &SubscriberInfo)
    ensures
        final(out)@ == old(out)@ + subscriber_text(*s),
{
    broadcast use crate::text::lemma_append_assoc;

    let (cols, rows): (u32, u32) = match s.size {
        Some(z) => (z.cols, z.rows),
        None => (0, 0),
    };
    push_str(out, "    ( ");
    push_left_aligned(out, s.subscriber_id.as_str(), 36);
    push_str(out, " ");
    push_str(out, s.hostname.as_str());
    push_str(out, " ");
    push_decimal(out, cols as u64);
    push_str(out, "x");
    push_decimal(out, rows as u64);
    push_str(out, " )\n");
}

/// Appends the lines on the subscribers of a PTY.
fn push_subscribers(out: &mut Vec<u8>, subscribers: &Vec<SubscriberInfo>)
    ensures
        final(out)@ == old(out)@ + subscribers_text(subscribers@),
{
    let ghost before = out@;
    let mut i: usize = 0;
    assert(before + subscribers_text(subscribers@.take(0)) =~= before);
    while i < subscribers.len()
        invariant
            i <= subscribers.len(),
            out@ == before + subscribers_text(subscribers@.take(i as int)),
        decreases subscribers.len() - i,
    {
        let ghost next = subscribers@.take(i + 1);
        assert(next.drop_last() =~= subscribers@.take(i as int));
        push_subscriber(out, &subscribers[i]);
        assert(out@ =~= before + subscribers_text(next));
        i = i + 1;
    }
    assert(subscribers@.take(i as int) =~= subscribers@);
}

/// What is printed for a list of PTYs, in the order of their places.
pub fn list_output(items: Vec<PtyItem>, verbose: bool) -> (out: Vec<u8>)
    ensures
        out@ == (if items@.len() == 0 {
            bytes_of("No active PTYs.\n")
        } else {
            bytes_of("  # ID                COLS  ROWS  TITLE\n") + items_text(in_order(items@), verbose)
        }),
{
    let mut out: Vec<u8> = Vec::new();
    if items.len() == 0 {
        push_str(&mut out, "No active PTYs.\n");
        assert(out@ =~= bytes_of("No active PTYs.\n"));
        return out;
    }
    let sorted = sort_by_key(items);
    push_str(&mut out, "  # ID                COLS  ROWS  TITLE\n");
    let ghost start = out@;
    assert(start =~= bytes_of("  # ID                COLS  ROWS  TITLE\n"));
    let mut i: usize = 0;
    assert(start + items_text(sorted@.take(0), verbose) =~= start);
    while i < sorted.len()
        invariant
            i <= sorted.len(),
            out@ == start + items_text(sorted@.take(i as int), verbose),
        decreases sorted.len() - i,
    {
        let ghost next = sorted@.take(i + 1);
        assert(next.drop_last() =~= sorted@.take(i as int));
        push_item(&mut out, &sorted[i]);
        if verbose {
            push_subscribers(&mut out, &sorted[i].subscribers);
        }
        assert(out@ =~= start + items_text(next, verbose));
        i = i + 1;
    }
    assert(sorted@.take(i as int) =~= sorted@);
    out
}

/// Law: exactly the PTYs whose ids begin with the prefix match it, each once.
pub proof fn law_matching(items: Seq<PtyItem>, prefix: Seq<u8>, at: int)
    requires
        0 <= at < items.len(),
    ensures
        matching(items, prefix).contains(at) <==> has_prefix(items[at].pty_id, prefix),
        matching(items, prefix).no_duplicates(),
    decreases items.len(),
{
    lemma_matching_below(items.drop_last(), prefix);
    let before = matching(items.drop_last(), prefix);
    let found = matching(items, prefix);
    let last = items.len() - 1;
    lemma_matching_below(items, prefix);
    if at < last {
        law_matching(items.drop_last(), prefix, at);
        if has_prefix(items.last().pty_id, prefix) {
            if before.contains(at) {
                let k = choose|k: int| 0 <= k < before.len() && before[k] == at;
                assert(found[k] == at);
            }
            if found.contains(at) {
                let k = choose|k: int| 0 <= k < found.len() && found[k] == at;
                assert(before[k] == at);
            }
        }
    } else {
        if has_prefix(items.last().pty_id, prefix) {
            assert(found[found.len() - 1] == at);
        } else if found.contains(at) {
            let k = choose|k: int| 0 <= k < found.len() && found[k] == at;
            assert(before[k] < last);
        }
    }
}

proof fn lemma_matching_below(items: Seq<PtyItem>, prefix: Seq<u8>)
    ensures
        forall|k: int| 0 <= k < matching(items, prefix).len() ==> 0 <= #[trigger] matching(items, prefix)[k]
            < items.len(),
        matching(items, prefix).no_duplicates(),
    decreases items.len(),
{
    if items.len() > 0 {
        lemma_matching_below(items.drop_last(), prefix);
        let before = matching(items.drop_last(), prefix);
        let found = matching(items, prefix);
        assert forall|k: int| 0 <= k < found.len() implies 0 <= #[trigger] found[k] < items.len() by {
            if k < before.len() {
                assert(before[k] < items.len() - 1);
            }
        }
        assert forall|i: int, j: int| 0 <= i < found.len() && 0 <= j < found.len() && i != j implies found[i]
            != found[j] by {
            if i < before.len() {
                assert(before[i] < items.len() - 1);
            }
            if j < before.len() {
                assert(before[j] < items.len() - 1);
            }
        }
    }
}

/// Law: the whole id stands for its PTY and for no other.
pub proof fn law_whole_id_is_unique(id: u64, other: u64)
    ensures
        has_prefix(id, hex16(id)),
        has_prefix(other, hex16(id)) ==> other == id,
{
    lemma_hex_digits(id as nat, 16);
    lemma_hex_digits(other as nat, 16);
    lemma_hex_is_lower(id as nat, 16);
    assert forall|i: int| 0 <= i < 16 implies lower(#[trigger] hex16(id)[i]) == hex16(id)[i] by {}
    if has_prefix(other, hex16(id)) {
        assert(hex16(other) =~= hex16(id)) by {
            assert forall|i: int| 0 <= i < 16 implies hex16(other)[i] == #[trigger] hex16(id)[i] by {
                assert(lower(hex16(id)[i]) == hex16(other)[i]);
            }
        }
        crate::text::law_hex16_distinct(other, id);
    }
}

proof fn lemma_hex_is_lower(n: nat, width: nat)
    ensures
        forall|i: int|
            0 <= i < crate::text::hex_digits(n, width).len() ==> lower(
                #[trigger] crate::text::hex_digits(n, width)[i],
            ) == crate::text::hex_digits(n, width)[i],
    decreases width,
{
    if width > 0 {
        lemma_hex_is_lower(n / 16, (width - 1) as nat);
        let p = crate::text::hex_digits(n / 16, (width - 1) as nat);
        let d = crate::text::hex_digits(n, width);
        assert forall|i: int| 0 <= i < d.len() implies lower(#[trigger] d[i]) == d[i] by {
            if i < p.len() {
                assert(d[i] == p[i]);
            }
        }
    }
}

/// Law: any beginning of an id stands for it, in small letters and in capitals, and a beginning of that does,
/// too; nothing longer than an id stands for any.
pub proof fn law_prefixes(id: u64, n: int, prefix: Seq<u8>, m: int)
    requires
        0 <= n <= 16,
        0 <= m <= prefix.len(),
    ensures
        has_prefix(id, hex16(id).take(n)),
        has_prefix(id, Seq::new(n as nat, |i: int| upper(hex16(id)[i]))),
        has_prefix(id, prefix) ==> has_prefix(id, prefix.take(m)),
        prefix.len() > 16 ==> !has_prefix(id, prefix),
        has_prefix(id, prefix) <==> prefix.len() <= 16 && forall|i: int|
            0 <= i < prefix.len() ==> #[trigger] prefix[i] == hex16(id)[i] || (0x41 <= prefix[i] <= 0x5a && prefix[i] + 0x20
                == hex16(id)[i]),
{
    lemma_hex_digits(id as nat, 16);
    lemma_hex_is_lower(id as nat, 16);
    let d = hex16(id);
    assert forall|i: int| 0 <= i < n implies lower(#[trigger] d.take(n)[i]) == d[i] by {
        assert(lower(d[i]) == d[i]);
    }
    let caps = Seq::new(n as nat, |i: int| upper(d[i]));
    assert forall|i: int| 0 <= i < n implies lower(#[trigger] caps[i]) == d[i] by {
        assert(lower(d[i]) == d[i]);
    }
    if has_prefix(id, prefix) {
        assert forall|i: int| 0 <= i < m implies lower(#[trigger] prefix.take(m)[i]) == d[i] by {
            assert(lower(prefix[i]) == d[i]);
        }
        assert forall|i: int| 0 <= i < prefix.len() implies #[trigger] prefix[i] == d[i] || (0x41 <= prefix[i] <= 0x5a
            && prefix[i] + 0x20 == d[i]) by {
            assert(lower(prefix[i]) == d[i]);
        }
    }
    if prefix.len() <= 16 && (forall|i: int|
        0 <= i < prefix.len() ==> #[trigger] prefix[i] == d[i] || (0x41 <= prefix[i] <= 0x5a && prefix[i] + 0x20 == d[i])) {
        assert forall|i: int| 0 <= i < prefix.len() implies lower(#[trigger] prefix[i]) == d[i] by {
            assert(lower(d[i]) == d[i]);
        }
    }
}

/// A small ASCII letter as the capital one, any other byte as it is.
pub open spec fn upper(b: u8) -> u8 {
    if 'a' as u8 <= b <= 'z' as u8 {
        (b - 32) as u8
    } else {
        b
    }
}

/// Law: a beginning of an id stands for a PTY where that PTY's id begins with it and no other's does. Where
/// none does it stands for none, and where several do it stands for none of them, and they are named.
pub proof fn law_resolving(items: &[PtyItem], prefix: &str, resolved: Resolved, at: int)
    requires
        call_ensures(resolve_pty_item, (items, prefix), resolved),
        0 <= at < items@.len(),
    ensures
        resolved matches Resolved::One(i) ==> i < items@.len() && has_prefix(items@[i as int].pty_id, bytes_of(prefix)) && (
        at != i ==> !has_prefix(items@[at].pty_id, bytes_of(prefix))),
        resolved is NoMatch ==> !has_prefix(items@[at].pty_id, bytes_of(prefix)),
        resolved matches Resolved::Ambiguous(places) ==> places@.len() > 1 && (has_prefix(
            items@[at].pty_id,
            bytes_of(prefix),
        ) <==> exists|k: int| 0 <= k < places@.len() && #[trigger] places@[k] == at),
        has_prefix(items@[at].pty_id, bytes_of(prefix)) ==> !(resolved is NoMatch),
{
    let p = bytes_of(prefix);
    law_matching(items@, p, at);
    let found = matching(items@, p);
    match resolved {
        Resolved::One(i) => {
            law_matching(items@, p, i as int);
            assert(found[0] == i as int);
            assert(found.contains(i as int));
            if found.contains(at) {
                let k = choose|k: int| 0 <= k < found.len() && found[k] == at;
                assert(found[k] == found[0]);
            }
        },
        Resolved::NoMatch => {},
        Resolved::Ambiguous(places) => {
            if found.contains(at) {
                let k = choose|k: int| 0 <= k < found.len() && found[k] == at;
                assert(places@[k] == at);
            }
            if exists|k: int| 0 <= k < places@.len() && #[trigger] places@[k] == at {
                let k = choose|k: int| 0 <= k < places@.len() && #[trigger] places@[k] == at;
                assert(found[k] == at);
            }
        },
    }
}

/// Law: a short id is the end of the whole one: at least eight digits of it, and no more than eight where it
/// begins with a zero; what it leaves out are zeros.
pub proof fn law_short_ids(id: u64)
    ensures
        8 <= short_hex(id).len() <= 16,
        short_hex(id) == hex16(id).skip(16 - short_hex(id).len()),
        short_hex(id).len() > 8 ==> short_hex(id)[0] != '0' as u8,
        forall|i: int| 0 <= i < 16 - short_hex(id).len() ==> #[trigger] hex16(id)[i] == '0' as u8,
{
    lemma_hex_digits(id as nat, 16);
    lemma_zeros(hex16(id), 8);
}

proof fn lemma_zeros(s: Seq<u8>, max: nat)
    requires
        max <= s.len(),
    ensures
        zeros(s, max) <= max,
        forall|i: int| 0 <= i < zeros(s, max) ==> #[trigger] s[i] == '0' as u8,
        zeros(s, max) < max ==> s[zeros(s, max) as int] != '0' as u8,
    decreases max,
{
    if max > 0 && s[0] == '0' as u8 {
        let t = s.skip(1);
        lemma_zeros(t, (max - 1) as nat);
        assert forall|i: int| 0 <= i < zeros(s, max) implies #[trigger] s[i] == '0' as u8 by {
            if i > 0 {
                assert(t[i - 1] == s[i]);
            }
        }
        if zeros(s, max) < max {
            assert(t[zeros(t, (max - 1) as nat) as int] == s[zeros(s, max) as int]);
        }
    }
}

/// Law: the PTYs that may be meant are named in their order, with commas between them.
pub proof fn law_candidates(items: Seq<PtyItem>, places: Seq<usize>, place: usize)
    ensures
        candidates_text(items, seq![place]) == short_hex(items[place as int].pty_id),
        places.len() > 0 ==> candidates_text(items, places.push(place)) == candidates_text(items, places) + bytes_of(", ")
            + short_hex(items[place as int].pty_id),
{
    assert(places.push(place).drop_last() =~= places);
}

/// Law: what is printed of a screen ends with exactly the line end that it needs, and a screen has at least
/// one row: as many as asked for, or as many as it is high.
pub proof fn law_dumps(data: Vec<u8>, out: Vec<u8>, asked: Option<u32>, height: u32, rows: u32)
    requires
        call_ensures(dump_output, (data,), out),
        call_ensures(dump_rows, (asked, height), rows),
    ensures
        out@.len() > 0 && out@.last() == '\n' as u8,
        data@.is_prefix_of(out@),
        data@.len() > 0 && data@.last() == '\n' as u8 ==> out@ == data@,
        out@.len() <= data@.len() + 1,
        asked matches Some(n) ==> (n > 0 ==> rows == n) && (n == 0 ==> rows == 1),
        asked is None ==> (height > 0 ==> rows == height) && (height == 0 ==> rows == 1),
{
}

/// Law: a printed list has a line for each PTY, by their places, and behind it one for each of its
/// subscribers where they are wanted.
pub proof fn law_printed_lists(items: Vec<PtyItem>, verbose: bool, out: Vec<u8>, before: Seq<PtyItem>, item: PtyItem)
    requires
        call_ensures(list_output, (items, verbose), out),
    ensures
        items@.len() == 0 ==> out@ == bytes_of("No active PTYs.\n"),
        items@.len() > 0 ==> out@ == bytes_of("  # ID                COLS  ROWS  TITLE\n") + items_text(
            in_order(items@),
            verbose,
        ),
        items_text(before.push(item), false) == items_text(before, false) + item_text(item),
        items_text(before.push(item), true) == items_text(before, true) + item_text(item) + subscribers_text(
            item.subscribers@,
        ),
{
    assert(before.push(item).drop_last() =~= before);
    let lines = items_text(before, false) + item_text(item);
    assert(lines + Seq::<u8>::empty() =~= lines);
}

/// Law: a printed line tells number, id, size and title of a PTY, the numbers right-aligned in their columns;
/// the lines on its subscribers stand below each other in their order.
pub proof fn law_printed_lines(item: PtyItem, before: Seq<SubscriberInfo>, subscriber: SubscriberInfo)
    ensures
        ({
            let (cols, rows) = match item.size {
                Some(s) => (s.cols, s.rows),
                None => (0u32, 0u32),
            };
            item_text(item) == right_aligned(decimal(item.sort_order as nat), 3) + bytes_of(" ") + hex16(item.pty_id)
                + bytes_of(" ") + right_aligned(decimal(cols as nat), 5) + bytes_of(" ") + right_aligned(
                decimal(rows as nat),
                5,
            ) + bytes_of("  ") + vstd::utf8::encode_utf8(item.title@) + bytes_of("\n")
        }),
        subscribers_text(before.push(subscriber)) == subscribers_text(before) + subscriber_text(subscriber),
{
    assert(before.push(subscriber).drop_last() =~= before);
}

/// Law: an address that is given is connected to, whatever the socket is; otherwise the socket is. The socket's
/// directory is that of the session where there is one, then that for temporary files, then the fallback.
pub proof fn law_where_to_connect<P>(
    args: ConnectionArgs<P>,
    to: Destination<P>,
    runtime_dir: Option<P>,
    temporary_dir: Option<P>,
    fallback: P,
    base: P,
)
    requires
        call_ensures(ConnectionArgs::<P>::destination, (args,), to),
        call_ensures(socket_base, (runtime_dir, temporary_dir, fallback), base),
    ensures
        args.endpoint matches Some(address) ==> to == Destination::<P>::Tcp(address),
        args.endpoint is None ==> to == Destination::<P>::Socket(args.socket),
        runtime_dir matches Some(dir) ==> base == dir,
        runtime_dir is None ==> (temporary_dir matches Some(dir) ==> base == dir),
        runtime_dir is None && temporary_dir is None ==> base == fallback,
{
}

/// Law: a subscriber's line tells their id, their host and their size, columns first; nothing by nothing where
/// they told none.
pub proof fn law_subscriber_lines(s: SubscriberInfo)
    ensures
        s.size matches Some(z) ==> subscriber_text(s) == bytes_of("    ( ") + left_aligned(s.subscriber_id@, 36) + bytes_of(
            " ",
        ) + vstd::utf8::encode_utf8(s.hostname@) + bytes_of(" ") + decimal(z.cols as nat) + bytes_of("x") + decimal(
            z.rows as nat,
        ) + bytes_of(" )\n"),
        s.size is None ==> subscriber_text(s) == bytes_of("    ( ") + left_aligned(s.subscriber_id@, 36) + bytes_of(" ")
            + vstd::utf8::encode_utf8(s.hostname@) + bytes_of(" ") + decimal(0) + bytes_of("x") + decimal(0) + bytes_of(
            " )\n",
        ),
{
}

} // verus!
