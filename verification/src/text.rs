//! Byte and text helpers: decimal and hexadecimal numbers, field splitting, appending.
use vstd::prelude::*;
use vstd::string::StrSliceExecFns;
#[allow(unused_imports)]
use vstd::utf8::*;

verus! {

broadcast use vstd::string::group_string_axioms;

/// The error of `core::str::from_utf8`, carried through unread.
#[verifier::external_type_specification]
#[verifier::external_body]
pub struct ExUtf8Error(core::str::Utf8Error);

/// `core::str::from_utf8` accepts exactly the byte sequences that are valid UTF-8, and hands the
/// same bytes back as text.
pub assume_specification[ core::str::from_utf8 ](v: &[u8]) -> (text: Result<&str, core::str::Utf8Error>)
    ensures
        text is Ok <==> valid_utf8(v@),
        text matches Ok(s) ==> bytes_of(s) == v@,
;

/// The UTF-8 bytes of a text.
pub open spec fn bytes_of(s: &str) -> Seq<u8> {
    encode_utf8(s@)
}

/// Appending is associative.
pub broadcast proof fn lemma_append_assoc(a: Seq<u8>, b: Seq<u8>, c: Seq<u8>)
    ensures
        #[trigger] ((a + b) + c) == a + (b + c),
{
    assert((a + b) + c =~= a + (b + c));
}

/// The ASCII digit of a value below ten.
pub open spec fn digit(n: nat) -> u8 {
    (48 + n) as u8
}

/// The decimal digits of `n`, without leading zeros.
pub open spec fn decimal(n: nat) -> Seq<u8>
    decreases n,
{
    if n < 10 {
        seq![digit(n)]
    } else {
        decimal(n / 10).push(digit(n % 10))
    }
}

/// True for the bytes `0` to `9`.
pub open spec fn is_digit(b: u8) -> bool {
    48 <= b <= 57
}

/// True when every byte of `s` is an ASCII digit.
pub open spec fn all_digits(s: Seq<u8>) -> bool {
    forall|i: int| 0 <= i < s.len() ==> is_digit(#[trigger] s[i])
}

/// The number that a sequence of ASCII digits writes in base ten.
pub open spec fn decimal_value(s: Seq<u8>) -> nat
    decreases s.len(),
{
    if s.len() == 0 {
        0
    } else {
        10 * decimal_value(s.drop_last()) + (s.last() - 48) as nat
    }
}

/// `s` without one leading plus sign.
pub open spec fn without_plus(s: Seq<u8>) -> Seq<u8> {
    if s.len() > 0 && s[0] == '+' as u8 {
        s.skip(1)
    } else {
        s
    }
}

/// What `s` reads as an unsigned 32-bit number: digits with an optional plus sign in front,
/// whose value fits; nothing otherwise.
pub open spec fn parsed_u32(s: Seq<u8>) -> Option<u32> {
    let d = without_plus(s);
    if d.len() > 0 && all_digits(d) && decimal_value(d) <= u32::MAX {
        Some(decimal_value(d) as u32)
    } else {
        None
    }
}

/// The index of the first `b` in `s`, or the length of `s` where there is none.
pub open spec fn find_byte(s: Seq<u8>, b: u8) -> int
    decreases s.len(),
{
    if s.len() == 0 || s[0] == b {
        0
    } else {
        1 + find_byte(s.skip(1), b)
    }
}

/// The fields of `s` between the separators `b`: always one more than there are separators.
pub open spec fn split_on(s: Seq<u8>, b: u8) -> Seq<Seq<u8>>
    decreases s.len(),
{
    let i = find_byte(s, b);
    if 0 <= i < s.len() {
        seq![s.take(i)] + split_on(s.skip(i + 1), b)
    } else {
        seq![s]
    }
}

/// `find_byte` gives the place of the first occurrence, with no occurrence before it.
pub proof fn lemma_find_byte(s: Seq<u8>, b: u8)
    ensures
        0 <= find_byte(s, b) <= s.len(),
        find_byte(s, b) < s.len() ==> s[find_byte(s, b)] == b,
        forall|j: int| 0 <= j < find_byte(s, b) ==> #[trigger] s[j] != b,
    decreases s.len(),
{
    if s.len() != 0 && s[0] != b {
        let t = s.skip(1);
        lemma_find_byte(t, b);
        assert forall|j: int| 0 <= j < find_byte(s, b) implies #[trigger] s[j] != b by {
            if j > 0 {
                assert(t[j - 1] == s[j]);
            }
        }
    }
}

/// The first occurrence is the only index with that property.
pub proof fn lemma_find_byte_is(s: Seq<u8>, b: u8, i: int)
    requires
        0 <= i <= s.len(),
        i < s.len() ==> s[i] == b,
        forall|j: int| 0 <= j < i ==> #[trigger] s[j] != b,
    ensures
        find_byte(s, b) == i,
{
    lemma_find_byte(s, b);
    let f = find_byte(s, b);
    if f < i {
        assert(s[f] == b);
    }
}

/// A longer run of digits writes a number at least as large.
proof fn lemma_decimal_value_grows(s: Seq<u8>, n: int)
    requires
        0 <= n <= s.len(),
        all_digits(s),
    ensures
        decimal_value(s.take(n)) <= decimal_value(s),
    decreases s.len() - n,
{
    if n < s.len() {
        lemma_decimal_value_grows(s, n + 1);
        let t = s.take(n + 1);
        assert(t.drop_last() =~= s.take(n));
        assert(is_digit(s[n]));
    } else {
        assert(s.take(n) =~= s);
    }
}

/// What the decimal digits of a number write is that number.
pub proof fn lemma_decimal_roundtrip(n: nat)
    ensures
        decimal(n).len() > 0,
        all_digits(decimal(n)),
        decimal_value(decimal(n)) == n,
    decreases n,
{
    reveal_with_fuel(decimal_value, 2);
    if n >= 10 {
        lemma_decimal_roundtrip(n / 10);
        let p = decimal(n / 10);
        assert(decimal(n).drop_last() =~= p);
        assert forall|i: int| 0 <= i < decimal(n).len() implies is_digit(#[trigger] decimal(n)[i]) by {
            if i < p.len() {
                assert(decimal(n)[i] == p[i]);
            }
        }
    } else {
        assert(decimal(n).drop_last() =~= Seq::<u8>::empty());
    }
}

/// Law: a number is written with ASCII digits, without leading zeros, and reads back as itself.
pub proof fn law_decimal_reads_back(n: u32)
    ensures
        parsed_u32(decimal(n as nat)) == Some(n),
        all_digits(decimal(n as nat)),
        1 <= decimal(n as nat).len() <= 10,
        decimal(n as nat)[0] == '0' as u8 ==> n == 0,
{
    lemma_decimal_roundtrip(n as nat);
    assert(ten_to(10) == 10_000_000_000) by {
        reveal_with_fuel(ten_to, 11);
    }
    lemma_decimal_len(n as nat, 10);
    lemma_first_digit(n as nat);
    assert(is_digit(decimal(n as nat)[0]));
    assert(without_plus(decimal(n as nat)) == decimal(n as nat));
}

/// Ten to the power of `n`.
spec fn ten_to(n: nat) -> nat
    decreases n,
{
    if n == 0 {
        1
    } else {
        10 * ten_to((n - 1) as nat)
    }
}

/// A number below a power of ten has no more digits than its exponent.
proof fn lemma_decimal_len(n: nat, width: nat)
    requires
        width >= 1,
        n < ten_to(width),
    ensures
        decimal(n).len() <= width,
    decreases width,
{
    if n >= 10 {
        assert(width > 1) by {
            if width == 1 {
                reveal_with_fuel(ten_to, 2);
            }
        }
        lemma_decimal_len(n / 10, (width - 1) as nat);
    }
}

/// A number does not begin with a zero, unless it is one.
proof fn lemma_first_digit(n: nat)
    ensures
        decimal(n).len() > 0,
        decimal(n)[0] == 48 ==> n == 0,
    decreases n,
{
    if n >= 10 {
        lemma_first_digit(n / 10);
    }
}

/// ASCII is UTF-8.
pub proof fn lemma_ascii_is_utf8(s: Seq<u8>)
    requires
        all_ascii(s),
    ensures
        valid_utf8(s),
{
    let chars = ascii_chars(s);
    assert forall|i: int| 0 <= i < chars.len() implies '\0' <= #[trigger] chars[i] <= '\u{7f}' by {
        assert(s[i] < 0x80);
    }
    is_ascii_chars_encode_utf8(chars);
    assert(encode_utf8(chars) =~= s) by {
        assert forall|i: int| 0 <= i < s.len() implies #[trigger] encode_utf8(chars)[i] == s[i] by {
            assert(s[i] < 0x80);
            assert(chars[i] as u8 == encode_utf8(chars)[i]);
        }
    }
    encode_utf8_valid_utf8(chars);
}

/// The fields of a text whose first separator is known.
pub proof fn lemma_split_first(field: Seq<u8>, b: u8, rest: Seq<u8>)
    requires
        forall|i: int| 0 <= i < field.len() ==> #[trigger] field[i] != b,
    ensures
        find_byte(field, b) == field.len(),
        split_on(field, b) == seq![field],
        find_byte(field.push(b) + rest, b) == field.len(),
        split_on(field.push(b) + rest, b) == seq![field] + split_on(rest, b),
{
    let whole = field.push(b) + rest;
    lemma_find_byte_is(field, b, field.len() as int);
    assert forall|j: int| 0 <= j < field.len() implies #[trigger] whole[j] != b by {
        assert(whole[j] == field[j]);
    }
    lemma_find_byte_is(whole, b, field.len() as int);
    assert(whole.take(field.len() as int) =~= field);
    assert(whole.skip(field.len() as int + 1) =~= rest);
}

/// Appends `bytes` to `out`.
pub fn push_bytes(out: &mut Vec<u8>, bytes: &[u8])
    ensures
        final(out)@ == old(out)@ + bytes@,
{
    let ghost before = out@;
    out.extend_from_slice(bytes);
    assert(out@ =~= before + bytes@);
}

/// Appends the UTF-8 bytes of `s` to `out`.
pub fn push_str(out: &mut Vec<u8>, s: &str)
    ensures
        final(out)@ == old(out)@ + bytes_of(s),
{
    push_bytes(out, s.as_bytes());
}

/// Appends the decimal digits of `n` to `out`.
pub fn push_decimal(out: &mut Vec<u8>, n: u64)
    ensures
        final(out)@ == old(out)@ + decimal(n as nat),
    decreases n,
{
    let ghost before = out@;
    if n >= 10 {
        push_decimal(out, n / 10);
    }
    out.push(48 + (n % 10) as u8);
    assert(out@ =~= before + decimal(n as nat));
}

/// Reads `s` as an unsigned 32-bit number, as `parsed_u32` says.
pub fn parse_u32(s: &[u8]) -> (n: Option<u32>)
    ensures
        n == parsed_u32(s@),
{
    let mut i: usize = 0;
    if s.len() > 0 && s[0] == '+' as u8 {
        i = 1;
    }
    let ghost d = without_plus(s@);
    let ghost skipped = s@.len() - d.len();
    if i == s.len() {
        return None;
    }
    let mut value: u32 = 0;
    assert(d.take(0) =~= Seq::<u8>::empty());
    while i < s.len()
        invariant
            d == without_plus(s@),
            skipped == s@.len() - d.len(),
            0 <= skipped <= 1,
            skipped <= i <= s.len(),
            d =~= s@.skip(skipped),
            all_digits(d.take(i - skipped)),
            value == decimal_value(d.take(i - skipped)),
        decreases s.len() - i,
    {
        let b = s[i];
        let ghost at = i - skipped;
        assert(d[at] == b);
        if b < 48 || b > 57 {
            assert(!is_digit(d[at]));
            return None;
        }
        let ghost t = d.take(at + 1);
        assert(t.drop_last() =~= d.take(at));
        assert(t.last() == b);
        assert forall|k: int| 0 <= k < t.len() implies is_digit(#[trigger] t[k]) by {
            if k < at {
                assert(d.take(at)[k] == t[k]);
            }
        }
        let wide: u64 = value as u64 * 10 + (b - 48) as u64;
        assert(wide == decimal_value(t));
        if wide > 0xffff_ffff {
            proof {
                if all_digits(d) {
                    lemma_decimal_value_grows(d, at + 1);
                }
            }
            return None;
        }
        value = wide as u32;
        i = i + 1;
    }
    assert(d.take(s.len() - skipped) =~= d);
    Some(value)
}

/// Finds the first `b` in `s` at or after `from`; the length of `s` where there is none.
pub fn find_from(s: &[u8], b: u8, from: usize) -> (at: usize)
    requires
        from <= s.len(),
    ensures
        from <= at <= s.len(),
        at - from == find_byte(s@.skip(from as int), b),
{
    let mut at: usize = from;
    let ghost t = s@.skip(from as int);
    while at < s.len() && s[at] != b
        invariant
            from <= at <= s.len(),
            t == s@.skip(from as int),
            forall|j: int| 0 <= j < at - from ==> #[trigger] t[j] != b,
        decreases s.len() - at,
    {
        assert(t[at - from] == s[at as int]);
        at = at + 1;
    }
    proof {
        if at < s.len() {
            assert(t[at - from] == s[at as int]);
        }
        lemma_find_byte_is(t, b, at - from);
    }
    at
}

/// The hexadecimal digit, in lower case, of a value below sixteen.
pub open spec fn hex_digit(n: nat) -> u8 {
    if n < 10 {
        (48 + n) as u8
    } else {
        (87 + n) as u8
    }
}

/// The lowest `width` hexadecimal digits of `n`, with leading zeros.
pub open spec fn hex_digits(n: nat, width: nat) -> Seq<u8>
    decreases width,
{
    if width == 0 {
        Seq::empty()
    } else {
        hex_digits(n / 16, (width - 1) as nat).push(hex_digit(n % 16))
    }
}

/// An id as sixteen hexadecimal digits.
pub open spec fn hex16(id: u64) -> Seq<u8> {
    hex_digits(id as nat, 16)
}

/// The decimal digits of `n`, with a minus sign in front of a negative number.
pub open spec fn signed_decimal(n: int) -> Seq<u8> {
    if n < 0 {
        seq!['-' as u8] + decimal((-n) as nat)
    } else {
        decimal(n as nat)
    }
}

/// ASCII bytes as characters.
pub open spec fn ascii_chars(s: Seq<u8>) -> Seq<char> {
    Seq::new(s.len(), |i: int| s[i] as char)
}

/// True when every byte is ASCII.
pub open spec fn all_ascii(s: Seq<u8>) -> bool {
    forall|i: int| 0 <= i < s.len() ==> #[trigger] s[i] < 0x80
}

/// Hexadecimal digits are as many as asked for, and ASCII.
pub proof fn lemma_hex_digits(n: nat, width: nat)
    ensures
        hex_digits(n, width).len() == width,
        all_ascii(hex_digits(n, width)),
    decreases width,
{
    if width > 0 {
        let p = hex_digits(n / 16, (width - 1) as nat);
        lemma_hex_digits(n / 16, (width - 1) as nat);
        assert forall|i: int| 0 <= i < width implies #[trigger] hex_digits(n, width)[i] < 0x80 by {
            if i < p.len() {
                assert(hex_digits(n, width)[i] == p[i]);
            }
        }
    }
}

/// Law: two ids with the same sixteen digits are the same id.
pub proof fn law_hex16_distinct(a: u64, b: u64)
    requires
        hex16(a) == hex16(b),
    ensures
        a == b,
{
    lemma_hex_value(a as nat, 16);
    lemma_hex_value(b as nat, 16);
    assert(pow16(16) == 0x1_0000_0000_0000_0000) by {
        reveal_with_fuel(pow16, 17);
    }
}

/// Sixteen to the power of `n`.
spec fn pow16(n: nat) -> nat
    decreases n,
{
    if n == 0 {
        1
    } else {
        16 * pow16((n - 1) as nat)
    }
}

/// The number that hexadecimal digits write.
spec fn hex_value(s: Seq<u8>) -> nat
    decreases s.len(),
{
    if s.len() == 0 {
        0
    } else {
        16 * hex_value(s.drop_last()) + (if s.last() < 58 {
            s.last() - 48
        } else {
            s.last() - 87
        }) as nat
    }
}

proof fn lemma_hex_value(n: nat, width: nat)
    ensures
        n < pow16(width) ==> hex_value(hex_digits(n, width)) == n,
    decreases width,
{
    if width > 0 {
        lemma_hex_value(n / 16, (width - 1) as nat);
        let d = hex_digits(n, width);
        assert(d.drop_last() =~= hex_digits(n / 16, (width - 1) as nat));
    }
}

/// Appends the lowest `width` hexadecimal digits of `n`.
fn push_hex(out: &mut Vec<u8>, n: u64, width: u64)
    ensures
        final(out)@ == old(out)@ + hex_digits(n as nat, width as nat),
    decreases width,
{
    let ghost before = out@;
    if width > 0 {
        push_hex(out, n / 16, width - 1);
        let d: u8 = (n % 16) as u8;
        out.push(if d < 10 { 48 + d } else { 87 + d });
    }
    assert(out@ =~= before + hex_digits(n as nat, width as nat));
}

/// Appends an id as sixteen hexadecimal digits.
pub fn push_hex16(out: &mut Vec<u8>, id: u64)
    ensures
        final(out)@ == old(out)@ + hex16(id),
{
    push_hex(out, id, 16);
}

/// Appends the decimal digits of `n`, with a minus sign in front of a negative number.
pub fn push_signed(out: &mut Vec<u8>, n: i32)
    ensures
        final(out)@ == old(out)@ + signed_decimal(n as int),
{
    let ghost before = out@;
    if n < 0 {
        out.push('-' as u8);
        push_decimal(out, (-(n as i64)) as u64);
    } else {
        push_decimal(out, n as u64);
    }
    assert(out@ =~= before + signed_decimal(n as int));
}

/// ASCII bytes as text.
pub fn ascii_string(bytes: &[u8]) -> (s: String)
    requires
        all_ascii(bytes@),
    ensures
        s@ == ascii_chars(bytes@),
{
    let ghost chars = ascii_chars(bytes@);
    proof {
        assert forall|i: int| 0 <= i < chars.len() implies '\0' <= #[trigger] chars[i] <= '\u{7f}' by {
            assert(bytes@[i] < 0x80);
        }
        is_ascii_chars_encode_utf8(chars);
        assert(encode_utf8(chars) =~= bytes@) by {
            assert forall|i: int| 0 <= i < bytes@.len() implies #[trigger] encode_utf8(chars)[i] == bytes@[i] by {
                assert(bytes@[i] < 0x80);
                assert(chars[i] as u8 == encode_utf8(chars)[i]);
            }
        }
        encode_utf8_valid_utf8(chars);
    }
    let text = core::str::from_utf8(bytes).unwrap();
    proof {
        encode_utf8_decode_utf8(chars);
        encode_utf8_decode_utf8(text@);
    }
    text.to_owned()
}

/// An id as sixteen hexadecimal digits.
pub fn hex16_string(id: u64) -> (s: String)
    ensures
        s@ == ascii_chars(hex16(id)),
{
    let mut digits: Vec<u8> = Vec::new();
    push_hex16(&mut digits, id);
    assert(digits@ =~= hex16(id));
    proof {
        lemma_hex_digits(id as nat, 16);
    }
    ascii_string(digits.as_slice())
}

/// So many spaces.
pub open spec fn spaces(n: nat) -> Seq<u8> {
    Seq::new(n, |i: int| ' ' as u8)
}

/// `s` with spaces in front, up to `width`.
pub open spec fn right_aligned(s: Seq<u8>, width: nat) -> Seq<u8> {
    if s.len() < width {
        spaces((width - s.len()) as nat) + s
    } else {
        s
    }
}

/// Text with spaces behind it, up to `width` characters.
pub open spec fn left_aligned(s: Seq<char>, width: nat) -> Seq<u8> {
    encode_utf8(s) + (if s.len() < width {
        spaces((width - s.len()) as nat)
    } else {
        Seq::empty()
    })
}

/// Appends so many spaces.
pub fn push_spaces(out: &mut Vec<u8>, n: usize)
    ensures
        final(out)@ == old(out)@ + spaces(n as nat),
{
    let ghost before = out@;
    let mut i: usize = 0;
    assert(before + spaces(0) =~= before);
    while i < n
        invariant
            i <= n,
            out@ == before + spaces(i as nat),
        decreases n - i,
    {
        out.push(' ' as u8);
        i = i + 1;
        assert(out@ =~= before + spaces(i as nat));
    }
}

/// Appends the decimal digits of `n`, with spaces in front, up to `width`.
pub fn push_right_aligned(out: &mut Vec<u8>, n: u64, width: usize)
    ensures
        final(out)@ == old(out)@ + right_aligned(decimal(n as nat), width as nat),
{
    let ghost before = out@;
    let mut digits: Vec<u8> = Vec::new();
    push_decimal(&mut digits, n);
    assert(digits@ =~= decimal(n as nat));
    if digits.len() < width {
        push_spaces(out, width - digits.len());
    }
    push_bytes(out, digits.as_slice());
    assert(out@ =~= before + right_aligned(decimal(n as nat), width as nat));
}

/// Appends text with spaces behind it, up to `width` characters.
pub fn push_left_aligned(out: &mut Vec<u8>, s: &str, width: usize)
    ensures
        final(out)@ == old(out)@ + left_aligned(s@, width as nat),
{
    let ghost before = out@;
    push_str(out, s);
    let len = s.unicode_len();
    if len < width {
        push_spaces(out, width - len);
    }
    assert(out@ =~= before + left_aligned(s@, width as nat));
}

/// Law: aligned text is as wide as its column, or as it is where it is wider; what is added is spaces, before
/// a number and behind a word.
pub proof fn law_alignment(s: Seq<u8>, word: Seq<char>, width: nat, i: int)
    ensures
        s.len() >= width ==> right_aligned(s, width) == s,
        s.len() < width ==> right_aligned(s, width).len() == width && right_aligned(s, width).skip(width - s.len()) == s && (
        0 <= i < width - s.len() ==> right_aligned(s, width)[i] == ' ' as u8),
        word.len() >= width ==> left_aligned(word, width) == encode_utf8(word),
        word.len() < width ==> left_aligned(word, width).len() == encode_utf8(word).len() + width - word.len()
            && encode_utf8(word).is_prefix_of(left_aligned(word, width)) && (encode_utf8(word).len() <= i
            < left_aligned(word, width).len() ==> left_aligned(word, width)[i] == ' ' as u8),
{
    assert(encode_utf8(word) + Seq::<u8>::empty() =~= encode_utf8(word));
    if s.len() < width {
        assert(right_aligned(s, width).skip(width - s.len()) =~= s);
    }
}

/// Law: an id is written with sixteen digits, the highest first, zeros included, and letters are small.
pub proof fn law_hex_digits_in_order(id: u64, high: u64, low: u8)
    requires
        low < 16,
        high < 0x1000_0000_0000_0000,
        id == high * 16 + low,
    ensures
        hex16(id).len() == 16,
        hex16(id)[15] == (if low < 10 {
            48 + low
        } else {
            87 + low
        }),
        hex16(id).take(15) == hex16(high).skip(1),
{
    lemma_hex_digits(id as nat, 16);
    lemma_hex_digits(high as nat, 16);
    assert(id as nat / 16 == high && id as nat % 16 == low);
    assert(hex16(id).take(15) =~= hex_digits(high as nat, 15));
    assert(pow16(15) == 0x1000_0000_0000_0000) by {
        reveal_with_fuel(pow16, 16);
    }
    lemma_leading_zero(high as nat, 15);
}

/// A number that fits fewer digits has a zero before them.
proof fn lemma_leading_zero(n: nat, width: nat)
    requires
        n < pow16(width),
    ensures
        hex_digits(n, width + 1).skip(1) == hex_digits(n, width),
    decreases width,
{
    lemma_hex_digits(n, width);
    lemma_hex_digits(n, width + 1);
    if width == 0 {
        assert(hex_digits(n, 1).skip(1) =~= Seq::<u8>::empty());
    } else {
        lemma_leading_zero(n / 16, (width - 1) as nat);
        lemma_hex_digits(n / 16, width);
        let a = hex_digits(n / 16, width);
        assert(hex_digits(n, width + 1) == a.push(hex_digit(n % 16)));
        assert(a.push(hex_digit(n % 16)).skip(1) =~= a.skip(1).push(hex_digit(n % 16)));
    }
}

/// Law: a negative number is a minus sign and the number without it.
pub proof fn law_signed(n: int)
    ensures
        n >= 0 ==> signed_decimal(n) == decimal(n as nat),
        n < 0 ==> signed_decimal(n) == seq!['-' as u8] + decimal((-n) as nat),
{
}

/// Law: what is found is the first place from there on, and where nothing is found there is none.
pub proof fn law_finding(s: &[u8], b: u8, from: usize, at: usize, i: int)
    requires
        from <= s@.len(),
        call_ensures(find_from, (s, b, from), at),
        from <= i < s@.len(),
        s@[i] == b,
    ensures
        from <= at <= i,
        s@[at as int] == b,
        forall|j: int| from <= j < at ==> #[trigger] s@[j] != b,
{
    let t = s@.skip(from as int);
    lemma_find_byte(t, b);
    assert(t[i - from] == s@[i]);
    assert(find_byte(t, b) <= i - from);
    assert(t[at - from] == s@[at as int]);
    assert forall|j: int| from <= j < at implies #[trigger] s@[j] != b by {
        assert(t[j - from] == s@[j]);
    }
}

/// Law: what is appended stands behind what was there.
pub proof fn law_appending(out: &mut Vec<u8>, bytes: &[u8], text_out: &mut Vec<u8>, text: &str)
    requires
        call_ensures(push_bytes, (out, bytes), ()),
        call_ensures(push_str, (text_out, text), ()),
    ensures
        final(out)@ == old(out)@ + bytes@,
        final(text_out)@ == old(text_out)@ + vstd::utf8::encode_utf8(text@),
{
}

} // verus!
