//! Random ids.
use vstd::prelude::*;

verus! {

/// The upper half of a random UUID: the digit that holds the version is four, the rest is free.
pub open spec fn is_random_id(id: u64) -> bool {
    id & 0xf000 == 0x4000
}

/// The text of a random UUID: five groups of lower-case hexadecimal digits with hyphens between
/// them. The third begins with the version, four; the fourth with the variant, whose upper two bits
/// are one and zero.
pub open spec fn is_uuid_text(s: Seq<char>) -> bool {
    &&& s.len() == 36
    &&& s[14] == '4'
    &&& s[19] == '8' || s[19] == '9' || s[19] == 'a' || s[19] == 'b'
    &&& forall|i: int|
        0 <= i < 36 ==> if i == 8 || i == 13 || i == 18 || i == 23 {
            #[trigger] s[i] == '-'
        } else {
            '0' <= s[i] <= '9' || 'a' <= s[i] <= 'f'
        }
}

/// The upper half, `uuid::Uuid::as_u64_pair`, of what `uuid::Uuid::new_v4` draws. The version is
/// fixed; nothing is said of the other bits, which are random.
#[verifier::external_body]
fn draw_id() -> (id: u64)
    ensures
        is_random_id(id),
{
    uuid::Uuid::new_v4().as_u64_pair().0
}

/// The text, `ToString` for `uuid::Uuid`, of what `uuid::Uuid::new_v4` draws: hyphenated and in
/// lower case. Nothing is said of the digits but those of version and variant; they are random.
#[verifier::external_body]
fn draw_uuid_text() -> (s: String)
    ensures
        is_uuid_text(s@),
{
    uuid::Uuid::new_v4().to_string()
}

/// A fresh id for a PTY.
pub fn new_id() -> (id: u64)
    ensures
        is_random_id(id),
        id != 0,
{
    let id = draw_id();
    assert(id & 0xf000 == 0x4000 ==> id != 0) by (bit_vector);
    id
}

/// A fresh id for a subscriber.
pub fn new_subscriber_id() -> (id: String)
    ensures
        is_uuid_text(id@),
{
    draw_uuid_text()
}

} // verus!
