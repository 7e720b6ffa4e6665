//! Room identifiers (UUIDs held as their 128-bit value) and their text forms.
use vstd::arithmetic::power::pow;
use vstd::prelude::*;

verus! {

/// The lobby's id: the UUID whose sixteen bytes spell `entry___________`.
pub const LOBBY_ROOM_ID: u128 = 0x656e7472795f5f5f5f5f5f5f5f5f5f5f;

/// The lower-case hexadecimal digit of `d` (`0 <= d < 16`).
pub open spec fn hex_digit(d: int) -> char {
    seq!['0', '1', '2', '3', '4', '5', '6', '7', '8', '9', 'a', 'b', 'c', 'd', 'e', 'f'][d]
}

/// The `i`-th of the 32 hexadecimal digits of `v`, most significant first.
pub open spec fn nibble(v: u128, i: int) -> int {
    (v as int / pow(16, (31 - i) as nat)) % 16
}

/// Digits `from .. to` of `v` in hexadecimal.
pub open spec fn hex_digits(v: u128, from: int, to: int) -> Seq<char> {
    Seq::new((to - from) as nat, |k: int| hex_digit(nibble(v, from + k)))
}

/// The hyphenated text of a UUID: 8-4-4-4-12 lower-case hex digits.
pub open spec fn uuid_text(v: u128) -> Seq<char> {
    hex_digits(v, 0, 8) + seq!['-'] + hex_digits(v, 8, 12) + seq!['-'] + hex_digits(v, 12, 16)
        + seq!['-'] + hex_digits(v, 16, 20) + seq!['-'] + hex_digits(v, 20, 32)
}

/// A random (version 4) UUID carries the version `4` in bits 76..80 and the
/// variant `0b10` in bits 62..64.
pub open spec fn is_random_uuid(v: u128) -> bool {
    &&& (v >> 76u128) & 0xf == 4
    &&& (v >> 62u128) & 0x3 == 2
}

/// Some value is a random UUID's.
pub proof fn lemma_random_uuid_exists()
    ensures
        is_random_uuid(0x4000_8000_0000_0000_0000),
{
    assert(((0x4000_8000_0000_0000_0000u128 >> 76u128) & 0xf == 4) && ((
    0x4000_8000_0000_0000_0000u128 >> 62u128) & 0x3 == 2)) by (bit_vector);
}

/// What `uuid::Uuid::parse_str` makes of a text: the UUID's value, or nothing
/// where the text is no UUID.
pub uninterp spec fn uuid_parse_of(s: Seq<char>) -> Option<u128>;

/// Relies on uuid's `Display` for `Uuid`, which writes the hyphenated form
/// with lower-case digits, and on `Uuid::from_u128`, which takes the value's
/// bytes most significant first.
#[verifier::external_body]
pub(crate) fn format_uuid(id: u128) -> (r: String)
    ensures
        r@ == uuid_text(id),
{
    uuid::Uuid::from_u128(id).to_string()
}

/// Relies on `uuid::Uuid::new_v4`: a random UUID whose version and variant
/// bits are set as for every version 4 UUID.
#[verifier::external_body]
pub(crate) fn new_room_id() -> (r: u128)
    ensures
        is_random_uuid(r),
{
    uuid::Uuid::new_v4().as_u128()
}

/// Relies on `uuid::Uuid::parse_str`: the value of the UUID that the text
/// spells, or nothing when it spells none.
#[verifier::external_body]
pub(crate) fn parse_uuid(s: &str) -> (r: Option<u128>)
    ensures
        r == uuid_parse_of(s@),
{
    match uuid::Uuid::parse_str(s) {
        Ok(u) => Some(u.as_u128()),
        Err(_) => None,
    }
}

/// The decimal digit of `d` (`0 <= d < 10`).
pub open spec fn digit_char(d: int) -> char {
    hex_digit(d)
}

/// The decimal text of `n`, without leading zeros.
pub open spec fn decimal(n: nat) -> Seq<char>
    decreases n,
{
    if n < 10 {
        seq![digit_char(n as int)]
    } else {
        decimal(n / 10).push(digit_char((n % 10) as int))
    }
}

fn digit_str(d: usize) -> (r: &'static str)
    requires
        d < 10,
    ensures
        r@ == seq![digit_char(d as int)],
{
    if d == 0 {
        proof { reveal_strlit("0"); }
        "0"
    } else if d == 1 {
        proof { reveal_strlit("1"); }
        "1"
    } else if d == 2 {
        proof { reveal_strlit("2"); }
        "2"
    } else if d == 3 {
        proof { reveal_strlit("3"); }
        "3"
    } else if d == 4 {
        proof { reveal_strlit("4"); }
        "4"
    } else if d == 5 {
        proof { reveal_strlit("5"); }
        "5"
    } else if d == 6 {
        proof { reveal_strlit("6"); }
        "6"
    } else if d == 7 {
        proof { reveal_strlit("7"); }
        "7"
    } else if d == 8 {
        proof { reveal_strlit("8"); }
        "8"
    } else {
        proof { reveal_strlit("9"); }
        "9"
    }
}

/// The decimal text of `n`.
pub fn format_decimal(n: usize) -> (r: String)
    ensures
        r@ == decimal(n as nat),
    decreases n,
{
    let d = digit_str(n % 10);
    if n < 10 {
        String::from_str(d)
    } else {
        let mut s = format_decimal(n / 10);
        s.append(d);
        s
    }
}

} // verus!
