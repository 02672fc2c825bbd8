//! What the engine takes from its surroundings: fresh position ids and the
//! wall clock.
use vstd::arithmetic::power::pow;
use vstd::prelude::*;

verus! {

/// Calls `uuid::Uuid::new_v4` and returns the id as a `u128`. The id is
/// random: nothing is promised of it.
#[verifier::external_body]
pub fn new_position_id() -> (r: u128) {
    uuid::Uuid::new_v4().as_u128()
}

/// Calls `chrono::Utc::now` and returns the time in milliseconds since the
/// Unix epoch. The time comes from the machine: nothing is promised of it.
#[verifier::external_body]
pub fn now_millis() -> (r: i64) {
    chrono::Utc::now().timestamp_millis()
}

/// The lower-case hexadecimal digit of `n`, for `0 <= n < 16`.
pub open spec fn hex_digit(n: int) -> char {
    if n < 10 {
        ('0' as int + n) as char
    } else {
        ('a' as int + n - 10) as char
    }
}

/// The `k`-th of the 32 hexadecimal digits of `id`, most significant first.
pub open spec fn id_nibble(id: u128, k: int) -> int {
    (id as int / pow(16, (31 - k) as nat)) % 16
}

/// How many hyphens come before position `i` of the hyphenated form.
pub open spec fn hyphens_before(i: int) -> int {
    if i < 8 {
        0
    } else if i < 13 {
        1
    } else if i < 18 {
        2
    } else if i < 23 {
        3
    } else {
        4
    }
}

/// The text that `uuid::Uuid`'s `Display` writes for the id made with
/// `Uuid::from_u128`: its 32 hexadecimal digits, most significant first, in
/// lower case, in groups of 8, 4, 4, 4 and 12 joined by hyphens.
pub open spec fn uuid_text(id: u128) -> Seq<char> {
    Seq::new(
        36,
        |i: int|
            if i == 8 || i == 13 || i == 18 || i == 23 {
                '-'
            } else {
                hex_digit(id_nibble(id, i - hyphens_before(i)))
            },
    )
}

/// Calls `uuid::Uuid::from_u128` and its `to_string`; the text is
/// `uuid_text`.
#[verifier::external_body]
pub fn id_text(id: u128) -> (r: String)
    ensures
        r@ == uuid_text(id),
{
    uuid::Uuid::from_u128(id).to_string()
}

} // verus!
