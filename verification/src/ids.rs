//! Identifiers and timestamps: random UUIDs (through `uuid`), their text
//! form, and the system clock.

use vstd::prelude::*;

verus! {

/// The lowercase hexadecimal digit for `n < 16`.
pub open spec fn hex_digit(n: u128) -> char {
    if n < 10 {
        (48 + n) as char
    } else {
        (87 + n) as char
    }
}

/// The `k`-th hexadecimal digit of `bits`, most significant first (`k < 32`).
pub open spec fn uuid_nibble(bits: u128, k: int) -> u128 {
    (bits >> ((31 - k) * 4) as u128) & 0xf
}

/// The number of hyphens before position `i` of the hyphenated form.
pub open spec fn hyphens_before(i: int) -> int {
    if i < 9 {
        0
    } else if i < 14 {
        1
    } else if i < 19 {
        2
    } else if i < 24 {
        3
    } else {
        4
    }
}

/// The hyphenated lowercase text of a UUID: 32 hexadecimal digits in groups
/// of 8, 4, 4, 4 and 12, separated by `-`.
pub open spec fn uuid_text(bits: u128) -> Seq<char> {
    Seq::new(
        36,
        |i: int|
            if i == 8 || i == 13 || i == 18 || i == 23 {
                '-'
            } else {
                hex_digit(uuid_nibble(bits, i - hyphens_before(i)))
            },
    )
}

/// Calls `uuid::Uuid::new_v4` and returns the 128-bit value of the UUID.
/// The result is random. What holds of every outcome, as the source of
/// `new_v4` sets it: the version nibble is 4 and the two variant bits are
/// `10`. `new_v4` panics when the operating system cannot supply random
/// bytes; that case is not stated.
#[verifier::external_body]
pub(crate) fn random_uuid() -> (r: u128)
    ensures
        (r >> 76u128) & 0xf == 4,
        (r >> 62u128) & 0x3 == 2,
{
    uuid::Uuid::new_v4().as_u128()
}

/// Calls `Display` on `uuid::Uuid::from_u128(bits)`; claims the text is the
/// hyphenated lowercase form of `bits`, as the source of `uuid`'s formatter
/// writes it.
#[verifier::external_body]
pub(crate) fn uuid_hyphenated(bits: u128) -> (r: String)
    ensures
        r@ == uuid_text(bits),
{
    uuid::Uuid::from_u128(bits).to_string()
}

/// A reading of the system clock.
#[verifier::external_type_specification]
#[verifier::external_body]
pub struct ExSystemTime(std::time::SystemTime);

/// Why a clock reading lies before the Unix epoch.
#[verifier::external_type_specification]
#[verifier::external_body]
pub struct ExSystemTimeError(std::time::SystemTimeError);

/// Calls `std::time::SystemTime::now`. Nothing is claimed of the reading.
#[verifier::external_body]
fn clock_reading() -> std::time::SystemTime {
    std::time::SystemTime::now()
}

/// Calls `SystemTime::duration_since` with the Unix epoch: the time elapsed
/// since the epoch, or an error for a reading before it. The reading is
/// opaque here, so nothing is claimed of the result.
#[verifier::external_body]
fn since_unix_epoch(t: &std::time::SystemTime) -> Result<std::time::Duration, std::time::SystemTimeError> {
    t.duration_since(std::time::UNIX_EPOCH)
}

/// Calls `Duration::as_millis`: the whole milliseconds of `d`. The duration
/// is opaque here, so nothing is claimed of the result.
#[verifier::external_body]
fn whole_millis(d: &std::time::Duration) -> u128 {
    d.as_millis()
}

/// The current time in milliseconds since the Unix epoch; zero for a clock
/// set before the epoch.
pub(crate) fn now_ms() -> i64 {
    let millis = match since_unix_epoch(&clock_reading()) {
        Ok(elapsed) => whole_millis(&elapsed),
        Err(_) => 0,
    };
    millis as i64
}

} // verus!
