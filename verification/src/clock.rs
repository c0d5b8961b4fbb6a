//! Wall-clock time as milliseconds and microseconds since the Unix epoch.

use crate::bytes;
use vstd::prelude::*;

verus! {

/// Milliseconds of a time span of whole seconds and nanoseconds, modulo `2^64`.
pub open spec fn millis(secs: int, nanos: int) -> int {
    (secs * 1000 + nanos / 1_000_000) % 0x1_0000_0000_0000_0000
}

/// Microseconds of a time span of whole seconds and microseconds, as the `i64`
/// with the same lowest 64 bits.
pub open spec fn micros(secs: int, subsec_micros: int) -> int {
    bytes::signed64(((secs * 1_000_000 + subsec_micros) % 0x1_0000_0000_0000_0000) as nat)
}

/// All whole microseconds of a time span of whole seconds and nanoseconds.
pub open spec fn whole_micros(secs: int, nanos: int) -> int {
    secs * 1_000_000 + nanos / 1000
}

/// Whether a clock can show `t` whole microseconds since the Unix epoch.
pub open spec fn shows(t: nat) -> bool {
    exists|secs: u64, nanos: u32|
        nanos < 1_000_000_000 && t == #[trigger] whole_micros(secs as int, nanos as int)
}

/// `SystemTime::now` as the span since `UNIX_EPOCH`, in whole seconds and the
/// nanoseconds above them. Of the two numbers nothing is claimed but that the
/// nanoseconds make less than a second: they depend on the machine's clock.
/// There are none where the clock stands before 1970.
#[verifier::external_body]
fn span_since_epoch() -> (r: Option<(u64, u32)>)
    ensures
        r matches Some(span) ==> span.1 < 1_000_000_000,
{
    let span = std::time::SystemTime::now().duration_since(std::time::UNIX_EPOCH).ok();
    span.map(|s| (s.as_secs(), s.subsec_nanos()))
}

/// The time span that the clock shows: whole seconds and nanoseconds since the
/// Unix epoch, none where the clock stands before it.
pub(crate) fn since_epoch() -> (r: (u64, u32))
    ensures
        r.1 < 1_000_000_000,
{
    match span_since_epoch() {
        Some(span) => span,
        None => (0, 0),
    }
}

/// Milliseconds of a time span.
pub fn span_millis(secs: u64, nanos: u32) -> (r: u64)
    ensures
        r == millis(secs as int, nanos as int),
{
    let total: u128 = secs as u128 * 1000 + (nanos / 1_000_000) as u128;
    (total % 0x1_0000_0000_0000_0000) as u64
}

/// Microseconds of a time span.
pub fn span_micros(secs: u64, subsec_micros: u32) -> (r: i64)
    ensures
        r == micros(secs as int, subsec_micros as int),
{
    let total: u128 = secs as u128 * 1_000_000 + subsec_micros as u128;
    let low: u64 = (total % 0x1_0000_0000_0000_0000) as u64;
    bytes::from_bits64(low)
}

/// All whole microseconds of a time span.
pub fn span_whole_micros(secs: u64, nanos: u32) -> (r: u128)
    ensures
        r == whole_micros(secs as int, nanos as int),
{
    secs as u128 * 1_000_000 + (nanos / 1000) as u128
}

/// Microseconds since the Unix epoch.
pub fn get_monotonic_us() -> (r: i64)
    ensures
        exists|secs: u64, subsec_micros: u32|
            subsec_micros < 1_000_000 && r == #[trigger] micros(secs as int, subsec_micros as int),
{
    let (secs, nanos) = since_epoch();
    span_micros(secs, nanos / 1000)
}

/// The milliseconds and microseconds of a time span are the greatest whole numbers of
/// them that it holds, as long as they are numbers of 64 bits.
pub proof fn law_whole_units(secs: int, nanos: int)
    requires
        0 <= secs < 9_000_000_000_000,
        0 <= nanos < 1_000_000_000,
    ensures
        millis(secs, nanos) * 1_000_000 <= secs * 1_000_000_000 + nanos < (millis(secs, nanos) + 1)
            * 1_000_000,
        whole_micros(secs, nanos) * 1000 <= secs * 1_000_000_000 + nanos < (whole_micros(
            secs,
            nanos,
        ) + 1) * 1000,
        micros(secs, nanos / 1000) == whole_micros(secs, nanos),
{
}

/// Of a longer time span the milliseconds and microseconds keep their lowest 64 bits.
pub proof fn law_long_spans(secs: int, nanos: int)
    requires
        0 <= nanos < 1_000_000_000,
    ensures
        0 <= millis(secs, nanos) <= u64::MAX,
        (millis(secs, nanos) - secs * 1000 - nanos / 1_000_000) % 0x1_0000_0000_0000_0000 == 0,
        i64::MIN <= micros(secs, nanos / 1000) <= i64::MAX,
        (micros(secs, nanos / 1000) - whole_micros(secs, nanos)) % 0x1_0000_0000_0000_0000 == 0,
{
}

} // verus!
