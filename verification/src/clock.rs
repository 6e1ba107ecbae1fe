//! Monotonic time and the arithmetic of token balances.
//!
//! Token balances are kept exactly, in billionths of a byte, so that a rate
//! in bytes per second times an elapsed time in nanoseconds is a whole
//! number of balance units.
use std::time::{Duration, Instant, SystemTime, UNIX_EPOCH};
use vstd::prelude::*;

verus! {

#[verifier::external_type_specification]
#[verifier::external_body]
pub struct ExInstant(Instant);

/// `Instant` is `Copy`: its `clone` returns the same reading.
pub assume_specification[ <Instant as Clone>::clone ](x: &Instant) -> (r: Instant)
    ensures
        r == *x,
;

#[verifier::external_type_specification]
#[verifier::external_body]
pub struct ExSystemTime(SystemTime);

/// Reads the wall clock (`SystemTime::now`). Nothing is promised of the
/// reading: it depends on the time of the call.
#[verifier::external_body]
fn system_now() -> SystemTime {
    SystemTime::now()
}

/// The time from the Unix epoch to `t` (`SystemTime::duration_since` with
/// `UNIX_EPOCH`), or `None` where `t` lies before the epoch. Nothing is
/// promised of which: a `SystemTime` is opaque here.
#[verifier::external_body]
fn since_unix_epoch(t: &SystemTime) -> Option<Duration> {
    t.duration_since(UNIX_EPOCH).ok()
}

/// The whole microseconds of a duration (`Duration::as_micros`). Nothing is
/// promised of the value: a `Duration` is opaque here.
#[verifier::external_body]
fn duration_micros(d: &Duration) -> u128 {
    d.as_micros()
}

/// The time from `t` back to the Unix epoch (`SystemTime::duration_since`
/// called on `UNIX_EPOCH`), or `None` where `t` lies after the epoch.
/// Nothing is promised of which: a `SystemTime` is opaque here.
#[verifier::external_body]
fn until_unix_epoch(t: &SystemTime) -> Option<Duration> {
    UNIX_EPOCH.duration_since(*t).ok()
}

/// A count of microseconds as an `i64`, `i64::MAX` where it does not fit.
pub open spec fn saturated_micros(m: u128) -> i64 {
    if m > i64::MAX as u128 {
        i64::MAX
    } else {
        m as i64
    }
}

/// A time in microseconds since the Unix epoch as an `i64`, from the time
/// elapsed since the epoch (`after`) or, for a clock before the epoch, the
/// time left until it (`before`), negated; each saturates at the range of
/// `i64`, and 0 stands where there is neither.
pub fn signed_micros(after: Option<u128>, before: Option<u128>) -> (r: i64)
    ensures
        r == match after {
            Some(m) => saturated_micros(m) as int,
            None => match before {
                Some(m) => -saturated_micros(m),
                None => 0,
            },
        },
{
    match after {
        Some(m) => if m > i64::MAX as u128 {
            i64::MAX
        } else {
            m as i64
        },
        None => match before {
            Some(m) => if m > i64::MAX as u128 {
                -i64::MAX
            } else {
                -(m as i64)
            },
            None => 0,
        },
    }
}

/// The current wall-clock time in microseconds since the Unix epoch,
/// negative for a clock before the epoch (see `signed_micros`). The value
/// depends on the time of the call.
pub fn unix_micros_now() -> i64 {
    let now = system_now();
    let after = match since_unix_epoch(&now) {
        Some(d) => Some(duration_micros(&d)),
        None => None,
    };
    let before = match until_unix_epoch(&now) {
        Some(d) => Some(duration_micros(&d)),
        None => None,
    };
    signed_micros(after, before)
}

/// A time in whole microseconds since the Unix epoch, as a `u64`: the low
/// 64 bits of the count, or 0 where there is none (a clock before the epoch).
pub fn micros_or_zero(since_epoch: Option<u128>) -> (r: u64)
    ensures
        match since_epoch {
            Some(m) => r == m as u64,
            None => r == 0,
        },
{
    match since_epoch {
        Some(m) => m as u64,
        None => 0,
    }
}

/// The current wall-clock time in microseconds since the Unix epoch, 0 if
/// the clock reads before the epoch. The value depends on the time of the
/// call; `micros_or_zero` states how it is formed from the clock's reading.
pub fn get_current_micros() -> u64 {
    let now = system_now();
    let since = match since_unix_epoch(&now) {
        Some(d) => Some(duration_micros(&d)),
        None => None,
    };
    micros_or_zero(since)
}

/// Balance units per byte: a token balance is held in billionths of a byte.
pub const UNITS_PER_BYTE: u128 = 1_000_000_000;

/// Reads the monotonic clock (`Instant::now`). Nothing is promised of the
/// reading: it depends on the time of the call.
#[verifier::external_body]
pub(crate) fn instant_now() -> Instant {
    Instant::now()
}

/// The time from `earlier` to `later`, zero if `later` is the earlier
/// reading (`Instant::saturating_duration_since`). Nothing is promised of
/// the value: it depends on when the two readings were taken.
#[verifier::external_body]
fn duration_between(later: &Instant, earlier: &Instant) -> Duration {
    later.saturating_duration_since(*earlier)
}

/// The whole nanoseconds of a duration (`Duration::as_nanos`). Nothing is
/// promised of the value: a `Duration` is opaque here.
#[verifier::external_body]
fn duration_nanos(d: &Duration) -> u128 {
    d.as_nanos()
}

/// The whole milliseconds of a duration (`Duration::as_millis`). Nothing is
/// promised of the value: a `Duration` is opaque here.
#[verifier::external_body]
fn duration_millis(d: &Duration) -> u128 {
    d.as_millis()
}

/// A duration of `ms` milliseconds (`Duration::from_millis`).
#[verifier::external_body]
fn millis_duration(ms: u64) -> Duration {
    Duration::from_millis(ms)
}

/// The reading `d` after `t` (`Instant::checked_add`), or `None` where the
/// clock cannot represent it. Nothing is promised of which.
#[verifier::external_body]
fn instant_after(t: &Instant, d: &Duration) -> Option<Instant> {
    t.checked_add(*d)
}

/// The time from `earlier` to `later` in whole nanoseconds, zero if `later`
/// is the earlier reading.
pub fn nanos_between(later: &Instant, earlier: &Instant) -> u128 {
    duration_nanos(&duration_between(later, earlier))
}

/// The whole milliseconds from `earlier` to `later`, at most `u64::MAX`,
/// and the reading that lies exactly that many milliseconds after `earlier`
/// (or `later` itself where the clock cannot represent it).
pub fn whole_millis_between(later: &Instant, earlier: &Instant) -> (r: (u64, Instant)) {
    let ms = duration_millis(&duration_between(later, earlier));
    let whole: u64 = if ms > u64::MAX as u128 {
        u64::MAX
    } else {
        ms as u64
    };
    let next = match instant_after(earlier, &millis_duration(whole)) {
        Some(t) => t,
        None => *later,
    };
    (whole, next)
}

/// Whether `e` is a time in nanoseconds that the monotonic clock measures
/// from the reading `earlier` to the reading `later`: a value that
/// `nanos_between` gives for those two readings.
pub open spec fn nanos_measured(earlier: Instant, later: Instant, e: u128) -> bool {
    call_ensures(nanos_between, (&later, &earlier), e)
}

/// Measures the nanoseconds from `earlier` to `later` (see `nanos_between`),
/// recording that the result is the clock's measure for these readings.
pub(crate) fn measure_nanos(later: &Instant, earlier: &Instant) -> (r: u128)
    ensures
        nanos_measured(*earlier, *later, r),
{
    let measure = nanos_between;
    measure(later, earlier)
}

/// Whether `ms` whole milliseconds, and the reading `next` that lies `ms`
/// milliseconds after `earlier`, are what the monotonic clock measures from
/// the reading `earlier` to the reading `later`: a value that
/// `whole_millis_between` gives for those two readings.
pub open spec fn millis_measured(earlier: Instant, later: Instant, ms: u64, next: Instant) -> bool {
    call_ensures(whole_millis_between, (&later, &earlier), (ms, next))
}

/// Measures the whole milliseconds from `earlier` to `later` and the reading
/// they reach (see `whole_millis_between`), recording that the result is
/// the clock's measure for these readings.
pub(crate) fn measure_millis(later: &Instant, earlier: &Instant) -> (r: (u64, Instant))
    ensures
        millis_measured(*earlier, *later, r.0, r.1),
{
    let measure = whole_millis_between;
    measure(later, earlier)
}

/// The smaller of two integers.
pub open spec fn min_int(x: int, y: int) -> int {
    if x <= y {
        x
    } else {
        y
    }
}

/// The balance after `elapsed_nanos` nanoseconds of refill at `rate` bytes
/// per second, starting from `tokens` units and capped at `cap` units.
pub open spec fn refilled(tokens: int, rate: int, elapsed_nanos: int, cap: int) -> int {
    min_int(tokens + rate * elapsed_nanos, cap)
}

/// A refill never takes tokens away from a balance within its cap, and never
/// goes above the cap.
pub proof fn lemma_refill_bounds(tokens: int, rate: int, elapsed_nanos: int, cap: int)
    requires
        tokens <= cap,
        rate >= 0,
        elapsed_nanos >= 0,
    ensures
        tokens <= refilled(tokens, rate, elapsed_nanos, cap) <= cap,
{
    assert(rate * elapsed_nanos >= 0) by (nonlinear_arith)
        requires
            rate >= 0,
            elapsed_nanos >= 0,
    ;
}

/// Waiting longer never leaves fewer tokens.
pub proof fn lemma_refill_monotone(tokens: int, rate: int, earlier: int, later: int, cap: int)
    requires
        rate >= 0,
        earlier <= later,
    ensures
        refilled(tokens, rate, earlier, cap) <= refilled(tokens, rate, later, cap),
{
    assert(rate * earlier <= rate * later) by (nonlinear_arith)
        requires
            rate >= 0,
            earlier <= later,
    ;
}

/// Refills a balance of `tokens` units at `rate` bytes per second for
/// `elapsed_nanos` nanoseconds, never going above `cap` units.
pub fn refill_balance(tokens: u128, rate: u64, elapsed_nanos: u128, cap: u128) -> (r: u128)
    ensures
        r == refilled(tokens as int, rate as int, elapsed_nanos as int, cap as int),
{
    match elapsed_nanos.checked_mul(rate as u128) {
        None => {
            proof {
                assert(rate as int * elapsed_nanos as int == elapsed_nanos as int * rate as int)
                    by (nonlinear_arith);
            }
            cap
        },
        Some(added) => {
            proof {
                assert(rate as int * elapsed_nanos as int == elapsed_nanos as int * rate as int)
                    by (nonlinear_arith);
            }
            match tokens.checked_add(added) {
                None => cap,
                Some(t) => if t <= cap {
                    t
                } else {
                    cap
                },
            }
        },
    }
}

/// The balance units that `bytes` bytes cost.
pub open spec fn cost(bytes: int) -> int {
    bytes * 1_000_000_000
}

} // verus!
