//! Per-address rate limiter of the daemon's pipe server.
//!
//! Tokens are added over time at the configured rate in bytes per second;
//! packets spend tokens, and a packet that finds too few is refused. The
//! balance may grow to twice the rate (a burst allowance). A rate of
//! `u64::MAX` lets everything through, a rate of 0 nothing.
use crate::clock::{
    cost, instant_now, lemma_refill_bounds, lemma_refill_monotone, measure_nanos, nanos_measured, refill_balance, refilled,
    UNITS_PER_BYTE,
};
use crate::net::Ipv4Addr;
use std::time::Instant;
use vstd::prelude::*;

verus! {

/// What one consumption does: whether the packet passes, and the balance
/// afterwards, for a bucket with rate `allowed`, balance `tokens` and burst
/// allowance `burst` (both in balance units), when `elapsed_nanos`
/// nanoseconds have gone by since the last refill.
pub open spec fn consume_outcome(allowed: u64, tokens: int, burst: int, bytes: int, elapsed_nanos: int) -> (bool, int) {
    if allowed == u64::MAX {
        (true, tokens)
    } else if allowed == 0 {
        (false, tokens)
    } else {
        let t = refilled(tokens, allowed as int, elapsed_nanos, burst);
        if t >= cost(bytes) {
            (true, t - cost(bytes))
        } else {
            (false, t)
        }
    }
}

/// A bucket that was just created, or just given a new rate, lets through a
/// packet of up to one second's worth of bytes, however much or little time
/// has passed.
pub proof fn lemma_fresh_bucket_admits_one_second(bytes_per_sec: u64, bytes: int, elapsed_nanos: int)
    requires
        0 < bytes_per_sec < u64::MAX,
        0 <= bytes <= bytes_per_sec,
        elapsed_nanos >= 0,
    ensures
        consume_outcome(
            bytes_per_sec,
            cost(bytes_per_sec as int),
            2 * cost(bytes_per_sec as int),
            bytes,
            elapsed_nanos,
        ).0,
{
    lemma_refill_bounds(
        cost(bytes_per_sec as int),
        bytes_per_sec as int,
        elapsed_nanos,
        2 * cost(bytes_per_sec as int),
    );
}

/// With no time passing, a limited bucket lets a packet through exactly when
/// its balance covers it, and then the balance drops by the packet's cost:
/// what passes in a burst never exceeds the balance.
pub proof fn lemma_no_refill_spends_balance(allowed: u64, tokens: int, burst: int, bytes: int)
    requires
        0 < allowed < u64::MAX,
        0 <= tokens <= burst,
    ensures
        consume_outcome(allowed, tokens, burst, bytes, 0).0 == (tokens >= cost(bytes)),
        consume_outcome(allowed, tokens, burst, bytes, 0).1 == if tokens >= cost(bytes) {
            tokens - cost(bytes)
        } else {
            tokens
        },
{
    assert(allowed as int * 0 == 0);
}

/// Waiting never hurts: a packet that a bucket lets through after some time
/// it also lets through after a longer time.
pub proof fn lemma_waiting_never_hurts(allowed: u64, tokens: int, burst: int, bytes: int, earlier: int, later: int)
    requires
        earlier <= later,
        consume_outcome(allowed, tokens, burst, bytes, earlier).0,
    ensures
        consume_outcome(allowed, tokens, burst, bytes, later).0,
{
    lemma_refill_monotone(tokens, allowed as int, earlier, later, burst);
}

/// What a run of consumptions does, each call given as its packet size in
/// bytes and the nanoseconds since the previous one: the balance units the
/// packets let through cost together, and the balance left.
pub open spec fn run_outcome(allowed: u64, tokens: int, burst: int, calls: Seq<(int, int)>) -> (int, int)
    decreases calls.len(),
{
    if calls.len() == 0 {
        (0, tokens)
    } else {
        let step = consume_outcome(allowed, tokens, burst, calls[0].0, calls[0].1);
        let rest = run_outcome(allowed, step.1, burst, calls.drop_first());
        ((if step.0 { cost(calls[0].0) } else { 0 }) + rest.0, rest.1)
    }
}

/// The nanoseconds a run of calls spans.
pub open spec fn run_time(calls: Seq<(int, int)>) -> int
    decreases calls.len(),
{
    if calls.len() == 0 {
        0
    } else {
        calls[0].1 + run_time(calls.drop_first())
    }
}

/// The rate limit: over any run of consumptions, a limited bucket lets
/// through no more than its starting balance plus what its rate earns over
/// the time the run spans; with the balance left, exactly that much at most,
/// and the balance never goes negative. Since the balance starts within the
/// burst allowance, a run never passes more than the allowance plus the
/// rate times the time.
pub proof fn lemma_rate_limit(allowed: u64, tokens: int, burst: int, calls: Seq<(int, int)>)
    requires
        0 < allowed < u64::MAX,
        0 <= tokens <= burst,
        forall|i: int| 0 <= i < calls.len() ==> calls[i].0 >= 0 && calls[i].1 >= 0,
    ensures
        run_outcome(allowed, tokens, burst, calls).0 + run_outcome(allowed, tokens, burst, calls).1
            <= tokens + allowed * run_time(calls),
        0 <= run_outcome(allowed, tokens, burst, calls).1 <= burst,
        0 <= run_outcome(allowed, tokens, burst, calls).0 <= burst + allowed * run_time(calls),
    decreases calls.len(),
{
    if calls.len() > 0 {
        let (bytes, e) = calls[0];
        let step = consume_outcome(allowed, tokens, burst, bytes, e);
        let rest_calls = calls.drop_first();
        assert forall|i: int| 0 <= i < rest_calls.len() implies rest_calls[i].0 >= 0 && rest_calls[i].1 >= 0 by {
            assert(rest_calls[i] == calls[i + 1]);
        }
        lemma_refill_bounds(tokens, allowed as int, e, burst);
        assert(refilled(tokens, allowed as int, e, burst) <= tokens + allowed * e);
        assert(cost(bytes) >= 0) by (nonlinear_arith)
            requires
                bytes >= 0,
        ;
        lemma_rate_limit(allowed, step.1, burst, rest_calls);
        assert(run_time(calls) == e + run_time(rest_calls));
        assert(allowed * run_time(calls) == allowed * e + allowed * run_time(rest_calls)) by (nonlinear_arith)
            requires
                run_time(calls) == e + run_time(rest_calls),
        ;
        assert(run_time(rest_calls) >= 0) by {
            lemma_run_time_nonnegative(rest_calls);
        }
        assert(allowed * run_time(rest_calls) >= 0) by (nonlinear_arith)
            requires
                run_time(rest_calls) >= 0,
                allowed > 0,
        ;
        assert(allowed * e >= 0) by (nonlinear_arith)
            requires
                e >= 0,
                allowed > 0,
        ;
    }
}

/// A run of calls with no negative gaps spans no negative time.
pub proof fn lemma_run_time_nonnegative(calls: Seq<(int, int)>)
    requires
        forall|i: int| 0 <= i < calls.len() ==> calls[i].1 >= 0,
    ensures
        run_time(calls) >= 0,
    decreases calls.len(),
{
    if calls.len() > 0 {
        let rest = calls.drop_first();
        assert forall|i: int| 0 <= i < rest.len() implies rest[i].1 >= 0 by {
            assert(rest[i] == calls[i + 1]);
        }
        lemma_run_time_nonnegative(rest);
    }
}

/// One `consume` of `bytes` bytes on a limited bucket, taking it from `b0`
/// to `b1` and answering `passed`: the time it credits, `e`, is what the
/// monotonic clock measures from `b0`'s last refill to `b1`'s (the reading
/// the call stored, whatever it answered), and the answer and the balance
/// are those of the rate limit for that time.
pub open spec fn consume_step(b0: TokenBucket, b1: TokenBucket, bytes: int, passed: bool, e: u128) -> bool {
    &&& nanos_measured(b0.last_refill, b1.last_refill, e)
    &&& b1.allowed_bytes_per_sec == b0.allowed_bytes_per_sec
    &&& b1.burst() == b0.burst()
    &&& (passed, b1.tokens()) == consume_outcome(b0.allowed_bytes_per_sec, b0.tokens(), b0.burst(), bytes, e as int)
}

/// The cost of the packets of a run that were let through.
pub open spec fn passed_cost(bytes: Seq<int>, passed: Seq<bool>) -> int
    decreases bytes.len(),
{
    if bytes.len() == 0 {
        0
    } else {
        (if passed[0] { cost(bytes[0]) } else { 0 }) + passed_cost(bytes.drop_first(), passed.drop_first())
    }
}

/// The sum of a run of measured times.
pub open spec fn total_nanos(gaps: Seq<u128>) -> int
    decreases gaps.len(),
{
    if gaps.len() == 0 {
        0
    } else {
        gaps[0] + total_nanos(gaps.drop_first())
    }
}

/// The rate limit over a run of `consume` calls on one limited bucket, the
/// bucket going through the states `buckets`: call `i` credits exactly the
/// time the clock measures between the readings stored by the call before
/// it and by itself, so the credited times are consecutive stretches of the
/// clock, none credited twice (a refused call also moves the bucket's
/// reading on). What the run lets through, plus the balance left, is at most
/// the starting balance plus the rate times the sum of those stretches.
pub proof fn lemma_consume_run_rate_limit(
    buckets: Seq<TokenBucket>,
    bytes: Seq<int>,
    passed: Seq<bool>,
    gaps: Seq<u128>,
)
    requires
        buckets.len() == bytes.len() + 1,
        passed.len() == bytes.len(),
        gaps.len() == bytes.len(),
        0 < buckets[0].allowed_bytes_per_sec < u64::MAX,
        0 <= buckets[0].tokens() <= buckets[0].burst(),
        forall|i: int| 0 <= i < bytes.len() ==> bytes[i] >= 0,
        forall|i: int|
            0 <= i < bytes.len() ==> #[trigger] consume_step(buckets[i], buckets[i + 1], bytes[i], passed[i], gaps[i]),
    ensures
        forall|i: int|
            0 <= i < gaps.len() ==> nanos_measured(buckets[i].last_refill, buckets[i + 1].last_refill, #[trigger] gaps[i]),
        passed_cost(bytes, passed) + buckets.last().tokens() <= buckets[0].tokens()
            + buckets[0].allowed_bytes_per_sec * total_nanos(gaps),
    decreases bytes.len(),
{
    assert forall|i: int|
        0 <= i < gaps.len() implies nanos_measured(buckets[i].last_refill, buckets[i + 1].last_refill, #[trigger] gaps[i]) by {
        assert(consume_step(buckets[i], buckets[i + 1], bytes[i], passed[i], gaps[i]));
    }
    if bytes.len() > 0 {
        let b0 = buckets[0];
        let b1 = buckets[1];
        assert(consume_step(b0, b1, bytes[0], passed[0], gaps[0]));
        let rest_b = buckets.drop_first();
        assert forall|i: int| 0 <= i < bytes.len() - 1 implies #[trigger] consume_step(
            rest_b[i],
            rest_b[i + 1],
            bytes.drop_first()[i],
            passed.drop_first()[i],
            gaps.drop_first()[i],
        ) by {
            assert(consume_step(buckets[i + 1], buckets[i + 2], bytes[i + 1], passed[i + 1], gaps[i + 1]));
        }
        assert forall|i: int| 0 <= i < bytes.len() - 1 implies bytes.drop_first()[i] >= 0 by {
            assert(bytes[i + 1] >= 0);
        }
        lemma_refill_bounds(b0.tokens(), b0.allowed_bytes_per_sec as int, gaps[0] as int, b0.burst());
        assert(cost(bytes[0]) >= 0) by (nonlinear_arith)
            requires
                bytes[0] >= 0,
        ;
        lemma_consume_run_rate_limit(rest_b, bytes.drop_first(), passed.drop_first(), gaps.drop_first());
        assert(rest_b.last() == buckets.last());
        let a = b0.allowed_bytes_per_sec as int;
        assert(a * total_nanos(gaps) == a * gaps[0] + a * total_nanos(gaps.drop_first())) by (nonlinear_arith)
            requires
                total_nanos(gaps) == gaps[0] + total_nanos(gaps.drop_first()),
        ;
    }
}

/// A token bucket for one address.
#[derive(Clone, Debug)]
pub struct TokenBucket {
    pub ip: Ipv4Addr,
    pub allowed_bytes_per_sec: u64,
    /// The balance, in balance units (billionths of a byte).
    pub current_tokens: u128,
    pub last_refill: Instant,
    /// The most the balance may hold, in balance units.
    pub max_burst: u128,
}

impl TokenBucket {
    /// The balance, in balance units (billionths of a byte).
    pub open spec fn tokens(&self) -> int {
        self.current_tokens as int
    }

    /// The most the balance may hold, in balance units.
    pub open spec fn burst(&self) -> int {
        self.max_burst as int
    }

    /// The balance never exceeds the burst allowance.
    pub open spec fn wf(&self) -> bool {
        self.current_tokens <= self.max_burst
    }

    /// Creates a bucket for `ip` at `bytes_per_sec`, holding one second's
    /// worth of tokens, with a burst allowance of two seconds' worth.
    pub fn new(ip: Ipv4Addr, bytes_per_sec: u64) -> (r: TokenBucket)
        ensures
            r.wf(),
            r.ip == ip,
            r.allowed_bytes_per_sec == bytes_per_sec,
            r.tokens() == cost(bytes_per_sec as int),
            r.burst() == 2 * cost(bytes_per_sec as int),
    {
        let units = (bytes_per_sec as u128) * UNITS_PER_BYTE;
        TokenBucket {
            ip,
            allowed_bytes_per_sec: bytes_per_sec,
            current_tokens: units,
            last_refill: instant_now(),
            max_burst: units * 2,
        }
    }

    /// Spends `bytes` tokens, as `consume` does, when `elapsed_nanos`
    /// nanoseconds have passed since the last refill. Returns whether the
    /// packet may pass.
    pub fn consume_after(&mut self, bytes: u64, elapsed_nanos: u128) -> (r: bool)
        requires
            old(self).wf(),
        ensures
            final(self).wf(),
            final(self).ip == old(self).ip,
            final(self).allowed_bytes_per_sec == old(self).allowed_bytes_per_sec,
            final(self).burst() == old(self).burst(),
            final(self).last_refill == old(self).last_refill,
            (r, final(self).tokens()) == consume_outcome(
                old(self).allowed_bytes_per_sec,
                old(self).tokens(),
                old(self).burst(),
                bytes as int,
                elapsed_nanos as int,
            ),
    {
        if self.allowed_bytes_per_sec == u64::MAX {
            return true;
        }
        if self.allowed_bytes_per_sec == 0 {
            return false;
        }
        let t = refill_balance(self.current_tokens, self.allowed_bytes_per_sec, elapsed_nanos, self.max_burst);
        self.current_tokens = t;
        let need = (bytes as u128) * UNITS_PER_BYTE;
        if t >= need {
            self.current_tokens = t - need;
            true
        } else {
            false
        }
    }

    /// Tries to spend `bytes` tokens after refilling for the time since the
    /// last refill. Returns `true` if the packet may pass, `false` if the rate
    /// limit is exceeded.
    pub fn consume(&mut self, bytes: u64) -> (r: bool)
        requires
            old(self).wf(),
        ensures
            final(self).wf(),
            final(self).ip == old(self).ip,
            final(self).allowed_bytes_per_sec == old(self).allowed_bytes_per_sec,
            final(self).burst() == old(self).burst(),
            exists|elapsed_nanos: nat|
                (r, final(self).tokens()) == #[trigger] consume_outcome(
                    old(self).allowed_bytes_per_sec,
                    old(self).tokens(),
                    old(self).burst(),
                    bytes as int,
                    elapsed_nanos as int,
                ),
            0 < old(self).allowed_bytes_per_sec < u64::MAX ==> exists|e: u128|
                #[trigger] nanos_measured(old(self).last_refill, final(self).last_refill, e)
                    && (r, final(self).tokens()) == consume_outcome(
                    old(self).allowed_bytes_per_sec,
                    old(self).tokens(),
                    old(self).burst(),
                    bytes as int,
                    e as int,
                ),
            old(self).allowed_bytes_per_sec == u64::MAX ==> r && *final(self) == *old(self),
            old(self).allowed_bytes_per_sec == 0 ==> !r && *final(self) == *old(self),
    {
        if self.allowed_bytes_per_sec == u64::MAX || self.allowed_bytes_per_sec == 0 {
            let r = self.consume_after(bytes, 0);
            assert((r, self.tokens()) == consume_outcome(
                old(self).allowed_bytes_per_sec,
                old(self).tokens(),
                old(self).burst(),
                bytes as int,
                0nat as int,
            ));
            return r;
        }
        let now = instant_now();
        let elapsed = measure_nanos(&now, &self.last_refill);
        self.last_refill = now;
        let r = self.consume_after(bytes, elapsed);
        assert(nanos_measured(old(self).last_refill, self.last_refill, elapsed));
        assert((r, self.tokens()) == consume_outcome(
            old(self).allowed_bytes_per_sec,
            old(self).tokens(),
            old(self).burst(),
            bytes as int,
            elapsed as nat as int,
        ));
        r
    }

    /// Sets a new rate, with a burst allowance of twice the rate, and refills
    /// the balance to one second's worth at the new rate.
    pub fn update_limit(&mut self, bytes_per_sec: u64)
        ensures
            final(self).wf(),
            final(self).ip == old(self).ip,
            final(self).allowed_bytes_per_sec == bytes_per_sec,
            final(self).tokens() == cost(bytes_per_sec as int),
            final(self).burst() == 2 * cost(bytes_per_sec as int),
    {
        let units = (bytes_per_sec as u128) * UNITS_PER_BYTE;
        self.allowed_bytes_per_sec = bytes_per_sec;
        self.max_burst = units * 2;
        self.current_tokens = units;
        self.last_refill = instant_now();
    }

    /// The balance, in balance units (billionths of a byte).
    pub fn current_tokens(&self) -> (r: u128)
        ensures
            r == self.tokens(),
    {
        self.current_tokens
    }
}

} // verus!
