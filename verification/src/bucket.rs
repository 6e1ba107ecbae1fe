//! Per-device token bucket of the scheduler, with a queue of deferred packets.
//!
//! Each device gets a bucket with a maximum capacity (the burst allowance,
//! twice the per-second rate) that refills at a constant rate, counted per
//! whole millisecond (a refill within the same millisecond adds nothing,
//! and no part of a millisecond is lost). Packets that
//! find too few tokens wait in the bucket's queue until the scheduler
//! releases them.
use crate::clock::{
    cost, instant_now, lemma_refill_bounds, measure_millis, millis_measured, refill_balance, refilled, UNITS_PER_BYTE,
};
use crossbeam_queue::SegQueue;
use std::time::Instant;
use vstd::prelude::*;

verus! {

#[verifier::external_type_specification]
#[verifier::external_body]
#[verifier::reject_recursive_types(T)]
pub struct ExSegQueue<T>(SegQueue<T>);

/// A packet waiting to be released or dropped.
#[derive(Debug, Clone)]
pub struct DeferredPacket {
    pub packet_id: u64,
    pub byte_len: u32,
    /// When the packet was deferred, in microseconds since the Unix epoch.
    pub queued_at: u64,
}

/// The packets a queue holds, front first.
pub uninterp spec fn queue_contents(q: SegQueue<DeferredPacket>) -> Seq<DeferredPacket>;

/// What draining a queue with `tokens` balance units releases: the packets
/// from the front that the balance covers, in order, one after another; the
/// queue left behind, where the first packet that did not fit has been moved
/// to the back; and the balance that is left.
pub open spec fn drain_outcome(queue: Seq<DeferredPacket>, tokens: int) -> (Seq<DeferredPacket>, Seq<DeferredPacket>, int)
    decreases queue.len(),
{
    if queue.len() == 0 {
        (Seq::empty(), queue, tokens)
    } else {
        let p = queue[0];
        if tokens >= cost(p.byte_len as int) {
            let rest = drain_outcome(queue.drop_first(), tokens - cost(p.byte_len as int));
            (seq![p] + rest.0, rest.1, rest.2)
        } else {
            (Seq::empty(), queue.drop_first().push(p), tokens)
        }
    }
}

/// The balance units that all the packets of `s` cost together.
pub open spec fn total_cost(s: Seq<DeferredPacket>) -> int
    decreases s.len(),
{
    if s.len() == 0 {
        0
    } else {
        cost(s[0].byte_len as int) + total_cost(s.drop_first())
    }
}

/// Draining releases packets from the front of the queue, in their order,
/// and spends exactly what they cost; no packet is lost or duplicated. If it
/// stops before the end, it is because the next packet costs more than the
/// balance left, and that packet goes to the back behind the others. A
/// balance that was not negative stays so.
pub proof fn lemma_drain_releases_prefix(queue: Seq<DeferredPacket>, tokens: int)
    ensures
        ({
            let (released, rest, left) = drain_outcome(queue, tokens);
            &&& released.len() <= queue.len()
            &&& released == queue.take(released.len() as int)
            &&& left == tokens - total_cost(released)
            &&& tokens >= 0 ==> 0 <= left <= tokens
            &&& released.len() + rest.len() == queue.len()
            &&& released.len() == queue.len() ==> rest == Seq::<DeferredPacket>::empty()
            &&& released.len() < queue.len() ==> {
                &&& rest == queue.skip(released.len() + 1int).push(queue[released.len() as int])
                &&& left < cost(queue[released.len() as int].byte_len as int)
            }
        }),
    decreases queue.len(),
{
    if queue.len() == 0 {
        assert(queue.take(0) =~= Seq::<DeferredPacket>::empty());
    } else {
        let p = queue[0];
        if tokens >= cost(p.byte_len as int) {
            let tail = queue.drop_first();
            lemma_drain_releases_prefix(tail, tokens - cost(p.byte_len as int));
            let (r0, rest0, left0) = drain_outcome(tail, tokens - cost(p.byte_len as int));
            let released = seq![p] + r0;
            assert(released.drop_first() =~= r0);
            assert(released == queue.take(released.len() as int)) by {
                assert(released =~= queue.take(released.len() as int));
            }
            if r0.len() < tail.len() {
                assert(tail.skip(r0.len() + 1int) =~= queue.skip(released.len() + 1int));
                assert(tail[r0.len() as int] == queue[released.len() as int]);
            }
        } else {
            assert(queue.take(0) =~= Seq::<DeferredPacket>::empty());
            assert(queue.drop_first() =~= queue.skip(1));
        }
    }
}

/// What one `try_consume` does to a balance of `tokens` units at `rate`
/// bytes per second with capacity `cap` units, when `elapsed_nanos`
/// nanoseconds have passed: whether the packet of `bytes` bytes goes
/// through, and the balance afterwards.
pub open spec fn spend_outcome(rate: int, tokens: int, cap: int, bytes: int, elapsed_nanos: int) -> (bool, int) {
    let t = refilled(tokens, rate, elapsed_nanos, cap);
    if t >= cost(bytes) {
        (true, t - cost(bytes))
    } else {
        (false, t)
    }
}

/// What a run of `try_consume` calls does, each given as its packet size in
/// bytes and the nanoseconds since the previous call: the balance units the
/// packets let through cost together, and the balance left.
pub open spec fn spend_run(rate: int, tokens: int, cap: int, calls: Seq<(int, int)>) -> (int, int)
    decreases calls.len(),
{
    if calls.len() == 0 {
        (0, tokens)
    } else {
        let step = spend_outcome(rate, tokens, cap, calls[0].0, calls[0].1);
        let rest = spend_run(rate, step.1, cap, calls.drop_first());
        ((if step.0 { cost(calls[0].0) } else { 0 }) + rest.0, rest.1)
    }
}

/// The nanoseconds a run of calls spans.
pub open spec fn spend_time(calls: Seq<(int, int)>) -> int
    decreases calls.len(),
{
    if calls.len() == 0 {
        0
    } else {
        calls[0].1 + spend_time(calls.drop_first())
    }
}

/// The rate limit of a device's bucket: over any run of `try_consume`
/// calls, the packets let through cost no more than the starting balance
/// plus what the rate earns over the time the run spans, less the balance
/// left; the balance stays between zero and the capacity.
pub proof fn lemma_device_rate_limit(rate: int, tokens: int, cap: int, calls: Seq<(int, int)>)
    requires
        rate >= 0,
        0 <= tokens <= cap,
        forall|i: int| 0 <= i < calls.len() ==> calls[i].0 >= 0 && calls[i].1 >= 0,
    ensures
        spend_run(rate, tokens, cap, calls).0 + spend_run(rate, tokens, cap, calls).1 <= tokens + rate * spend_time(calls),
        0 <= spend_run(rate, tokens, cap, calls).1 <= cap,
        spend_time(calls) >= 0,
    decreases calls.len(),
{
    if calls.len() > 0 {
        let (bytes, e) = calls[0];
        let step = spend_outcome(rate, tokens, cap, bytes, e);
        let rest_calls = calls.drop_first();
        assert forall|i: int| 0 <= i < rest_calls.len() implies rest_calls[i].0 >= 0 && rest_calls[i].1 >= 0 by {
            assert(rest_calls[i] == calls[i + 1]);
        }
        lemma_refill_bounds(tokens, rate, e, cap);
        assert(refilled(tokens, rate, e, cap) <= tokens + rate * e);
        assert(cost(bytes) >= 0) by (nonlinear_arith)
            requires
                bytes >= 0,
        ;
        lemma_device_rate_limit(rate, step.1, cap, rest_calls);
        assert(rate * spend_time(calls) == rate * e + rate * spend_time(rest_calls)) by (nonlinear_arith)
            requires
                spend_time(calls) == e + spend_time(rest_calls),
        ;
    }
}

/// `x * 2`, or `u64::MAX` where that does not fit.
pub open spec fn saturating_double(x: u64) -> u64 {
    if x as int * 2 > u64::MAX as int {
        u64::MAX
    } else {
        (x * 2) as u64
    }
}

/// `SegQueue::new`: an empty queue.
#[verifier::external_body]
fn queue_new() -> (q: SegQueue<DeferredPacket>)
    ensures
        queue_contents(q) == Seq::<DeferredPacket>::empty(),
{
    SegQueue::new()
}

/// `SegQueue::push_mut`: appends `p` at the back.
#[verifier::external_body]
fn queue_push(q: &mut SegQueue<DeferredPacket>, p: DeferredPacket)
    ensures
        queue_contents(*final(q)) == queue_contents(*old(q)).push(p),
{
    q.push_mut(p)
}

/// `SegQueue::pop_mut`: takes the packet at the front, if any.
#[verifier::external_body]
fn queue_pop(q: &mut SegQueue<DeferredPacket>) -> (r: Option<DeferredPacket>)
    ensures
        queue_contents(*old(q)).len() == 0 ==> r is None && queue_contents(*final(q)) == queue_contents(*old(q)),
        queue_contents(*old(q)).len() > 0 ==> r == Some(queue_contents(*old(q))[0])
            && queue_contents(*final(q)) == queue_contents(*old(q)).drop_first(),
{
    q.pop_mut()
}

/// `SegQueue::len`: the number of queued packets.
#[verifier::external_body]
fn queue_len(q: &SegQueue<DeferredPacket>) -> (r: usize)
    ensures
        r == queue_contents(*q).len(),
{
    q.len()
}

/// The FIFO queue of a bucket's deferred packets.
#[derive(Debug)]
pub struct PacketQueue {
    inner: SegQueue<DeferredPacket>,
}

impl View for PacketQueue {
    type V = Seq<DeferredPacket>;

    closed spec fn view(&self) -> Seq<DeferredPacket> {
        queue_contents(self.inner)
    }
}

impl PacketQueue {
    /// An empty queue.
    pub fn new() -> (q: PacketQueue)
        ensures
            q@ == Seq::<DeferredPacket>::empty(),
    {
        PacketQueue { inner: queue_new() }
    }

    /// Appends `p` at the back.
    pub fn push(&mut self, p: DeferredPacket)
        ensures
            final(self)@ == old(self)@.push(p),
    {
        queue_push(&mut self.inner, p)
    }

    /// Takes the packet at the front, if any.
    pub fn pop(&mut self) -> (r: Option<DeferredPacket>)
        ensures
            old(self)@.len() == 0 ==> r is None && final(self)@ == old(self)@,
            old(self)@.len() > 0 ==> r == Some(old(self)@[0]) && final(self)@ == old(self)@.drop_first(),
    {
        queue_pop(&mut self.inner)
    }

    /// The number of queued packets.
    pub fn len(&self) -> (r: usize)
        ensures
            r == self@.len(),
    {
        queue_len(&self.inner)
    }
}

/// Token bucket for one device.
#[derive(Debug)]
pub struct DeviceBucket {
    /// The configured bandwidth ceiling, in bytes per second.
    pub allowed_bytes_per_sec: u64,
    /// The bucket's capacity in bytes (twice the per-second allowance).
    pub max_burst_bytes: u64,
    /// The tokens available right now, in balance units (billionths of a byte).
    pub current_tokens: u128,
    /// When tokens were last added.
    pub last_refill: Instant,
    /// Packets waiting for tokens.
    pub queue: PacketQueue,
}

impl DeviceBucket {
    /// The packets waiting in the bucket, front first.
    pub open spec fn queued(&self) -> Seq<DeferredPacket> {
        self.queue@
    }

    /// The capacity of the bucket in balance units.
    pub open spec fn capacity(&self) -> int {
        cost(self.max_burst_bytes as int)
    }

    /// The balance never exceeds the capacity.
    pub open spec fn wf(&self) -> bool {
        self.current_tokens as int <= self.capacity()
    }

    /// Creates a full bucket at `bytes_per_sec`, with a capacity of twice
    /// that (saturating at `u64::MAX`), and an empty queue.
    pub fn new(bytes_per_sec: u64) -> (r: DeviceBucket)
        ensures
            r.allowed_bytes_per_sec == bytes_per_sec,
            r.max_burst_bytes == saturating_double(bytes_per_sec),
            r.current_tokens == r.capacity(),
            r.queued() == Seq::<DeferredPacket>::empty(),
            r.wf(),
    {
        let max_burst = if bytes_per_sec > u64::MAX / 2 {
            u64::MAX
        } else {
            bytes_per_sec * 2
        };
        DeviceBucket {
            allowed_bytes_per_sec: bytes_per_sec,
            max_burst_bytes: max_burst,
            current_tokens: (max_burst as u128) * UNITS_PER_BYTE,
            last_refill: instant_now(),
            queue: PacketQueue::new(),
        }
    }

    /// Adds the tokens that `elapsed_nanos` nanoseconds at the current rate
    /// earn, up to the capacity.
    pub fn refill_after(&mut self, elapsed_nanos: u128)
        ensures
            final(self).current_tokens == refilled(
                old(self).current_tokens as int,
                old(self).allowed_bytes_per_sec as int,
                elapsed_nanos as int,
                old(self).capacity(),
            ),
            final(self).wf(),
            final(self).allowed_bytes_per_sec == old(self).allowed_bytes_per_sec,
            final(self).max_burst_bytes == old(self).max_burst_bytes,
            final(self).last_refill == old(self).last_refill,
            final(self).queued() == old(self).queued(),
    {
        let cap = (self.max_burst_bytes as u128) * UNITS_PER_BYTE;
        self.current_tokens = refill_balance(self.current_tokens, self.allowed_bytes_per_sec, elapsed_nanos, cap);
    }

    /// Adds the tokens earned since the last refill, up to the capacity.
    /// Tokens are earned per whole millisecond: the part of a millisecond
    /// not yet counted is carried over to the next refill, so a refill within
    /// the same millisecond adds nothing.
    pub fn refill(&mut self)
        ensures
            exists|now: Instant, ms: u64|
                #[trigger] millis_measured(old(self).last_refill, now, ms, final(self).last_refill)
                    && final(self).current_tokens == refilled(
                    old(self).current_tokens as int,
                    old(self).allowed_bytes_per_sec as int,
                    ms * 1_000_000,
                    old(self).capacity(),
                ),
            exists|elapsed_nanos: nat|
                elapsed_nanos % 1_000_000 == 0 && final(self).current_tokens == #[trigger] refilled(
                    old(self).current_tokens as int,
                    old(self).allowed_bytes_per_sec as int,
                    elapsed_nanos as int,
                    old(self).capacity(),
                ),
            final(self).wf(),
            final(self).allowed_bytes_per_sec == old(self).allowed_bytes_per_sec,
            final(self).max_burst_bytes == old(self).max_burst_bytes,
            final(self).queued() == old(self).queued(),
    {
        let now = instant_now();
        let (ms, next) = measure_millis(&now, &self.last_refill);
        let elapsed: u128 = (ms as u128) * 1_000_000;
        self.refill_after(elapsed);
        self.last_refill = next;
        assert(millis_measured(old(self).last_refill, now, ms, self.last_refill));
        assert(elapsed as nat % 1_000_000 == 0);
        assert(self.current_tokens == refilled(
            old(self).current_tokens as int,
            old(self).allowed_bytes_per_sec as int,
            elapsed as nat as int,
            old(self).capacity(),
        ));
    }

    /// Spends `bytes` tokens if the balance covers them; the balance is left
    /// as it is otherwise. Returns whether the packet can go through.
    pub fn spend(&mut self, bytes: u32) -> (r: bool)
        ensures
            r == (old(self).current_tokens >= cost(bytes as int)),
            r ==> final(self).current_tokens == old(self).current_tokens - cost(bytes as int),
            !r ==> final(self).current_tokens == old(self).current_tokens,
            old(self).wf() ==> final(self).wf(),
            final(self).allowed_bytes_per_sec == old(self).allowed_bytes_per_sec,
            final(self).max_burst_bytes == old(self).max_burst_bytes,
            final(self).last_refill == old(self).last_refill,
            final(self).queued() == old(self).queued(),
    {
        let need = (bytes as u128) * UNITS_PER_BYTE;
        if self.current_tokens >= need {
            self.current_tokens = self.current_tokens - need;
            true
        } else {
            false
        }
    }

    /// Refills, then spends `bytes` tokens if the balance covers them.
    /// Returns `true` if the packet can go through, `false` if it must be
    /// queued.
    pub fn try_consume(&mut self, bytes: u32) -> (r: bool)
        ensures
            exists|now: Instant, ms: u64|
                #[trigger] millis_measured(old(self).last_refill, now, ms, final(self).last_refill)
                    && (r, final(self).current_tokens as int) == spend_outcome(
                    old(self).allowed_bytes_per_sec as int,
                    old(self).current_tokens as int,
                    old(self).capacity(),
                    bytes as int,
                    ms * 1_000_000,
                ),
            exists|elapsed_nanos: nat| {
                let t = #[trigger] refilled(
                    old(self).current_tokens as int,
                    old(self).allowed_bytes_per_sec as int,
                    elapsed_nanos as int,
                    old(self).capacity(),
                );
                &&& r == (t >= cost(bytes as int))
                &&& final(self).current_tokens == (if r { t - cost(bytes as int) } else { t })
            },
            exists|elapsed_nanos: nat|
                elapsed_nanos % 1_000_000 == 0 && (r, final(self).current_tokens as int) == #[trigger] spend_outcome(
                    old(self).allowed_bytes_per_sec as int,
                    old(self).current_tokens as int,
                    old(self).capacity(),
                    bytes as int,
                    elapsed_nanos as int,
                ),
            final(self).wf(),
            final(self).allowed_bytes_per_sec == old(self).allowed_bytes_per_sec,
            final(self).max_burst_bytes == old(self).max_burst_bytes,
            final(self).queued() == old(self).queued(),
    {
        let ghost before = *self;
        self.refill();
        let ghost mid = self.current_tokens;
        let ghost mid_bucket = *self;
        let r = self.spend(bytes);
        proof {
            let (now, ms) = choose|now: Instant, ms: u64|
                #[trigger] millis_measured(before.last_refill, now, ms, mid_bucket.last_refill)
                    && mid == refilled(
                    before.current_tokens as int,
                    before.allowed_bytes_per_sec as int,
                    ms * 1_000_000,
                    before.capacity(),
                );
            assert(millis_measured(before.last_refill, now, ms, self.last_refill));
            let e = choose|e: nat| e % 1_000_000 == 0 && mid == #[trigger] refilled(
                before.current_tokens as int,
                before.allowed_bytes_per_sec as int,
                e as int,
                before.capacity(),
            );
            assert(refilled(
                before.current_tokens as int,
                before.allowed_bytes_per_sec as int,
                e as int,
                before.capacity(),
            ) == mid);
            assert((r, self.current_tokens as int) == spend_outcome(
                before.allowed_bytes_per_sec as int,
                before.current_tokens as int,
                before.capacity(),
                bytes as int,
                e as int,
            ));
        }
        r
    }

    /// Puts a deferred packet at the back of the queue.
    pub fn enqueue(&mut self, packet: DeferredPacket)
        ensures
            final(self).queued() == old(self).queued().push(packet),
            final(self).current_tokens == old(self).current_tokens,
            final(self).allowed_bytes_per_sec == old(self).allowed_bytes_per_sec,
            final(self).max_burst_bytes == old(self).max_burst_bytes,
            final(self).last_refill == old(self).last_refill,
    {
        self.queue.push(packet);
    }

    /// The number of waiting packets.
    pub fn queue_depth(&self) -> (r: usize)
        ensures
            r == self.queued().len(),
    {
        self.queue.len()
    }

    /// Releases, without refilling, the packets at the front of the queue
    /// that the balance covers, spending their tokens; the first packet that
    /// does not fit goes to the back of the queue and draining stops.
    pub fn drain_covered(&mut self) -> (ready: Vec<DeferredPacket>)
        ensures
            (ready@, final(self).queued(), final(self).current_tokens as int) == drain_outcome(
                old(self).queued(),
                old(self).current_tokens as int,
            ),
            old(self).wf() ==> final(self).wf(),
            final(self).allowed_bytes_per_sec == old(self).allowed_bytes_per_sec,
            final(self).max_burst_bytes == old(self).max_burst_bytes,
            final(self).last_refill == old(self).last_refill,
    {
        let mut ready: Vec<DeferredPacket> = Vec::new();
        let ghost q0 = old(self).queued();
        let ghost t0 = old(self).current_tokens as int;
        loop
            invariant_except_break
                drain_outcome(q0, t0) == (
                    ready@ + drain_outcome(self.queued(), self.current_tokens as int).0,
                    drain_outcome(self.queued(), self.current_tokens as int).1,
                    drain_outcome(self.queued(), self.current_tokens as int).2,
                ),
                self.allowed_bytes_per_sec == old(self).allowed_bytes_per_sec,
                self.max_burst_bytes == old(self).max_burst_bytes,
                self.last_refill == old(self).last_refill,
            ensures
                (ready@, self.queued(), self.current_tokens as int) == drain_outcome(q0, t0),
                self.allowed_bytes_per_sec == old(self).allowed_bytes_per_sec,
                self.max_burst_bytes == old(self).max_burst_bytes,
                self.last_refill == old(self).last_refill,
            decreases self.queued().len(),
        {
            let ghost q = self.queued();
            let ghost t = self.current_tokens as int;
            match self.queue.pop() {
                None => {
                    assert(ready@ + Seq::<DeferredPacket>::empty() =~= ready@);
                    break;
                },
                Some(packet) => {
                    let need = (packet.byte_len as u128) * UNITS_PER_BYTE;
                    if self.current_tokens >= need {
                        let ghost prev = ready@;
                        self.current_tokens = self.current_tokens - need;
                        ready.push(packet);
                        proof {
                            let rest = drain_outcome(self.queued(), self.current_tokens as int);
                            assert(drain_outcome(q, t).0 == seq![packet] + rest.0);
                            assert(ready@ + rest.0 =~= prev + (seq![packet] + rest.0));
                        }
                    } else {
                        self.queue.push(packet);
                        assert(ready@ + Seq::<DeferredPacket>::empty() =~= ready@);
                        break;
                    }
                },
            }
        }
        proof {
            lemma_drain_releases_prefix(q0, t0);
        }
        ready
    }

    /// Refills, then releases the packets at the front of the queue that the
    /// balance covers (see `drain_covered`).
    pub fn drain_ready(&mut self) -> (ready: Vec<DeferredPacket>)
        ensures
            exists|now: Instant, ms: u64|
                #![trigger millis_measured(old(self).last_refill, now, ms, final(self).last_refill)]
                drained_after(*old(self), *final(self), ready@, now, ms),
            exists|now: Instant, ms: u64|
                #[trigger] millis_measured(old(self).last_refill, now, ms, final(self).last_refill)
                    && (ready@, final(self).queued(), final(self).current_tokens as int) == drain_outcome(
                    old(self).queued(),
                    refilled(
                        old(self).current_tokens as int,
                        old(self).allowed_bytes_per_sec as int,
                        ms * 1_000_000,
                        old(self).capacity(),
                    ),
                ),
            exists|elapsed_nanos: nat|
                (ready@, final(self).queued(), final(self).current_tokens as int) == drain_outcome(
                    old(self).queued(),
                    #[trigger] refilled(
                        old(self).current_tokens as int,
                        old(self).allowed_bytes_per_sec as int,
                        elapsed_nanos as int,
                        old(self).capacity(),
                    ),
                ),
            final(self).wf(),
            final(self).allowed_bytes_per_sec == old(self).allowed_bytes_per_sec,
            final(self).max_burst_bytes == old(self).max_burst_bytes,
    {
        let ghost before = *self;
        self.refill();
        let ghost mid = self.current_tokens;
        let ghost mid_bucket = *self;
        let ready = self.drain_covered();
        proof {
            let (now, ms) = choose|now: Instant, ms: u64|
                #[trigger] millis_measured(before.last_refill, now, ms, mid_bucket.last_refill)
                    && mid == refilled(
                    before.current_tokens as int,
                    before.allowed_bytes_per_sec as int,
                    ms * 1_000_000,
                    before.capacity(),
                );
            assert(millis_measured(before.last_refill, now, ms, self.last_refill));
            let e = choose|e: nat| e % 1_000_000 == 0 && mid == #[trigger] refilled(
                before.current_tokens as int,
                before.allowed_bytes_per_sec as int,
                e as int,
                before.capacity(),
            );
            assert(refilled(
                before.current_tokens as int,
                before.allowed_bytes_per_sec as int,
                e as int,
                before.capacity(),
            ) == mid);
        }
        ready
    }
}

/// What `drain_ready` does, from `b0` to `b1` releasing `ready`, when the
/// clock measured `ms` whole milliseconds from `b0`'s last refill to the
/// reading `now` and the last refill moved on to the point they reach: the
/// balance is refilled for those milliseconds, then the covered packets at
/// the front of the queue are released.
pub open spec fn drained_after(b0: DeviceBucket, b1: DeviceBucket, ready: Seq<DeferredPacket>, now: Instant, ms: u64) -> bool {
    &&& millis_measured(b0.last_refill, now, ms, b1.last_refill)
    &&& (ready, b1.queued(), b1.current_tokens as int) == drain_outcome(
        b0.queued(),
        refilled(b0.current_tokens as int, b0.allowed_bytes_per_sec as int, ms * 1_000_000, b0.capacity()),
    )
}

/// Packets deferred by an emptied bucket are released once enough time has
/// passed: if the balance plus what the rate earns over the milliseconds
/// measured since the last refill (within the capacity) covers the packet at
/// the front, `drain_ready` releases it first; it releases the packets in
/// queue order, spends exactly what they cost, and keeps the rest queued.
pub proof fn lemma_waiting_releases_front(b0: DeviceBucket, b1: DeviceBucket, ready: Seq<DeferredPacket>, now: Instant, ms: u64)
    requires
        drained_after(b0, b1, ready, now, ms),
        b0.queued().len() > 0,
        cost(b0.queued()[0].byte_len as int) <= b0.current_tokens + b0.allowed_bytes_per_sec * (ms * 1_000_000),
        cost(b0.queued()[0].byte_len as int) <= b0.capacity(),
    ensures
        ready.len() >= 1,
        ready[0] == b0.queued()[0],
        ready == b0.queued().take(ready.len() as int),
        ready.len() + b1.queued().len() == b0.queued().len(),
{
    let t = refilled(b0.current_tokens as int, b0.allowed_bytes_per_sec as int, ms * 1_000_000, b0.capacity());
    lemma_drain_releases_prefix(b0.queued(), t);
    let q = b0.queued();
    assert(t >= cost(q[0].byte_len as int));
    let rest = drain_outcome(q.drop_first(), t - cost(q[0].byte_len as int));
    assert(drain_outcome(q, t).0 == seq![q[0]] + rest.0);
}

} // verus!
