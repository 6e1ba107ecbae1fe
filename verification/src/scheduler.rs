//! The scheduler's tick: refill every bucket and release the deferred
//! packets that can now go.
use crate::bucket::{drain_outcome, lemma_drain_releases_prefix, DeferredPacket, DeviceBucket};
use crate::clock::{cost, millis_measured, refilled};
use crate::device_registry::DeviceRegistry;
use crate::net::{ip_from_bits, lemma_bits_roundtrip, Ipv4Addr};
use crate::proto::PacketDecision;
use std::time::Instant;
use vstd::prelude::*;

verus! {

/// How often the scheduler wakes, in milliseconds.
pub const SCHEDULER_INTERVAL_MILLIS: u64 = 1;

/// The packets released for one device in one tick.
#[derive(Debug)]
pub struct DrainReport {
    pub ip: Ipv4Addr,
    pub packets: Vec<DeferredPacket>,
    /// The bucket's balance after the release, in balance units.
    pub remaining_tokens: u128,
}

/// What a tick does to bucket `b`: a refill after `e1` nanoseconds, then a
/// drain after a further refill of `e2` nanoseconds. Gives the released
/// packets, the queue left, and the balance left.
pub open spec fn tick_outcome(b: DeviceBucket, e1: int, e2: int) -> (Seq<DeferredPacket>, Seq<DeferredPacket>, int) {
    let rate = b.allowed_bytes_per_sec as int;
    drain_outcome(
        b.queued(),
        refilled(refilled(b.current_tokens as int, rate, e1, b.capacity()), rate, e2, b.capacity()),
    )
}

/// What a tick released and left, when its two refills credited the whole
/// milliseconds `m1` and `m2`, is the bucket `b` and is reported in
/// `reports` (or nothing was released).
pub open spec fn tick_matches(b0: DeviceBucket, b: DeviceBucket, reports: Seq<DrainReport>, k: u32, m1: int, m2: int) -> bool {
    let o = tick_outcome(b0, m1 * 1_000_000, m2 * 1_000_000);
    &&& o.1 == b.queued()
    &&& o.2 == b.current_tokens as int
    &&& (o.0.len() == 0 || exists|j: int|
        0 <= j < reports.len() && (#[trigger] reports[j]).ip.spec_bits() == k && reports[j].packets@ == o.0)
}

/// Bucket `b` is what a tick made of `b0`: a refill crediting the whole
/// milliseconds the clock measured from `b0`'s last refill to a reading,
/// moving the last refill on by them, then a drain after a second such
/// refill; the packets it released are reported in `reports` (or there were
/// none).
pub open spec fn ticked(b0: DeviceBucket, b: DeviceBucket, reports: Seq<DrainReport>, k: u32) -> bool {
    &&& b.allowed_bytes_per_sec == b0.allowed_bytes_per_sec
    &&& b.max_burst_bytes == b0.max_burst_bytes
    &&& exists|n1: Instant, m1: u64, mid: Instant, n2: Instant, m2: u64|
        #![trigger millis_measured(b0.last_refill, n1, m1, mid), millis_measured(mid, n2, m2, b.last_refill)]
        {
        &&& millis_measured(b0.last_refill, n1, m1, mid)
        &&& millis_measured(mid, n2, m2, b.last_refill)
        &&& tick_matches(b0, b, reports, k, m1 as int, m2 as int)
    }
}

/// A tick's record stays true as more reports are added.
proof fn lemma_ticked_more_reports(b0: DeviceBucket, b: DeviceBucket, reports: Seq<DrainReport>, more: Seq<DrainReport>, k: u32)
    requires
        ticked(b0, b, reports, k),
        reports.len() <= more.len(),
        forall|j: int| 0 <= j < reports.len() ==> more[j] == reports[j],
    ensures
        ticked(b0, b, more, k),
{
    let (n1, m1, mid, n2, m2) = choose|n1: Instant, m1: u64, mid: Instant, n2: Instant, m2: u64|
        #![trigger millis_measured(b0.last_refill, n1, m1, mid), millis_measured(mid, n2, m2, b.last_refill)]
        {
        &&& millis_measured(b0.last_refill, n1, m1, mid)
        &&& millis_measured(mid, n2, m2, b.last_refill)
        &&& tick_matches(b0, b, reports, k, m1 as int, m2 as int)
    };
    let o = tick_outcome(b0, m1 * 1_000_000, m2 * 1_000_000);
    if o.0.len() != 0 {
        let j = choose|j: int| 0 <= j < reports.len() && (#[trigger] reports[j]).ip.spec_bits() == k && reports[j].packets@ == o.0;
        assert(more[j] == reports[j]);
    }
    assert(tick_matches(b0, b, more, k, m1 as int, m2 as int));
}

/// A tick releases the deferred packets of an emptied bucket once enough
/// time has passed: if the balance plus what the rate earns over the whole
/// milliseconds the clock measured across the tick's two refills (within
/// the capacity) covers the packet at the front of the queue, the tick
/// reports that device with that packet released first, followed by the
/// next packets in queue order.
pub proof fn lemma_tick_releases_front(
    b0: DeviceBucket,
    b: DeviceBucket,
    reports: Seq<DrainReport>,
    k: u32,
    n1: Instant,
    m1: u64,
    mid: Instant,
    n2: Instant,
    m2: u64,
)
    requires
        millis_measured(b0.last_refill, n1, m1, mid),
        millis_measured(mid, n2, m2, b.last_refill),
        tick_matches(b0, b, reports, k, m1 as int, m2 as int),
        b0.wf(),
        b0.queued().len() > 0,
        cost(b0.queued()[0].byte_len as int) <= b0.current_tokens + b0.allowed_bytes_per_sec * ((m1 + m2) * 1_000_000),
        cost(b0.queued()[0].byte_len as int) <= b0.capacity(),
    ensures
        exists|j: int|
            0 <= j < reports.len() && (#[trigger] reports[j]).ip.spec_bits() == k && reports[j].packets@.len() >= 1
                && reports[j].packets@ == b0.queued().take(reports[j].packets@.len() as int),
{
    let rate = b0.allowed_bytes_per_sec as int;
    let cap = b0.capacity();
    let e1 = m1 * 1_000_000;
    let e2 = m2 * 1_000_000;
    assert(rate * ((m1 + m2) * 1_000_000) == rate * e1 + rate * e2) by (nonlinear_arith)
        requires
            e1 == m1 * 1_000_000,
            e2 == m2 * 1_000_000,
    ;
    assert(rate * e1 >= 0 && rate * e2 >= 0) by (nonlinear_arith)
        requires
            rate >= 0,
            e1 >= 0,
            e2 >= 0,
    ;
    let x = refilled(b0.current_tokens as int, rate, e1, cap);
    let t = refilled(x, rate, e2, cap);
    let q = b0.queued();
    assert(t >= cost(q[0].byte_len as int));
    lemma_drain_releases_prefix(q, t);
    let rest = drain_outcome(q.drop_first(), t - cost(q[0].byte_len as int));
    assert(drain_outcome(q, t).0 == seq![q[0]] + rest.0);
    let o = tick_outcome(b0, e1, e2);
    assert(o.0.len() >= 1);
    let j = choose|j: int| 0 <= j < reports.len() && (#[trigger] reports[j]).ip.spec_bits() == k && reports[j].packets@ == o.0;
    assert(reports[j].packets@.len() >= 1);
}

/// One scheduler tick: for each registered device, refill its bucket and
/// release the packets at the front of its queue that the balance covers.
/// Returns a report for each device that released packets.
pub fn scheduler_tick(registry: &mut DeviceRegistry) -> (reports: Vec<DrainReport>)
    ensures
        final(registry)@.dom() == old(registry)@.dom(),
        forall|k: u32| #[trigger] old(registry)@.contains_key(k) ==> ticked(old(registry)@[k], final(registry)@[k], reports@, k),
        forall|j: int| 0 <= j < reports@.len() ==> ({
            let rep = #[trigger] reports@[j];
            &&& old(registry)@.contains_key(rep.ip.spec_bits())
            &&& rep.packets@.len() > 0
            &&& rep.remaining_tokens == final(registry)@[rep.ip.spec_bits()].current_tokens
        }),
{
    let ips = registry.list_devices();
    let ghost r0 = registry@;
    let mut reports: Vec<DrainReport> = Vec::new();
    let mut i: usize = 0;
    while i < ips.len()
        invariant
            i <= ips@.len(),
            ips@.no_duplicates(),
            forall|ip: Ipv4Addr| ips@.contains(ip) <==> r0.contains_key(ip.spec_bits()),
            registry@.dom() == r0.dom(),
            forall|k: u32| #[trigger] r0.contains_key(k) ==> (if exists|x: int| 0 <= x < i && ips@[x].spec_bits() == k {
                ticked(r0[k], registry@[k], reports@, k)
            } else {
                registry@[k] == r0[k]
            }),
            forall|j: int| 0 <= j < reports@.len() ==> ({
                let rep = #[trigger] reports@[j];
                &&& r0.contains_key(rep.ip.spec_bits())
                &&& rep.packets@.len() > 0
                &&& rep.remaining_tokens == registry@[rep.ip.spec_bits()].current_tokens
                &&& exists|x: int| 0 <= x < i && ips@[x] == rep.ip
            }),
        decreases ips@.len() - i,
    {
        let ip = ips[i];
        assert(ips@.contains(ip));
        proof {
            if exists|x: int| 0 <= x < i && ips@[x].spec_bits() == ip.spec_bits() {
                let x = choose|x: int| 0 <= x < i && ips@[x].spec_bits() == ip.spec_bits();
                lemma_bits_roundtrip(0);
                assert(ip_from_bits(ips@[x].spec_bits()) == ips@[x]);
                assert(ips@[x] == ips@[i as int]);
            }
            assert(registry@[ip.spec_bits()] == r0[ip.spec_bits()]);
        }
        let ghost before = registry@;
        let ghost reports0 = reports@;
        match registry.get_bucket_mut(ip) {
            Some(bucket) => {
                let ghost b0 = *bucket;
                let ghost mut ms1: u64 = 0;
                let ghost mut ms2: u64 = 0;
                let ghost mut r1: Instant = b0.last_refill;
                let ghost mut r2: Instant = b0.last_refill;
                let ghost mut mid: Instant = b0.last_refill;
                bucket.refill();
                let ghost b1 = *bucket;
                let ready = bucket.drain_ready();
                let remaining = bucket.current_tokens;
                proof {
                    let (n1, m1) = choose|n1: Instant, m1: u64|
                        #[trigger] millis_measured(b0.last_refill, n1, m1, b1.last_refill)
                            && b1.current_tokens == refilled(
                            b0.current_tokens as int,
                            b0.allowed_bytes_per_sec as int,
                            m1 * 1_000_000,
                            b0.capacity(),
                        );
                    let (n2, m2) = choose|n2: Instant, m2: u64|
                        #[trigger] millis_measured(b1.last_refill, n2, m2, bucket.last_refill)
                            && (ready@, bucket.queued(), bucket.current_tokens as int) == drain_outcome(
                            b1.queued(),
                            refilled(
                                b1.current_tokens as int,
                                b1.allowed_bytes_per_sec as int,
                                m2 * 1_000_000,
                                b1.capacity(),
                            ),
                        );
                    assert(tick_outcome(b0, m1 * 1_000_000, m2 * 1_000_000) == (ready@, bucket.queued(), bucket.current_tokens as int));
                    ms1 = m1;
                    ms2 = m2;
                    r1 = n1;
                    r2 = n2;
                    mid = b1.last_refill;
                }
                let ghost released = ready@;
                if ready.len() > 0 {
                    reports.push(DrainReport { ip, packets: ready, remaining_tokens: remaining });
                    assert(reports@[reports@.len() - 1].packets@ == released);
                }
                proof {
                    assert(tick_matches(b0, *bucket, reports@, ip.spec_bits(), ms1 as int, ms2 as int));
                    assert(millis_measured(b0.last_refill, r1, ms1, mid));
                    assert(millis_measured(mid, r2, ms2, bucket.last_refill));
                    assert(ticked(b0, *bucket, reports@, ip.spec_bits()));
                }
            },
            None => {},
        }
        proof {
            assert forall|k: u32| #[trigger] r0.contains_key(k) implies (if exists|x: int| 0 <= x < i + 1 && ips@[x].spec_bits() == k {
                ticked(r0[k], registry@[k], reports@, k)
            } else {
                registry@[k] == r0[k]
            }) by {
                if k == ip.spec_bits() {
                    assert(ips@[i as int].spec_bits() == k);
                } else {
                    assert(registry@[k] == before[k]);
                    if exists|x: int| 0 <= x < i + 1 && ips@[x].spec_bits() == k {
                        let x = choose|x: int| 0 <= x < i + 1 && ips@[x].spec_bits() == k;
                        assert(x != i);
                        lemma_ticked_more_reports(r0[k], registry@[k], reports0, reports@, k);
                    }
                }
            }
            assert forall|j: int| 0 <= j < reports@.len() implies ({
                let rep = #[trigger] reports@[j];
                &&& r0.contains_key(rep.ip.spec_bits())
                &&& rep.packets@.len() > 0
                &&& rep.remaining_tokens == registry@[rep.ip.spec_bits()].current_tokens
                &&& exists|x: int| 0 <= x < i + 1 && ips@[x] == rep.ip
            }) by {
                if j < reports0.len() {
                    assert(reports@[j] == reports0[j]);
                    let x = choose|x: int| 0 <= x < i && ips@[x] == reports0[j].ip;
                    assert(ips@[x] == reports@[j].ip);
                    lemma_bits_roundtrip(0);
                    if reports@[j].ip.spec_bits() == ip.spec_bits() {
                        assert(ip_from_bits(ips@[x].spec_bits()) == ips@[x]);
                        assert(ip_from_bits(ip.spec_bits()) == ip);
                    }
                } else {
                    assert(ips@[i as int] == reports@[j].ip);
                }
            }
        }
        i = i + 1;
    }
    proof {
        lemma_bits_roundtrip(0);
        assert forall|k: u32| #[trigger] r0.contains_key(k) implies exists|x: int| 0 <= x < i && ips@[x].spec_bits() == k by {
            lemma_bits_roundtrip(k);
            assert(ips@.contains(ip_from_bits(k)));
            let x = choose|x: int| 0 <= x < ips@.len() && ips@[x] == ip_from_bits(k);
            assert(ips@[x].spec_bits() == k);
        }
    }
    reports
}

/// The decisions sent back to the callout for the packets a device
/// released: a `Permit` for each, in the order they were released.
pub fn drained_decisions(report: &DrainReport) -> (r: Vec<PacketDecision>)
    ensures
        r@.len() == report.packets@.len(),
        forall|i: int| 0 <= i < r@.len() ==> r@[i] == (PacketDecision::Permit { packet_id: report.packets@[i].packet_id }),
{
    let mut r: Vec<PacketDecision> = Vec::new();
    let mut i: usize = 0;
    while i < report.packets.len()
        invariant
            i <= report.packets@.len(),
            r@.len() == i,
            forall|j: int| 0 <= j < i ==> r@[j] == (PacketDecision::Permit { packet_id: report.packets@[j].packet_id }),
        decreases report.packets@.len() - i,
    {
        r.push(PacketDecision::Permit { packet_id: report.packets[i].packet_id });
        i = i + 1;
    }
    r
}

} // verus!
