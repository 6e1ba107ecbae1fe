//! Per-device byte counters and token buckets of the statistics listener,
//! kept in step with the registry of paired devices.
use crate::clock::{cost, instant_now, nanos_between, refilled, refill_balance, UNITS_PER_BYTE};
use crate::net::Ipv4Addr;
use crate::registry::Device;
use std::collections::HashMap;
use std::time::Instant;
use vstd::prelude::*;
use vstd::std_specs::iter::IteratorSpec;

verus! {

broadcast use vstd::std_specs::hash::group_hash_axioms;

/// How often the listener re-evaluates its buckets, in milliseconds.
pub const TOKEN_BUCKET_WINDOW_MILLIS: u64 = 100;

/// Per-device token bucket state. The bucket holds at most one second's
/// worth of tokens.
#[derive(Clone, Debug)]
pub struct TokenBucket {
    pub ip: Ipv4Addr,
    /// The configured limit, in bytes per second.
    pub bytes_per_sec: u64,
    /// The balance, in balance units (billionths of a byte).
    pub tokens: u128,
    pub last_update: Instant,
    /// Bytes permitted in the current second, for statistics.
    pub bytes_this_second: u64,
}

/// The parts of a bucket the listener's logic reads and writes (all but
/// the clock reading).
pub open spec fn bucket_state(b: TokenBucket) -> (Ipv4Addr, u64, u128, u64) {
    (b.ip, b.bytes_per_sec, b.tokens, b.bytes_this_second)
}

/// What one permit check does: whether the packet passes, the balance and
/// the second's byte count afterwards.
pub open spec fn permit_outcome(rate: u64, tokens: int, counted: int, bytes: int, elapsed_nanos: int) -> (bool, int, int) {
    if rate == 0 {
        (false, tokens, counted)
    } else {
        let t = refilled(tokens, rate as int, elapsed_nanos, cost(rate as int));
        if t >= cost(bytes) {
            (true, t - cost(bytes), counted + bytes)
        } else {
            (false, t, counted)
        }
    }
}

impl TokenBucket {
    /// A bucket for `ip` at `bytes_per_sec`, starting full (one second's
    /// worth) with nothing counted.
    pub fn new(ip: Ipv4Addr, bytes_per_sec: u64) -> (r: TokenBucket)
        ensures
            bucket_state(r) == (ip, bytes_per_sec, (bytes_per_sec as int * 1_000_000_000) as u128, 0u64),
    {
        TokenBucket {
            ip,
            bytes_per_sec,
            tokens: (bytes_per_sec as u128) * UNITS_PER_BYTE,
            last_update: instant_now(),
            bytes_this_second: 0,
        }
    }

    /// The permit check of `should_permit` when `elapsed_nanos` nanoseconds
    /// have passed since the last update.
    pub fn should_permit_after(&mut self, packet_bytes: u32, elapsed_nanos: u128) -> (r: bool)
        requires
            permit_outcome(
                old(self).bytes_per_sec,
                old(self).tokens as int,
                old(self).bytes_this_second as int,
                packet_bytes as int,
                elapsed_nanos as int,
            ).0 ==> old(self).bytes_this_second as int + packet_bytes as int <= u64::MAX,
        ensures
            final(self).ip == old(self).ip,
            final(self).bytes_per_sec == old(self).bytes_per_sec,
            final(self).last_update == old(self).last_update,
            (r, final(self).tokens as int, final(self).bytes_this_second as int) == permit_outcome(
                old(self).bytes_per_sec,
                old(self).tokens as int,
                old(self).bytes_this_second as int,
                packet_bytes as int,
                elapsed_nanos as int,
            ),
    {
        if self.bytes_per_sec == 0 {
            return false;
        }
        let cap = (self.bytes_per_sec as u128) * UNITS_PER_BYTE;
        self.tokens = refill_balance(self.tokens, self.bytes_per_sec, elapsed_nanos, cap);
        let need = (packet_bytes as u128) * UNITS_PER_BYTE;
        if self.tokens >= need {
            self.tokens = self.tokens - need;
            self.bytes_this_second = self.bytes_this_second + packet_bytes as u64;
            true
        } else {
            false
        }
    }

    /// Decides whether to permit a packet by the token bucket algorithm:
    /// refill for the time since the last update (up to one second's
    /// worth), then spend the packet's bytes if the balance covers them and
    /// count them. A device limited to 0 bytes per second gets nothing.
    pub fn should_permit(&mut self, packet_bytes: u32) -> (r: bool)
        requires
            old(self).bytes_per_sec == 0 || packet_bytes > old(self).bytes_per_sec
                || old(self).bytes_this_second as int + packet_bytes as int <= u64::MAX,
        ensures
            final(self).ip == old(self).ip,
            final(self).bytes_per_sec == old(self).bytes_per_sec,
            exists|elapsed_nanos: nat|
                (r, final(self).tokens as int, final(self).bytes_this_second as int) == #[trigger] permit_outcome(
                    old(self).bytes_per_sec,
                    old(self).tokens as int,
                    old(self).bytes_this_second as int,
                    packet_bytes as int,
                    elapsed_nanos as int,
                ),
            old(self).bytes_per_sec == 0 ==> !r,
    {
        let now = instant_now();
        let elapsed = nanos_between(&now, &self.last_update);
        self.last_update = now;
        proof {
            let rate = self.bytes_per_sec as int;
            let t = refilled(self.tokens as int, rate, elapsed as int, cost(rate));
            if rate > 0 && t >= cost(packet_bytes as int) {
                assert(t <= cost(rate));
            }
        }
        let r = self.should_permit_after(packet_bytes, elapsed);
        assert((r, self.tokens as int, self.bytes_this_second as int) == permit_outcome(
            old(self).bytes_per_sec,
            old(self).tokens as int,
            old(self).bytes_this_second as int,
            packet_bytes as int,
            elapsed as nat as int,
        ));
        r
    }

    /// Starts a new second for the statistics.
    pub fn reset_second_counter(&mut self)
        ensures
            final(self).bytes_this_second == 0,
            final(self).ip == old(self).ip,
            final(self).bytes_per_sec == old(self).bytes_per_sec,
            final(self).tokens == old(self).tokens,
            final(self).last_update == old(self).last_update,
    {
        self.bytes_this_second = 0;
    }
}

/// The bytes counted this second and the configured limit of a device, or
/// zeros for an unknown device.
pub fn get_device_usage(buckets: &HashMap<u32, TokenBucket>, ip: Ipv4Addr) -> (r: (u64, u64))
    ensures
        r == (if buckets@.contains_key(ip.spec_bits()) {
            (buckets@[ip.spec_bits()].bytes_this_second, buckets@[ip.spec_bits()].bytes_per_sec)
        } else {
            (0u64, 0u64)
        }),
{
    match buckets.get(&ip.to_bits()) {
        Some(bucket) => (bucket.bytes_this_second, bucket.bytes_per_sec),
        None => (0, 0),
    }
}

/// The bucket states after walking the device list in order: an unknown
/// device gets a full bucket at its limit, a known one keeps its balance and
/// counter and takes the device's limit.
pub open spec fn refreshed(m: Map<u32, (Ipv4Addr, u64, u128, u64)>, devices: Seq<Device>) -> Map<u32, (Ipv4Addr, u64, u128, u64)>
    decreases devices.len(),
{
    if devices.len() == 0 {
        m
    } else {
        let prev = refreshed(m, devices.drop_last());
        let d = devices.last();
        let k = d.ip.spec_bits();
        if prev.contains_key(k) {
            let s = prev[k];
            prev.insert(k, (s.0, d.bandwidth_limit, s.2, s.3))
        } else {
            prev.insert(k, (d.ip, d.bandwidth_limit, (d.bandwidth_limit as int * 1_000_000_000) as u128, 0u64))
        }
    }
}

/// Whether `k` is the address number of some device in `devices`.
pub open spec fn is_device_key(devices: Seq<Device>, k: u32) -> bool {
    exists|i: int| 0 <= i < devices.len() && (#[trigger] devices[i]).ip.spec_bits() == k
}

/// Walking the devices gives a bucket to every device's address, keeps the
/// buckets that were there, and leaves each device's bucket at the limit of
/// the last device listed with that address.
pub proof fn lemma_refreshed_limits(m: Map<u32, (Ipv4Addr, u64, u128, u64)>, devices: Seq<Device>)
    ensures
        forall|k: u32| #[trigger] refreshed(m, devices).contains_key(k) <==> (m.contains_key(k) || is_device_key(devices, k)),
        forall|i: int|
            0 <= i < devices.len() && (forall|j: int| i < j < devices.len() ==> devices[j].ip.spec_bits() != devices[i].ip.spec_bits())
                ==> #[trigger] refreshed(m, devices)[devices[i].ip.spec_bits()].1 == devices[i].bandwidth_limit,
    decreases devices.len(),
{
    if devices.len() > 0 {
        let init = devices.drop_last();
        lemma_refreshed_limits(m, init);
        let prev = refreshed(m, init);
        let d = devices.last();
        let kl = d.ip.spec_bits();
        assert(refreshed(m, devices) == if prev.contains_key(kl) {
            prev.insert(kl, (prev[kl].0, d.bandwidth_limit, prev[kl].2, prev[kl].3))
        } else {
            prev.insert(kl, (d.ip, d.bandwidth_limit, (d.bandwidth_limit as int * 1_000_000_000) as u128, 0u64))
        });
        assert forall|k: u32| #[trigger] refreshed(m, devices).contains_key(k) <==> (m.contains_key(k) || is_device_key(devices, k)) by {
            assert(prev.contains_key(k) <==> (m.contains_key(k) || is_device_key(init, k)));
            if is_device_key(devices, k) && k != devices.last().ip.spec_bits() {
                let x = choose|x: int| 0 <= x < devices.len() && (#[trigger] devices[x]).ip.spec_bits() == k;
                assert(init[x] == devices[x]);
                assert(is_device_key(init, k));
            }
            if is_device_key(init, k) {
                let x = choose|x: int| 0 <= x < init.len() && (#[trigger] init[x]).ip.spec_bits() == k;
                assert(devices[x] == init[x]);
            }
            if k == devices.last().ip.spec_bits() {
                assert(devices[devices.len() - 1].ip.spec_bits() == k);
            }
        }
        assert forall|i: int|
            0 <= i < devices.len() && (forall|j: int| i < j < devices.len() ==> devices[j].ip.spec_bits() != devices[i].ip.spec_bits())
                implies #[trigger] refreshed(m, devices)[devices[i].ip.spec_bits()].1 == devices[i].bandwidth_limit by {
            if i < devices.len() - 1 {
                assert(init[i] == devices[i]);
                assert(prev[init[i].ip.spec_bits()].1 == init[i].bandwidth_limit);
                assert forall|j: int| i < j < init.len() implies init[j].ip.spec_bits() != init[i].ip.spec_bits() by {
                    assert(init[j] == devices[j]);
                }
                assert(devices[devices.len() - 1].ip.spec_bits() != devices[i].ip.spec_bits());
            }
        }
    }
}

/// After the buckets are brought in step with the devices, exactly the
/// listed addresses have a bucket, each at the limit of the last device
/// listed with that address.
pub proof fn lemma_buckets_follow_devices(m: Map<u32, (Ipv4Addr, u64, u128, u64)>, devices: Seq<Device>)
    ensures
        ({
            let synced = refreshed(m, devices).restrict(Set::new(|k: u32| is_device_key(devices, k)));
            &&& forall|k: u32| #[trigger] synced.contains_key(k) <==> is_device_key(devices, k)
            &&& forall|i: int|
                0 <= i < devices.len() && (forall|j: int| i < j < devices.len() ==> devices[j].ip.spec_bits() != devices[i].ip.spec_bits())
                    ==> #[trigger] synced[devices[i].ip.spec_bits()].1 == devices[i].bandwidth_limit
        }),
{
    lemma_refreshed_limits(m, devices);
    let synced = refreshed(m, devices).restrict(Set::new(|k: u32| is_device_key(devices, k)));
    assert forall|i: int|
        0 <= i < devices.len() && (forall|j: int| i < j < devices.len() ==> devices[j].ip.spec_bits() != devices[i].ip.spec_bits())
            implies #[trigger] synced[devices[i].ip.spec_bits()].1 == devices[i].bandwidth_limit by {
        assert(is_device_key(devices, devices[i].ip.spec_bits()));
        assert(refreshed(m, devices)[devices[i].ip.spec_bits()].1 == devices[i].bandwidth_limit);
    }
}

/// A permit check never leaves more than one second's worth of tokens.
pub proof fn lemma_permit_caps_one_second(rate: u64, tokens: int, counted: int, bytes: int, elapsed_nanos: int)
    requires
        tokens <= cost(rate as int),
        bytes >= 0,
    ensures
        permit_outcome(rate, tokens, counted, bytes, elapsed_nanos).1 <= cost(rate as int),
{
}

/// Brings the buckets in step with the registry's devices: every device
/// gets a bucket at its bandwidth limit (a new, full one if it had none),
/// and the buckets of addresses no longer registered are dropped.
pub fn refresh_buckets(buckets: &mut HashMap<u32, TokenBucket>, devices: &Vec<Device>)
    ensures
        final(buckets)@.map_values(|b: TokenBucket| bucket_state(b)) == refreshed(
            old(buckets)@.map_values(|b: TokenBucket| bucket_state(b)),
            devices@,
        ).restrict(Set::new(|k: u32| is_device_key(devices@, k))),
        forall|k: u32| #[trigger] final(buckets)@.contains_key(k) && old(buckets)@.contains_key(k)
            ==> final(buckets)@[k].last_update == old(buckets)@[k].last_update,
{
    let ghost f = |b: TokenBucket| bucket_state(b);
    let ghost m0 = old(buckets)@.map_values(f);
    let mut i: usize = 0;
    while i < devices.len()
        invariant
            i <= devices@.len(),
            f == (|b: TokenBucket| bucket_state(b)),
            buckets@.map_values(f) == refreshed(m0, devices@.take(i as int)),
            forall|k: u32| #[trigger] old(buckets)@.contains_key(k) ==> buckets@.contains_key(k)
                && buckets@[k].last_update == old(buckets)@[k].last_update,
        decreases devices@.len() - i,
    {
        let d = &devices[i];
        let key = d.ip.to_bits();
        let ghost prev = buckets@;
        proof {
            assert(devices@.take(i + 1).drop_last() =~= devices@.take(i as int));
            assert(devices@.take(i + 1).last() == devices@[i as int]);
        }
        match buckets.remove(&key) {
            Some(mut bucket) => {
                bucket.bytes_per_sec = d.bandwidth_limit;
                buckets.insert(key, bucket);
                assert(buckets@.map_values(f) =~= refreshed(m0, devices@.take(i + 1)));
            },
            None => {
                buckets.insert(key, TokenBucket::new(d.ip, d.bandwidth_limit));
                assert(buckets@.map_values(f) =~= refreshed(m0, devices@.take(i + 1)));
            },
        }
        i = i + 1;
    }
    assert(devices@.take(i as int) =~= devices@);
    let ghost full = buckets@;
    let mut stale: Vec<u32> = Vec::new();
    let ghost ks = buckets.keys().remaining();
    for k in it: buckets.keys()
        invariant
            it.seq() == ks,
            forall|j: int| 0 <= j < stale@.len() ==> !is_device_key(devices@, #[trigger] stale@[j]) && ks.unref().contains(stale@[j]),
            forall|j: int| 0 <= j < it.index() && !is_device_key(devices@, *ks[j]) ==> stale@.contains(*ks[j]),
    {
        let ghost stale0 = stale@;
        let mut found = false;
        let mut j: usize = 0;
        while j < devices.len()
            invariant
                j <= devices@.len(),
                found <==> exists|x: int| 0 <= x < j && (#[trigger] devices@[x]).ip.spec_bits() == *k,
            decreases devices@.len() - j,
        {
            if devices[j].ip.to_bits() == *k {
                found = true;
            }
            j = j + 1;
        }
        if !found {
            stale.push(*k);
        }
        proof {
            let idx = it.index() as int;
            assert(k == ks[idx]);
            assert(found <==> is_device_key(devices@, *k));
            assert forall|jj: int| 0 <= jj <= idx && !is_device_key(devices@, *ks[jj]) implies stale@.contains(*ks[jj]) by {
                if jj < idx {
                    let x = choose|x: int| 0 <= x < stale0.len() && stale0[x] == *ks[jj];
                    assert(stale@[x] == *ks[jj]);
                } else {
                    assert(stale@[stale@.len() - 1] == *k);
                }
            }
        }
    }
    let mut s: usize = 0;
    while s < stale.len()
        invariant
            s <= stale@.len(),
            forall|k: u32| #[trigger] buckets@.contains_key(k) ==> full.contains_key(k) && buckets@[k] == full[k],
            forall|k: u32| full.contains_key(k) && is_device_key(devices@, k) ==> #[trigger] buckets@.contains_key(k),
            forall|j: int| 0 <= j < s ==> !buckets@.contains_key(#[trigger] stale@[j]),
            forall|j: int| 0 <= j < stale@.len() ==> !is_device_key(devices@, #[trigger] stale@[j]),
        decreases stale@.len() - s,
    {
        buckets.remove(&stale[s]);
        s = s + 1;
    }
    proof {
        assert(ks.unref().to_set() == full.dom());
        let target = refreshed(m0, devices@).restrict(Set::new(|k: u32| is_device_key(devices@, k)));
        assert forall|k: u32| #[trigger] buckets@.contains_key(k) <==> (full.contains_key(k) && is_device_key(devices@, k)) by {
            if full.contains_key(k) && !is_device_key(devices@, k) {
                assert(ks.unref().to_set().contains(k));
                let j = choose|j: int| 0 <= j < ks.unref().len() && ks.unref()[j] == k;
                assert(*ks[j] == k);
                assert(stale@.contains(k));
                let x = choose|x: int| 0 <= x < stale@.len() && stale@[x] == k;
                assert(!buckets@.contains_key(stale@[x]));
            }
        }
        assert(buckets@.map_values(f) =~= target);
    }
}

/// A bucket state with its second's byte count cleared.
pub open spec fn counter_cleared(s: (Ipv4Addr, u64, u128, u64)) -> (Ipv4Addr, u64, u128, u64) {
    (s.0, s.1, s.2, 0u64)
}

/// Starts a new statistics second for every bucket.
pub fn reset_second_counters(buckets: &mut HashMap<u32, TokenBucket>)
    ensures
        final(buckets)@.map_values(|b: TokenBucket| bucket_state(b)) == old(buckets)@.map_values(
            |b: TokenBucket| bucket_state(b),
        ).map_values(|s: (Ipv4Addr, u64, u128, u64)| counter_cleared(s)),
        final(buckets)@.dom() == old(buckets)@.dom(),
        forall|k: u32| #[trigger] final(buckets)@.contains_key(k)
            ==> final(buckets)@[k].last_update == old(buckets)@[k].last_update,
{
    let ghost f = |b: TokenBucket| bucket_state(b);
    let ghost g = |s: (Ipv4Addr, u64, u128, u64)| counter_cleared(s);
    let mut keys: Vec<u32> = Vec::new();
    let ghost ks = buckets.keys().remaining();
    for k in it: buckets.keys()
        invariant
            it.seq() == ks,
            keys@.len() == it.index(),
            forall|j: int| 0 <= j < it.index() ==> keys@[j] == *ks[j],
    {
        keys.push(*k);
    }
    let ghost start = buckets@;
    let mut i: usize = 0;
    while i < keys.len()
        invariant
            i <= keys@.len(),
            keys@.len() == ks.len(),
            ks.no_duplicates(),
            ks.unref().to_set() == start.dom(),
            forall|j: int| 0 <= j < keys@.len() ==> keys@[j] == *ks[j],
            buckets@.dom() == start.dom(),
            forall|k: u32| #[trigger] buckets@.contains_key(k) ==> (if keys@.take(i as int).contains(k) {
                bucket_state(buckets@[k]) == counter_cleared(bucket_state(start[k]))
            } else {
                buckets@[k] == start[k]
            }),
            forall|k: u32| #[trigger] buckets@.contains_key(k) ==> buckets@[k].last_update == start[k].last_update,
        decreases keys@.len() - i,
    {
        let key = keys[i];
        let ghost prev = buckets@;
        proof {
            assert(ks.unref()[i as int] == key);
            assert(ks.unref().to_set().contains(key));
            if keys@.take(i as int).contains(key) {
                let j = choose|j: int| 0 <= j < i && keys@.take(i as int)[j] == key;
                assert(ks[j] == ks[i as int]);
            }
        }
        if let Some(mut bucket) = buckets.remove(&key) {
            bucket.reset_second_counter();
            buckets.insert(key, bucket);
        }
        proof {
            let t0 = keys@.take(i as int);
            let t1 = keys@.take(i + 1);
            assert(t1 =~= t0.push(key));
            assert(buckets@.dom() =~= start.dom());
            assert forall|k: u32| #[trigger] buckets@.contains_key(k) implies (if t1.contains(k) {
                bucket_state(buckets@[k]) == counter_cleared(bucket_state(start[k]))
            } else {
                buckets@[k] == start[k]
            }) by {
                if k != key {
                    if t1.contains(k) {
                        let j = choose|j: int| 0 <= j < t1.len() && #[trigger] t1[j] == k;
                        assert(t0[j] == k);
                    }
                    if t0.contains(k) {
                        let j = choose|j: int| 0 <= j < t0.len() && #[trigger] t0[j] == k;
                        assert(t1[j] == k);
                    }
                } else {
                    assert(t1[i as int] == k);
                }
            }
        }
        i = i + 1;
    }
    proof {
        assert(keys@.take(i as int) =~= keys@);
        assert forall|k: u32| #[trigger] start.contains_key(k) implies keys@.contains(k) by {
            assert(ks.unref().to_set().contains(k));
            let j = choose|j: int| 0 <= j < ks.unref().len() && ks.unref()[j] == k;
            assert(keys@[j] == k);
        }
        assert(buckets@.map_values(f) =~= start.map_values(f).map_values(g));
    }
}

/// One round of the statistics listener: bring the buckets in step with
/// the devices, then, when a new second has begun, clear the counters.
pub fn stats_round(buckets: &mut HashMap<u32, TokenBucket>, devices: &Vec<Device>, new_second: bool)
    ensures
        final(buckets)@.map_values(|b: TokenBucket| bucket_state(b)) == ({
            let synced = refreshed(
                old(buckets)@.map_values(|b: TokenBucket| bucket_state(b)),
                devices@,
            ).restrict(Set::new(|k: u32| is_device_key(devices@, k)));
            if new_second {
                synced.map_values(|s: (Ipv4Addr, u64, u128, u64)| counter_cleared(s))
            } else {
                synced
            }
        }),
        forall|k: u32| #[trigger] final(buckets)@.contains_key(k) && old(buckets)@.contains_key(k)
            ==> final(buckets)@[k].last_update == old(buckets)@[k].last_update,
{
    refresh_buckets(buckets, devices);
    if new_second {
        reset_second_counters(buckets);
    }
}

/// Whether a new statistics second has begun `elapsed_nanos` nanoseconds
/// after the last reset.
pub fn second_has_passed(elapsed_nanos: u128) -> (r: bool)
    ensures
        r == (elapsed_nanos >= 1_000_000_000),
{
    elapsed_nanos >= 1_000_000_000
}

} // verus!

