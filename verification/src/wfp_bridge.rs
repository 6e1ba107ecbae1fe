//! Bandwidth limits of approved devices, applied to the token buckets that
//! the pipe server consults for every packet.
use crate::clock::cost;
use crate::net::Ipv4Addr;
use crate::token_bucket::TokenBucket;
use std::collections::HashMap;
use vstd::prelude::*;

verus! {

broadcast use vstd::std_specs::hash::group_hash_axioms;

/// Every bucket in the map keeps its balance within its burst allowance.
pub open spec fn all_wf(m: Map<u32, TokenBucket>) -> bool {
    forall|k: u32| #[trigger] m.contains_key(k) ==> m[k].wf()
}

/// `after` is `before` with the bandwidth limit of the device at `ip` set to
/// `bytes_per_sec`: its bucket (a new one if it had none) runs at that rate
/// with a full second's worth of tokens; every other bucket is unchanged.
pub open spec fn bandwidth_set(before: Map<u32, TokenBucket>, after: Map<u32, TokenBucket>, ip: Ipv4Addr, bytes_per_sec: u64) -> bool {
    let b = after[ip.spec_bits()];
    &&& all_wf(after)
    &&& after.dom() == before.dom().insert(ip.spec_bits())
    &&& forall|k: u32| k != ip.spec_bits() && before.contains_key(k) ==> #[trigger] after[k] == before[k]
    &&& b.ip == (if before.contains_key(ip.spec_bits()) { before[ip.spec_bits()].ip } else { ip })
    &&& b.allowed_bytes_per_sec == bytes_per_sec
    &&& b.tokens() == cost(bytes_per_sec as int)
    &&& b.burst() == 2 * cost(bytes_per_sec as int)
}

/// Sets the bandwidth limit of the device at `ip` (0 blocks it, `u64::MAX`
/// lifts every limit): an existing bucket takes the new rate and a full
/// second's worth of tokens; a device without a bucket gets a new one.
pub fn set_bandwidth(token_buckets: &mut HashMap<u32, TokenBucket>, ip: Ipv4Addr, bytes_per_sec: u64)
    requires
        all_wf(old(token_buckets)@),
    ensures
        bandwidth_set(old(token_buckets)@, final(token_buckets)@, ip, bytes_per_sec),
{
    let key = ip.to_bits();
    match token_buckets.remove(&key) {
        Some(mut bucket) => {
            bucket.update_limit(bytes_per_sec);
            token_buckets.insert(key, bucket);
        },
        None => {
            let bucket = TokenBucket::new(ip, bytes_per_sec);
            token_buckets.insert(key, bucket);
        },
    }
    assert(token_buckets@.dom() =~= old(token_buckets)@.dom().insert(key));
}

/// Blocks all traffic from a device (a limit of 0).
pub fn block_device(token_buckets: &mut HashMap<u32, TokenBucket>, ip: Ipv4Addr)
    requires
        all_wf(old(token_buckets)@),
    ensures
        bandwidth_set(old(token_buckets)@, final(token_buckets)@, ip, 0),
{
    set_bandwidth(token_buckets, ip, 0)
}

/// Lets all traffic from a device through (a limit of `u64::MAX`).
pub fn unblock_device(token_buckets: &mut HashMap<u32, TokenBucket>, ip: Ipv4Addr)
    requires
        all_wf(old(token_buckets)@),
    ensures
        bandwidth_set(old(token_buckets)@, final(token_buckets)@, ip, u64::MAX),
{
    set_bandwidth(token_buckets, ip, u64::MAX)
}

} // verus!
