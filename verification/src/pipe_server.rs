//! The daemon's per-packet decision for the WFP driver: consult the token
//! bucket of the packet's source address.
use crate::clock::cost;
use crate::proto::{PacketDecision, PacketMetadata};
use crate::token_bucket::{consume_outcome, TokenBucket};
use crate::wfp_bridge::{all_wf, bandwidth_set};
use crate::net::Ipv4Addr;
use std::collections::HashMap;
use vstd::prelude::*;

verus! {

broadcast use vstd::std_specs::hash::group_hash_axioms;

/// Once a device is blocked, every packet from it is dropped, whatever its
/// size and whenever it comes; once it is unblocked, every packet passes.
/// Deciding on a packet keeps the bucket's rate, so this lasts until the
/// limit is set again.
pub proof fn lemma_block_and_unblock(before: Map<u32, TokenBucket>, after: Map<u32, TokenBucket>, ip: Ipv4Addr, limit: u64)
    requires
        bandwidth_set(before, after, ip, limit),
        limit == 0 || limit == u64::MAX,
    ensures
        after.contains_key(ip.spec_bits()),
        forall|bytes: int, elapsed_nanos: int| #[trigger]
            consume_outcome(
                after[ip.spec_bits()].allowed_bytes_per_sec,
                after[ip.spec_bits()].tokens(),
                after[ip.spec_bits()].burst(),
                bytes,
                elapsed_nanos,
            ).0 == (limit == u64::MAX),
{
    assert(after.dom().contains(ip.spec_bits()));
}

/// Decides on one packet: the bucket of its source address (created
/// unlimited if the address has none) spends the packet's bytes; the packet
/// is permitted if the bucket allows it and dropped otherwise.
pub fn decide_packet(token_buckets: &mut HashMap<u32, TokenBucket>, meta: &PacketMetadata) -> (r: PacketDecision)
    requires
        all_wf(old(token_buckets)@),
    ensures
        all_wf(final(token_buckets)@),
        r.spec_packet_id() == meta.packet_id,
        final(token_buckets)@.dom() == old(token_buckets)@.dom().insert(meta.src_ip.spec_bits()),
        forall|k: u32| k != meta.src_ip.spec_bits() && old(token_buckets)@.contains_key(k) ==> #[trigger] final(token_buckets)@[k] == old(token_buckets)@[k],
        !old(token_buckets)@.contains_key(meta.src_ip.spec_bits()) ==> ({
            let b = final(token_buckets)@[meta.src_ip.spec_bits()];
            &&& r is Permit
            &&& b.ip == meta.src_ip
            &&& b.allowed_bytes_per_sec == u64::MAX
            &&& b.tokens() == cost(u64::MAX as int)
            &&& b.burst() == 2 * cost(u64::MAX as int)
        }),
        old(token_buckets)@.contains_key(meta.src_ip.spec_bits()) ==> ({
            let b0 = old(token_buckets)@[meta.src_ip.spec_bits()];
            let b = final(token_buckets)@[meta.src_ip.spec_bits()];
            &&& b.ip == b0.ip
            &&& b.allowed_bytes_per_sec == b0.allowed_bytes_per_sec
            &&& b.burst() == b0.burst()
            &&& exists|elapsed_nanos: nat|
                (r is Permit, b.tokens()) == #[trigger] consume_outcome(
                    b0.allowed_bytes_per_sec,
                    b0.tokens(),
                    b0.burst(),
                    meta.byte_len as int,
                    elapsed_nanos as int,
                )
        }),
{
    let key = meta.src_ip.to_bits();
    let mut bucket = match token_buckets.remove(&key) {
        Some(b) => b,
        None => TokenBucket::new(meta.src_ip, u64::MAX),
    };
    let permitted = bucket.consume(meta.byte_len as u64);
    token_buckets.insert(key, bucket);
    assert(token_buckets@.dom() =~= old(token_buckets)@.dom().insert(key));
    if permitted {
        PacketDecision::Permit { packet_id: meta.packet_id }
    } else {
        PacketDecision::Drop { packet_id: meta.packet_id }
    }
}

} // verus!
