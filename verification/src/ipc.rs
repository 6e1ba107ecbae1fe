//! The IPC exchange with the packet callout: length-prefixed frames, and
//! the classification of each packet against the device registry.
use crate::bucket::DeviceBucket;
use crate::clock::{cost, lemma_refill_monotone, millis_measured, refilled};
use crate::device_registry::DeviceRegistry;
use crate::proto::{PacketDecision, PacketMetadata};
use std::time::Instant;
use vstd::prelude::*;

verus! {

#[verifier::external_type_specification]
#[verifier::external_body]
pub struct ExIoError(std::io::Error);

/// Errors of the IPC server.
#[derive(Debug)]
pub enum DaemonError {
    Io(std::io::Error),
    Decode(String),
    Encode(String),
}

/// The number a 4-byte little-endian length prefix holds.
pub open spec fn le_u32_value(b: Seq<u8>) -> int {
    b[0] as int + 256 * b[1] as int + 65536 * b[2] as int + 16777216 * b[3] as int
}

/// The four little-endian bytes of a number below 2^32.
pub open spec fn le_u32_bytes(n: int) -> Seq<u8> {
    seq![(n % 256) as u8, ((n / 256) % 256) as u8, ((n / 65536) % 256) as u8, ((n / 16777216) % 256) as u8]
}

/// The length prefix of a message of fewer than 2^32 bytes reads back as
/// that length: what `frame_header` writes, `frame_length` reads.
pub proof fn lemma_frame_roundtrip(len: int)
    requires
        0 <= len < 0x1_0000_0000,
    ensures
        le_u32_bytes(len).len() == 4,
        le_u32_value(le_u32_bytes(len)) == len,
{
    let b = le_u32_bytes(len);
    assert(le_u32_value(b) == len) by (nonlinear_arith)
        requires
            b[0] as int == len % 256,
            b[1] as int == (len / 256) % 256,
            b[2] as int == (len / 65536) % 256,
            b[3] as int == (len / 16777216) % 256,
            0 <= len < 0x1_0000_0000,
    ;
}

/// The size of the message that follows a length prefix (a little-endian
/// 32-bit number).
pub fn frame_length(header: [u8; 4]) -> (r: usize)
    ensures
        r as int == le_u32_value(header@),
{
    let v: u32 = (header[0] as u32) + 256 * (header[1] as u32) + 65536 * (header[2] as u32) + 16777216 * (
    header[3] as u32);
    v as usize
}

/// The length prefix of a response of `len` bytes: `len` as a 32-bit
/// number (keeping its low 32 bits), little-endian.
pub fn frame_header(len: usize) -> (r: [u8; 4])
    ensures
        r@ == le_u32_bytes((len as int) % 0x1_0000_0000),
        le_u32_value(r@) == (len as int) % 0x1_0000_0000,
{
    let v: u64 = (len as u64) % 0x1_0000_0000;
    let r = [(v % 256) as u8, ((v / 256) % 256) as u8, ((v / 65536) % 256) as u8, ((v / 16777216) % 256) as u8];
    proof {
        lemma_frame_roundtrip(v as int);
        assert(r@ =~= le_u32_bytes(v as int));
    }
    r
}

/// What classifying a packet of `bytes` bytes does to the bucket of its
/// device, from `b0` to `b`, deciding `permit`, when the clock measured `ms`
/// whole milliseconds from `b0`'s last refill to the reading `now` and the
/// last refill moved on to the point they reach: the balance is refilled for
/// those milliseconds, and the packet passes and is paid for exactly when
/// the refilled balance covers it.
pub open spec fn classified(b0: DeviceBucket, b: DeviceBucket, bytes: int, permit: bool, now: Instant, ms: u64) -> bool {
    let t = refilled(b0.current_tokens as int, b0.allowed_bytes_per_sec as int, ms * 1_000_000, b0.capacity());
    &&& millis_measured(b0.last_refill, now, ms, b.last_refill)
    &&& permit == (t >= cost(bytes))
    &&& b.current_tokens == (if permit { t - cost(bytes) } else { t })
}

/// A device's packet is permitted whenever its balance plus what its rate
/// earned over the milliseconds measured since the last refill (within the
/// bucket's capacity) covers it, and it then costs exactly its bytes; a
/// dropped packet costs nothing and is one the refilled balance could not
/// cover.
pub proof fn lemma_classify_permits_covered(b0: DeviceBucket, b: DeviceBucket, bytes: int, permit: bool, now: Instant, ms: u64)
    requires
        classified(b0, b, bytes, permit, now, ms),
    ensures
        cost(bytes) <= b0.current_tokens + b0.allowed_bytes_per_sec * (ms * 1_000_000) && cost(bytes) <= b0.capacity()
            ==> permit,
        permit ==> b.current_tokens + cost(bytes) == refilled(
            b0.current_tokens as int,
            b0.allowed_bytes_per_sec as int,
            ms * 1_000_000,
            b0.capacity(),
        ),
        !permit ==> b.current_tokens < cost(bytes),
{
}

/// Waiting never hurts: of two classifications of the same packet against
/// the same bucket, the one made after at least as many measured
/// milliseconds permits the packet whenever the other does.
pub proof fn lemma_classify_waiting_never_hurts(
    b0: DeviceBucket,
    b1: DeviceBucket,
    b2: DeviceBucket,
    bytes: int,
    p1: bool,
    p2: bool,
    now1: Instant,
    ms1: u64,
    now2: Instant,
    ms2: u64,
)
    requires
        classified(b0, b1, bytes, p1, now1, ms1),
        classified(b0, b2, bytes, p2, now2, ms2),
        ms1 <= ms2,
        p1,
    ensures
        p2,
{
    lemma_refill_monotone(
        b0.current_tokens as int,
        b0.allowed_bytes_per_sec as int,
        ms1 * 1_000_000,
        ms2 * 1_000_000,
        b0.capacity(),
    );
}

/// Classifies a packet against the registry: a device without a bucket is
/// not rate-limited and its packets pass; otherwise the bucket of the
/// destination address refills and spends the packet's bytes, and the
/// packet passes if it could and is dropped if not.
pub fn classify_packet(metadata: &PacketMetadata, registry: &mut DeviceRegistry) -> (r: PacketDecision)
    ensures
        r.spec_packet_id() == metadata.packet_id,
        final(registry)@.dom() == old(registry)@.dom(),
        forall|k: u32| k != metadata.dst_ip.spec_bits() && old(registry)@.contains_key(k) ==> #[trigger] final(registry)@[k] == old(registry)@[k],
        !old(registry)@.contains_key(metadata.dst_ip.spec_bits()) ==> r is Permit && final(registry)@ == old(registry)@,
        old(registry)@.contains_key(metadata.dst_ip.spec_bits()) ==> ({
            let b0 = old(registry)@[metadata.dst_ip.spec_bits()];
            let b = final(registry)@[metadata.dst_ip.spec_bits()];
            &&& b.allowed_bytes_per_sec == b0.allowed_bytes_per_sec
            &&& b.max_burst_bytes == b0.max_burst_bytes
            &&& b.queued() == b0.queued()
            &&& exists|now: Instant, ms: u64|
                #![trigger millis_measured(b0.last_refill, now, ms, b.last_refill)]
                classified(b0, b, metadata.byte_len as int, r is Permit, now, ms)
            &&& exists|now: Instant, ms: u64| #[trigger] millis_measured(b0.last_refill, now, ms, b.last_refill) && {
                let t = refilled(
                    b0.current_tokens as int,
                    b0.allowed_bytes_per_sec as int,
                    ms * 1_000_000,
                    b0.capacity(),
                );
                &&& (r is Permit) == (t >= cost(metadata.byte_len as int))
                &&& b.current_tokens == (if r is Permit { t - cost(metadata.byte_len as int) } else { t })
            }
            &&& exists|elapsed_nanos: nat| {
                let t = #[trigger] refilled(
                    b0.current_tokens as int,
                    b0.allowed_bytes_per_sec as int,
                    elapsed_nanos as int,
                    b0.capacity(),
                );
                &&& (r is Permit) == (t >= cost(metadata.byte_len as int))
                &&& b.current_tokens == (if r is Permit { t - cost(metadata.byte_len as int) } else { t })
            }
        }),
{
    match registry.get_bucket_mut(metadata.dst_ip) {
        Some(bucket) => {
            if bucket.try_consume(metadata.byte_len) {
                PacketDecision::Permit { packet_id: metadata.packet_id }
            } else {
                PacketDecision::Drop { packet_id: metadata.packet_id }
            }
        },
        None => PacketDecision::Permit { packet_id: metadata.packet_id },
    }
}

} // verus!
