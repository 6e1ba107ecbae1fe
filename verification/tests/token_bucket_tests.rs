use netshaper::clock::UNITS_PER_BYTE;
use netshaper::net::{parse_ipv4, Ipv4Addr};
use netshaper::pipe_server::decide_packet;
use netshaper::proto::{PacketDecision, PacketMetadata};
use netshaper::registry::Device;
use netshaper::stats_listener::{get_device_usage, second_has_passed, stats_round, TokenBucket as StatsBucket};
use netshaper::token_bucket::TokenBucket;
use netshaper::wfp_bridge::{block_device, set_bandwidth, unblock_device};
use std::collections::HashMap;
use std::time::{Duration, Instant};

fn ip(text: &str) -> Ipv4Addr {
    parse_ipv4(text).unwrap()
}

#[test]
fn test_token_bucket_unlimited() {
    let mut bucket = TokenBucket::new(ip("192.168.1.1"), u64::MAX);
    assert!(bucket.consume(1_000_000));
    assert!(bucket.consume(u64::MAX - 1));
}

#[test]
fn test_token_bucket_blocked() {
    let mut bucket = TokenBucket::new(ip("192.168.1.1"), 0);
    assert!(!bucket.consume(1));
}

#[test]
fn test_token_bucket_rate_limit() {
    let mut bucket = TokenBucket::new(ip("192.168.1.1"), 1_000_000);

    assert!(bucket.consume(500_000));
    assert!(bucket.consume(500_000));
    assert!(!bucket.consume(100));
}

#[test]
fn test_token_bucket_refill() {
    let mut bucket = TokenBucket::new(ip("192.168.1.1"), 1_000_000);
    bucket.consume(900_000);

    bucket.last_refill = Instant::now() - Duration::from_millis(500);

    assert!(bucket.consume(400_000));
}

#[test]
fn token_bucket_starts_with_one_second_and_bursts_to_two() {
    let mut bucket = TokenBucket::new(ip("192.168.1.1"), 1_000);
    assert_eq!(bucket.current_tokens(), 1_000 * UNITS_PER_BYTE);
    assert_eq!(bucket.max_burst, 2_000 * UNITS_PER_BYTE);
    bucket.last_refill = Instant::now() - Duration::from_secs(10);
    assert!(bucket.consume(2_000));
    assert!(!bucket.consume(10));
}

#[test]
fn consume_after_is_exact() {
    let mut bucket = TokenBucket::new(ip("192.168.1.1"), 1_000);
    assert!(bucket.consume_after(1_000, 0));
    assert_eq!(bucket.current_tokens(), 0);
    assert!(!bucket.consume_after(1, 999_999));
    assert_eq!(bucket.current_tokens(), 999_999_000);
    assert!(bucket.consume_after(1, 1));
    assert_eq!(bucket.current_tokens(), 0);
}

#[test]
fn update_limit_resets_the_balance() {
    let mut bucket = TokenBucket::new(ip("192.168.1.1"), 1_000_000);
    assert!(bucket.consume(1_000_000));
    bucket.update_limit(2_000);
    assert_eq!(bucket.allowed_bytes_per_sec, 2_000);
    assert_eq!(bucket.current_tokens(), 2_000 * UNITS_PER_BYTE);
    assert_eq!(bucket.max_burst, 4_000 * UNITS_PER_BYTE);
    assert!(bucket.consume(2_000));
}

#[test]
fn test_token_bucket_permit() {
    let mut bucket = StatsBucket::new(ip("192.168.1.100"), 1_000_000);

    assert!(bucket.should_permit(1000));
    assert!(bucket.tokens > 0);
}

#[test]
fn test_token_bucket_block_zero_limit() {
    let mut bucket = StatsBucket::new(ip("192.168.1.100"), 0);

    assert!(!bucket.should_permit(1000));
}

#[test]
fn test_token_bucket_creates_correctly() {
    let bucket = StatsBucket::new(ip("10.0.0.1"), 5_000_000);
    assert_eq!(bucket.bytes_per_sec, 5_000_000);
    assert!(bucket.tokens > 0);
}

#[test]
fn stats_bucket_counts_permitted_bytes_and_caps_at_one_second() {
    let mut bucket = StatsBucket::new(ip("10.0.0.1"), 1_000);
    assert!(bucket.should_permit_after(600, 0));
    assert!(!bucket.should_permit_after(600, 0));
    assert_eq!(bucket.bytes_this_second, 600);
    assert!(bucket.should_permit_after(600, 10_000_000_000));
    assert_eq!(bucket.tokens, 400 * UNITS_PER_BYTE);
    assert_eq!(bucket.bytes_this_second, 1_200);
    bucket.reset_second_counter();
    assert_eq!(bucket.bytes_this_second, 0);
}

#[test]
fn stats_round_follows_the_registry() {
    let mut buckets: HashMap<u32, StatsBucket> = HashMap::new();
    let kept = ip("192.168.1.100");
    let gone = ip("192.168.1.101");
    buckets.insert(kept.to_bits(), StatsBucket::new(kept, 10));
    buckets.insert(gone.to_bits(), StatsBucket::new(gone, 10));
    buckets.get_mut(&kept.to_bits()).unwrap().bytes_this_second = 77;
    let devices = vec![
        Device {
            id: "a".to_string(),
            ip: kept,
            platform: "iOS".to_string(),
            device_name: "phone".to_string(),
            approved: true,
            bandwidth_limit: 5_000,
            enrolled_at: 0,
        },
        Device {
            id: "b".to_string(),
            ip: ip("192.168.1.102"),
            platform: "Android".to_string(),
            device_name: "tablet".to_string(),
            approved: false,
            bandwidth_limit: 7_000,
            enrolled_at: 0,
        },
    ];
    stats_round(&mut buckets, &devices, false);
    assert_eq!(buckets.len(), 2);
    assert_eq!(get_device_usage(&buckets, kept), (77, 5_000));
    assert_eq!(get_device_usage(&buckets, ip("192.168.1.102")), (0, 7_000));
    assert_eq!(get_device_usage(&buckets, gone), (0, 0));
    assert_eq!(buckets[&ip("192.168.1.102").to_bits()].tokens, 7_000 * UNITS_PER_BYTE);
    stats_round(&mut buckets, &devices, true);
    assert_eq!(get_device_usage(&buckets, kept), (0, 5_000));
    assert!(second_has_passed(1_000_000_000));
    assert!(!second_has_passed(999_999_999));
}

#[test]
fn test_set_bandwidth_creates_bucket() {
    let mut buckets: HashMap<u32, TokenBucket> = HashMap::new();
    let ip = ip("192.168.1.100");

    set_bandwidth(&mut buckets, ip, 1_000_000);

    assert!(buckets.contains_key(&ip.to_bits()));
}

#[test]
fn test_block_device() {
    let mut buckets: HashMap<u32, TokenBucket> = HashMap::new();
    let ip = ip("192.168.1.100");

    block_device(&mut buckets, ip);

    assert_eq!(buckets[&ip.to_bits()].allowed_bytes_per_sec, 0);
}

#[test]
fn blocked_devices_are_dropped_and_unblocked_ones_pass() {
    let mut buckets: HashMap<u32, TokenBucket> = HashMap::new();
    let src = ip("192.168.1.100");
    let meta = PacketMetadata { src_ip: src, dst_ip: ip("8.8.8.8"), byte_len: 1, packet_id: 42 };
    block_device(&mut buckets, src);
    assert_eq!(decide_packet(&mut buckets, &meta), PacketDecision::Drop { packet_id: 42 });
    unblock_device(&mut buckets, src);
    assert_eq!(buckets[&src.to_bits()].allowed_bytes_per_sec, u64::MAX);
    let big = PacketMetadata { byte_len: u32::MAX, ..meta };
    assert_eq!(decide_packet(&mut buckets, &big), PacketDecision::Permit { packet_id: 42 });
}

#[test]
fn unknown_sources_get_an_unlimited_bucket() {
    let mut buckets: HashMap<u32, TokenBucket> = HashMap::new();
    let meta = PacketMetadata { src_ip: ip("10.1.2.3"), dst_ip: ip("8.8.8.8"), byte_len: 1500, packet_id: 9 };
    assert_eq!(decide_packet(&mut buckets, &meta), PacketDecision::Permit { packet_id: 9 });
    assert_eq!(buckets[&ip("10.1.2.3").to_bits()].allowed_bytes_per_sec, u64::MAX);
    set_bandwidth(&mut buckets, ip("10.1.2.3"), 1_000);
    let big = PacketMetadata { byte_len: 1_001, ..meta };
    assert_eq!(decide_packet(&mut buckets, &big), PacketDecision::Drop { packet_id: 9 });
}
