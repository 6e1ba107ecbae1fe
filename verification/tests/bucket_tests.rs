use netshaper::bucket::{DeferredPacket, DeviceBucket};
use netshaper::clock::{get_current_micros, UNITS_PER_BYTE};
use netshaper::device_registry::DeviceRegistry;
use netshaper::ipc::classify_packet;
use netshaper::net::{parse_ipv4, Ipv4Addr};
use netshaper::proto::{PacketDecision, PacketMetadata};
use netshaper::scheduler::{drained_decisions, scheduler_tick, DrainReport};
use std::time::{Duration, Instant};

fn ip(text: &str) -> Ipv4Addr {
    parse_ipv4(text).unwrap()
}

/// Waits, without yielding the thread, until `d` has passed.
fn wait(d: Duration) {
    let start = Instant::now();
    while start.elapsed() < d {}
}

/// A balance of `n` bytes, in balance units.
fn bytes(n: u128) -> u128 {
    n * UNITS_PER_BYTE
}

#[test]
fn test_refill_adds_tokens() {
    let mut bucket = DeviceBucket::new(1_000_000);
    bucket.current_tokens = 0;
    bucket.last_refill = Instant::now();

    wait(Duration::from_millis(100));

    bucket.refill();
    let expected_tokens = bytes(100_000);
    assert!(bucket.current_tokens * 100 >= expected_tokens * 95);
}

#[test]
fn test_try_consume_succeeds_when_available() {
    let mut bucket = DeviceBucket::new(1_000_000);
    bucket.current_tokens = bytes(5000);

    assert!(bucket.try_consume(1000));
    assert_eq!(bucket.current_tokens, bytes(4000));
}

#[test]
fn test_try_consume_fails_when_empty() {
    let mut bucket = DeviceBucket::new(1_000_000);
    bucket.current_tokens = 0;

    assert!(!bucket.try_consume(1000));
    assert_eq!(bucket.current_tokens, 0);
}

#[test]
fn test_burst_cap() {
    let bucket = DeviceBucket::new(1_000_000);
    assert_eq!(bucket.max_burst_bytes, 2_000_000);
    assert_eq!(bucket.current_tokens, bytes(2_000_000));
}

#[test]
fn test_throttle_timing() {
    let mut bucket = DeviceBucket::new(100_000);
    bucket.current_tokens = 0;
    bucket.last_refill = Instant::now();

    let start = Instant::now();

    for _ in 0..10 {
        while !bucket.try_consume(10_000) {
            wait(Duration::from_millis(10));
        }
    }

    let elapsed = start.elapsed();
    assert!(elapsed >= Duration::from_millis(900));
    assert!(elapsed <= Duration::from_millis(1100));
}

#[test]
fn bucket_capacity_saturates() {
    let bucket = DeviceBucket::new(u64::MAX);
    assert_eq!(bucket.max_burst_bytes, u64::MAX);
    assert_eq!(bucket.current_tokens, bytes(u64::MAX as u128));
    assert_eq!(bucket.queue_depth(), 0);
}

#[test]
fn refill_never_exceeds_capacity() {
    let mut bucket = DeviceBucket::new(1_000);
    bucket.last_refill = Instant::now() - Duration::from_secs(60);
    bucket.refill();
    assert_eq!(bucket.current_tokens, bytes(2_000));
}

#[test]
fn drain_releases_in_order_and_requeues_the_first_that_does_not_fit() {
    let mut bucket = DeviceBucket::new(1);
    let now = get_current_micros();
    for (id, len) in [(1u64, 300u32), (2, 300), (3, 600), (4, 100)] {
        bucket.enqueue(DeferredPacket { packet_id: id, byte_len: len, queued_at: now });
    }
    bucket.current_tokens = bytes(700);
    let ready = bucket.drain_covered();
    let ids: Vec<u64> = ready.iter().map(|p| p.packet_id).collect();
    assert_eq!(ids, vec![1, 2]);
    assert_eq!(bucket.current_tokens, bytes(100));
    assert_eq!(bucket.queue_depth(), 2);
    bucket.current_tokens = bytes(10_000);
    let ready = bucket.drain_covered();
    let ids: Vec<u64> = ready.iter().map(|p| p.packet_id).collect();
    assert_eq!(ids, vec![4, 3]);
    assert_eq!(bucket.queue_depth(), 0);
}

#[test]
fn test_insert_and_get() {
    let mut registry = DeviceRegistry::new();
    let ip = ip("192.168.1.100");

    registry.insert_device(ip, 1_000_000);
    assert!(registry.get_bucket(ip).is_some());
}

#[test]
fn test_remove_device() {
    let mut registry = DeviceRegistry::new();
    let ip = ip("192.168.1.100");

    registry.insert_device(ip, 1_000_000);
    assert!(registry.remove_device(ip).is_some());
    assert!(registry.get_bucket(ip).is_none());
}

#[test]
fn test_list_devices() {
    let mut registry = DeviceRegistry::new();
    let ip1 = ip("192.168.1.100");
    let ip2 = ip("192.168.1.101");

    registry.insert_device(ip1, 1_000_000);
    registry.insert_device(ip2, 2_000_000);

    let devices = registry.list_devices();
    assert_eq!(devices.len(), 2);
    assert!(devices.contains(&ip1));
    assert!(devices.contains(&ip2));
}

#[test]
fn test_update_bandwidth() {
    let mut registry = DeviceRegistry::new();
    let ip = ip("192.168.1.100");

    registry.insert_device(ip, 1_000_000);
    registry.update_bandwidth(ip, 2_000_000);

    let bucket = registry.get_bucket(ip).unwrap();
    assert_eq!(bucket.allowed_bytes_per_sec, 2_000_000);
}

#[test]
fn update_bandwidth_of_unknown_device_does_nothing() {
    let mut registry = DeviceRegistry::default();
    registry.update_bandwidth(ip("10.0.0.1"), 5);
    assert_eq!(registry.count(), 0);
    assert!(registry.get_bucket(ip("10.0.0.1")).is_none());
}

#[test]
fn test_multiple_devices_with_different_rates() {
    let mut registry = DeviceRegistry::new();

    let ip1 = ip("192.168.1.100");
    let ip2 = ip("192.168.1.101");
    let ip3 = ip("192.168.1.102");

    registry.insert_device(ip1, 1_000_000);
    registry.insert_device(ip2, 5_000_000);
    registry.insert_device(ip3, 100_000);

    assert_eq!(registry.count(), 3);

    assert_eq!(registry.get_bucket(ip1).unwrap().allowed_bytes_per_sec, 1_000_000);
    assert_eq!(registry.get_bucket(ip2).unwrap().allowed_bytes_per_sec, 5_000_000);
    assert_eq!(registry.get_bucket(ip3).unwrap().allowed_bytes_per_sec, 100_000);
}

#[test]
fn test_update_bandwidth_dynamically() {
    let mut registry = DeviceRegistry::new();
    let ip = ip("192.168.1.100");

    registry.insert_device(ip, 1_000_000);
    assert_eq!(registry.get_bucket(ip).unwrap().allowed_bytes_per_sec, 1_000_000);

    registry.update_bandwidth(ip, 5_000_000);
    assert_eq!(registry.get_bucket(ip).unwrap().allowed_bytes_per_sec, 5_000_000);

    registry.update_bandwidth(ip, 0);
    assert_eq!(registry.get_bucket(ip).unwrap().allowed_bytes_per_sec, 0);
}

#[test]
fn test_token_bucket_with_real_timing() {
    let mut registry = DeviceRegistry::new();
    let ip = ip("192.168.1.100");

    registry.insert_device(ip, 1_000_000);

    {
        let bucket = registry.get_bucket_mut(ip).unwrap();
        bucket.current_tokens = 0;
    }

    let start = Instant::now();

    wait(Duration::from_millis(100));

    {
        let bucket = registry.get_bucket_mut(ip).unwrap();
        bucket.refill();
        let expected = bytes(100_000);
        assert!(bucket.current_tokens * 100 >= expected * 95);
        assert!(bucket.current_tokens * 100 <= expected * 105);
    }

    let elapsed = start.elapsed();
    assert!(elapsed >= Duration::from_millis(95));
}

#[test]
fn test_consume_tokens_success_and_failure() {
    let mut registry = DeviceRegistry::new();
    let ip = ip("192.168.1.100");

    registry.insert_device(ip, 1_000_000);

    {
        let bucket = registry.get_bucket_mut(ip).unwrap();
        bucket.current_tokens = bytes(1000);
    }

    {
        let bucket = registry.get_bucket_mut(ip).unwrap();
        assert!(bucket.try_consume(500));
        assert_eq!(bucket.current_tokens, bytes(500));
    }

    {
        let bucket = registry.get_bucket_mut(ip).unwrap();
        assert!(!bucket.try_consume(1000));
        assert_eq!(bucket.current_tokens, bytes(500));
    }

    {
        let bucket = registry.get_bucket_mut(ip).unwrap();
        assert!(bucket.try_consume(500));
        assert_eq!(bucket.current_tokens, 0);
    }
}

#[test]
fn test_device_removal() {
    let mut registry = DeviceRegistry::new();
    let ip = ip("192.168.1.100");

    registry.insert_device(ip, 1_000_000);
    assert_eq!(registry.count(), 1);

    let removed = registry.remove_device(ip);
    assert!(removed.is_some());
    assert_eq!(registry.count(), 0);

    assert!(registry.get_bucket(ip).is_none());
}

#[test]
fn test_burst_capacity_enforcement() {
    let mut registry = DeviceRegistry::new();
    let ip = ip("192.168.1.100");

    registry.insert_device(ip, 1_000_000);

    let bucket = registry.get_bucket(ip).unwrap();
    assert_eq!(bucket.max_burst_bytes, 2_000_000);
    assert_eq!(bucket.current_tokens, bytes(2_000_000));
}

#[test]
fn test_queue_depth_tracking() {
    let mut registry = DeviceRegistry::new();
    let ip = ip("192.168.1.100");

    registry.insert_device(ip, 100_000);

    {
        let bucket = registry.get_bucket_mut(ip).unwrap();
        bucket.current_tokens = 0;
    }

    {
        let bucket = registry.get_bucket_mut(ip).unwrap();
        for i in 0..5 {
            bucket.enqueue(DeferredPacket { packet_id: i, byte_len: 1000, queued_at: get_current_micros() });
        }
    }

    {
        let bucket = registry.get_bucket(ip).unwrap();
        assert_eq!(bucket.queue_depth(), 5);
    }

    {
        let bucket = registry.get_bucket_mut(ip).unwrap();
        let ready = bucket.drain_ready();
        assert_eq!(ready.len(), 0);
        assert_eq!(bucket.queue_depth(), 5);
    }

    wait(Duration::from_millis(50));
    {
        let bucket = registry.get_bucket_mut(ip).unwrap();
        bucket.refill();
        assert!(bucket.current_tokens >= bytes(4_000));
    }

    {
        let bucket = registry.get_bucket_mut(ip).unwrap();
        let ready = bucket.drain_ready();
        assert!(ready.len() >= 4);
    }
}

#[test]
fn test_classify_packet() {
    let mut registry = DeviceRegistry::new();
    registry.insert_device(Ipv4Addr::new(192, 168, 1, 100), 1_000_000);

    let metadata = PacketMetadata {
        src_ip: Ipv4Addr::new(192, 168, 1, 1),
        dst_ip: Ipv4Addr::new(192, 168, 1, 100),
        byte_len: 512,
        packet_id: 1,
    };

    let decision = classify_packet(&metadata, &mut registry);
    match decision {
        PacketDecision::Permit { packet_id } => {
            assert_eq!(packet_id, 1);
        }
        _ => panic!("Expected Permit"),
    }
}

#[test]
fn classify_drops_when_bucket_is_empty_and_permits_unknown_devices() {
    let mut registry = DeviceRegistry::new();
    let dst = Ipv4Addr::new(192, 168, 1, 100);
    registry.insert_device(dst, 0);
    let metadata = PacketMetadata { src_ip: Ipv4Addr::new(192, 168, 1, 1), dst_ip: dst, byte_len: 512, packet_id: 7 };
    assert_eq!(classify_packet(&metadata, &mut registry), PacketDecision::Drop { packet_id: 7 });
    let other = PacketMetadata { dst_ip: Ipv4Addr::new(192, 168, 1, 200), packet_id: 8, ..metadata };
    assert_eq!(classify_packet(&other, &mut registry), PacketDecision::Permit { packet_id: 8 });
    assert_eq!(registry.count(), 1);
}

#[test]
fn scheduler_tick_releases_what_the_balance_covers() {
    let mut registry = DeviceRegistry::new();
    let busy = ip("192.168.1.100");
    let idle = ip("192.168.1.101");
    registry.insert_device(busy, 1);
    registry.insert_device(idle, 1);
    {
        let bucket = registry.get_bucket_mut(busy).unwrap();
        for i in 0..3 {
            bucket.enqueue(DeferredPacket { packet_id: i, byte_len: 1, queued_at: get_current_micros() });
        }
    }
    let reports = scheduler_tick(&mut registry);
    assert_eq!(reports.len(), 1);
    assert_eq!(reports[0].ip, busy);
    let ids: Vec<u64> = reports[0].packets.iter().map(|p| p.packet_id).collect();
    assert_eq!(ids, vec![0, 1]);
    assert_eq!(registry.get_bucket(busy).unwrap().queue_depth(), 1);
    assert_eq!(reports[0].remaining_tokens, 0);
}

#[test]
fn drained_packets_are_permitted_in_order() {
    let packets = vec![
        DeferredPacket { packet_id: 7, byte_len: 100, queued_at: 1 },
        DeferredPacket { packet_id: 3, byte_len: 200, queued_at: 2 },
        DeferredPacket { packet_id: 9, byte_len: 300, queued_at: 3 },
    ];
    let report = DrainReport { ip: ip("192.168.1.100"), packets, remaining_tokens: 0 };
    assert_eq!(
        drained_decisions(&report),
        vec![
            PacketDecision::Permit { packet_id: 7 },
            PacketDecision::Permit { packet_id: 3 },
            PacketDecision::Permit { packet_id: 9 },
        ]
    );
    let empty = DrainReport { ip: ip("192.168.1.100"), packets: Vec::new(), remaining_tokens: 5 };
    assert!(drained_decisions(&empty).is_empty());
}
