use netshaper::callout::{
    extract_ipv4, packet_metadata_from_fields, CalloutState, ClassifyStep, CleanupCounter, CALLOUT_MAX_PENDING,
    CALLOUT_TIMEOUT_MICROS, FWP_ACTION_BLOCK, FWP_ACTION_PERMIT,
};
use netshaper::clock::{get_current_micros, micros_or_zero, signed_micros, unix_micros_now};
use netshaper::engine::{WfpEngine, WfpError};
use netshaper::net::Ipv4Addr;
use netshaper::packet_injector::{construct_ipv4_header, InjectionHandle, InjectionType, PacketInjector};
use netshaper::packet_tracker::PacketTracker;
use netshaper::proto::{PacketDecision, PacketMetadata};

fn callout_tracker() -> PacketTracker {
    PacketTracker::new(CALLOUT_MAX_PENDING, CALLOUT_TIMEOUT_MICROS)
}

fn create_test_metadata(packet_id: u64, byte_len: u32) -> PacketMetadata {
    PacketMetadata {
        src_ip: Ipv4Addr::new(192, 168, 1, 100),
        dst_ip: Ipv4Addr::new(8, 8, 8, 8),
        byte_len,
        packet_id,
    }
}

#[test]
fn test_ipv4_extraction() {
    let addr = Ipv4Addr::new(192, 168, 1, 1);
    let u32_repr = u32::from_be_bytes(addr.octets());

    let [a, b, c, d] = u32_repr.to_be_bytes();
    let reconstructed = Ipv4Addr::new(a, b, c, d);
    assert_eq!(addr, reconstructed);
    assert_eq!(extract_ipv4(u32_repr), addr);
    assert_eq!(u32_repr, 0xC0A80101);
}

#[test]
fn test_ipv4_addresses() {
    let test_cases = vec![
        Ipv4Addr::new(127, 0, 0, 1),
        Ipv4Addr::new(192, 168, 0, 1),
        Ipv4Addr::new(10, 0, 0, 1),
        Ipv4Addr::new(172, 16, 0, 1),
        Ipv4Addr::new(8, 8, 8, 8),
    ];

    for addr in test_cases {
        let u32_repr = u32::from_be_bytes(addr.octets());
        let [a, b, c, d] = u32_repr.to_be_bytes();
        let reconstructed = Ipv4Addr::new(a, b, c, d);
        assert_eq!(addr, reconstructed, "Failed for {}", addr.to_string());
        assert_eq!(Ipv4Addr::from_bits(addr.to_bits()), addr, "Failed for {}", addr.to_string());
    }
}

#[test]
fn test_callback_structure() {
    let mut state = CalloutState::new();
    assert_eq!(state.classify_begin(None, 0), ClassifyStep::Finished { action: FWP_ACTION_PERMIT });
    assert_eq!(state.tracker.pending_count().unwrap(), 0);
}

#[test]
fn test_packet_metadata_construction() {
    let metadata = PacketMetadata {
        src_ip: Ipv4Addr::new(192, 168, 1, 100),
        dst_ip: Ipv4Addr::new(8, 8, 8, 8),
        byte_len: 1500,
        packet_id: 12345,
    };

    assert_eq!(metadata.src_ip.octets()[0], 192);
    assert_eq!(metadata.dst_ip.octets()[0], 8);
    assert_eq!(metadata.byte_len, 1500);
    assert_eq!(metadata.packet_id, 12345);
}

#[test]
fn metadata_from_callout_fields() {
    let m = packet_metadata_from_fields(0xC0A80164, 0x08080808, 1500, 12345);
    assert_eq!(m.src_ip, Ipv4Addr::new(192, 168, 1, 100));
    assert_eq!(m.dst_ip, Ipv4Addr::new(8, 8, 8, 8));
    assert_eq!(m.byte_len, 1500);
    assert_eq!(m.packet_id, 12345);
}

#[test]
fn test_tracker_integration_with_callback() {
    let tracker_owner = &mut callout_tracker();
    let metadata = PacketMetadata {
        src_ip: Ipv4Addr::new(192, 168, 1, 100),
        dst_ip: Ipv4Addr::new(192, 168, 1, 1),
        byte_len: 1460,
        packet_id: 54321,
    };

    let current_time = get_current_micros();

    let result = tracker_owner.add_pending(metadata, current_time);
    assert!(result.is_ok(), "Failed to add packet to tracker");

    if let Ok(is_pending) = tracker_owner.is_pending(metadata.packet_id) {
        assert!(is_pending, "Packet not tracked");
    }

    let decision = PacketDecision::Permit { packet_id: metadata.packet_id };
    let removed = tracker_owner.apply_decision(decision);
    assert!(removed.is_ok(), "Failed to apply decision");
    assert!(removed.unwrap().is_some(), "Packet not found in tracker");

    if let Ok(is_pending) = tracker_owner.is_pending(metadata.packet_id) {
        assert!(!is_pending, "Packet not removed after decision");
    }
}

#[test]
fn test_cleanup_counter_increments() {
    let mut counter = CleanupCounter::new();
    let initial = counter.load();

    for _ in 0..100 {
        let _ = counter.fetch_add(1);
    }

    let final_count = counter.load();
    let expected = initial.wrapping_add(100);

    assert_eq!(final_count, expected, "Cleanup counter not incremented correctly");
}

#[test]
fn cleanup_counter_wraps_around() {
    let mut counter = CleanupCounter { count: usize::MAX };
    assert_eq!(counter.fetch_add(2), usize::MAX);
    assert_eq!(counter.load(), 1);
}

#[test]
fn test_tracker_graceful_capacity_handling() {
    let mut tracker = callout_tracker();
    let current_time = get_current_micros();

    let mut added = 0;
    for i in 0..2500 {
        let metadata = PacketMetadata {
            src_ip: Ipv4Addr::new(192, 168, (i / 256) as u8, (i % 256) as u8),
            dst_ip: Ipv4Addr::new(10, 0, 0, 1),
            byte_len: 1460,
            packet_id: i as u64,
        };

        match tracker.add_pending(metadata, current_time) {
            Ok(_) => added += 1,
            Err(_) => {
                break;
            }
        }
    }

    assert!(added > 0, "Failed to add any packets to tracker");
    assert!(added <= 2000, "Tracker capacity exceeded expected maximum");
}

#[test]
fn test_decision_apply_permit() {
    let mut tracker = callout_tracker();
    let metadata = PacketMetadata {
        src_ip: Ipv4Addr::new(192, 168, 1, 50),
        dst_ip: Ipv4Addr::new(8, 8, 8, 8),
        byte_len: 1460,
        packet_id: 99999,
    };

    let current_time = get_current_micros();

    let _ = tracker.add_pending(metadata, current_time);
    let decision = PacketDecision::Permit { packet_id: metadata.packet_id };
    let result = tracker.apply_decision(decision);

    assert!(result.is_ok());
    assert!(result.unwrap().is_some());
}

#[test]
fn test_decision_apply_drop() {
    let mut tracker = callout_tracker();
    let metadata = PacketMetadata {
        src_ip: Ipv4Addr::new(10, 0, 0, 50),
        dst_ip: Ipv4Addr::new(192, 168, 1, 1),
        byte_len: 1460,
        packet_id: 88888,
    };

    let current_time = get_current_micros();

    let _ = tracker.add_pending(metadata, current_time);
    let decision = PacketDecision::Drop { packet_id: metadata.packet_id };
    let result = tracker.apply_decision(decision);

    assert!(result.is_ok());
    assert!(result.unwrap().is_some());
}

#[test]
fn test_timeout_cleanup() {
    let mut tracker = callout_tracker();
    let metadata = PacketMetadata {
        src_ip: Ipv4Addr::new(172, 16, 0, 1),
        dst_ip: Ipv4Addr::new(8, 8, 8, 8),
        byte_len: 1460,
        packet_id: 77777,
    };

    let start_time = get_current_micros();

    let _ = tracker.add_pending(metadata, start_time);
    if let Ok(is_pending) = tracker.is_pending(metadata.packet_id) {
        assert!(is_pending);
    }

    let future_time = start_time + 2_000_000;
    if let Ok(removed) = tracker.cleanup_expired(future_time) {
        assert!(removed > 0, "Cleanup should remove expired packets");
    }

    if let Ok(is_pending) = tracker.is_pending(metadata.packet_id) {
        assert!(!is_pending, "Expired packet not cleaned up");
    }
}

#[test]
fn test_injector_creation() {
    let injector = PacketInjector::new();
    assert!(!injector.is_initialized());
}

#[test]
fn test_concurrent_packet_tracking() {
    let mut tracker = callout_tracker();
    let current_time = get_current_micros();

    let num_packets = 500;
    let mut pending_count = 0;

    for i in 0..num_packets {
        let metadata = PacketMetadata {
            src_ip: Ipv4Addr::new(192, 168, (i / 256) as u8, (i % 256) as u8),
            dst_ip: Ipv4Addr::new(10, 0, 0, 1),
            byte_len: 1460,
            packet_id: 100000 + (i as u64),
        };

        if tracker.add_pending(metadata, current_time).is_ok() {
            pending_count += 1;
        }
    }

    assert!(pending_count > 100, "Should track at least 100 packets");
    assert!(pending_count <= num_packets, "Cannot exceed added packets");
}

#[test]
fn test_rapid_permit_drop_decisions() {
    let mut tracker = callout_tracker();
    let current_time = get_current_micros();

    let num_decisions = 100;
    let mut applied = 0;

    for i in 0..num_decisions {
        let metadata = PacketMetadata {
            src_ip: Ipv4Addr::new(192, 168, 0, (i % 256) as u8),
            dst_ip: Ipv4Addr::new(10, 0, 0, (i / 256) as u8),
            byte_len: 1460,
            packet_id: 200000 + (i as u64),
        };

        let _ = tracker.add_pending(metadata, current_time);

        let decision = if i % 2 == 0 {
            PacketDecision::Permit { packet_id: metadata.packet_id }
        } else {
            PacketDecision::Drop { packet_id: metadata.packet_id }
        };

        if tracker.apply_decision(decision).is_ok() {
            applied += 1;
        }
    }

    assert!(applied > 0, "Should apply at least some decisions");
}

#[test]
fn classify_blocks_a_dropped_packet_and_cleans_up_every_hundredth() {
    let mut state = CalloutState::new();
    let m = create_test_metadata(1, 100);
    assert_eq!(state.classify_begin(Some(m), 10), ClassifyStep::AwaitDaemon);
    assert_eq!(state.tracker.pending_count().unwrap(), 1);
    let action = state.classify_finish(&m, Some(PacketDecision::Drop { packet_id: 1 }), 10);
    assert_eq!(action, FWP_ACTION_BLOCK);
    assert_eq!(state.tracker.pending_count().unwrap(), 0);

    let stale = create_test_metadata(2, 100);
    assert_eq!(state.classify_begin(Some(stale), 0), ClassifyStep::AwaitDaemon);
    assert_eq!(state.classify_finish(&stale, None, 5_000_000), FWP_ACTION_PERMIT);
    assert!(state.tracker.is_pending(2).unwrap());
    for id in 3..101u64 {
        let m = create_test_metadata(id, 100);
        state.classify_begin(Some(m), 5_000_000);
        assert_eq!(state.classify_finish(&m, Some(PacketDecision::Permit { packet_id: id }), 5_000_000), FWP_ACTION_PERMIT);
    }
    assert_eq!(state.cleanup_counter.load(), 100);
    assert!(state.tracker.is_pending(2).unwrap());
    let m = create_test_metadata(101, 100);
    state.classify_begin(Some(m), 5_000_000);
    state.classify_finish(&m, None, 5_000_000);
    assert!(!state.tracker.is_pending(2).unwrap());
    assert!(state.tracker.is_pending(101).unwrap());
}

#[test]
fn test_packet_injector_creation() {
    let injector = PacketInjector::new();
    assert!(injector.injection_handle.is_none());
    assert_eq!(injector.buffer.capacity(), 1500);
}

#[test]
fn test_ipv4_header_construction() {
    let src = Ipv4Addr::new(192, 168, 1, 100);
    let dst = Ipv4Addr::new(8, 8, 8, 8);

    let header = construct_ipv4_header(src, dst, 1, 56);

    assert_eq!(header.len(), 20, "IPv4 header should be 20 bytes");
    assert_eq!(header[0], 0x45);
    assert_eq!(header[9], 0x01);
}

#[test]
fn ipv4_header_bytes() {
    let header = construct_ipv4_header(Ipv4Addr::new(10, 0, 0, 1), Ipv4Addr::new(10, 0, 0, 2), 6, 300);
    assert_eq!(
        header,
        vec![0x45, 0, 1, 64, 0x30, 0x39, 0x40, 0, 64, 6, 0, 0, 10, 0, 0, 1, 10, 0, 0, 2]
    );
}

#[test]
fn test_inject_tcp_reset() {
    let mut injector = PacketInjector::new();
    let metadata = PacketMetadata {
        src_ip: Ipv4Addr::new(192, 168, 1, 100),
        dst_ip: Ipv4Addr::new(8, 8, 8, 8),
        byte_len: 1500,
        packet_id: 5001,
    };

    let result = injector.inject_tcp_reset(&metadata, 443, 54321);
    assert!(result.is_ok());
    assert!(result.unwrap() > 0);
}

#[test]
fn test_inject_icmp_unreachable() {
    let mut injector = PacketInjector::new();
    let metadata = PacketMetadata {
        src_ip: Ipv4Addr::new(10, 0, 0, 1),
        dst_ip: Ipv4Addr::new(10, 0, 0, 2),
        byte_len: 512,
        packet_id: 5002,
    };

    let result = injector.inject_icmp_unreachable(&metadata);
    assert!(result.is_ok());
    assert!(result.unwrap() > 0);
}

#[test]
fn test_default_constructor() {
    let injector = PacketInjector::default();
    assert!(injector.injection_handle.is_none());
}

#[test]
fn injector_initialization_and_drop_decisions() {
    let mut injector = PacketInjector::new();
    let m = create_test_metadata(1, 10);
    assert!(injector.apply_drop_decision(&m, false).is_ok());
    injector.initialize(InjectionHandle { raw: 7 });
    assert!(injector.is_initialized());
    assert!(injector.apply_drop_decision(&m, false).is_ok());
    assert!(injector.apply_drop_decision(&m, true).is_ok());
    assert_eq!(InjectionType::TcpReset.code(), 1);
    assert_eq!(InjectionType::IcmpUnreachable.code(), 2);
}

#[test]
fn test_tracker_creation() {
    let tracker = PacketTracker::default();
    assert_eq!(tracker.pending_count().unwrap(), 0);
}

#[test]
fn test_add_pending_packet() {
    let mut tracker = PacketTracker::default();
    let metadata = create_test_metadata(1001, 1500);

    assert!(tracker.add_pending(metadata, 0).is_ok());
    assert_eq!(tracker.pending_count().unwrap(), 1);
    assert!(tracker.is_pending(1001).unwrap());
}

#[test]
fn test_apply_permit_decision() {
    let mut tracker = PacketTracker::default();
    let metadata = create_test_metadata(2001, 1500);

    tracker.add_pending(metadata, 0).unwrap();
    assert!(tracker.is_pending(2001).unwrap());

    let decision = PacketDecision::Permit { packet_id: 2001 };
    let result = tracker.apply_decision(decision).unwrap();

    assert!(result.is_some());
    assert!(!tracker.is_pending(2001).unwrap());
}

#[test]
fn test_apply_drop_decision() {
    let mut tracker = PacketTracker::default();
    let metadata = create_test_metadata(3001, 1024);

    tracker.add_pending(metadata.clone(), 0).unwrap();

    let decision = PacketDecision::Drop { packet_id: 3001 };
    let result = tracker.apply_decision(decision).unwrap();

    assert!(result.is_some());
    let packet = result.unwrap();
    assert_eq!(packet.metadata.packet_id, 3001);
    assert_eq!(packet.metadata.byte_len, 1024);
    assert_eq!(packet.decision, Some(PacketDecision::Drop { packet_id: 3001 }));
}

#[test]
fn test_apply_decision_not_found() {
    let mut tracker = PacketTracker::default();

    let decision = PacketDecision::Permit { packet_id: 9999 };
    let result = tracker.apply_decision(decision).unwrap();

    assert!(result.is_none());
}

#[test]
fn test_cleanup_expired() {
    let mut tracker = PacketTracker::new(100, 1000);

    let metadata = create_test_metadata(4001, 1500);
    tracker.add_pending(metadata, 0).unwrap();

    let removed = tracker.cleanup_expired(500).unwrap();
    assert_eq!(removed, 0);
    assert!(tracker.is_pending(4001).unwrap());

    let removed = tracker.cleanup_expired(1500).unwrap();
    assert_eq!(removed, 1);
    assert!(!tracker.is_pending(4001).unwrap());
}

#[test]
fn test_max_pending_capacity() {
    let mut tracker = PacketTracker::new(2, 1_000_000);

    assert!(tracker.add_pending(create_test_metadata(1, 1500), 0).is_ok());

    assert!(tracker.add_pending(create_test_metadata(2, 1500), 0).is_ok());

    assert!(tracker.add_pending(create_test_metadata(3, 1500), 0).is_err());

    assert_eq!(tracker.pending_count().unwrap(), 2);
}

#[test]
fn cleanup_removes_at_exactly_the_timeout() {
    let mut tracker = PacketTracker::new(10, 1000);
    tracker.add_pending(create_test_metadata(1, 1), 100).unwrap();
    tracker.add_pending(create_test_metadata(2, 1), 2000).unwrap();
    assert_eq!(tracker.cleanup_expired(1099).unwrap(), 0);
    assert_eq!(tracker.cleanup_expired(1100).unwrap(), 1);
    assert!(!tracker.is_pending(1).unwrap());
    assert!(tracker.is_pending(2).unwrap());
    assert_eq!(tracker.cleanup_expired(0).unwrap(), 0);
    assert!(tracker.is_pending(2).unwrap());
}

#[test]
fn tracker_full_error_message() {
    let mut tracker = PacketTracker::new(0, 10);
    assert_eq!(tracker.add_pending(create_test_metadata(1, 1), 0), Err("Too many pending packets"));
}

#[test]
fn test_multiple_concurrent_packets() {
    let mut tracker = PacketTracker::default();

    for i in 1..=10 {
        let metadata = create_test_metadata(i as u64, 1500);
        assert!(tracker.add_pending(metadata, 0).is_ok());
    }

    assert_eq!(tracker.pending_count().unwrap(), 10);

    for i in 1..=5 {
        let decision = if i % 2 == 0 {
            PacketDecision::Permit { packet_id: i as u64 }
        } else {
            PacketDecision::Drop { packet_id: i as u64 }
        };
        tracker.apply_decision(decision).unwrap();
    }

    assert_eq!(tracker.pending_count().unwrap(), 5);
}

#[test]
fn clock_readings() {
    assert!(get_current_micros() > 1_600_000_000_000_000);
    assert_eq!(micros_or_zero(None), 0);
    assert_eq!(micros_or_zero(Some(42)), 42);
    assert_eq!(micros_or_zero(Some((1u128 << 64) + 5)), 5);
    assert!(unix_micros_now() > 1_600_000_000_000_000);
    assert_eq!(signed_micros(Some(5), None), 5);
    assert_eq!(signed_micros(None, Some(7)), -7);
    assert_eq!(signed_micros(None, None), 0);
    assert_eq!(signed_micros(Some(u128::MAX), None), i64::MAX);
    assert_eq!(signed_micros(None, Some(u128::MAX)), -i64::MAX);
}

#[test]
fn engine_open_status() {
    let engine = WfpEngine::from_open_status(0, 99).unwrap();
    assert_eq!(engine.handle(), 99);
    match WfpEngine::from_open_status(5, 99) {
        Err(e) => assert_eq!(e, WfpError::EngineOpenFailed(5)),
        Ok(_) => panic!("a failed open gives no session"),
    }
}
