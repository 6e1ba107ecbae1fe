use base64::Engine;
use netshaper::http::{
    add_device_by_ip, approve_device, deny_device, device_counts, get_pair_page, get_qr, post_pair, set_bandwidth,
    token_matches, AddByIpOutcome, PairOutcome, PairPageOutcome, PairRequest, QrOutcome,
};
use netshaper::ipc::{frame_header, frame_length};
use netshaper::lan::{lan_ip_from_ipconfig, server_ip_from};
use netshaper::net::{parse_ipv4, Ipv4Addr};
use netshaper::qr::{generate_qr_svg, qr_data_url_from_rendering, svg_from_rendering};
use netshaper::registry::{DeviceRegistry, QrCodeData, DEFAULT_BANDWIDTH_LIMIT};
use netshaper::token_bucket::TokenBucket;
use netshaper::ui::{api_url, device_action_url, get_mock_devices, AppState, DAEMON_URL, HTTP_TIMEOUT};
use std::collections::HashMap;

fn ip(text: &str) -> Ipv4Addr {
    parse_ipv4(text).unwrap()
}

fn pairing() -> Option<QrCodeData> {
    Some(QrCodeData { token: "tok-123".to_string(), created_at: 0 })
}

fn pair(registry: &mut DeviceRegistry, device_ip: Option<&str>, name: Option<&str>) -> PairOutcome {
    post_pair(
        registry,
        &pairing(),
        PairRequest {
            token: "tok-123".to_string(),
            platform: "iOS".to_string(),
            device_name: name.map(|n| n.to_string()),
            device_ip: device_ip.map(|n| n.to_string()),
        },
    )
}

#[test]
fn parse_and_format_addresses() {
    assert_eq!(parse_ipv4("192.168.1.100"), Some(Ipv4Addr::new(192, 168, 1, 100)));
    assert_eq!(parse_ipv4("0.0.0.0"), Some(Ipv4Addr::new(0, 0, 0, 0)));
    assert_eq!(parse_ipv4("255.255.255.255"), Some(Ipv4Addr::new(255, 255, 255, 255)));
    for bad in ["", "01.2.3.4", "256.1.1.1", "1.2.3", "1.2.3.4.5", " 1.2.3.4", "1..2.3", "1.2.3.-4", "a.b.c.d", "1.2.3.4 "] {
        assert_eq!(parse_ipv4(bad), None, "accepted {:?}", bad);
    }
    let addr = Ipv4Addr::new(10, 0, 200, 7);
    assert_eq!(addr.to_string(), "10.0.200.7");
    assert_eq!(parse_ipv4(&addr.to_string()), Some(addr));
    assert_eq!(addr.octets(), [10, 0, 200, 7]);
    assert_eq!(addr.to_bits(), 0x0A00C807);
}

#[test]
fn length_prefixes() {
    assert_eq!(frame_header(20), [20, 0, 0, 0]);
    assert_eq!(frame_header(0x01020304), [4, 3, 2, 1]);
    assert_eq!(frame_length([1, 1, 0, 0]), 257);
    assert_eq!(frame_length(frame_header(123_456)), 123_456);
    assert_eq!(frame_header((1usize << 32) + 5), [5, 0, 0, 0]);
}

#[test]
fn lan_address_from_ipconfig() {
    let output = "Windows IP Configuration\r\n\r\nEthernet adapter vEthernet (WSL):\r\n\r\n   IPv4 Address. . . . . . . . . . . : 172.17.44.89\r\n   Subnet Mask . . . . . . . . . . . : 255.255.240.0\r\n\r\nLoopback:\r\n   IPv4 Address. . . . . . . . . . . : 127.0.0.1\r\n\r\nWireless LAN adapter Wi-Fi:\r\n   IPv4 Address. . . . . . . . . . . : 192.168.1.23\r\n";
    assert_eq!(lan_ip_from_ipconfig(output), Some("192.168.1.23".to_string()));
    let only_other = "   IPv4 Address. . . : 172.17.44.89\n   IPv4 Address. . . : 172.18.0.1\n";
    assert_eq!(lan_ip_from_ipconfig(only_other), Some("172.17.44.89".to_string()));
    let ten = "IPv4 Address: 172.16.0.2\nIPv4 Address:\t10.0.0.5 \n";
    assert_eq!(lan_ip_from_ipconfig(ten), Some("10.0.0.5".to_string()));
    assert_eq!(lan_ip_from_ipconfig("IPv4 Address. . : 127.0.0.1\r\n"), None);
    assert_eq!(lan_ip_from_ipconfig(""), None);
    assert_eq!(lan_ip_from_ipconfig("IPv6 Address . . : fe80::1"), None);
    assert_eq!(server_ip_from(Some(output), Some("10.9.9.9".to_string())), "192.168.1.23");
    assert_eq!(server_ip_from(Some(""), Some("10.9.9.9".to_string())), "10.9.9.9");
    assert_eq!(server_ip_from(None, None), "127.0.0.1");
}

#[test]
fn svg_of_a_rendering() {
    let svg = svg_from_rendering("\u{2588} \n \u{2588}");
    assert_eq!(
        svg,
        "<svg xmlns=\"http://www.w3.org/2000/svg\" width=\"40\" height=\"20\" viewBox=\"0 0 40 20\"><rect width=\"100%\" height=\"100%\" fill=\"white\"/><rect x=\"0\" y=\"0\" width=\"10\" height=\"10\" fill=\"black\"/><rect x=\"10\" y=\"10\" width=\"10\" height=\"10\" fill=\"black\"/></svg>"
    );
    let url = qr_data_url_from_rendering("\u{2588} \n \u{2588}").unwrap();
    let expected = format!(
        "data:image/svg+xml;base64,{}",
        base64::engine::general_purpose::STANDARD.encode(svg.as_bytes())
    );
    assert_eq!(url, expected);
}

#[test]
fn qr_code_picture() {
    let url = generate_qr_svg("http://tok:8080/pair?token=tok").unwrap();
    let prefix = "data:image/svg+xml;base64,";
    assert!(url.starts_with(prefix));
    let svg = base64::engine::general_purpose::STANDARD.decode(&url[prefix.len()..]).unwrap();
    let svg = String::from_utf8(svg).unwrap();
    assert!(svg.starts_with("<svg xmlns=\"http://www.w3.org/2000/svg\""));
    assert!(svg.contains("fill=\"black\""));
    assert!(svg.ends_with("</svg>"));
}

#[test]
fn qr_endpoint() {
    assert!(matches!(get_qr(&None), QrOutcome::NotInitialized));
    match get_qr(&pairing()) {
        QrOutcome::Ready { response } => {
            assert_eq!(response.pairing_url, "http://tok-123:8080/pair?token=tok-123");
            assert!(response.qr_image.starts_with("data:image/svg+xml;base64,"));
        }
        _ => panic!("expected a QR code"),
    }
}

#[test]
fn pairing_page_needs_the_token() {
    assert_eq!(get_pair_page(&pairing(), None), PairPageOutcome::MissingToken);
    assert_eq!(get_pair_page(&pairing(), Some("nope")), PairPageOutcome::InvalidToken);
    assert_eq!(get_pair_page(&pairing(), Some("tok-123")), PairPageOutcome::Page);
    assert_eq!(get_pair_page(&None, Some("tok-123")), PairPageOutcome::InvalidToken);
    assert!(token_matches(&pairing(), "tok-123"));
    assert!(!token_matches(&pairing(), "tok-12"));
}

#[test]
fn pairing_adds_a_pending_device() {
    let mut registry = DeviceRegistry::new();
    let refused = post_pair(
        &mut registry,
        &pairing(),
        PairRequest { token: "wrong".to_string(), platform: "iOS".to_string(), device_name: None, device_ip: None },
    );
    assert!(matches!(refused, PairOutcome::InvalidToken));
    assert!(registry.get_all().is_empty());

    let device = match pair(&mut registry, Some("10.0.0.9"), Some("phone")) {
        PairOutcome::Pending { device } => device,
        _ => panic!("expected a pending device"),
    };
    assert_eq!(device.ip, ip("10.0.0.9"));
    assert_eq!(device.device_name, "phone");
    assert_eq!(device.platform, "iOS");
    assert!(!device.approved);
    assert_eq!(device.bandwidth_limit, DEFAULT_BANDWIDTH_LIMIT);
    assert_eq!(device.id.len(), 36);
    assert_eq!(device.id.as_bytes()[14], b'4');
    assert!(matches!(device.id.as_bytes()[19], b'8' | b'9' | b'a' | b'b'));
    assert!(device.enrolled_at > 1_600_000_000_000_000);

    let fallback = match pair(&mut registry, Some("not an address"), None) {
        PairOutcome::Pending { device } => device,
        _ => panic!("expected a pending device"),
    };
    assert_eq!(fallback.ip, ip("192.168.1.100"));
    assert_eq!(fallback.device_name, "Wireless Device");
    assert_eq!(registry.get_all().len(), 2);
    assert_ne!(device.id, fallback.id);
}

#[test]
fn approval_denial_and_limits() {
    let mut registry = DeviceRegistry::new();
    let mut buckets: HashMap<u32, TokenBucket> = HashMap::new();
    let device = match pair(&mut registry, Some("192.168.1.50"), Some("laptop")) {
        PairOutcome::Pending { device } => device,
        _ => panic!("expected a pending device"),
    };
    assert!(approve_device(&mut registry, &mut buckets, "no-such-id", 5).is_none());
    assert!(buckets.is_empty());

    let approved = approve_device(&mut registry, &mut buckets, &device.id, 5).unwrap();
    assert!(approved.approved);
    assert_eq!(approved.bandwidth_limit, 5_000_000);
    assert_eq!(buckets[&device.ip.to_bits()].allowed_bytes_per_sec, 5_000_000);
    assert_eq!(registry.get_approved().len(), 1);
    assert_eq!(registry.get_by_id(&device.id).unwrap().bandwidth_limit, 5_000_000);

    assert!(set_bandwidth(&mut registry, &mut buckets, &device.id, 1234));
    assert_eq!(registry.get_by_ip(device.ip).unwrap().bandwidth_limit, 1234);
    assert_eq!(buckets[&device.ip.to_bits()].allowed_bytes_per_sec, 1234);
    assert!(!set_bandwidth(&mut registry, &mut buckets, "no-such-id", 1));

    let counts = device_counts(&registry.get_all());
    assert_eq!((counts.total, counts.approved, counts.pending), (1, 1, 0));

    assert!(deny_device(&mut registry, &mut buckets, &device.id));
    assert!(registry.get_by_id(&device.id).is_none());
    assert_eq!(buckets[&device.ip.to_bits()].allowed_bytes_per_sec, 0);
    assert!(!deny_device(&mut registry, &mut buckets, &device.id));
}

#[test]
fn registry_keeps_pairing_order() {
    let mut registry = DeviceRegistry::new();
    let a = registry.add_pending_device(ip("10.0.0.1"), "iOS".to_string(), "a".to_string());
    let b = registry.add_pending_device(ip("10.0.0.2"), "Android".to_string(), "b".to_string());
    let all = registry.get_all();
    assert_eq!(all.len(), 2);
    assert_eq!(all[0].id, a.id);
    assert_eq!(all[1].id, b.id);
    assert!(registry.get_approved().is_empty());
    let updated = registry.update_bandwidth(&b.id, 77).unwrap();
    assert_eq!(updated.bandwidth_limit, 77);
    assert!(registry.approve_device(&a.id, 9).unwrap().approved);
    assert_eq!(registry.get_approved()[0].id, a.id);
    assert!(registry.deny_device(&a.id));
    assert_eq!(registry.get_all().len(), 1);
    assert!(registry.get_by_ip(ip("10.0.0.1")).is_none());
    let counts = device_counts(&registry.get_all());
    assert_eq!((counts.total, counts.approved, counts.pending), (1, 0, 1));
}

#[test]
fn adding_devices_by_address() {
    let mut registry = DeviceRegistry::new();
    assert!(matches!(add_device_by_ip(&mut registry, None), AddByIpOutcome::MissingIp));
    assert!(matches!(add_device_by_ip(&mut registry, Some("300.1.1.1")), AddByIpOutcome::InvalidIp));
    let device = match add_device_by_ip(&mut registry, Some("192.168.1.77")) {
        AddByIpOutcome::Registered { device } => device,
        _ => panic!("expected a registered device"),
    };
    assert_eq!(device.ip, ip("192.168.1.77"));
    assert_eq!(device.platform, "Unknown");
    assert_eq!(device.device_name, "192.168.1.77");
    match add_device_by_ip(&mut registry, Some("192.168.1.77")) {
        AddByIpOutcome::AlreadyRegistered { device_name } => assert_eq!(device_name, "192.168.1.77"),
        _ => panic!("expected a conflict"),
    }
    assert_eq!(registry.get_all().len(), 1);
}

#[test]
fn test_mock_devices() {
    let devices = get_mock_devices();
    assert_eq!(devices.len(), 2);
    assert!(devices[0].approved);
    assert!(!devices[1].approved);
}

#[test]
fn test_app_state_creation() {
    let state = AppState::new();
    let _ = state;
}

#[test]
fn daemon_urls() {
    assert_eq!(api_url("/qr"), format!("{}/qr", DAEMON_URL));
    assert_eq!(device_action_url("abc", "approve"), "http://172.17.44.89:8080/devices/abc/approve");
    assert_eq!(HTTP_TIMEOUT, 5);
}
