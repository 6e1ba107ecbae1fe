//! The decisions of the daemon's HTTP API: pairing with a token, approval
//! and denial of devices, bandwidth limits, registration by address, the
//! device counts and the pairing QR code.
use crate::net::{ipv4_text, parse_ipv4, Ipv4Addr};
use crate::qr::{generate_qr_svg, picture_too_large, qr_rendering, svg_data_url, svg_text, QrImageError, QR_MIN_DIMENSION};
use vstd::utf8::encode_utf8;
use crate::registry::{
    approved_with, first_with_id, first_with_ip, has_id, id_differs, is_approved, limited_to, Device,
    DeviceRegistry, QrCodeData, DEFAULT_BANDWIDTH_LIMIT,
};
use crate::token_bucket::TokenBucket;
use crate::wfp_bridge::{all_wf, bandwidth_set, block_device, set_bandwidth as set_bucket_bandwidth};
use std::collections::HashMap;
use vstd::prelude::*;
use vstd::string::StringExecFns;

verus! {

/// Pair request from a phone (`POST /pair`).
#[derive(Debug, Clone)]
pub struct PairRequest {
    pub token: String,
    pub platform: String,
    pub device_name: Option<String>,
    /// The phone may send its own address.
    pub device_ip: Option<String>,
}

/// Pair response.
#[derive(Debug, Clone)]
pub struct PairResponse {
    pub status: String,
    pub message: String,
}

/// Approve device request.
#[derive(Debug, Clone, Copy)]
pub struct ApproveRequest {
    pub bandwidth_limit_mb: u64,
}

/// Set bandwidth request.
#[derive(Debug, Clone, Copy)]
pub struct SetBandwidthRequest {
    pub bytes_per_sec: u64,
}

/// The QR code image and the URL it encodes.
#[derive(Debug, Clone)]
pub struct QrResponse {
    pub qr_image: String,
    pub pairing_url: String,
}

/// The address a pairing request without a usable address gets.
pub open spec fn default_pair_ip() -> Ipv4Addr {
    Ipv4Addr { a: 192, b: 168, c: 1, d: 100 }
}

/// The name a device that sent none gets.
pub open spec fn default_device_name() -> Seq<char> {
    "Wireless Device"@
}

/// Whether `token` is the pairing token of the QR data.
pub open spec fn token_valid(qr: Option<QrCodeData>, token: Seq<char>) -> bool {
    match qr {
        Some(q) => q.token@ == token,
        None => false,
    }
}

/// The address of a pairing request: the one it sent, when that is a
/// valid dotted-decimal address, and 192.168.1.100 otherwise.
pub open spec fn pair_ip(device_ip: Option<String>) -> Ipv4Addr {
    match device_ip {
        Some(s) => if exists|ip: Ipv4Addr| ipv4_text(ip) == s@ {
            choose|ip: Ipv4Addr| ipv4_text(ip) == s@
        } else {
            default_pair_ip()
        },
        None => default_pair_ip(),
    }
}

/// Whether `token` is the current pairing token.
pub fn token_matches(qr: &Option<QrCodeData>, token: &str) -> (r: bool)
    ensures
        r == token_valid(*qr, token@),
{
    match qr {
        Some(q) => {
            let t = String::from_str(token);
            q.token == t
        },
        None => false,
    }
}

/// The answer to `GET /pair?token=...`.
#[derive(Debug, Clone, Copy, PartialEq, Eq, Structural)]
pub enum PairPageOutcome {
    /// No token parameter: a bad request.
    MissingToken,
    /// The token is not the pairing token: unauthorized.
    InvalidToken,
    /// Serve the pairing page.
    Page,
}

/// Decides `GET /pair`: the token parameter must be present and be the
/// current pairing token.
pub fn get_pair_page(qr: &Option<QrCodeData>, token: Option<&str>) -> (r: PairPageOutcome)
    ensures
        r == (match token {
            None => PairPageOutcome::MissingToken,
            Some(t) => if token_valid(*qr, t@) {
                PairPageOutcome::Page
            } else {
                PairPageOutcome::InvalidToken
            },
        }),
{
    match token {
        None => PairPageOutcome::MissingToken,
        Some(t) => if token_matches(qr, t) {
            PairPageOutcome::Page
        } else {
            PairPageOutcome::InvalidToken
        },
    }
}

/// The answer to `POST /pair`.
#[derive(Debug, Clone)]
pub enum PairOutcome {
    /// The token is not the pairing token: unauthorized.
    InvalidToken,
    /// The device was added as pending approval.
    Pending { device: Device },
}

/// Handles a phone's pairing request: with the right token, the phone is
/// added as a pending device at the address it sent (192.168.1.100 when it
/// sent none or an invalid one), under the name it sent or "Wireless
/// Device".
pub fn post_pair(registry: &mut DeviceRegistry, qr: &Option<QrCodeData>, req: PairRequest) -> (r: PairOutcome)
    ensures
        !token_valid(*qr, req.token@) ==> r is InvalidToken && final(registry)@ == old(registry)@,
        token_valid(*qr, req.token@) ==> match r {
            PairOutcome::Pending { device } => {
                &&& final(registry)@ == old(registry)@.push(device)
                &&& device.ip == pair_ip(req.device_ip)
                &&& device.platform == req.platform
                &&& device.device_name@ == (match req.device_name {
                    Some(n) => n@,
                    None => default_device_name(),
                })
                &&& !device.approved
                &&& device.bandwidth_limit == DEFAULT_BANDWIDTH_LIMIT
            },
            PairOutcome::InvalidToken => false,
        },
{
    if !token_matches(qr, req.token.as_str()) {
        return PairOutcome::InvalidToken;
    }
    let device_ip = match &req.device_ip {
        Some(s) => match parse_ipv4(s.as_str()) {
            Some(ip) => ip,
            None => Ipv4Addr::new(192, 168, 1, 100),
        },
        None => Ipv4Addr::new(192, 168, 1, 100),
    };
    proof {
        match req.device_ip {
            Some(s) => {
                if exists|ip: Ipv4Addr| ipv4_text(ip) == s@ {
                    let ip = choose|ip: Ipv4Addr| ipv4_text(ip) == s@;
                    assert(device_ip == ip);
                }
            },
            None => {},
        }
    }
    let device_name = match req.device_name {
        Some(n) => n,
        None => String::from_str("Wireless Device"),
    };
    let device = registry.add_pending_device(device_ip, req.platform, device_name);
    PairOutcome::Pending { device }
}

/// The bandwidth limit in bytes per second of an approval in megabytes
/// per second.
pub open spec fn approved_bytes(bandwidth_limit_mb: u64) -> u64 {
    (bandwidth_limit_mb as int * 1_000_000) as u64
}

/// Approves a device (`POST /devices/:id/approve`) at `bandwidth_limit_mb`
/// megabytes per second, and applies that limit to the token bucket of its
/// address. Returns the approved device, or `None` when no device has the
/// identifier (nothing changes then).
pub fn approve_device(
    registry: &mut DeviceRegistry,
    token_buckets: &mut HashMap<u32, TokenBucket>,
    device_id: &str,
    bandwidth_limit_mb: u64,
) -> (r: Option<Device>)
    requires
        bandwidth_limit_mb as int * 1_000_000 <= u64::MAX,
        all_wf(old(token_buckets)@),
    ensures
        all_wf(final(token_buckets)@),
        match r {
            Some(d) => {
                &&& exists|i: int|
                    #[trigger] first_with_id(old(registry)@, device_id@, i) && d == approved_with(
                        old(registry)@[i],
                        approved_bytes(bandwidth_limit_mb),
                    ) && final(registry)@ == old(registry)@.update(i, d)
                &&& bandwidth_set(old(token_buckets)@, final(token_buckets)@, d.ip, approved_bytes(bandwidth_limit_mb))
            },
            None => !has_id(old(registry)@, device_id@) && final(registry)@ == old(registry)@
                && final(token_buckets)@ == old(token_buckets)@,
        },
{
    let bandwidth_bytes = bandwidth_limit_mb * 1_000_000;
    match registry.approve_device(device_id, bandwidth_bytes) {
        Some(device) => {
            set_bucket_bandwidth(token_buckets, device.ip, bandwidth_bytes);
            Some(device)
        },
        None => None,
    }
}

/// Denies a device (`POST /devices/:id/deny`): blocks its address in the
/// token buckets, then removes every device with the identifier. Returns
/// whether a device had the identifier (nothing changes otherwise).
pub fn deny_device(
    registry: &mut DeviceRegistry,
    token_buckets: &mut HashMap<u32, TokenBucket>,
    device_id: &str,
) -> (r: bool)
    requires
        all_wf(old(token_buckets)@),
    ensures
        all_wf(final(token_buckets)@),
        r == has_id(old(registry)@, device_id@),
        r ==> exists|i: int|
            #[trigger] first_with_id(old(registry)@, device_id@, i) && bandwidth_set(
                old(token_buckets)@,
                final(token_buckets)@,
                old(registry)@[i].ip,
                0,
            ),
        r ==> final(registry)@ == old(registry)@.filter(id_differs(device_id@)),
        !r ==> final(registry)@ == old(registry)@ && final(token_buckets)@ == old(token_buckets)@,
{
    match registry.get_by_id(device_id) {
        Some(device) => {
            block_device(token_buckets, device.ip);
            registry.deny_device(device_id);
            true
        },
        None => false,
    }
}

/// Sets a device's bandwidth limit (`PUT /devices/:id/bandwidth`) in the
/// registry and in the token bucket of its address. Returns whether a
/// device had the identifier (nothing changes otherwise).
pub fn set_bandwidth(
    registry: &mut DeviceRegistry,
    token_buckets: &mut HashMap<u32, TokenBucket>,
    device_id: &str,
    bytes_per_sec: u64,
) -> (r: bool)
    requires
        all_wf(old(token_buckets)@),
    ensures
        all_wf(final(token_buckets)@),
        r == has_id(old(registry)@, device_id@),
        r ==> exists|i: int|
            #[trigger] first_with_id(old(registry)@, device_id@, i) && final(registry)@ == old(registry)@.update(
                i,
                limited_to(old(registry)@[i], bytes_per_sec),
            ) && bandwidth_set(old(token_buckets)@, final(token_buckets)@, old(registry)@[i].ip, bytes_per_sec),
        !r ==> final(registry)@ == old(registry)@ && final(token_buckets)@ == old(token_buckets)@,
{
    match registry.update_bandwidth(device_id, bytes_per_sec) {
        Some(device) => {
            set_bucket_bandwidth(token_buckets, device.ip, bytes_per_sec);
            true
        },
        None => false,
    }
}

/// The answer to `POST /api/devices/add-by-ip`.
#[derive(Debug, Clone)]
pub enum AddByIpOutcome {
    /// The request has no `ip` text field.
    MissingIp,
    /// The `ip` field is not a dotted-decimal IPv4 address.
    InvalidIp,
    /// A device at that address is already registered.
    AlreadyRegistered { device_name: String },
    /// A pending device was registered.
    Registered { device: Device },
}

/// Registers a device by address, as pending approval, with platform
/// "Unknown" and its address as its name; a request without an address,
/// with an invalid one, or for a registered address is refused.
pub fn add_device_by_ip(registry: &mut DeviceRegistry, ip_field: Option<&str>) -> (r: AddByIpOutcome)
    ensures
        match ip_field {
            None => r is MissingIp && final(registry)@ == old(registry)@,
            Some(s) => if forall|ip: Ipv4Addr| ipv4_text(ip) != s@ {
                r is InvalidIp && final(registry)@ == old(registry)@
            } else {
                let ip = choose|ip: Ipv4Addr| ipv4_text(ip) == s@;
                match r {
                    AddByIpOutcome::AlreadyRegistered { device_name } => exists|i: int|
                        #[trigger] first_with_ip(old(registry)@, ip, i) && device_name == old(registry)@[i].device_name
                            && final(registry)@ == old(registry)@,
                    AddByIpOutcome::Registered { device } => {
                        &&& forall|i: int| 0 <= i < old(registry)@.len() ==> old(registry)@[i].ip != ip
                        &&& final(registry)@ == old(registry)@.push(device)
                        &&& device.ip == ip
                        &&& device.platform@ == "Unknown"@
                        &&& device.device_name@ == ipv4_text(ip)
                        &&& !device.approved
                        &&& device.bandwidth_limit == DEFAULT_BANDWIDTH_LIMIT
                    },
                    _ => false,
                }
            },
        },
{
    let text = match ip_field {
        Some(t) => t,
        None => {
            return AddByIpOutcome::MissingIp;
        },
    };
    let ip = match parse_ipv4(text) {
        Some(ip) => ip,
        None => {
            return AddByIpOutcome::InvalidIp;
        },
    };
    proof {
        assert(ipv4_text(ip) == text@);
        let c = choose|ip2: Ipv4Addr| ipv4_text(ip2) == text@;
        assert(c == ip);
    }
    match registry.get_by_ip(ip) {
        Some(existing) => {
            return AddByIpOutcome::AlreadyRegistered { device_name: existing.device_name };
        },
        None => {},
    }
    let device = registry.add_pending_device(ip, String::from_str("Unknown"), ip.to_string());
    AddByIpOutcome::Registered { device }
}

/// How many devices there are, how many are approved and how many pending.
#[derive(Debug, Clone, Copy, PartialEq, Eq, Structural)]
pub struct DeviceCounts {
    pub total: usize,
    pub approved: usize,
    pub pending: usize,
}

/// Counts the devices of a list, as `GET /devices` and `GET /stats` report
/// them.
pub fn device_counts(devices: &Vec<Device>) -> (r: DeviceCounts)
    ensures
        r.total == devices@.len(),
        r.approved == devices@.filter(|d: Device| is_approved(d)).len(),
        r.pending == devices@.filter(|d: Device| !is_approved(d)).len(),
{
    let ghost yes = |d: Device| is_approved(d);
    let ghost no = |d: Device| !is_approved(d);
    let mut approved: usize = 0;
    let mut pending: usize = 0;
    let mut i: usize = 0;
    while i < devices.len()
        invariant
            i <= devices@.len(),
            yes == (|d: Device| is_approved(d)),
            no == (|d: Device| !is_approved(d)),
            approved == devices@.take(i as int).filter(yes).len(),
            pending == devices@.take(i as int).filter(no).len(),
            approved + pending == i,
        decreases devices@.len() - i,
    {
        proof {
            assert(devices@.take(i + 1) =~= devices@.take(i as int).push(devices@[i as int]));
            devices@.take(i as int).lemma_filter_push(devices@[i as int], yes);
            devices@.take(i as int).lemma_filter_push(devices@[i as int], no);
        }
        if devices[i].approved {
            approved = approved + 1;
        } else {
            pending = pending + 1;
        }
        i = i + 1;
    }
    assert(devices@.take(i as int) =~= devices@);
    DeviceCounts { total: devices.len(), approved, pending }
}

/// The answer to `GET /qr`.
#[derive(Debug, Clone)]
pub enum QrOutcome {
    /// There is no pairing token.
    NotInitialized,
    /// The QR picture could not be made.
    Failed { error: QrImageError },
    /// The picture and the URL it encodes.
    Ready { response: QrResponse },
}

/// The pairing URL a QR code encodes for `token`.
pub open spec fn pairing_url(token: Seq<char>) -> Seq<char> {
    "http://"@ + token + ":8080/pair?token="@ + token
}

/// Makes the pairing QR code: the URL `http://<token>:8080/pair?token=<token>`
/// and its QR picture (see `generate_qr_svg`). It fails only when there is
/// no pairing token, the URL cannot be encoded, or the picture would not
/// fit in memory.
pub fn get_qr(qr: &Option<QrCodeData>) -> (r: QrOutcome)
    ensures
        match qr {
            None => r is NotInitialized,
            Some(q) => match qr_rendering(pairing_url(q.token@), QR_MIN_DIMENSION, QR_MIN_DIMENSION) {
                Err(e) => r matches QrOutcome::Failed { error } && error == QrImageError::Encoding(e),
                Ok(rendered) => match r {
                    QrOutcome::Ready { response } => response.pairing_url@ == pairing_url(q.token@)
                        && response.qr_image@ == svg_data_url(svg_text(encode_utf8(rendered)))
                        && !picture_too_large(rendered),
                    QrOutcome::Failed { error } => error == QrImageError::TooLarge && picture_too_large(rendered),
                    QrOutcome::NotInitialized => false,
                },
            },
        },
{
    match qr {
        None => QrOutcome::NotInitialized,
        Some(q) => {
            let mut url = String::from_str("http://");
            url.append(q.token.as_str());
            url.append(":8080/pair?token=");
            url.append(q.token.as_str());
            assert(url@ =~= pairing_url(q.token@));
            match generate_qr_svg(url.as_str()) {
                Ok(qr_image) => QrOutcome::Ready { response: QrResponse { qr_image, pairing_url: url } },
                Err(error) => QrOutcome::Failed { error },
            }
        },
    }
}

} // verus!
