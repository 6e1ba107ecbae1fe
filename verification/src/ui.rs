//! The control panel's data: device cards, bandwidth metrics, and the
//! addresses of the daemon's API.
use vstd::prelude::*;
use vstd::string::StringExecFns;

verus! {

/// Errors the control panel reports.
#[derive(Debug, Clone)]
pub enum UiError {
    DaemonConnection(String),
    DeviceNotFound(String),
    InvalidBandwidth(String),
    IpcError(String),
}

/// Device information displayed in the control panel.
#[derive(Debug, Clone)]
pub struct DeviceInfo {
    pub ip: String,
    pub hostname: Option<String>,
    pub approved: bool,
    /// ISO 8601 timestamp.
    pub enrolled_at: String,
    /// Bytes per second.
    pub bandwidth_limit: u64,
    /// Bytes per second.
    pub current_usage: u64,
}

/// Bandwidth metrics of a device.
#[derive(Debug, Clone)]
pub struct BandwidthMetrics {
    pub device_ip: String,
    /// Bytes per second.
    pub current: u64,
    /// Average of the last 60 seconds.
    pub average: u64,
    /// Peak of the last 60 seconds.
    pub peak: u64,
    /// ISO 8601 timestamp.
    pub timestamp: String,
}

/// A device as the daemon's API lists it.
#[derive(Debug, Clone)]
pub struct Device {
    pub id: String,
    pub ip: String,
    pub platform: String,
    pub device_name: String,
    pub approved: bool,
    /// Bytes per second.
    pub bandwidth_limit: u64,
    pub enrolled_at: String,
}

/// The QR code image and pairing URL as the daemon's API returns them.
#[derive(Debug, Clone)]
pub struct QrResponse {
    pub qr_image: String,
    pub pairing_url: String,
}

/// The control panel's application state.
#[derive(Debug)]
pub struct AppState {}

impl AppState {
    /// Creates the application state.
    pub fn new() -> (r: AppState)
        ensures
            r == (AppState {}),
    {
        AppState {}
    }
}

/// Where the daemon's API is served.
pub const DAEMON_URL: &'static str = "http://172.17.44.89:8080";

/// How long the control panel waits for the daemon, in seconds.
pub const HTTP_TIMEOUT: u64 = 5;

/// The URL of the daemon's API path `path` (which starts with `/`).
pub fn api_url(path: &str) -> (r: String)
    ensures
        r@ == DAEMON_URL@ + path@,
{
    let mut url = String::from_str(DAEMON_URL);
    url.append(path);
    url
}

/// The URL of an action on one device: `<daemon>/devices/<id>/<action>`.
pub fn device_action_url(device_id: &str, action: &str) -> (r: String)
    ensures
        r@ == DAEMON_URL@ + "/devices/"@ + device_id@ + "/"@ + action@,
{
    let mut url = String::from_str(DAEMON_URL);
    url.append("/devices/");
    url.append(device_id);
    url.append("/");
    url.append(action);
    url
}

/// Sample devices for trying the control panel without a daemon: an
/// approved iPhone at 10 MB/s using 2.5 MB/s, and a MacBook awaiting
/// approval.
pub fn get_mock_devices() -> (r: Vec<DeviceInfo>)
    ensures
        r@.len() == 2,
        r@[0].ip@ == "192.168.1.100"@,
        r@[0].hostname matches Some(h) && h@ == "iPhone-12"@,
        r@[0].approved,
        r@[0].enrolled_at@ == "2026-04-03T15:30:45Z"@,
        r@[0].bandwidth_limit == 10_000_000,
        r@[0].current_usage == 2_500_000,
        r@[1].ip@ == "192.168.1.101"@,
        r@[1].hostname matches Some(h) && h@ == "MacBook-Pro"@,
        !r@[1].approved,
        r@[1].enrolled_at@ == "2026-04-03T16:00:00Z"@,
        r@[1].bandwidth_limit == 0,
        r@[1].current_usage == 0,
{
    let mut v: Vec<DeviceInfo> = Vec::new();
    v.push(
        DeviceInfo {
            ip: String::from_str("192.168.1.100"),
            hostname: Some(String::from_str("iPhone-12")),
            approved: true,
            enrolled_at: String::from_str("2026-04-03T15:30:45Z"),
            bandwidth_limit: 10_000_000,
            current_usage: 2_500_000,
        },
    );
    v.push(
        DeviceInfo {
            ip: String::from_str("192.168.1.101"),
            hostname: Some(String::from_str("MacBook-Pro")),
            approved: false,
            enrolled_at: String::from_str("2026-04-03T16:00:00Z"),
            bandwidth_limit: 0,
            current_usage: 0,
        },
    );
    v
}

} // verus!
