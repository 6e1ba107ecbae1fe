//! NetShaper: per-device bandwidth shaping for a Wi-Fi network.
//!
//! The library holds the verified logic of the daemon, the packet callout and
//! the enrollment store: token buckets, device registries, the packet tracker,
//! the wire framing of the IPC pipe and the text formats the daemon speaks.

pub mod net;
pub mod clock;
pub mod token_bucket;
pub mod bucket;
pub mod device_registry;
pub mod registry;
pub mod proto;
pub mod packet_tracker;
pub mod packet_injector;
pub mod callout;
pub mod stats_listener;
pub mod wfp_bridge;
pub mod pipe_server;
pub mod ipc;
pub mod scheduler;
pub mod qr;
pub mod http;
pub mod cert;
pub mod certificate;
pub mod device_enrollment;
pub mod handshake;
pub mod ui;
pub mod engine;
pub mod lan;
