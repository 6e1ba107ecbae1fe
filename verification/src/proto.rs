//! The messages that pass between the packet callout, the daemon and the
//! control panel.
use crate::net::Ipv4Addr;
use vstd::prelude::*;

verus! {

/// Named pipe path for IPC communication.
pub const NETSHAPER_PIPE_NAME: &'static str = "\\\\.\\pipe\\netshaper";

/// Kernel callout to daemon: metadata for every intercepted packet.
#[derive(Clone, Copy, Debug, PartialEq, Eq, Structural)]
pub struct PacketMetadata {
    pub src_ip: Ipv4Addr,
    pub dst_ip: Ipv4Addr,
    pub byte_len: u32,
    /// Opaque handle, passed back in the `PacketDecision`.
    pub packet_id: u64,
}

/// Daemon to kernel callout: the decision for a deferred packet.
#[derive(Clone, Copy, Debug, PartialEq, Eq, Structural)]
pub enum PacketDecision {
    Permit { packet_id: u64 },
    Drop { packet_id: u64 },
}

impl PacketDecision {
    /// The packet the decision is about.
    pub open spec fn spec_packet_id(self) -> u64 {
        match self {
            PacketDecision::Permit { packet_id } => packet_id,
            PacketDecision::Drop { packet_id } => packet_id,
        }
    }

    /// The packet the decision is about.
    pub fn packet_id(&self) -> (r: u64)
        ensures
            r == self.spec_packet_id(),
    {
        match self {
            PacketDecision::Permit { packet_id } => *packet_id,
            PacketDecision::Drop { packet_id } => *packet_id,
        }
    }
}

/// Control panel to daemon: a device's new bandwidth ceiling.
#[derive(Clone, Copy, Debug, PartialEq, Eq, Structural)]
pub struct BandwidthUpdate {
    pub ip: Ipv4Addr,
    /// 0 blocks the device fully, `u64::MAX` lifts every limit.
    pub bytes_per_sec: u64,
}

/// Daemon to control panel: the state of one managed device.
#[derive(Clone, Debug, PartialEq)]
pub struct DeviceState {
    pub ip: Ipv4Addr,
    pub hostname: Option<String>,
    pub bytes_per_sec: u64,
    /// Rolling one-second average, in bytes.
    pub current_usage: u64,
    pub is_blocked: bool,
}

/// Commands sent to the daemon over IPC.
#[derive(Clone, Debug)]
pub enum DaemonCommand {
    UpdateBandwidth(BandwidthUpdate),
    ListDevices,
    Shutdown,
}

} // verus!
