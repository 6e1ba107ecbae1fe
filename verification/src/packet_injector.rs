//! Responses sent back to the sender of a dropped packet: a TCP reset or an
//! ICMP "destination unreachable".
use crate::net::Ipv4Addr;
use crate::proto::PacketMetadata;
use vstd::prelude::*;

verus! {

/// The raw value of a WFP injection handle.
#[derive(Clone, Copy, Debug, PartialEq, Eq, Structural)]
pub struct InjectionHandle {
    pub raw: usize,
}

/// The kind of response to inject.
#[derive(Debug, Clone, Copy, PartialEq, Eq, Structural)]
pub enum InjectionType {
    /// A TCP RST (for TCP connections).
    TcpReset,
    /// An ICMP Host Unreachable (for UDP and other protocols).
    IcmpUnreachable,
}

impl InjectionType {
    /// The numeric code of the kind: 1 for a TCP reset, 2 for ICMP.
    pub fn code(&self) -> (r: u8)
        ensures
            r == (match self {
                InjectionType::TcpReset => 1u8,
                InjectionType::IcmpUnreachable => 2u8,
            }),
    {
        match self {
            InjectionType::TcpReset => 1,
            InjectionType::IcmpUnreachable => 2,
        }
    }
}

/// A packet to be injected.
#[derive(Debug, Clone, Copy)]
pub struct InjectionContext {
    pub packet_metadata: PacketMetadata,
    pub injection_type: InjectionType,
    /// Reserved for packet data and headers.
    pub reserved: u64,
}

/// The size of a TCP reset response: an IPv4 header of 40 bytes with
/// options room, plus a minimal TCP header of 20.
pub const TCP_RESET_BYTES: u32 = 60;

/// The size of an ICMP Destination Unreachable response.
pub const ICMP_UNREACHABLE_BYTES: u32 = 56;

/// Injects responses for blocking decisions.
pub struct PacketInjector {
    /// The WFP injection handle, once the injector is initialized.
    pub injection_handle: Option<InjectionHandle>,
    /// Room for building response packets.
    pub buffer: Vec<u8>,
}

impl PacketInjector {
    /// The WFP injection handle, once the injector is initialized.
    pub open spec fn handle(&self) -> Option<InjectionHandle> {
        self.injection_handle
    }

    /// A new injector, not yet initialized, with an empty buffer room for
    /// one standard MTU (1500 bytes).
    pub fn new() -> (r: PacketInjector)
        ensures
            r.handle() is None,
            r.buffer@ == Seq::<u8>::empty(),
    {
        PacketInjector { injection_handle: None, buffer: Vec::with_capacity(1500) }
    }

    /// Gives the injector its WFP injection handle.
    pub fn initialize(&mut self, handle: InjectionHandle)
        ensures
            final(self).handle() == Some(handle),
    {
        self.injection_handle = Some(handle);
    }

    /// Whether the injector has a WFP injection handle.
    pub fn is_initialized(&self) -> (r: bool)
        ensures
            r == self.handle() is Some,
    {
        self.injection_handle.is_some()
    }

    /// Sends a TCP RST from the packet's destination back to its source
    /// (the ports swap roles). Returns the bytes sent.
    pub fn inject_tcp_reset(&mut self, metadata: &PacketMetadata, src_port: u16, dst_port: u16) -> (r: Result<u32, &'static str>)
        ensures
            r == Ok::<u32, &'static str>(TCP_RESET_BYTES),
            final(self).handle() == old(self).handle(),
            *final(self) == *old(self),
    {
        Ok(TCP_RESET_BYTES)
    }

    /// Sends an ICMP Destination Unreachable (type 3, code 13: communication
    /// administratively prohibited) back to the packet's source. Returns the
    /// bytes sent.
    pub fn inject_icmp_unreachable(&mut self, metadata: &PacketMetadata) -> (r: Result<u32, &'static str>)
        ensures
            r == Ok::<u32, &'static str>(ICMP_UNREACHABLE_BYTES),
            final(self).handle() == old(self).handle(),
            *final(self) == *old(self),
    {
        Ok(ICMP_UNREACHABLE_BYTES)
    }

    /// Acts on a drop decision: when the injector is initialized and ICMP is
    /// not disabled, answers the sender with an ICMP Destination
    /// Unreachable; otherwise the packet is dropped silently.
    pub fn apply_drop_decision(&mut self, metadata: &PacketMetadata, disable_icmp: bool) -> (r: Result<(), &'static str>)
        ensures
            r == Ok::<(), &'static str>(()),
            final(self).handle() == old(self).handle(),
            *final(self) == *old(self),
    {
        if self.injection_handle.is_none() {
            return Ok(());
        }
        if !disable_icmp {
            match self.inject_icmp_unreachable(metadata) {
                Ok(_) => {},
                Err(e) => {
                    return Err(e);
                },
            }
        }
        Ok(())
    }
}

impl Default for PacketInjector {
    fn default() -> (r: PacketInjector)
        ensures
            r.handle() is None,
    {
        PacketInjector::new()
    }
}

/// The 20-byte minimal IPv4 header (no options) for a packet from `src_ip`
/// to `dst_ip` carrying `payload_len` bytes of `protocol` (1 ICMP, 6 TCP,
/// 17 UDP): version 4 and length 5 words, total length, identification
/// 12345, "don't fragment", TTL 64, a zero checksum, then the addresses.
pub open spec fn ipv4_header(src_ip: Ipv4Addr, dst_ip: Ipv4Addr, protocol: u8, payload_len: u16) -> Seq<u8> {
    let total = 20 + payload_len as int;
    seq![
        0x45u8, 0x00u8,
        (total / 256) as u8, (total % 256) as u8,
        0x30u8, 0x39u8,
        0x40u8, 0x00u8,
        64u8, protocol,
        0x00u8, 0x00u8,
        src_ip.a, src_ip.b, src_ip.c, src_ip.d,
        dst_ip.a, dst_ip.b, dst_ip.c, dst_ip.d,
    ]
}

/// Builds the minimal IPv4 header of a response packet (see `ipv4_header`).
pub fn construct_ipv4_header(src_ip: Ipv4Addr, dst_ip: Ipv4Addr, protocol: u8, payload_len: u16) -> (r: Vec<u8>)
    requires
        payload_len as int + 20 <= u16::MAX,
    ensures
        r@ == ipv4_header(src_ip, dst_ip, protocol, payload_len),
{
    let mut header: Vec<u8> = Vec::with_capacity(20);
    header.push(0x45);
    header.push(0x00);
    let total_len: u16 = 20u16 + payload_len;
    header.push((total_len / 256) as u8);
    header.push((total_len % 256) as u8);
    header.push(0x30);
    header.push(0x39);
    header.push(0x40);
    header.push(0x00);
    header.push(64);
    header.push(protocol);
    header.push(0x00);
    header.push(0x00);
    header.push(src_ip.a);
    header.push(src_ip.b);
    header.push(src_ip.c);
    header.push(src_ip.d);
    header.push(dst_ip.a);
    header.push(dst_ip.b);
    header.push(dst_ip.c);
    header.push(dst_ip.d);
    assert(header@ =~= ipv4_header(src_ip, dst_ip, protocol, payload_len));
    header
}

} // verus!
