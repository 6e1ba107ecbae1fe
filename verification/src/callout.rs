//! The decisions of the packet classify callback: record each intercepted
//! packet, act on the daemon's decision, and clean up expired packets every
//! hundred packets.
use crate::net::{ip_from_bits, Ipv4Addr};
use crate::packet_injector::PacketInjector;
use crate::packet_tracker::{timed_out, PacketTracker, PendingPacket};
use crate::proto::{PacketDecision, PacketMetadata};
use vstd::prelude::*;

verus! {

/// WFP action code that blocks a packet (`FWP_ACTION_BLOCK`).
pub const FWP_ACTION_BLOCK: u32 = 0x1001;

/// WFP action code that lets a packet through (`FWP_ACTION_PERMIT`).
pub const FWP_ACTION_PERMIT: u32 = 0x1002;

/// Most packets the callout tracks at once.
pub const CALLOUT_MAX_PENDING: usize = 2000;

/// How long the callout tracks a packet, in microseconds.
pub const CALLOUT_TIMEOUT_MICROS: u64 = 1_000_000;

/// Every how many packets expired entries are cleaned up.
pub const CLEANUP_INTERVAL: usize = 100;

/// The address in an IPv4 field of the callout's metadata, which holds it
/// as a 32-bit number in network order.
pub fn extract_ipv4(value: u32) -> (r: Ipv4Addr)
    ensures
        r == ip_from_bits(value),
        r.spec_bits() == value,
{
    Ipv4Addr::from_bits(value)
}

/// The metadata of a packet from the callout's fields: the source and
/// destination address numbers, the IP total length, and the packet's
/// context value, which serves as its id.
pub fn packet_metadata_from_fields(src: u32, dst: u32, ip_length: u16, context: u64) -> (r: PacketMetadata)
    ensures
        r == (PacketMetadata {
            src_ip: ip_from_bits(src),
            dst_ip: ip_from_bits(dst),
            byte_len: ip_length as u32,
            packet_id: context,
        }),
{
    PacketMetadata {
        src_ip: extract_ipv4(src),
        dst_ip: extract_ipv4(dst),
        byte_len: ip_length as u32,
        packet_id: context,
    }
}

/// `x + n`, wrapping around past `usize::MAX`.
pub open spec fn wrapped_sum(x: usize, n: usize) -> usize {
    if x as int + n as int > usize::MAX as int {
        (x as int + n as int - usize::MAX as int - 1) as usize
    } else {
        (x + n) as usize
    }
}

/// A counter of processed packets that wraps around, as an atomic
/// `fetch_add` does.
#[derive(Debug)]
pub struct CleanupCounter {
    pub count: usize,
}

impl CleanupCounter {
    /// A counter at zero.
    pub fn new() -> (r: CleanupCounter)
        ensures
            r.count == 0,
    {
        CleanupCounter { count: 0 }
    }

    /// Adds `n` (wrapping around) and returns the value before.
    pub fn fetch_add(&mut self, n: usize) -> (r: usize)
        ensures
            r == old(self).count,
            final(self).count == wrapped_sum(old(self).count, n),
    {
        let before = self.count;
        self.count = self.count.wrapping_add(n);
        before
    }

    /// The current value.
    pub fn load(&self) -> (r: usize)
        ensures
            r == self.count,
    {
        self.count
    }
}

/// What the callout does after recording a packet.
#[derive(Debug, Clone, Copy, PartialEq, Eq, Structural)]
pub enum ClassifyStep {
    /// The packet is done with: apply this action.
    Finished { action: u32 },
    /// The packet is tracked: ask the daemon for a decision, then finish.
    AwaitDaemon,
}

/// Whether a cleanup runs for the packet counted at `tick` (every hundredth
/// packet, not the first).
pub open spec fn cleanup_due(tick: usize) -> bool {
    tick % 100 == 0 && tick > 0
}

/// The action for a packet given the daemon's decision and whether the
/// decision matched a tracked packet.
pub open spec fn decided_action(decision: Option<PacketDecision>, matched: bool) -> u32 {
    match decision {
        Some(PacketDecision::Drop { .. }) if matched => FWP_ACTION_BLOCK,
        _ => FWP_ACTION_PERMIT,
    }
}

/// The state of the classify callback: the tracker of pending packets, the
/// injector for drop responses, and the cleanup counter.
pub struct CalloutState {
    pub tracker: PacketTracker,
    pub injector: PacketInjector,
    pub cleanup_counter: CleanupCounter,
}

impl CalloutState {
    /// The callout's state at load: a tracker of 2000 packets with a
    /// one-second timeout, an uninitialized injector, a counter at zero.
    pub fn new() -> (r: CalloutState)
        ensures
            r.tracker.wf(),
            r.tracker.pending() == Map::<u64, PendingPacket>::empty(),
            r.tracker.capacity() == CALLOUT_MAX_PENDING,
            r.tracker.timeout() == CALLOUT_TIMEOUT_MICROS,
            r.injector.handle() is None,
            r.cleanup_counter.count == 0,
    {
        CalloutState {
            tracker: PacketTracker::new(CALLOUT_MAX_PENDING, CALLOUT_TIMEOUT_MICROS),
            injector: PacketInjector::new(),
            cleanup_counter: CleanupCounter::new(),
        }
    }

    /// The first half of the classify callback. A packet whose metadata could
    /// not be read is permitted; otherwise it is recorded as pending at
    /// `current_time_micros`, and permitted at once if the tracker is full.
    pub fn classify_begin(&mut self, metadata: Option<PacketMetadata>, current_time_micros: u64) -> (r: ClassifyStep)
        requires
            old(self).tracker.wf(),
        ensures
            final(self).tracker.wf(),
            final(self).tracker.capacity() == old(self).tracker.capacity(),
            final(self).tracker.timeout() == old(self).tracker.timeout(),
            final(self).injector.handle() == old(self).injector.handle(),
            final(self).cleanup_counter == old(self).cleanup_counter,
            match metadata {
                None => r == ClassifyStep::Finished { action: FWP_ACTION_PERMIT }
                    && final(self).tracker.pending() == old(self).tracker.pending(),
                Some(m) => if old(self).tracker.pending().len() < old(self).tracker.capacity() {
                    r == ClassifyStep::AwaitDaemon && final(self).tracker.pending()
                        == old(self).tracker.pending().insert(
                        m.packet_id,
                        PendingPacket { metadata: m, decision: None, timestamp_micros: current_time_micros },
                    )
                } else {
                    r == ClassifyStep::Finished { action: FWP_ACTION_PERMIT }
                        && final(self).tracker.pending() == old(self).tracker.pending()
                },
            },
    {
        match metadata {
            None => ClassifyStep::Finished { action: FWP_ACTION_PERMIT },
            Some(m) => match self.tracker.add_pending(m, current_time_micros) {
                Err(_) => ClassifyStep::Finished { action: FWP_ACTION_PERMIT },
                Ok(()) => ClassifyStep::AwaitDaemon,
            },
        }
    }

    /// The second half of the classify callback, for a packet that
    /// `classify_begin` recorded. A decision from the daemon (`None` when
    /// there was none) takes its packet out of the tracker; if it is a drop
    /// and that packet was pending, the sender is answered and the packet
    /// blocked, otherwise it is permitted. Then the packet is counted, and
    /// every hundredth packet triggers a cleanup of the packets that have
    /// timed out at `cleanup_time_micros`. Returns the action.
    pub fn classify_finish(
        &mut self,
        metadata: &PacketMetadata,
        decision: Option<PacketDecision>,
        cleanup_time_micros: u64,
    ) -> (action: u32)
        requires
            old(self).tracker.wf(),
        ensures
            final(self).tracker.wf(),
            final(self).tracker.capacity() == old(self).tracker.capacity(),
            final(self).tracker.timeout() == old(self).tracker.timeout(),
            final(self).injector.handle() == old(self).injector.handle(),
            final(self).cleanup_counter.count == wrapped_sum(old(self).cleanup_counter.count, 1),
            ({
                let decided = match decision {
                    Some(d) => old(self).tracker.pending().remove(d.spec_packet_id()),
                    None => old(self).tracker.pending(),
                };
                let matched = match decision {
                    Some(d) => old(self).tracker.pending().contains_key(d.spec_packet_id()),
                    None => false,
                };
                &&& action == decided_action(decision, matched)
                &&& final(self).tracker.pending() == if cleanup_due(old(self).cleanup_counter.count) {
                    Map::new(
                        |k: u64|
                            decided.contains_key(k) && !timed_out(
                                decided[k].timestamp_micros,
                                cleanup_time_micros,
                                old(self).tracker.timeout(),
                            ),
                        |k: u64| decided[k],
                    )
                } else {
                    decided
                }
            }),
    {
        let mut action = FWP_ACTION_PERMIT;
        if let Some(d) = decision {
            if let Ok(Some(_packet)) = self.tracker.apply_decision(d) {
                action = match d {
                    PacketDecision::Permit { .. } => FWP_ACTION_PERMIT,
                    PacketDecision::Drop { .. } => {
                        let _ = self.injector.apply_drop_decision(metadata, false);
                        FWP_ACTION_BLOCK
                    },
                };
            }
        }
        let tick = self.cleanup_counter.fetch_add(1);
        if tick % CLEANUP_INTERVAL == 0 && tick > 0 {
            let _ = self.tracker.cleanup_expired(cleanup_time_micros);
        }
        action
    }
}

} // verus!
