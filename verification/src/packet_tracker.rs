//! Packets awaiting the daemon's decision, matched to decisions by packet id.
use crate::proto::{PacketDecision, PacketMetadata};
use std::collections::HashMap;
use vstd::prelude::*;
use vstd::std_specs::iter::IteratorSpec;

verus! {

broadcast use vstd::std_specs::hash::group_hash_axioms;

/// A packet awaiting its decision.
#[derive(Debug, Clone, Copy)]
pub struct PendingPacket {
    pub metadata: PacketMetadata,
    /// The decision, once it arrives.
    pub decision: Option<PacketDecision>,
    /// When the packet was recorded, in microseconds (for timeouts).
    pub timestamp_micros: u64,
}

/// Whether a packet recorded at `recorded` has waited `timeout` microseconds
/// or more at time `now` (a clock that went backwards counts as no wait).
pub open spec fn timed_out(recorded: u64, now: u64, timeout: u64) -> bool {
    let elapsed = if now >= recorded { now - recorded } else { 0 };
    elapsed >= timeout
}

/// A pending packet with its decision filled in.
pub open spec fn decided(p: PendingPacket, decision: PacketDecision) -> PendingPacket {
    PendingPacket { decision: Some(decision), ..p }
}

/// Whether the packet with id `k` in `m` is still there after a cleanup at
/// `now` with the given timeout.
pub open spec fn survives(m: Map<u64, PendingPacket>, k: u64, now: u64, timeout: u64) -> bool {
    m.contains_key(k) && !timed_out(m[k].timestamp_micros, now, timeout)
}

/// A decision for a packet that was just recorded finds that packet, which
/// comes back with the decision filled in, and taking it out leaves the
/// other pending packets as they were.
pub proof fn lemma_decision_finds_recorded(pending: Map<u64, PendingPacket>, metadata: PacketMetadata, now: u64, decision: PacketDecision)
    requires
        decision.spec_packet_id() == metadata.packet_id,
    ensures
        ({
            let p = PendingPacket { metadata, decision: None, timestamp_micros: now };
            let recorded = pending.insert(metadata.packet_id, p);
            &&& recorded.contains_key(decision.spec_packet_id())
            &&& recorded[decision.spec_packet_id()] == p
            &&& decided(recorded[decision.spec_packet_id()], decision) == (PendingPacket {
                metadata,
                decision: Some(decision),
                timestamp_micros: now,
            })
            &&& recorded.remove(decision.spec_packet_id()) == pending.remove(metadata.packet_id)
        }),
{
    let p = PendingPacket { metadata, decision: None, timestamp_micros: now };
    assert(pending.insert(metadata.packet_id, p).remove(metadata.packet_id) =~= pending.remove(metadata.packet_id));
}

/// A packet is cleaned up exactly when it has waited the timeout: one
/// recorded at `recorded` survives every cleanup before `recorded + timeout`
/// and none from then on.
pub proof fn lemma_expiry_time(recorded: u64, now: u64, timeout: u64)
    ensures
        timed_out(recorded, now, timeout) <==> (now >= recorded && now - recorded >= timeout) || timeout == 0,
{
}

/// Tracker for packets awaiting decisions.
pub struct PacketTracker {
    pending: HashMap<u64, PendingPacket>,
    max_pending: usize,
    timeout_micros: u64,
}

impl PacketTracker {
    /// The pending packets, by packet id.
    pub closed spec fn pending(&self) -> Map<u64, PendingPacket> {
        self.pending@
    }

    /// The most packets the tracker holds at once.
    pub closed spec fn capacity(&self) -> nat {
        self.max_pending as nat
    }

    /// How long a packet may wait, in microseconds.
    pub closed spec fn timeout(&self) -> u64 {
        self.timeout_micros
    }

    /// The tracker holds finitely many packets, never more than its capacity.
    pub open spec fn wf(&self) -> bool {
        self.pending().dom().finite() && self.pending().len() <= self.capacity()
    }

    /// Creates a tracker holding at most `max_pending` packets, each for at
    /// most `timeout_micros` microseconds.
    pub fn new(max_pending: usize, timeout_micros: u64) -> (r: PacketTracker)
        ensures
            r.wf(),
            r.pending() == Map::<u64, PendingPacket>::empty(),
            r.capacity() == max_pending,
            r.timeout() == timeout_micros,
    {
        PacketTracker { pending: HashMap::new(), max_pending, timeout_micros }
    }

    /// The default tracker: at most 1000 packets, one second of timeout.
    pub fn default() -> (r: PacketTracker)
        ensures
            r.wf(),
            r.pending() == Map::<u64, PendingPacket>::empty(),
            r.capacity() == 1000,
            r.timeout() == 1_000_000,
    {
        Self::new(1000, 1_000_000)
    }

    /// Records a packet as pending at `current_time_micros`. Fails with
    /// "Too many pending packets", changing nothing, when the tracker is full;
    /// a packet with the id of a pending one replaces it.
    pub fn add_pending(&mut self, metadata: PacketMetadata, current_time_micros: u64) -> (r: Result<(), &'static str>)
        requires
            old(self).wf(),
        ensures
            final(self).wf(),
            final(self).capacity() == old(self).capacity(),
            final(self).timeout() == old(self).timeout(),
            r is Ok <==> old(self).pending().len() < old(self).capacity(),
            r is Ok ==> final(self).pending() == old(self).pending().insert(
                metadata.packet_id,
                PendingPacket { metadata, decision: None, timestamp_micros: current_time_micros },
            ),
            r is Err ==> final(self).pending() == old(self).pending() && r == Err::<(), &'static str>(
                "Too many pending packets",
            ),
    {
        if self.pending.len() >= self.max_pending {
            return Err("Too many pending packets");
        }
        let id = metadata.packet_id;
        self.pending.insert(id, PendingPacket { metadata, decision: None, timestamp_micros: current_time_micros });
        proof {
            if old(self).pending@.contains_key(id) {
                assert(self.pending@.dom() =~= old(self).pending@.dom());
            } else {
                assert(self.pending@.dom() =~= old(self).pending@.dom().insert(id));
            }
        }
        Ok(())
    }

    /// Takes the pending packet a decision is about out of the tracker and
    /// returns it whole, with the decision filled in; `Ok(None)` when it is
    /// not pending (timed out or already decided).
    pub fn apply_decision(&mut self, decision: PacketDecision) -> (r: Result<Option<PendingPacket>, &'static str>)
        requires
            old(self).wf(),
        ensures
            final(self).wf(),
            final(self).capacity() == old(self).capacity(),
            final(self).timeout() == old(self).timeout(),
            final(self).pending() == old(self).pending().remove(decision.spec_packet_id()),
            r == Ok::<Option<PendingPacket>, &'static str>(
                if old(self).pending().contains_key(decision.spec_packet_id()) {
                    Some(decided(old(self).pending()[decision.spec_packet_id()], decision))
                } else {
                    None
                },
            ),
    {
        let packet_id = decision.packet_id();
        let removed = match self.pending.remove(&packet_id) {
            Some(packet) => Some(PendingPacket { decision: Some(decision), ..packet }),
            None => None,
        };
        proof {
            if old(self).pending@.contains_key(packet_id) {
                assert(self.pending@.dom() =~= old(self).pending@.dom().remove(packet_id));
            } else {
                assert(self.pending@.dom() =~= old(self).pending@.dom());
            }
        }
        Ok(removed)
    }

    /// Removes the packets that have waited at least the timeout by
    /// `current_time_micros`, and returns how many were removed.
    pub fn cleanup_expired(&mut self, current_time_micros: u64) -> (r: Result<usize, &'static str>)
        requires
            old(self).wf(),
        ensures
            final(self).wf(),
            final(self).capacity() == old(self).capacity(),
            final(self).timeout() == old(self).timeout(),
            final(self).pending() == Map::new(
                |k: u64|
                    old(self).pending().contains_key(k) && !timed_out(
                        old(self).pending()[k].timestamp_micros,
                        current_time_micros,
                        old(self).timeout(),
                    ),
                |k: u64| old(self).pending()[k],
            ),
            r == Ok::<usize, &'static str>((old(self).pending().len() - final(self).pending().len()) as usize),
    {
        let before = self.pending.len();
        let mut ids: Vec<u64> = Vec::new();
        let ghost ks = self.pending.keys().remaining();
        for k in it: self.pending.keys()
            invariant
                it.seq() == ks,
                ids@.len() == it.index(),
                forall|j: int| 0 <= j < it.index() ==> ids@[j] == *it.seq()[j],
        {
            ids.push(*k);
        }
        let mut i: usize = 0;
        while i < ids.len()
            invariant
                ks.len() == ids@.len(),
                ks.no_duplicates(),
                forall|j: int| 0 <= j < ids@.len() ==> ids@[j] == *ks[j],
                ks.unref().to_set() == old(self).pending@.dom(),
                i <= ids@.len(),
                self.timeout_micros == old(self).timeout_micros,
                self.max_pending == old(self).max_pending,
                forall|k: u64| #[trigger] self.pending@.contains_key(k) ==> old(self).pending@.contains_key(k) && self.pending@[k] == old(self).pending@[k],
                forall|k: u64| #[trigger] old(self).pending@.contains_key(k) ==> (
                    self.pending@.contains_key(k) <==> (survives(old(self).pending@, k, current_time_micros, old(self).timeout_micros) || !ids@.take(i as int).contains(k))),
            decreases ids@.len() - i,
        {
            let id = ids[i];
            let ghost prev = self.pending@;
            proof {
                let t0 = ids@.take(i as int);
                assert(ids@[i as int] == *ks[i as int]);
                assert(ks.unref().to_set().contains(id)) by {
                    assert(ks.unref()[i as int] == id);
                }
                if t0.contains(id) {
                    let j = choose|j: int| 0 <= j < t0.len() && #[trigger] t0[j] == id;
                    assert(ids@[j] == *ks[j]);
                    assert(ks[j] == ks[i as int]);
                }
                assert(prev.contains_key(id));
                assert(prev[id] == old(self).pending@[id]);
            }
            let expired = match self.pending.get(&id) {
                Some(p) => {
                    let elapsed = current_time_micros.saturating_sub(p.timestamp_micros);
                    !(elapsed < self.timeout_micros)
                },
                None => false,
            };
            if expired {
                self.pending.remove(&id);
                assert(self.pending@ == prev.remove(id));
            } else {
                assert(self.pending@ == prev);
            }
            proof {
                let t0 = ids@.take(i as int);
                let t1 = ids@.take(i + 1);
                assert(t1 =~= t0.push(id));
                assert(ks.unref()[i as int] == id);
                assert forall|k: u64| #[trigger] old(self).pending@.contains_key(k) implies (
                    self.pending@.contains_key(k) <==> (survives(old(self).pending@, k, current_time_micros, old(self).timeout_micros) || !t1.contains(k))) by {
                    if k != id {
                        assert(self.pending@.contains_key(k) == prev.contains_key(k));
                        if t1.contains(k) {
                            let j = choose|j: int| 0 <= j < t1.len() && #[trigger] t1[j] == k;
                            assert(t0[j] == k);
                        }
                        if t0.contains(k) {
                            let j = choose|j: int| 0 <= j < t0.len() && #[trigger] t0[j] == k;
                            assert(t1[j] == k);
                        }
                    } else {
                        assert(t1[i as int] == k);
                        assert(expired == timed_out(prev[id].timestamp_micros, current_time_micros, self.timeout_micros));
                        assert(survives(old(self).pending@, k, current_time_micros, old(self).timeout_micros) == !timed_out(old(self).pending@[k].timestamp_micros, current_time_micros, self.timeout_micros));
                        assert(t1.contains(k));
                    }
                }
            }
            i = i + 1;
        }
        proof {
            assert(ids@.take(i as int) =~= ids@);
            assert forall|k: u64| #[trigger] old(self).pending@.contains_key(k) implies ids@.contains(k) by {
                assert(ks.unref().to_set().contains(k));
                let j = choose|j: int| 0 <= j < ks.unref().len() && ks.unref()[j] == k;
                assert(ids@[j] == k);
            }
            let target = Map::new(
                |k: u64|
                    old(self).pending@.contains_key(k) && !timed_out(
                        old(self).pending@[k].timestamp_micros,
                        current_time_micros,
                        old(self).timeout_micros,
                    ),
                |k: u64| old(self).pending@[k],
            );
            assert(self.pending@ =~= target);
            vstd::set_lib::lemma_len_subset(self.pending@.dom(), old(self).pending@.dom());
        }
        Ok(before - self.pending.len())
    }

    /// The number of pending packets.
    pub fn pending_count(&self) -> (r: Result<usize, &'static str>)
        requires
            self.wf(),
        ensures
            r == Ok::<usize, &'static str>(self.pending().len() as usize),
            r matches Ok(n) && n <= self.capacity(),
    {
        Ok(self.pending.len())
    }

    /// Whether a packet is still pending (not yet decided).
    pub fn is_pending(&self, packet_id: u64) -> (r: Result<bool, &'static str>)
        ensures
            r == Ok::<bool, &'static str>(self.pending().contains_key(packet_id)),
    {
        Ok(self.pending.contains_key(&packet_id))
    }
}

} // verus!
