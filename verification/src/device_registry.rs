//! Registry of the managed devices and their bandwidth buckets, keyed by
//! address.
use crate::bucket::{saturating_double, DeviceBucket};
use crate::net::{ip_from_bits, lemma_bits_roundtrip, Ipv4Addr};
use std::collections::hash_map::Entry;
use std::collections::HashMap;
use vstd::prelude::*;
use vstd::std_specs::iter::IteratorSpec;

verus! {

broadcast use vstd::std_specs::hash::group_hash_axioms;

/// A bucket as `DeviceBucket::new(bytes_per_sec)` makes it.
pub open spec fn fresh_bucket(b: DeviceBucket, bytes_per_sec: u64) -> bool {
    &&& b.allowed_bytes_per_sec == bytes_per_sec
    &&& b.max_burst_bytes == saturating_double(bytes_per_sec)
    &&& b.current_tokens == b.capacity()
    &&& b.queued() == Seq::<crate::bucket::DeferredPacket>::empty()
}

/// Registry of all managed devices.
pub struct DeviceRegistry {
    devices: HashMap<u32, DeviceBucket>,
}

impl View for DeviceRegistry {
    /// The buckets, by the 32-bit number of each device's address.
    type V = Map<u32, DeviceBucket>;

    closed spec fn view(&self) -> Map<u32, DeviceBucket> {
        self.devices@
    }
}

impl DeviceRegistry {
    /// Creates an empty registry.
    pub fn new() -> (r: DeviceRegistry)
        ensures
            r@ == Map::<u32, DeviceBucket>::empty(),
    {
        DeviceRegistry { devices: HashMap::new() }
    }

    /// Inserts a device with a fresh, full bucket at `bytes_per_sec`,
    /// replacing any bucket it had.
    pub fn insert_device(&mut self, ip: Ipv4Addr, bytes_per_sec: u64)
        ensures
            final(self)@ == old(self)@.insert(ip.spec_bits(), final(self)@[ip.spec_bits()]),
            fresh_bucket(final(self)@[ip.spec_bits()], bytes_per_sec),
    {
        let b = DeviceBucket::new(bytes_per_sec);
        self.devices.insert(ip.to_bits(), b);
    }

    /// The bucket of a device, for reading and changing in place.
    pub fn get_bucket_mut(&mut self, ip: Ipv4Addr) -> (r: Option<&mut DeviceBucket>)
        ensures
            old(self)@.contains_key(ip.spec_bits()) <==> r is Some,
            r is None ==> final(self)@ == old(self)@,
            r is Some ==> *r->0 == old(self)@[ip.spec_bits()] && final(self)@ == old(self)@.insert(
                ip.spec_bits(),
                *final(r->0),
            ),
    {
        match self.devices.entry(ip.to_bits()) {
            Entry::Occupied(e) => Some(e.into_mut()),
            Entry::Vacant(_) => None,
        }
    }

    /// The bucket of a device, if it is registered.
    pub fn get_bucket(&self, ip: Ipv4Addr) -> (r: Option<&DeviceBucket>)
        ensures
            match r {
                Some(b) => self@.contains_key(ip.spec_bits()) && *b == self@[ip.spec_bits()],
                None => !self@.contains_key(ip.spec_bits()),
            },
    {
        self.devices.get(&ip.to_bits())
    }

    /// Removes a device, returning its bucket if it was registered.
    pub fn remove_device(&mut self, ip: Ipv4Addr) -> (r: Option<DeviceBucket>)
        ensures
            final(self)@ == old(self)@.remove(ip.spec_bits()),
            match r {
                Some(b) => old(self)@.contains_key(ip.spec_bits()) && b == old(self)@[ip.spec_bits()],
                None => !old(self)@.contains_key(ip.spec_bits()),
            },
    {
        self.devices.remove(&ip.to_bits())
    }

    /// The addresses of all registered devices, each once, in no
    /// particular order.
    pub fn list_devices(&self) -> (r: Vec<Ipv4Addr>)
        ensures
            forall|ip: Ipv4Addr| r@.contains(ip) <==> self@.contains_key(ip.spec_bits()),
            r@.no_duplicates(),
            r@.len() == self@.len(),
    {
        let mut out: Vec<Ipv4Addr> = Vec::new();
        let ghost ks = self.devices.keys().remaining();
        assert(ks.unref().to_set() == self@.dom());
        for k in it: self.devices.keys()
            invariant
                it.seq() == ks,
                out@.len() == it.index(),
                forall|j: int| 0 <= j < it.index() ==> out@[j] == ip_from_bits(*it.seq()[j]),
        {
            out.push(Ipv4Addr::from_bits(*k));
        }
        proof {
            lemma_bits_roundtrip(0);
            assert forall|ip: Ipv4Addr| out@.contains(ip) <==> self@.contains_key(ip.spec_bits()) by {
                if out@.contains(ip) {
                    let j = choose|j: int| 0 <= j < out@.len() && out@[j] == ip;
                    assert(ks.unref()[j] == *ks[j]);
                    assert(ks.unref().contains(*ks[j]));
                }
                if self@.contains_key(ip.spec_bits()) {
                    assert(ks.unref().to_set().contains(ip.spec_bits()));
                    let j = choose|j: int| 0 <= j < ks.unref().len() && ks.unref()[j] == ip.spec_bits();
                    assert(out@[j] == ip);
                }
            }
        }
        out
    }

    /// Sets the bandwidth ceiling of a registered device; does nothing for
    /// an unknown one. The bucket's balance and capacity are left as they are.
    pub fn update_bandwidth(&mut self, ip: Ipv4Addr, bytes_per_sec: u64)
        ensures
            final(self)@.dom() == old(self)@.dom(),
            forall|k: u32| k != ip.spec_bits() && old(self)@.contains_key(k) ==> #[trigger] final(self)@[k] == old(self)@[k],
            old(self)@.contains_key(ip.spec_bits()) ==> ({
                let b = old(self)@[ip.spec_bits()];
                let n = final(self)@[ip.spec_bits()];
                &&& n.allowed_bytes_per_sec == bytes_per_sec
                &&& n.max_burst_bytes == b.max_burst_bytes
                &&& n.current_tokens == b.current_tokens
                &&& n.last_refill == b.last_refill
                &&& n.queued() == b.queued()
            }),
    {
        let key = ip.to_bits();
        if let Some(mut bucket) = self.devices.remove(&key) {
            bucket.allowed_bytes_per_sec = bytes_per_sec;
            self.devices.insert(key, bucket);
            assert(self@.dom() =~= old(self)@.dom());
        }
    }

    /// The number of managed devices.
    pub fn count(&self) -> (r: usize)
        ensures
            r == self@.len(),
    {
        self.devices.len()
    }
}

impl Default for DeviceRegistry {
    fn default() -> (r: DeviceRegistry)
        ensures
            r@ == Map::<u32, DeviceBucket>::empty(),
    {
        DeviceRegistry::new()
    }
}

} // verus!
