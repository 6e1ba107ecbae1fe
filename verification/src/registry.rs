//! The paired devices of the daemon: pairing, approval, denial and
//! bandwidth limits, plus the event and command types the daemon passes on.
use crate::clock::unix_micros_now;
use crate::net::Ipv4Addr;
use vstd::prelude::*;
use vstd::string::StringExecFns;

verus! {

/// The bandwidth limit a newly paired device gets, in bytes per second.
pub const DEFAULT_BANDWIDTH_LIMIT: u64 = 10_000_000;

/// Device information for pairing and management.
#[derive(Clone, Debug)]
pub struct Device {
    pub id: String,
    pub ip: Ipv4Addr,
    pub platform: String,
    pub device_name: String,
    pub approved: bool,
    /// Bytes per second.
    pub bandwidth_limit: u64,
    /// When the device paired, in microseconds since the Unix epoch (UTC).
    pub enrolled_at: i64,
}

impl Device {
    /// A copy of the device, field for field.
    pub fn duplicate(&self) -> (r: Device)
        ensures
            r == *self,
    {
        Device {
            id: self.id.clone(),
            ip: self.ip,
            platform: self.platform.clone(),
            device_name: self.device_name.clone(),
            approved: self.approved,
            bandwidth_limit: self.bandwidth_limit,
            enrolled_at: self.enrolled_at,
        }
    }
}

/// Device statistics for the dashboard.
#[derive(Clone, Debug)]
pub struct DeviceStats {
    pub id: String,
    pub ip: String,
    pub device_name: String,
    pub platform: String,
    pub approved: bool,
    /// Bytes per second.
    pub current_usage: u64,
    /// Bytes per second.
    pub peak_usage: u64,
    /// Bytes in this session.
    pub total_consumed: u64,
    /// Bytes per second.
    pub bandwidth_limit: u64,
}

/// The pairing token that the QR code carries.
#[derive(Clone, Debug)]
pub struct QrCodeData {
    pub token: String,
    /// When the token was made, in microseconds since the Unix epoch (UTC).
    pub created_at: i64,
}

/// Events broadcast to the dashboard.
#[derive(Clone, Debug)]
pub enum DashboardEvent {
    DevicePending { device: Device },
    DeviceApproved { device_id: String, device: Device },
    DeviceDenied { device_id: String },
    StatsUpdate { devices: Vec<DeviceStats> },
}

/// Commands for bandwidth throttling.
#[derive(Clone, Copy, Debug)]
pub enum BandwidthCommand {
    Update { ip: Ipv4Addr, bytes_per_sec: u64 },
    Block { ip: Ipv4Addr },
    Unblock { ip: Ipv4Addr },
}

/// Whether `c` is a lower-case hexadecimal digit.
pub open spec fn is_lower_hex(c: char) -> bool {
    ('0' <= c && c <= '9') || ('a' <= c && c <= 'f')
}

/// Whether `s` is the hyphenated lower-case text of a version 4 (random)
/// UUID: 36 characters, hyphens at positions 8, 13, 18 and 23, hexadecimal
/// digits elsewhere, the version digit 4 and an RFC 4122 variant digit.
pub open spec fn is_v4_uuid_text(s: Seq<char>) -> bool {
    &&& s.len() == 36
    &&& forall|i: int|
        0 <= i < 36 ==> (if i == 8 || i == 13 || i == 18 || i == 23 {
            s[i] == '-'
        } else {
            is_lower_hex(#[trigger] s[i])
        })
    &&& s[14] == '4'
    &&& (s[19] == '8' || s[19] == '9' || s[19] == 'a' || s[19] == 'b')
}

/// A fresh random device identifier (`Uuid::new_v4`, written out with
/// `to_string`). Which identifier is random; it is always the hyphenated
/// lower-case text of a version 4 UUID.
#[verifier::external_body]
fn new_device_id() -> (r: String)
    ensures
        is_v4_uuid_text(r@),
{
    uuid::Uuid::new_v4().to_string()
}

/// `d` with its approval granted at `limit` bytes per second.
pub open spec fn approved_with(d: Device, limit: u64) -> Device {
    Device { approved: true, bandwidth_limit: limit, ..d }
}

/// `d` with its bandwidth limit set to `limit` bytes per second.
pub open spec fn limited_to(d: Device, limit: u64) -> Device {
    Device { bandwidth_limit: limit, ..d }
}

/// `i` is the position of the first device in `s` whose identifier is `id`.
pub open spec fn first_with_id(s: Seq<Device>, id: Seq<char>, i: int) -> bool {
    &&& 0 <= i < s.len()
    &&& s[i].id@ == id
    &&& forall|j: int| 0 <= j < i ==> s[j].id@ != id
}

/// `i` is the position of the first device in `s` at address `ip`.
pub open spec fn first_with_ip(s: Seq<Device>, ip: Ipv4Addr, i: int) -> bool {
    &&& 0 <= i < s.len()
    &&& s[i].ip == ip
    &&& forall|j: int| 0 <= j < i ==> s[j].ip != ip
}

/// Whether some device in `s` has the identifier `id`.
pub open spec fn has_id(s: Seq<Device>, id: Seq<char>) -> bool {
    exists|i: int| 0 <= i < s.len() && s[i].id@ == id
}

/// Whether a device is approved.
pub open spec fn is_approved(d: Device) -> bool {
    d.approved
}

/// Whether a device's identifier differs from `id`.
pub open spec fn id_differs(id: Seq<char>) -> spec_fn(Device) -> bool {
    |d: Device| d.id@ != id
}

/// After a device is approved, looking it up by its identifier finds it
/// approved, at the limit it was given; every other position is unchanged.
pub proof fn lemma_approved_device_found_approved(s: Seq<Device>, id: Seq<char>, i: int, limit: u64)
    requires
        first_with_id(s, id, i),
    ensures
        ({
            let after = s.update(i, approved_with(s[i], limit));
            &&& first_with_id(after, id, i)
            &&& is_approved(after[i])
            &&& after[i].bandwidth_limit == limit
            &&& after[i].ip == s[i].ip
            &&& forall|j: int| 0 <= j < s.len() && j != i ==> after[j] == s[j]
        }),
{
}

/// After a device is denied, no device with its identifier is left, and
/// every device with another identifier is still there.
pub proof fn lemma_denied_device_gone(s: Seq<Device>, id: Seq<char>)
    ensures
        !has_id(s.filter(id_differs(id)), id),
        forall|d: Device| #[trigger] s.contains(d) && d.id@ != id ==> s.filter(id_differs(id)).contains(d),
{
    let f = s.filter(id_differs(id));
    assert forall|k: int| 0 <= k < f.len() implies f[k].id@ != id by {
        s.filter_lemma(id_differs(id));
        assert(id_differs(id)(f[k]));
    }
    assert forall|d: Device| #[trigger] s.contains(d) && d.id@ != id implies f.contains(d) by {
        s.filter_lemma(id_differs(id));
        assert(id_differs(id)(d));
    }
}

/// Registry holding all paired devices, in pairing order.
pub struct DeviceRegistry {
    devices: Vec<Device>,
}

impl View for DeviceRegistry {
    type V = Seq<Device>;

    closed spec fn view(&self) -> Seq<Device> {
        self.devices@
    }
}

impl DeviceRegistry {
    /// Creates an empty registry.
    pub fn new() -> (r: DeviceRegistry)
        ensures
            r@ == Seq::<Device>::empty(),
    {
        DeviceRegistry { devices: Vec::new() }
    }

    /// Adds a new device awaiting approval (after a phone's pairing
    /// request): a fresh random identifier, the time of the call, not
    /// approved, and the default limit of 10 MB/s. Returns the device.
    pub fn add_pending_device(&mut self, ip: Ipv4Addr, platform: String, device_name: String) -> (r: Device)
        ensures
            final(self)@ == old(self)@.push(r),
            r.ip == ip,
            r.platform == platform,
            r.device_name == device_name,
            !r.approved,
            r.bandwidth_limit == DEFAULT_BANDWIDTH_LIMIT,
            is_v4_uuid_text(r.id@),
    {
        let device = Device {
            id: new_device_id(),
            ip,
            platform,
            device_name,
            approved: false,
            bandwidth_limit: DEFAULT_BANDWIDTH_LIMIT,
            enrolled_at: unix_micros_now(),
        };
        self.devices.push(device.duplicate());
        device
    }

    /// The position of the first device with identifier `id`, if any.
    fn position_of_id(&self, device_id: &str) -> (r: Option<usize>)
        ensures
            match r {
                Some(i) => first_with_id(self@, device_id@, i as int),
                None => !has_id(self@, device_id@),
            },
    {
        let wanted = String::from_str(device_id);
        let mut i: usize = 0;
        while i < self.devices.len()
            invariant
                i <= self.devices@.len(),
                wanted@ == device_id@,
                forall|j: int| 0 <= j < i ==> self.devices@[j].id@ != device_id@,
            decreases self.devices@.len() - i,
        {
            if self.devices[i].id == wanted {
                return Some(i);
            }
            i = i + 1;
        }
        None
    }

    /// Approves the first device with identifier `device_id` for internet
    /// access at `bandwidth_limit` bytes per second, and returns it; `None`
    /// (and no change) when no device has that identifier.
    pub fn approve_device(&mut self, device_id: &str, bandwidth_limit: u64) -> (r: Option<Device>)
        ensures
            match r {
                Some(d) => exists|i: int|
                    #[trigger] first_with_id(old(self)@, device_id@, i) && d == approved_with(old(self)@[i], bandwidth_limit)
                        && final(self)@ == old(self)@.update(i, d),
                None => !has_id(old(self)@, device_id@) && final(self)@ == old(self)@,
            },
    {
        match self.position_of_id(device_id) {
            None => None,
            Some(i) => {
                let mut d = self.devices[i].duplicate();
                d.approved = true;
                d.bandwidth_limit = bandwidth_limit;
                self.devices.set(i, d.duplicate());
                assert(first_with_id(old(self)@, device_id@, i as int));
                assert(d == approved_with(old(self)@[i as int], bandwidth_limit));
                assert(self@ == old(self)@.update(i as int, d));
                Some(d)
            },
        }
    }

    /// Removes every device with identifier `device_id`. Always returns `true`.
    pub fn deny_device(&mut self, device_id: &str) -> (r: bool)
        ensures
            r,
            final(self)@ == old(self)@.filter(id_differs(device_id@)),
    {
        let wanted = String::from_str(device_id);
        let mut kept: Vec<Device> = Vec::new();
        let mut i: usize = 0;
        while i < self.devices.len()
            invariant
                i <= self.devices@.len(),
                self.devices@ == old(self)@,
                wanted@ == device_id@,
                kept@ == old(self)@.take(i as int).filter(id_differs(device_id@)),
            decreases self.devices@.len() - i,
        {
            proof {
                assert(old(self)@.take(i + 1) =~= old(self)@.take(i as int).push(old(self)@[i as int]));
                old(self)@.take(i as int).lemma_filter_push(old(self)@[i as int], id_differs(device_id@));
            }
            if !(self.devices[i].id == wanted) {
                kept.push(self.devices[i].duplicate());
            }
            i = i + 1;
        }
        assert(old(self)@.take(i as int) =~= old(self)@);
        self.devices = kept;
        true
    }

    /// Sets the bandwidth limit of the first device with identifier
    /// `device_id`, and returns it; `None` (and no change) when no device
    /// has that identifier.
    pub fn update_bandwidth(&mut self, device_id: &str, bytes_per_sec: u64) -> (r: Option<Device>)
        ensures
            match r {
                Some(d) => exists|i: int|
                    #[trigger] first_with_id(old(self)@, device_id@, i) && d == limited_to(old(self)@[i], bytes_per_sec)
                        && final(self)@ == old(self)@.update(i, d),
                None => !has_id(old(self)@, device_id@) && final(self)@ == old(self)@,
            },
    {
        match self.position_of_id(device_id) {
            None => None,
            Some(i) => {
                let mut d = self.devices[i].duplicate();
                d.bandwidth_limit = bytes_per_sec;
                self.devices.set(i, d.duplicate());
                assert(first_with_id(old(self)@, device_id@, i as int));
                assert(d == limited_to(old(self)@[i as int], bytes_per_sec));
                assert(self@ == old(self)@.update(i as int, d));
                Some(d)
            },
        }
    }

    /// All devices, in pairing order.
    pub fn get_all(&self) -> (r: Vec<Device>)
        ensures
            r@ == self@,
    {
        let mut out: Vec<Device> = Vec::new();
        let mut i: usize = 0;
        while i < self.devices.len()
            invariant
                i <= self.devices@.len(),
                out@ == self.devices@.take(i as int),
            decreases self.devices@.len() - i,
        {
            out.push(self.devices[i].duplicate());
            i = i + 1;
            assert(out@ =~= self.devices@.take(i as int));
        }
        assert(self.devices@.take(i as int) =~= self.devices@);
        out
    }

    /// The approved devices, in pairing order.
    pub fn get_approved(&self) -> (r: Vec<Device>)
        ensures
            r@ == self@.filter(|d: Device| is_approved(d)),
    {
        let ghost pred = |d: Device| is_approved(d);
        let mut out: Vec<Device> = Vec::new();
        let mut i: usize = 0;
        while i < self.devices.len()
            invariant
                i <= self.devices@.len(),
                pred == (|d: Device| is_approved(d)),
                out@ == self.devices@.take(i as int).filter(pred),
            decreases self.devices@.len() - i,
        {
            proof {
                assert(self.devices@.take(i + 1) =~= self.devices@.take(i as int).push(self.devices@[i as int]));
                self.devices@.take(i as int).lemma_filter_push(self.devices@[i as int], pred);
            }
            if self.devices[i].approved {
                out.push(self.devices[i].duplicate());
            }
            i = i + 1;
        }
        assert(self.devices@.take(i as int) =~= self.devices@);
        out
    }

    /// The first device with identifier `device_id`, if any.
    pub fn get_by_id(&self, device_id: &str) -> (r: Option<Device>)
        ensures
            match r {
                Some(d) => exists|i: int| first_with_id(self@, device_id@, i) && d == self@[i],
                None => !has_id(self@, device_id@),
            },
    {
        match self.position_of_id(device_id) {
            None => None,
            Some(i) => Some(self.devices[i].duplicate()),
        }
    }

    /// The first device at address `ip`, if any.
    pub fn get_by_ip(&self, ip: Ipv4Addr) -> (r: Option<Device>)
        ensures
            match r {
                Some(d) => exists|i: int| first_with_ip(self@, ip, i) && d == self@[i],
                None => forall|i: int| 0 <= i < self@.len() ==> self@[i].ip != ip,
            },
    {
        let mut i: usize = 0;
        while i < self.devices.len()
            invariant
                i <= self.devices@.len(),
                forall|j: int| 0 <= j < i ==> self.devices@[j].ip != ip,
            decreases self.devices@.len() - i,
        {
            if self.devices[i].ip == ip {
                assert(first_with_ip(self@, ip, i as int));
                return Some(self.devices[i].duplicate());
            }
            i = i + 1;
        }
        None
    }
}

} // verus!
