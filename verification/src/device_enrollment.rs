//! The store of enrolled devices and their approval.
use crate::clock::unix_micros_now;
use crate::net::Ipv4Addr;
use vstd::prelude::*;

verus! {

/// One enrolled device.
#[derive(Debug, Clone, PartialEq)]
pub struct DeviceEnrollment {
    pub ip: Ipv4Addr,
    pub hostname: Option<String>,
    pub approved: bool,
    /// When the device enrolled, as an ISO 8601 (RFC 3339) timestamp.
    pub enrolled_at: String,
}

impl DeviceEnrollment {
    /// A copy of the enrollment, field for field.
    pub fn duplicate(&self) -> (r: DeviceEnrollment)
        ensures
            r == *self,
    {
        DeviceEnrollment {
            ip: self.ip,
            hostname: match &self.hostname {
                Some(h) => Some(h.clone()),
                None => None,
            },
            approved: self.approved,
            enrolled_at: self.enrolled_at.clone(),
        }
    }
}

/// Whether `c` is an ASCII digit.
pub open spec fn is_ascii_digit(c: char) -> bool {
    '0' <= c && c <= '9'
}

/// Whether `s` has the RFC 3339 form that `to_rfc3339` writes with the
/// time `T` at position `p`: the year (four digits, or a sign and at least
/// four digits), `-MM-DD`, `T`, `hh:mm:ss`, an optional fraction of a
/// second, and the offset `+hh:mm` or `-hh:mm`.
pub open spec fn rfc3339_at(s: Seq<char>, p: int) -> bool {
    let n = s.len() as int;
    &&& 10 <= p && p + 15 <= n
    &&& (p == 10 && forall|i: int| 0 <= i < 4 ==> is_ascii_digit(#[trigger] s[i])) || (p > 10 && (s[0] == '+'
        || s[0] == '-') && forall|i: int| 1 <= i < p - 6 ==> is_ascii_digit(#[trigger] s[i]))
    &&& s[p - 6] == '-' && is_ascii_digit(s[p - 5]) && is_ascii_digit(s[p - 4])
    &&& s[p - 3] == '-' && is_ascii_digit(s[p - 2]) && is_ascii_digit(s[p - 1])
    &&& s[p] == 'T' && is_ascii_digit(s[p + 1]) && is_ascii_digit(s[p + 2])
    &&& s[p + 3] == ':' && is_ascii_digit(s[p + 4]) && is_ascii_digit(s[p + 5])
    &&& s[p + 6] == ':' && is_ascii_digit(s[p + 7]) && is_ascii_digit(s[p + 8])
    &&& (p + 9 == n - 6 || (s[p + 9] == '.' && p + 10 < n - 6 && forall|i: int|
        p + 10 <= i < n - 6 ==> is_ascii_digit(#[trigger] s[i])))
    &&& (s[n - 6] == '+' || s[n - 6] == '-') && is_ascii_digit(s[n - 5]) && is_ascii_digit(s[n - 4])
    &&& s[n - 3] == ':' && is_ascii_digit(s[n - 2]) && is_ascii_digit(s[n - 1])
}

/// Whether `s` is a date and time in the RFC 3339 form of `to_rfc3339`.
pub open spec fn is_rfc3339_text(s: Seq<char>) -> bool {
    exists|p: int| rfc3339_at(s, p)
}

/// The time `micros` microseconds after the Unix epoch in the machine's
/// local time zone, in RFC 3339 form
/// (`DateTime::<Utc>::from_timestamp_micros`, then `with_timezone(&Local)`
/// and `to_rfc3339`); `None` where the time lies outside the range chrono
/// represents. Which offset the local time zone gives is not stated.
#[verifier::external_body]
fn local_rfc3339_at(micros: i64) -> (r: Option<String>)
    ensures
        r matches Some(t) ==> is_rfc3339_text(t@),
{
    match chrono::DateTime::<chrono::Utc>::from_timestamp_micros(micros) {
        Some(t) => Some(t.with_timezone(&chrono::Local).to_rfc3339()),
        None => None,
    }
}

/// The local time now in RFC 3339 form, or the empty text where the clock
/// reads outside the range chrono represents.
fn local_now_rfc3339() -> (r: String)
    ensures
        is_rfc3339_text(r@) || r@.len() == 0,
{
    match local_rfc3339_at(unix_micros_now()) {
        Some(t) => t,
        None => String::new(),
    }
}

/// Whether the enrollment is approved.
pub open spec fn enrollment_approved(d: DeviceEnrollment) -> bool {
    d.approved
}

/// The address of an enrollment.
pub open spec fn enrollment_ip(d: DeviceEnrollment) -> Ipv4Addr {
    d.ip
}

/// No address is listed twice.
pub open spec fn unique_ips(s: Seq<DeviceEnrollment>) -> bool {
    forall|i: int, j: int| 0 <= i < j < s.len() ==> s[i].ip != s[j].ip
}

/// Whether some device at `ip` is approved.
pub open spec fn approved_at(s: Seq<DeviceEnrollment>, ip: Ipv4Addr) -> bool {
    exists|i: int| 0 <= i < s.len() && (#[trigger] s[i]).ip == ip && s[i].approved
}

/// The enrolled devices, each address at most once, in enrollment order.
pub struct DeviceList {
    devices: Vec<DeviceEnrollment>,
}

impl View for DeviceList {
    type V = Seq<DeviceEnrollment>;

    closed spec fn view(&self) -> Seq<DeviceEnrollment> {
        self.devices@
    }
}

impl DeviceList {
    /// An empty list.
    pub fn new() -> (r: DeviceList)
        ensures
            r@ == Seq::<DeviceEnrollment>::empty(),
    {
        DeviceList { devices: Vec::new() }
    }

    /// A list holding `devices` (as loaded from storage).
    pub fn from_devices(devices: Vec<DeviceEnrollment>) -> (r: DeviceList)
        ensures
            r@ == devices@,
    {
        DeviceList { devices }
    }

    /// Adds a device, or updates the approval of the first device with
    /// that address. A new device has no hostname and the current local
    /// time as its enrollment time (empty where the clock
    /// reads outside the range chrono represents).
    pub fn add(&mut self, ip: Ipv4Addr, approved: bool)
        ensures
            (exists|i: int| 0 <= i < old(self)@.len() && old(self)@[i].ip == ip) ==> exists|i: int|
                0 <= i < old(self)@.len() && (#[trigger] old(self)@[i]).ip == ip && (forall|j: int|
                    0 <= j < i ==> old(self)@[j].ip != ip) && final(self)@ == old(self)@.update(
                    i,
                    DeviceEnrollment { approved, ..old(self)@[i] },
                ),
            (forall|i: int| 0 <= i < old(self)@.len() ==> old(self)@[i].ip != ip) ==> ({
                let d = final(self)@.last();
                &&& final(self)@.len() == old(self)@.len() + 1
                &&& final(self)@.drop_last() == old(self)@
                &&& d.ip == ip
                &&& d.hostname is None
                &&& d.approved == approved
                &&& (is_rfc3339_text(d.enrolled_at@) || d.enrolled_at@.len() == 0)
            }),
            unique_ips(old(self)@) ==> unique_ips(final(self)@),
            unique_ips(old(self)@) ==> approved_at(final(self)@, ip) == approved,
    {
        let mut i: usize = 0;
        while i < self.devices.len()
            invariant
                i <= self.devices@.len(),
                self.devices@ == old(self)@,
                forall|j: int| 0 <= j < i ==> self.devices@[j].ip != ip,
            decreases self.devices@.len() - i,
        {
            if self.devices[i].ip == ip {
                let mut d = self.devices[i].duplicate();
                d.approved = approved;
                self.devices.set(i, d);
                assert(old(self)@[i as int].ip == ip);
                proof {
                    if unique_ips(old(self)@) {
                        assert forall|k: int| 0 <= k < self@.len() && k != i implies self@[k].ip != ip by {
                            assert(self@[k] == old(self)@[k]);
                        }
                        if approved {
                            assert(self@[i as int].ip == ip && self@[i as int].approved);
                        }
                    }
                }
                return;
            }
            i = i + 1;
        }
        self.devices.push(DeviceEnrollment { ip, hostname: None, approved, enrolled_at: local_now_rfc3339() });
        assert(self.devices@.drop_last() =~= old(self)@);
        proof {
            let n = old(self)@.len() as int;
            assert(self@[n].ip == ip);
            if approved {
                assert(self@[n].ip == ip && self@[n].approved);
            }
            assert forall|k: int| 0 <= k < n implies self@[k] == old(self)@[k] by {}
        }
    }

    /// The addresses of the approved devices, in enrollment order.
    pub fn approved_devices(&self) -> (r: Vec<Ipv4Addr>)
        ensures
            r@ == self@.filter(|d: DeviceEnrollment| enrollment_approved(d)).map_values(
                |d: DeviceEnrollment| enrollment_ip(d),
            ),
    {
        let ghost pred = |d: DeviceEnrollment| enrollment_approved(d);
        let ghost f = |d: DeviceEnrollment| enrollment_ip(d);
        let mut out: Vec<Ipv4Addr> = Vec::new();
        let mut i: usize = 0;
        while i < self.devices.len()
            invariant
                i <= self.devices@.len(),
                pred == (|d: DeviceEnrollment| enrollment_approved(d)),
                f == (|d: DeviceEnrollment| enrollment_ip(d)),
                out@ == self.devices@.take(i as int).filter(pred).map_values(f),
            decreases self.devices@.len() - i,
        {
            proof {
                assert(self.devices@.take(i + 1) =~= self.devices@.take(i as int).push(self.devices@[i as int]));
                self.devices@.take(i as int).lemma_filter_push(self.devices@[i as int], pred);
            }
            if self.devices[i].approved {
                out.push(self.devices[i].ip);
                assert(out@ =~= self.devices@.take(i + 1).filter(pred).map_values(f));
            }
            i = i + 1;
        }
        assert(self.devices@.take(i as int) =~= self.devices@);
        out
    }

    /// Whether some device at `ip` is approved.
    pub fn is_approved(&self, ip: Ipv4Addr) -> (r: bool)
        ensures
            r == approved_at(self@, ip),
    {
        let mut i: usize = 0;
        while i < self.devices.len()
            invariant
                i <= self.devices@.len(),
                forall|j: int| 0 <= j < i ==> !(self.devices@[j].ip == ip && self.devices@[j].approved),
            decreases self.devices@.len() - i,
        {
            if self.devices[i].ip == ip && self.devices[i].approved {
                return true;
            }
            i = i + 1;
        }
        false
    }

    /// The enrolled devices.
    pub fn devices(&self) -> (r: &[DeviceEnrollment])
        ensures
            r@ == self@,
    {
        self.devices.as_slice()
    }
}

impl Default for DeviceList {
    fn default() -> (r: DeviceList)
        ensures
            r@ == Seq::<DeviceEnrollment>::empty(),
    {
        DeviceList::new()
    }
}

} // verus!
