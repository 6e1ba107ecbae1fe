//! The set of enrolled device addresses of the consent server.
use crate::net::Ipv4Addr;
use vstd::prelude::*;

verus! {

/// The addresses after enrolling `ip`: unchanged when it is there already,
/// otherwise `ip` at the end.
pub open spec fn with_enrolled(s: Seq<Ipv4Addr>, ip: Ipv4Addr) -> Seq<Ipv4Addr> {
    if s.contains(ip) {
        s
    } else {
        s.push(ip)
    }
}

/// Enrolling makes an address enrolled, keeps every address that was, and
/// enrolling the same address again changes nothing.
pub proof fn lemma_enroll_idempotent(s: Seq<Ipv4Addr>, ip: Ipv4Addr)
    ensures
        with_enrolled(s, ip).contains(ip),
        forall|x: Ipv4Addr| s.contains(x) ==> with_enrolled(s, ip).contains(x),
        with_enrolled(with_enrolled(s, ip), ip) == with_enrolled(s, ip),
{
    if !s.contains(ip) {
        assert(s.push(ip)[s.len() as int] == ip);
        assert forall|x: Ipv4Addr| s.contains(x) implies s.push(ip).contains(x) by {
            let j = choose|j: int| 0 <= j < s.len() && s[j] == x;
            assert(s.push(ip)[j] == x);
        }
    }
}

/// Tracks enrolled device addresses, each once, in enrollment order.
pub struct EnrolledDevices {
    ips: Vec<Ipv4Addr>,
}

impl View for EnrolledDevices {
    type V = Seq<Ipv4Addr>;

    closed spec fn view(&self) -> Seq<Ipv4Addr> {
        self.ips@
    }
}

impl EnrolledDevices {
    /// No address is listed twice.
    pub closed spec fn wf(&self) -> bool {
        self.ips@.no_duplicates()
    }

    /// No enrolled devices.
    pub fn new() -> (r: EnrolledDevices)
        ensures
            r.wf(),
            r@ == Seq::<Ipv4Addr>::empty(),
    {
        EnrolledDevices { ips: Vec::new() }
    }

    /// Enrolls `ip`, unless it is enrolled already.
    pub fn add(&mut self, ip: Ipv4Addr)
        requires
            old(self).wf(),
        ensures
            final(self).wf(),
            final(self)@ == with_enrolled(old(self)@, ip),
    {
        if !self.is_enrolled(ip) {
            self.ips.push(ip);
            proof {
                assert forall|i: int, j: int| 0 <= i < j < self.ips@.len() implies self.ips@[i] != self.ips@[j] by {
                    if j == self.ips@.len() - 1 {
                        assert(old(self)@[i] == self.ips@[i]);
                    } else {
                        assert(old(self)@[i] == self.ips@[i] && old(self)@[j] == self.ips@[j]);
                    }
                }
            }
        }
    }

    /// Whether `ip` is enrolled.
    pub fn is_enrolled(&self, ip: Ipv4Addr) -> (r: bool)
        ensures
            r == self@.contains(ip),
    {
        let mut i: usize = 0;
        while i < self.ips.len()
            invariant
                i <= self.ips@.len(),
                forall|j: int| 0 <= j < i ==> self.ips@[j] != ip,
            decreases self.ips@.len() - i,
        {
            if self.ips[i] == ip {
                assert(self.ips@[i as int] == ip);
                return true;
            }
            i = i + 1;
        }
        false
    }
}

impl Default for EnrolledDevices {
    fn default() -> (r: EnrolledDevices)
        ensures
            r.wf(),
            r@ == Seq::<Ipv4Addr>::empty(),
    {
        EnrolledDevices::new()
    }
}

} // verus!
