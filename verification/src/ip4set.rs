//! A set of IPv4 prefixes, asked whether it covers an address.

use crate::ip_map::{covers4, net4, IpAddr, IpMap};
use crate::net::{cidr_text, parse_cidr};
use vstd::prelude::*;

verus! {

/// A prefix of `s`, each given as its network address and its length,
/// covers `ip`.
pub open spec fn covered(s: Set<(u32, u32)>, ip: u32) -> bool {
    exists|len: u32| len <= 32 && s.contains((net4(ip, len), len))
}

/// A set of IPv4 prefixes.
pub struct Ip4Set {
    map: IpMap<()>,
}

/// The set `s` with the IPv4 prefix that the line `l` gives, written as an
/// address, a slash and a length.
pub open spec fn with_line(s: Set<(u32, u32)>, l: Seq<char>) -> Option<Set<(u32, u32)>> {
    match cidr_text(l) {
        Some((IpAddr::V4(a), len)) => Some(s.insert((net4(a, len), len))),
        _ => None,
    }
}

impl Ip4Set {
    /// Adds the prefix that the line `l` gives. A line that gives none
    /// changes nothing, and nothing comes back for it.
    pub fn append_line(&mut self, l: &str) -> (r: Option<()>)
        ensures
            match with_line(old(self)@, l@) {
                Some(s) => r is Some && final(self)@ == s,
                None => r is None && final(self)@ == old(self)@,
            },
    {
        match parse_cidr(l) {
            Some((IpAddr::V4(a), len)) => {
                self.insert(a, len as isize);
                Some(())
            },
            _ => None,
        }
    }
}

impl View for Ip4Set {
    type V = Set<(u32, u32)>;

    closed spec fn view(&self) -> Set<(u32, u32)> {
        self.map@.v4.dom()
    }
}

impl Ip4Set {
    /// The empty set.
    pub fn new() -> (r: Self)
        ensures
            r@ == Set::<(u32, u32)>::empty(),
    {
        let r = Ip4Set { map: IpMap::new(()) };
        assert(r@ =~= Set::<(u32, u32)>::empty());
        r
    }

    /// Adds the prefix `ip/cidr_len`. A length that is negative or above 32
    /// is rejected: the set stays as it is.
    pub fn insert(&mut self, ip: u32, cidr_len: isize)
        ensures
            final(self)@ == (if 0 <= cidr_len <= 32 {
                old(self)@.insert((net4(ip, cidr_len as u32), cidr_len as u32))
            } else {
                old(self)@
            }),
    {
        if cidr_len < 0 || cidr_len > 32 {
            return ;
        }
        self.map.insert(IpAddr::V4(ip), cidr_len as u32, ());
        assert(self@ =~= old(self)@.insert((net4(ip, cidr_len as u32), cidr_len as u32)));
    }

    /// Whether a prefix of the set covers `ip`.
    pub fn contains(&self, ip: u32) -> (r: bool)
        ensures
            r == covered(self@, ip),
    {
        match self.map.find4(ip) {
            Some((len, _)) => {
                assert(covers4(self.map@.v4, ip, len));
                true
            },
            None => {
                assert forall|len: u32| !(len <= 32 && self@.contains((net4(ip, len), len))) by {
                    assert(!covers4(self.map@.v4, ip, len));
                }
                false
            },
        }
    }
}

} // verus!
