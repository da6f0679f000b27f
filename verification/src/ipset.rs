//! A set of IP prefixes, asked whether it covers an address.
//!
//! Of an IPv6 address the first 64 bits count: an IPv6 prefix is no longer
//! than that.

use crate::ip_map::{covers4, covers6, net4, net6, IpAddr, IpMap};
use crate::net::{cidr_text, parse_cidr};
use vstd::prelude::*;

verus! {

/// The prefixes of a set, each as its network address and its length.
pub ghost struct IpSetView {
    pub v4: Set<(u32, u32)>,
    pub v6: Set<(u128, u32)>,
}

impl IpSetView {
    /// A prefix of the set covers the IPv4 address `addr`.
    pub open spec fn covers_v4(self, addr: u32) -> bool {
        exists|len: u32| len <= 32 && self.v4.contains((net4(addr, len), len))
    }

    /// A prefix of the set covers the IPv6 address `addr`.
    pub open spec fn covers_v6(self, addr: u128) -> bool {
        exists|len: u32| len <= 128 && self.v6.contains((net6(addr, len), len))
    }

    /// A prefix of the set covers `addr`.
    pub open spec fn covers(self, addr: IpAddr) -> bool {
        match addr {
            IpAddr::V4(a) => self.covers_v4(a),
            IpAddr::V6(a) => self.covers_v6(a),
        }
    }

    /// The set with the IPv4 prefix `addr/len`. A length above 32 changes
    /// nothing.
    pub open spec fn with_v4(self, addr: u32, len: int) -> IpSetView {
        if 0 <= len <= 32 {
            IpSetView { v4: self.v4.insert((net4(addr, len as u32), len as u32)), ..self }
        } else {
            self
        }
    }

    /// The set with the IPv6 prefix `addr/len`. A length above 64 changes
    /// nothing.
    pub open spec fn with_v6(self, addr: u128, len: int) -> IpSetView {
        if 0 <= len <= 64 {
            IpSetView { v6: self.v6.insert((net6(addr, len as u32), len as u32)), ..self }
        } else {
            self
        }
    }

    /// The set with the prefix `addr/len`.
    pub open spec fn with(self, addr: IpAddr, len: int) -> IpSetView {
        match addr {
            IpAddr::V4(a) => self.with_v4(a, len),
            IpAddr::V6(a) => self.with_v6(a, len),
        }
    }
}

/// A set of prefixes of both address families.
pub struct IpSet {
    map: IpMap<()>,
}

impl IpSetView {
    /// The set with the prefix that the line `l` gives, written as an
    /// address, a slash and a length. An IPv6 prefix of more than 64 bits is
    /// no valid entry.
    pub open spec fn with_line(self, l: Seq<char>) -> Option<IpSetView> {
        match cidr_text(l) {
            Some((IpAddr::V4(a), len)) => Some(self.with_v4(a, len as int)),
            Some((IpAddr::V6(a), len)) => if len <= 64 {
                Some(self.with_v6(a, len as int))
            } else {
                None
            },
            None => None,
        }
    }
}

impl IpSet {
    /// Adds the prefix that the line `l` gives. A line that gives none
    /// changes nothing, and nothing comes back for it.
    pub fn append_line(&mut self, l: &str) -> (r: Option<()>)
        ensures
            match old(self)@.with_line(l@) {
                Some(s) => r is Some && final(self)@ == s,
                None => r is None && final(self)@ == old(self)@,
            },
    {
        match parse_cidr(l) {
            Some((IpAddr::V4(a), len)) => {
                self.insert_v4(a, len as usize);
                Some(())
            },
            Some((IpAddr::V6(a), len)) => {
                if len <= 64 {
                    self.insert_v6(a, len as usize);
                    Some(())
                } else {
                    None
                }
            },
            None => None,
        }
    }
}

impl View for IpSet {
    type V = IpSetView;

    closed spec fn view(&self) -> IpSetView {
        IpSetView { v4: self.map@.v4.dom(), v6: self.map@.v6.dom() }
    }
}

impl IpSet {
    /// The empty set.
    pub fn new() -> (r: Self)
        ensures
            r@.v4 == Set::<(u32, u32)>::empty(),
            r@.v6 == Set::<(u128, u32)>::empty(),
    {
        let r = IpSet { map: IpMap::new(()) };
        assert(r@.v4 =~= Set::<(u32, u32)>::empty());
        assert(r@.v6 =~= Set::<(u128, u32)>::empty());
        r
    }

    /// Adds the prefix `addr/cidr_len`. A length above 32 for an IPv4
    /// address, or above 64 for an IPv6 address, is rejected: the set stays
    /// as it is.
    pub fn insert(&mut self, addr: IpAddr, cidr_len: usize)
        ensures
            final(self)@ == old(self)@.with(addr, cidr_len as int),
    {
        match addr {
            IpAddr::V4(net4) => self.insert_v4(net4, cidr_len),
            IpAddr::V6(net6) => self.insert_v6(net6, cidr_len),
        }
    }

    /// Whether a prefix of the set covers `addr`.
    pub fn contains(&self, addr: IpAddr) -> (r: bool)
        ensures
            r == self@.covers(addr),
    {
        match addr {
            IpAddr::V4(addr4) => self.contains_v4(addr4),
            IpAddr::V6(addr6) => self.contains_v6(addr6),
        }
    }

    /// Adds the IPv4 prefix `addr/cidr_len`, or nothing where the length is
    /// above 32.
    pub fn insert_v4(&mut self, addr: u32, cidr_len: usize)
        ensures
            final(self)@ == old(self)@.with_v4(addr, cidr_len as int),
    {
        if cidr_len > 32 {
            return ;
        }
        self.map.insert(IpAddr::V4(addr), cidr_len as u32, ());
        assert(self@.v4 =~= old(self)@.v4.insert((net4(addr, cidr_len as u32), cidr_len as u32)));
        assert(self@.v6 =~= old(self)@.v6);
    }

    /// Adds the IPv6 prefix `addr/cidr_len`, or nothing where the length is
    /// above 64.
    pub fn insert_v6(&mut self, addr: u128, cidr_len: usize)
        ensures
            final(self)@ == old(self)@.with_v6(addr, cidr_len as int),
    {
        if cidr_len > 64 {
            return ;
        }
        self.map.insert(IpAddr::V6(addr), cidr_len as u32, ());
        assert(self@.v6 =~= old(self)@.v6.insert((net6(addr, cidr_len as u32), cidr_len as u32)));
        assert(self@.v4 =~= old(self)@.v4);
    }

    /// Whether a prefix of the set covers the IPv4 address `addr`.
    pub fn contains_v4(&self, addr: u32) -> (r: bool)
        ensures
            r == self@.covers_v4(addr),
    {
        match self.map.find4(addr) {
            Some((len, _)) => {
                assert(covers4(self.map@.v4, addr, len));
                true
            },
            None => {
                assert forall|len: u32| !(len <= 32 && self@.v4.contains((net4(addr, len), len))) by {
                    assert(!covers4(self.map@.v4, addr, len));
                }
                false
            },
        }
    }

    /// Whether a prefix of the set covers the IPv6 address `addr`.
    pub fn contains_v6(&self, addr: u128) -> (r: bool)
        ensures
            r == self@.covers_v6(addr),
    {
        match self.map.find6(addr) {
            Some((len, _)) => {
                assert(covers6(self.map@.v6, addr, len));
                true
            },
            None => {
                assert forall|len: u32|
                    !(len <= 128 && self@.v6.contains((net6(addr, len), len))) by {
                    assert(!covers6(self.map@.v6, addr, len));
                }
                false
            },
        }
    }
}

} // verus!
