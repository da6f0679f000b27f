//! A longest-prefix map from IP addresses to values, with a default.
//!
//! An entry is a prefix, written as a network address and a length in bits,
//! with a value. A lookup gives the value of the longest prefix that covers
//! the address, or the default where none does.

use crate::net::{cidr_text, parse_cidr};
use crate::utils::FromLst;
use std::collections::HashMap;
use vstd::prelude::*;

verus! {

/// An IP address, held as the number that its bytes spell in network order.
#[derive(Clone, Copy, Debug, PartialEq, Eq, Structural)]
pub enum IpAddr {
    V4(u32),
    V6(u128),
}

/// The first `len` bits of an IPv4 address, the others cleared.
pub open spec fn net4(addr: u32, len: u32) -> u32 {
    if len == 0 {
        0
    } else if len >= 32 {
        addr
    } else {
        addr & (0xffff_ffffu32 << ((32 - len) as u32))
    }
}

/// The first `len` bits of an IPv6 address, the others cleared.
pub open spec fn net6(addr: u128, len: u32) -> u128 {
    if len == 0 {
        0
    } else if len >= 128 {
        addr
    } else {
        addr & (0xffff_ffff_ffff_ffff_ffff_ffff_ffff_ffffu128 << ((128 - len) as u128))
    }
}

/// `m` holds the prefix of length `len` that covers `addr`.
pub open spec fn covers4<T>(m: Map<(u32, u32), T>, addr: u32, len: u32) -> bool {
    len <= 32 && m.contains_key((net4(addr, len), len))
}

/// `m` holds the prefix of length `len` that covers `addr`.
pub open spec fn covers6<T>(m: Map<(u128, u32), T>, addr: u128, len: u32) -> bool {
    len <= 128 && m.contains_key((net6(addr, len), len))
}

/// `len` is the length of the longest prefix in `m` that covers `addr`.
pub open spec fn longest4<T>(m: Map<(u32, u32), T>, addr: u32, len: u32) -> bool {
    covers4(m, addr, len) && forall|l: u32| len < l ==> !covers4(m, addr, l)
}

/// `len` is the length of the longest prefix in `m` that covers `addr`.
pub open spec fn longest6<T>(m: Map<(u128, u32), T>, addr: u128, len: u32) -> bool {
    covers6(m, addr, len) && forall|l: u32| len < l ==> !covers6(m, addr, l)
}

/// The value of the longest prefix in `m` that covers `addr`, or `default`.
pub open spec fn lookup4<T>(m: Map<(u32, u32), T>, default: T, addr: u32) -> T {
    if exists|len: u32| longest4(m, addr, len) {
        let len = choose|len: u32| longest4(m, addr, len);
        m[(net4(addr, len), len)]
    } else {
        default
    }
}

/// The value of the longest prefix in `m` that covers `addr`, or `default`.
pub open spec fn lookup6<T>(m: Map<(u128, u32), T>, default: T, addr: u128) -> T {
    if exists|len: u32| longest6(m, addr, len) {
        let len = choose|len: u32| longest6(m, addr, len);
        m[(net6(addr, len), len)]
    } else {
        default
    }
}

/// What an `IpMap` holds: the entries of each family, keyed by network
/// address and prefix length, and the default.
pub ghost struct IpMapView<T> {
    pub v4: Map<(u32, u32), T>,
    pub v6: Map<(u128, u32), T>,
    pub default: T,
}

impl<T> IpMapView<T> {
    /// The value that a lookup of `addr` gives.
    pub open spec fn lookup(self, addr: IpAddr) -> T {
        match addr {
            IpAddr::V4(a) => lookup4(self.v4, self.default, a),
            IpAddr::V6(a) => lookup6(self.v6, self.default, a),
        }
    }

    /// The entries after `value` was stored for `addr/len`. A length beyond
    /// the width of the family changes nothing.
    pub open spec fn insert(self, addr: IpAddr, len: u32, value: T) -> Self {
        match addr {
            IpAddr::V4(a) => if len <= 32 {
                IpMapView { v4: self.v4.insert((net4(a, len), len), value), ..self }
            } else {
                self
            },
            IpAddr::V6(a) => if len <= 128 {
                IpMapView { v6: self.v6.insert((net6(a, len), len), value), ..self }
            } else {
                self
            },
        }
    }
}

/// A longest-prefix map over both address families.
///
/// The entries of one prefix length stand in one hash map, keyed by the
/// network address; a lookup tries the lengths from the longest down.
#[verifier::reject_recursive_types(T)]
pub struct IpMap<T> {
    v4: Vec<HashMap<u32, T>>,
    v6: Vec<HashMap<u128, T>>,
    default: T,
}

impl<T> View for IpMap<T> {
    type V = IpMapView<T>;

    closed spec fn view(&self) -> IpMapView<T> {
        IpMapView {
            v4: Map::new(
                |k: (u32, u32)| k.1 < self.v4@.len() && self.v4@[k.1 as int]@.contains_key(k.0),
                |k: (u32, u32)| self.v4@[k.1 as int]@[k.0],
            ),
            v6: Map::new(
                |k: (u128, u32)| k.1 < self.v6@.len() && self.v6@[k.1 as int]@.contains_key(k.0),
                |k: (u128, u32)| self.v6@[k.1 as int]@[k.0],
            ),
            default: self.default,
        }
    }
}

/// The first `len` bits of `addr`.
pub fn mask4(addr: u32, len: u32) -> (r: u32)
    requires
        len <= 32,
    ensures
        r == net4(addr, len),
{
    if len == 0 {
        0
    } else if len == 32 {
        addr
    } else {
        addr & (0xffff_ffffu32 << (32 - len))
    }
}

/// The first `len` bits of `addr`.
pub fn mask6(addr: u128, len: u32) -> (r: u128)
    requires
        len <= 128,
    ensures
        r == net6(addr, len),
{
    if len == 0 {
        0
    } else if len == 128 {
        addr
    } else {
        let shift: u128 = (128 - len) as u128;
        addr & (0xffff_ffff_ffff_ffff_ffff_ffff_ffff_ffffu128 << shift)
    }
}

impl<T> IpMap<T> {
    /// There is one table for each prefix length of each family.
    #[verifier::type_invariant]
    spec fn wf(&self) -> bool {
        self.v4@.len() == 33 && self.v6@.len() == 129
    }
}

impl<T: Copy> IpMap<T> {
    /// A map without entries: every lookup gives `default`.
    pub fn new(default: T) -> (r: Self)
        ensures
            r@.v4 == Map::<(u32, u32), T>::empty(),
            r@.v6 == Map::<(u128, u32), T>::empty(),
            r@.default == default,
    {
        let mut v4: Vec<HashMap<u32, T>> = Vec::new();
        while v4.len() < 33
            invariant
                v4@.len() <= 33,
                forall|i: int| 0 <= i < v4@.len() ==> v4@[i]@ == Map::<u32, T>::empty(),
            decreases 33 - v4@.len(),
        {
            v4.push(HashMap::new());
        }
        let mut v6: Vec<HashMap<u128, T>> = Vec::new();
        while v6.len() < 129
            invariant
                v6@.len() <= 129,
                forall|i: int| 0 <= i < v6@.len() ==> v6@[i]@ == Map::<u128, T>::empty(),
            decreases 129 - v6@.len(),
        {
            v6.push(HashMap::new());
        }
        let r = IpMap { v4, v6, default };
        assert(r@.v4 =~= Map::<(u32, u32), T>::empty());
        assert(r@.v6 =~= Map::<(u128, u32), T>::empty());
        r
    }

    /// Stores `value` for the prefix `addr/cidr_len`, replacing what was
    /// stored for it. The bits of `addr` beyond the prefix do not count. A
    /// length beyond the width of the address family is rejected: the map
    /// stays as it is.
    pub fn insert(&mut self, addr: IpAddr, cidr_len: u32, value: T)
        ensures
            final(self)@ == old(self)@.insert(addr, cidr_len, value),
    {
        proof {
            use_type_invariant(&*self);
        }
        match addr {
            IpAddr::V4(a) => {
                if cidr_len <= 32 {
                    let net = mask4(a, cidr_len);
                    self.v4[cidr_len as usize].insert(net, value);
                    assert(self@.v4 =~= old(self)@.v4.insert((net, cidr_len), value));
                    assert(self@.v6 =~= old(self)@.v6);
                }
            },
            IpAddr::V6(a) => {
                if cidr_len <= 128 {
                    let net = mask6(a, cidr_len);
                    self.v6[cidr_len as usize].insert(net, value);
                    assert(self@.v6 =~= old(self)@.v6.insert((net, cidr_len), value));
                    assert(self@.v4 =~= old(self)@.v4);
                }
            },
        }
    }

    /// The value of the longest IPv4 prefix that covers `addr`, or the
    /// default.
    pub fn get4(&self, addr: u32) -> (r: T)
        ensures
            r == lookup4(self@.v4, self@.default, addr),
    {
        match self.find4(addr) {
            Some((len, v)) => {
                proof {
                    lemma_longest4(self@.v4, self@.default, addr, len);
                }
                v
            },
            None => {
                assert forall|l: u32| !longest4(self@.v4, addr, l) by {
                    assert(!covers4(self@.v4, addr, l));
                }
                self.default
            },
        }
    }

    /// The longest IPv4 prefix that covers `addr`: its length and its
    /// value. Nothing comes back where no prefix covers `addr`.
    pub fn find4(&self, addr: u32) -> (r: Option<(u32, T)>)
        ensures
            match r {
                Some((len, v)) => longest4(self@.v4, addr, len) && v == self@.v4[(
                    net4(addr, len),
                    len,
                )],
                None => forall|l: u32| !covers4(self@.v4, addr, l),
            },
    {
        proof {
            use_type_invariant(self);
        }
        let mut len: u32 = 32;
        loop
            invariant
                len <= 32,
                self.v4@.len() == 33,
                forall|l: u32| len < l ==> !covers4(self@.v4, addr, l),
            decreases len,
        {
            let net = mask4(addr, len);
            match self.v4[len as usize].get(&net) {
                Some(v) => {
                    return Some((len, *v));
                },
                None => {},
            }
            if len == 0 {
                return None;
            }
            len -= 1;
        }
    }

    /// The longest IPv6 prefix that covers `addr`: its length and its
    /// value. Nothing comes back where no prefix covers `addr`.
    pub fn find6(&self, addr: u128) -> (r: Option<(u32, T)>)
        ensures
            match r {
                Some((len, v)) => longest6(self@.v6, addr, len) && v == self@.v6[(
                    net6(addr, len),
                    len,
                )],
                None => forall|l: u32| !covers6(self@.v6, addr, l),
            },
    {
        proof {
            use_type_invariant(self);
        }
        let mut len: u32 = 128;
        loop
            invariant
                len <= 128,
                self.v6@.len() == 129,
                forall|l: u32| len < l ==> !covers6(self@.v6, addr, l),
            decreases len,
        {
            let net = mask6(addr, len);
            match self.v6[len as usize].get(&net) {
                Some(v) => {
                    return Some((len, *v));
                },
                None => {},
            }
            if len == 0 {
                return None;
            }
            len -= 1;
        }
    }

    /// The value of the longest IPv6 prefix that covers `addr`, or the
    /// default.
    pub fn get6(&self, addr: u128) -> (r: T)
        ensures
            r == lookup6(self@.v6, self@.default, addr),
    {
        match self.find6(addr) {
            Some((len, v)) => {
                proof {
                    lemma_longest6(self@.v6, self@.default, addr, len);
                }
                v
            },
            None => {
                assert forall|l: u32| !longest6(self@.v6, addr, l) by {
                    assert(!covers6(self@.v6, addr, l));
                }
                self.default
            },
        }
    }

    /// The value of the longest prefix that covers `addr`, or the default.
    pub fn get(&self, addr: IpAddr) -> (r: T)
        ensures
            r == self@.lookup(addr),
    {
        match addr {
            IpAddr::V4(a) => self.get4(a),
            IpAddr::V6(a) => self.get6(a),
        }
    }
}

impl<T: Copy> FromLst<T> for IpMap<T> {
    type Model = IpMapView<T>;

    open spec fn model(&self) -> IpMapView<T> {
        self@
    }

    /// A line gives a prefix, written as an address, a slash and a length.
    open spec fn with_line(m: IpMapView<T>, l: Seq<char>, v: T) -> Option<IpMapView<T>> {
        match cidr_text(l) {
            Some((addr, len)) => Some(m.insert(addr, len, v)),
            None => None,
        }
    }

    fn append_line(&mut self, l: &str, v: T) -> (r: Option<()>) {
        match parse_cidr(l) {
            Some((addr, len)) => {
                self.insert(addr, len, v);
                Some(())
            },
            None => None,
        }
    }
}

/// The longest covering prefix decides the lookup.
pub proof fn lemma_longest4<T>(m: Map<(u32, u32), T>, default: T, addr: u32, len: u32)
    requires
        longest4(m, addr, len),
    ensures
        lookup4(m, default, addr) == m[(net4(addr, len), len)],
{
    let l = choose|l: u32| longest4(m, addr, l);
    if l < len {
        assert(!covers4(m, addr, len));
    } else if len < l {
        assert(!covers4(m, addr, l));
    }
}

/// The longest covering prefix decides the lookup.
pub proof fn lemma_longest6<T>(m: Map<(u128, u32), T>, default: T, addr: u128, len: u32)
    requires
        longest6(m, addr, len),
    ensures
        lookup6(m, default, addr) == m[(net6(addr, len), len)],
{
    let l = choose|l: u32| longest6(m, addr, l);
    if l < len {
        assert(!covers6(m, addr, len));
    } else if len < l {
        assert(!covers6(m, addr, l));
    }
}

/// What a lookup gives is the default or the value of one of the entries.
pub proof fn lemma_lookup_is_value<T>(m: IpMapView<T>, addr: IpAddr)
    ensures
        m.lookup(addr) == m.default || match addr {
            IpAddr::V4(_) => exists|k: (u32, u32)|
                #[trigger] m.v4.contains_key(k) && m.v4[k] == m.lookup(addr),
            IpAddr::V6(_) => exists|k: (u128, u32)|
                #[trigger] m.v6.contains_key(k) && m.v6[k] == m.lookup(addr),
        },
{
    match addr {
        IpAddr::V4(a) => {
            if exists|len: u32| longest4(m.v4, a, len) {
                let len = choose|len: u32| longest4(m.v4, a, len);
                assert(m.v4.contains_key((net4(a, len), len)));
            }
        },
        IpAddr::V6(a) => {
            if exists|len: u32| longest6(m.v6, a, len) {
                let len = choose|len: u32| longest6(m.v6, a, len);
                assert(m.v6.contains_key((net6(a, len), len)));
            }
        },
    }
}

/// Where no prefix covers the address, the lookup gives the default.
pub proof fn lemma_uncovered_is_default<T>(m: IpMapView<T>, addr: IpAddr)
    requires
        match addr {
            IpAddr::V4(a) => forall|l: u32| !covers4(m.v4, a, l),
            IpAddr::V6(a) => forall|l: u32| !covers6(m.v6, a, l),
        },
    ensures
        m.lookup(addr) == m.default,
{
    match addr {
        IpAddr::V4(a) => {
            assert forall|l: u32| !longest4(m.v4, a, l) by {
                assert(!covers4(m.v4, a, l));
            }
        },
        IpAddr::V6(a) => {
            assert forall|l: u32| !longest6(m.v6, a, l) by {
                assert(!covers6(m.v6, a, l));
            }
        },
    }
}

} // verus!
