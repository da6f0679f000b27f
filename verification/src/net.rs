//! IP addresses as text.
//!
//! An IPv4 address is written as four decimal numbers with dots between
//! them. An IPv6 address is written as up to eight groups of hexadecimal
//! digits with colons between them; `::` may stand once for one or more
//! groups of zeros, and the last two groups may be written as an IPv4
//! address.

use crate::ip_map::IpAddr;
use crate::ptr::{hex_digit, hex_value};
use crate::text::{
    chars_of, find, find_at, number, parse_number, parse_plus_number, plus_number, slice_of, split,
    split_chars, texts,
};
use vstd::prelude::*;

verus! {

/// The byte that `s` spells in an IPv4 address: one to three decimal digits,
/// without a zero in front of other digits, that spell a number up to 255.
pub open spec fn octet_text(s: Seq<char>) -> Option<u8> {
    if s.len() <= 3 && (s.len() <= 1 || s[0] != '0') && number(s, 255) is Some {
        Some(number(s, 255)->0 as u8)
    } else {
        None
    }
}

/// The IPv4 address that `s` spells.
pub open spec fn ipv4_text(s: Seq<char>) -> Option<u32> {
    let p = split(s, '.');
    if p.len() == 4 && octet_text(p[0]) is Some && octet_text(p[1]) is Some && octet_text(p[2])
        is Some && octet_text(p[3]) is Some {
        Some(
            (((octet_text(p[0])->0 * 256 + octet_text(p[1])->0) * 256 + octet_text(p[2])->0) * 256
                + octet_text(p[3])->0) as u32,
        )
    } else {
        None
    }
}

/// Every character of `s` is a hexadecimal digit.
pub open spec fn all_hex(s: Seq<char>) -> bool {
    forall|i: int| 0 <= i < s.len() ==> hex_value(#[trigger] s[i]) is Some
}

/// The number that the hexadecimal digits of `s` spell.
pub open spec fn hex_number(s: Seq<char>) -> nat
    decreases s.len(),
{
    if s.len() == 0 {
        0
    } else {
        hex_number(s.drop_last()) * 16 + hex_value(s.last())->0 as nat
    }
}

/// The group of an IPv6 address that `s` spells: one to four hexadecimal
/// digits.
pub open spec fn hex_group(s: Seq<char>) -> Option<u16> {
    if 1 <= s.len() <= 4 && all_hex(s) {
        Some(hex_number(s) as u16)
    } else {
        None
    }
}

/// The first `n` of the pieces `p` are groups.
pub open spec fn all_groups(p: Seq<Seq<char>>, n: int) -> bool {
    forall|i: int| 0 <= i < n ==> hex_group(#[trigger] p[i]) is Some
}

/// The groups that the first `n` of the pieces `p` spell.
pub open spec fn group_values(p: Seq<Seq<char>>, n: int) -> Seq<u16> {
    Seq::new(n as nat, |i: int| hex_group(p[i])->0)
}

/// The upper half of an IPv4 address, as a group.
pub open spec fn upper_group(a: u32) -> u16 {
    (a / 65536) as u16
}

/// The lower half of an IPv4 address, as a group.
pub open spec fn lower_group(a: u32) -> u16 {
    (a % 65536) as u16
}

/// The groups that `s` spells: nothing, or groups with colons between them.
/// Where `v4` is set, the last two groups may be written as an IPv4 address.
pub open spec fn groups_text(s: Seq<char>, v4: bool) -> Option<Seq<u16>> {
    let p = split(s, ':');
    if s.len() == 0 {
        Some(Seq::empty())
    } else if all_groups(p, p.len() as int) {
        Some(group_values(p, p.len() as int))
    } else if v4 && all_groups(p, p.len() - 1) && ipv4_text(p.last()) is Some {
        Some(
            group_values(p, p.len() - 1).push(upper_group(ipv4_text(p.last())->0)).push(
                lower_group(ipv4_text(p.last())->0),
            ),
        )
    } else {
        None
    }
}

/// The place of the first two colons in a row in `s`, at or after `from`.
pub open spec fn find_pair(s: Seq<char>, from: int) -> Option<int>
    decreases s.len() - from,
{
    if from < 0 || from + 1 >= s.len() {
        None
    } else if s[from] == ':' && s[from + 1] == ':' {
        Some(from)
    } else {
        find_pair(s, from + 1)
    }
}

/// The number that the first `n` groups of `g` spell, the first group being
/// the highest.
pub open spec fn join(g: Seq<u16>, n: int) -> u128
    decreases n,
{
    if n <= 0 {
        0
    } else {
        (join(g, n - 1) << 16) | (g[n - 1] as u128)
    }
}

/// `n` groups of zeros.
pub open spec fn zeros(n: int) -> Seq<u16> {
    Seq::new(n as nat, |i: int| 0u16)
}

/// The IPv6 address that `s` spells.
pub open spec fn ipv6_text(s: Seq<char>) -> Option<u128> {
    match find_pair(s, 0) {
        None => match groups_text(s, true) {
            Some(g) => if g.len() == 8 {
                Some(join(g, 8))
            } else {
                None
            },
            None => None,
        },
        Some(i) => match (groups_text(s.take(i), false), groups_text(s.skip(i + 2), true)) {
            (Some(head), Some(tail)) => if head.len() + tail.len() <= 7 {
                Some(join(head + zeros(8 - head.len() - tail.len()) + tail, 8))
            } else {
                None
            },
            _ => None,
        },
    }
}

/// The address that `s` spells.
pub open spec fn ip_text(s: Seq<char>) -> Option<IpAddr> {
    match ipv4_text(s) {
        Some(a) => Some(IpAddr::V4(a)),
        None => match ipv6_text(s) {
            Some(a) => Some(IpAddr::V6(a)),
            None => None,
        },
    }
}

/// The byte that `v` spells in an IPv4 address.
pub fn parse_octet(v: &Vec<char>) -> (r: Option<u8>)
    ensures
        r == octet_text(v@),
{
    if v.len() > 3 || (v.len() > 1 && v[0] == '0') {
        return None;
    }
    match parse_number(v, 255) {
        Some(n) => Some(n as u8),
        None => None,
    }
}

/// The IPv4 address that `v` spells.
pub fn parse_ipv4_chars(v: &Vec<char>) -> (r: Option<u32>)
    ensures
        r == ipv4_text(v@),
{
    let p = split_chars(v, '.');
    if p.len() != 4 {
        return None;
    }
    assert(texts(p@)[0] == p@[0]@ && texts(p@)[1] == p@[1]@ && texts(p@)[2] == p@[2]@ && texts(
        p@,
    )[3] == p@[3]@);
    let a = match parse_octet(&p[0]) {
        Some(n) => n as u32,
        None => {
            return None;
        },
    };
    let b = match parse_octet(&p[1]) {
        Some(n) => n as u32,
        None => {
            return None;
        },
    };
    let c = match parse_octet(&p[2]) {
        Some(n) => n as u32,
        None => {
            return None;
        },
    };
    let d = match parse_octet(&p[3]) {
        Some(n) => n as u32,
        None => {
            return None;
        },
    };
    Some(((a * 256 + b) * 256 + c) * 256 + d)
}

/// A bound on the number that `n` hexadecimal digits spell, for `n` up to 4.
spec fn hex_bound(n: int) -> nat {
    if n <= 0 {
        1
    } else if n == 1 {
        0x10
    } else if n == 2 {
        0x100
    } else if n == 3 {
        0x1000
    } else {
        0x10000
    }
}

/// The group that `v` spells.
pub fn parse_group(v: &Vec<char>) -> (r: Option<u16>)
    ensures
        r == hex_group(v@),
{
    if v.len() == 0 || v.len() > 4 {
        return None;
    }
    let mut acc: u32 = 0;
    let mut k: usize = 0;
    while k < v.len()
        invariant
            k <= v@.len() <= 4,
            all_hex(v@.take(k as int)),
            acc == hex_number(v@.take(k as int)),
            acc < hex_bound(k as int),
        decreases v@.len() - k,
    {
        let h = match hex_digit(v[k]) {
            Some(h) => h,
            None => {
                return None;
            },
        };
        proof {
            assert(v@.take(k + 1).drop_last() == v@.take(k as int));
            assert(v@.take(k + 1).last() == v@[k as int]);
            assert forall|i: int| 0 <= i < k + 1 implies hex_value(
                #[trigger] v@.take(k + 1)[i],
            ) is Some by {
                if i < k {
                    assert(v@.take(k as int)[i] == v@[i]);
                }
            }
        }
        acc = acc * 16 + h as u32;
        k += 1;
    }
    assert(v@.take(k as int) == v@);
    Some(acc as u16)
}

/// The groups that `v` spells.
pub fn parse_groups(v: &Vec<char>, v4: bool) -> (r: Option<Vec<u16>>)
    ensures
        match r {
            Some(g) => groups_text(v@, v4) == Some(g@),
            None => groups_text(v@, v4) is None,
        },
{
    let mut g: Vec<u16> = Vec::new();
    if v.len() == 0 {
        return Some(g);
    }
    let p = split_chars(v, ':');
    let n = p.len();
    proof {
        crate::text::lemma_split_len(v@, ':', 0);
    }
    let ghost parts = split(v@, ':');
    let mut i: usize = 0;
    while i < n
        invariant
            i <= n,
            n == p@.len(),
            n >= 1,
            v@.len() > 0,
            texts(p@) == parts,
            parts == split(v@, ':'),
            all_groups(parts, i as int),
            g@ == group_values(parts, i as int),
        decreases n - i,
    {
        assert(texts(p@)[i as int] == p@[i as int]@);
        assert(parts.last() == parts[n - 1]);
        match parse_group(&p[i]) {
            Some(x) => {
                g.push(x);
                assert(g@ =~= group_values(parts, i + 1));
            },
            None => {
                assert(hex_group(parts[i as int]) is None);
                assert(!all_groups(parts, n as int));
                if v4 && i == n - 1 {
                    match parse_ipv4_chars(&p[i]) {
                        Some(a) => {
                            g.push((a / 65536) as u16);
                            g.push((a % 65536) as u16);
                            assert(g@ =~= group_values(parts, n - 1).push(upper_group(a)).push(
                                lower_group(a),
                            ));
                            return Some(g);
                        },
                        None => {
                            return None;
                        },
                    }
                } else {
                    if i < n - 1 {
                        assert(!all_groups(parts, n - 1));
                    }
                    return None;
                }
            },
        }
        i += 1;
    }
    Some(g)
}

/// The place of the first two colons in a row in `v`.
pub fn find_pair_at(v: &Vec<char>) -> (r: Option<usize>)
    ensures
        match r {
            Some(i) => find_pair(v@, 0) == Some(i as int) && i + 2 <= v@.len(),
            None => find_pair(v@, 0) is None,
        },
{
    let n = v.len();
    if n < 2 {
        return None;
    }
    let mut k: usize = 0;
    while k < n - 1
        invariant
            n == v@.len(),
            n >= 2,
            find_pair(v@, 0) == find_pair(v@, k as int),
        decreases n - k,
    {
        if v[k] == ':' && v[k + 1] == ':' {
            return Some(k);
        }
        k += 1;
    }
    None
}

/// The number that the groups of `g` spell.
fn join_groups(g: &Vec<u16>) -> (r: u128)
    requires
        g@.len() == 8,
    ensures
        r == join(g@, 8),
{
    let mut acc: u128 = 0;
    let mut k: usize = 0;
    while k < 8
        invariant
            k <= 8,
            g@.len() == 8,
            acc == join(g@, k as int),
        decreases 8 - k,
    {
        acc = (acc << 16) | (g[k] as u128);
        k += 1;
    }
    acc
}

/// The IPv6 address that `v` spells.
pub fn parse_ipv6_chars(v: &Vec<char>) -> (r: Option<u128>)
    ensures
        r == ipv6_text(v@),
{
    match find_pair_at(v) {
        None => match parse_groups(v, true) {
            Some(g) => if g.len() == 8 {
                Some(join_groups(&g))
            } else {
                None
            },
            None => None,
        },
        Some(i) => {
            let n = v.len();
            let front = slice_of(v, 0, i);
            let back = slice_of(v, i + 2, n);
            assert(v@.subrange(0, i as int) == v@.take(i as int));
            assert(v@.subrange(i + 2, v@.len() as int) == v@.skip(i + 2));
            let head = match parse_groups(&front, false) {
                Some(head) => head,
                None => {
                    return None;
                },
            };
            let tail = match parse_groups(&back, true) {
                Some(tail) => tail,
                None => {
                    return None;
                },
            };
            if head.len() > 7 || tail.len() > 7 - head.len() {
                return None;
            }
            let mut g: Vec<u16> = Vec::new();
            let mut k: usize = 0;
            while k < head.len()
                invariant
                    k <= head@.len(),
                    g@ == head@.take(k as int),
                decreases head@.len() - k,
            {
                g.push(head[k]);
                assert(head@.take(k as int).push(head@[k as int]) == head@.take(k + 1));
                k += 1;
            }
            assert(head@.take(head@.len() as int) == head@);
            let gap = 8 - head.len() - tail.len();
            let mut z: usize = 0;
            while z < gap
                invariant
                    z <= gap,
                    g@ == head@ + zeros(z as int),
                decreases gap - z,
            {
                g.push(0);
                assert(g@ =~= head@ + zeros(z + 1));
                z += 1;
            }
            let mut t: usize = 0;
            while t < tail.len()
                invariant
                    t <= tail@.len(),
                    g@ == head@ + zeros(gap as int) + tail@.take(t as int),
                decreases tail@.len() - t,
            {
                g.push(tail[t]);
                assert(g@ =~= head@ + zeros(gap as int) + tail@.take(t + 1));
                t += 1;
            }
            assert(tail@.take(tail@.len() as int) == tail@);
            Some(join_groups(&g))
        },
    }
}

/// The address that `v` spells.
pub fn parse_ip_chars(v: &Vec<char>) -> (r: Option<IpAddr>)
    ensures
        r == ip_text(v@),
{
    match parse_ipv4_chars(v) {
        Some(a) => Some(IpAddr::V4(a)),
        None => match parse_ipv6_chars(v) {
            Some(a) => Some(IpAddr::V6(a)),
            None => None,
        },
    }
}

/// The address that `s` spells, or nothing where `s` spells none.
pub fn parse_ip(s: &str) -> (r: Option<IpAddr>)
    ensures
        r == ip_text(s@),
{
    let v = chars_of(s);
    parse_ip_chars(&v)
}

/// An address and a port.
#[derive(Clone, Copy, Debug, PartialEq, Eq, Structural)]
pub struct SocketAddr {
    pub ip: IpAddr,
    pub port: u16,
}

/// The address and port that `s` spells: an IPv4 address, a colon and a
/// port, or an IPv6 address in square brackets, a colon and a port. The port
/// is written in decimal digits and is no greater than 65535.
pub open spec fn socket_text(s: Seq<char>) -> Option<SocketAddr> {
    if s.len() > 0 && s[0] == '[' {
        match find(s, ']', 0) {
            Some(i) => if 1 <= i && i + 1 < s.len() && s[i + 1] == ':' {
                match (ipv6_text(s.subrange(1, i)), number(s.skip(i + 2), 65535)) {
                    (Some(a), Some(p)) => Some(SocketAddr { ip: IpAddr::V6(a), port: p as u16 }),
                    _ => None,
                }
            } else {
                None
            },
            None => None,
        }
    } else {
        match find(s, ':', 0) {
            Some(i) => match (ipv4_text(s.take(i)), number(s.skip(i + 1), 65535)) {
                (Some(a), Some(p)) => Some(SocketAddr { ip: IpAddr::V4(a), port: p as u16 }),
                _ => None,
            },
            None => None,
        }
    }
}

/// The address and port that `s` spells, or nothing where `s` spells none.
pub fn parse_socket(s: &str) -> (r: Option<SocketAddr>)
    ensures
        r == socket_text(s@),
{
    let v = chars_of(s);
    let n = v.len();
    if n > 0 && v[0] == '[' {
        let i = match find_at(&v, ']', 0) {
            Some(i) => i,
            None => {
                return None;
            },
        };
        if i < 1 || i + 1 >= n || v[i + 1] != ':' {
            return None;
        }
        let front = slice_of(&v, 1, i);
        let back = slice_of(&v, i + 2, n);
        assert(v@.subrange(i + 2, n as int) == v@.skip(i + 2));
        match (parse_ipv6_chars(&front), parse_number(&back, 65535)) {
            (Some(a), Some(p)) => Some(SocketAddr { ip: IpAddr::V6(a), port: p as u16 }),
            _ => None,
        }
    } else {
        let i = match find_at(&v, ':', 0) {
            Some(i) => i,
            None => {
                return None;
            },
        };
        let front = slice_of(&v, 0, i);
        let back = slice_of(&v, i + 1, n);
        assert(v@.subrange(0, i as int) == v@.take(i as int));
        assert(v@.subrange(i + 1, n as int) == v@.skip(i + 1));
        match (parse_ipv4_chars(&front), parse_number(&back, 65535)) {
            (Some(a), Some(p)) => Some(SocketAddr { ip: IpAddr::V4(a), port: p as u16 }),
            _ => None,
        }
    }
}

/// The number of bits of an address.
pub open spec fn width(addr: IpAddr) -> u32 {
    match addr {
        IpAddr::V4(_) => 32,
        IpAddr::V6(_) => 128,
    }
}

/// The prefix that `l` spells: an address, a slash, and a length in decimal
/// digits, which may have a `+` in front and is no greater than the number
/// of bits of the address.
pub open spec fn cidr_text(l: Seq<char>) -> Option<(IpAddr, u32)> {
    match find(l, '/', 0) {
        None => None,
        Some(i) => match (ip_text(l.take(i)), plus_number(l.skip(i + 1), u32::MAX as nat)) {
            (Some(addr), Some(len)) => if len <= width(addr) {
                Some((addr, len as u32))
            } else {
                None
            },
            _ => None,
        },
    }
}

/// The prefix that `l` spells, or nothing where `l` spells none.
pub fn parse_cidr(l: &str) -> (r: Option<(IpAddr, u32)>)
    ensures
        r == cidr_text(l@),
{
    let v = chars_of(l);
    let n = v.len();
    let i = match find_at(&v, '/', 0) {
        Some(i) => i,
        None => {
            return None;
        },
    };
    let front = slice_of(&v, 0, i);
    let back = slice_of(&v, i + 1, n);
    assert(v@.subrange(0, i as int) == v@.take(i as int));
    assert(v@.subrange(i + 1, n as int) == v@.skip(i + 1));
    let addr = match parse_ip_chars(&front) {
        Some(addr) => addr,
        None => {
            return None;
        },
    };
    let len = match parse_plus_number(&back, 0xffff_ffff) {
        Some(len) => len as u32,
        None => {
            return None;
        },
    };
    let bits: u32 = match addr {
        IpAddr::V4(_) => 32,
        IpAddr::V6(_) => 128,
    };
    if len <= bits {
        Some((addr, len))
    } else {
        None
    }
}

} // verus!
