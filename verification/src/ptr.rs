//! Names of reverse lookups, read back into the addresses they stand for.
//!
//! An IPv4 address `a.b.c.d` is asked for as `d.c.b.a.in-addr.arpa.`, an
//! IPv6 address as its 32 hexadecimal digits, last one first, each a label
//! of its own, before `ip6.arpa.`. The final dot is part of the name.

use crate::ip_map::IpAddr;
use crate::text::{chars_of, number, parse_number, slice_of, split, split_chars, texts};
use vstd::prelude::*;

verus! {

/// `s` without `suffix` at its end, where it ends so.
pub open spec fn strip_suffix(s: Seq<char>, suffix: Seq<char>) -> Option<Seq<char>> {
    if s.len() >= suffix.len() && s.skip(s.len() - suffix.len()) == suffix {
        Some(s.take(s.len() - suffix.len()))
    } else {
        None
    }
}

/// The number that a hexadecimal digit stands for.
pub open spec fn hex_value(c: char) -> Option<u8> {
    if '0' <= c && c <= '9' {
        Some((c as u32 - '0' as u32) as u8)
    } else if 'a' <= c && c <= 'f' {
        Some((c as u32 - 'a' as u32 + 10) as u8)
    } else if 'A' <= c && c <= 'F' {
        Some((c as u32 - 'A' as u32 + 10) as u8)
    } else {
        None
    }
}

/// The IPv4 address that `x` names: four labels, each a decimal number up to
/// 255, the last label being the first byte of the address.
pub open spec fn ptr_v4(x: Seq<char>) -> Option<u32> {
    let p = split(x, '.');
    if p.len() == 4 && number(p[0], 255) is Some && number(p[1], 255) is Some && number(p[2], 255)
        is Some && number(p[3], 255) is Some {
        Some(
            (((number(p[3], 255)->0 * 256 + number(p[2], 255)->0) * 256 + number(p[1], 255)->0)
                * 256 + number(p[0], 255)->0) as u32,
        )
    } else {
        None
    }
}

/// `x` is 32 hexadecimal digits with a dot between each two.
pub open spec fn is_nibbles(x: Seq<char>) -> bool {
    &&& x.len() == 63
    &&& forall|i: int| 0 <= i < 32 ==> hex_value(#[trigger] x[2 * i]) is Some
    &&& forall|i: int| 0 <= i < 31 ==> #[trigger] x[2 * i + 1] == '.'
}

/// The number that the digits of `x` from the `from`-th on spell, the first
/// of them being the lowest.
pub open spec fn nibbles_value(x: Seq<char>, from: int) -> u128
    decreases 32 - from,
{
    if from >= 32 {
        0
    } else {
        (nibbles_value(x, from + 1) << 4) | (hex_value(x[2 * from])->0 as u128)
    }
}

/// The IPv6 address that `x` names.
pub open spec fn ptr_v6(x: Seq<char>) -> Option<u128> {
    if is_nibbles(x) {
        Some(nibbles_value(x, 0))
    } else {
        None
    }
}

/// The address that the reverse-lookup name `q` stands for.
pub open spec fn ptr_address(q: Seq<char>) -> Option<IpAddr> {
    match strip_suffix(q, ".in-addr.arpa."@) {
        Some(x) => match ptr_v4(x) {
            Some(a) => Some(IpAddr::V4(a)),
            None => None,
        },
        None => match strip_suffix(q, ".ip6.arpa."@) {
            Some(x) => match ptr_v6(x) {
                Some(a) => Some(IpAddr::V6(a)),
                None => None,
            },
            None => None,
        },
    }
}

/// The number that the hexadecimal digit `c` stands for.
pub fn hex_digit(c: char) -> (r: Option<u8>)
    ensures
        r == hex_value(c),
{
    if c >= '0' && c <= '9' {
        Some((c as u32 - '0' as u32) as u8)
    } else if c >= 'a' && c <= 'f' {
        Some((c as u32 - 'a' as u32 + 10) as u8)
    } else if c >= 'A' && c <= 'F' {
        Some((c as u32 - 'A' as u32 + 10) as u8)
    } else {
        None
    }
}

/// What stands before `suffix` in `v`, where `v` ends with it.
fn strip(v: &Vec<char>, suffix: &str) -> (r: Option<Vec<char>>)
    ensures
        match r {
            Some(x) => strip_suffix(v@, suffix@) == Some(x@),
            None => strip_suffix(v@, suffix@) is None,
        },
{
    let s = chars_of(suffix);
    if v.len() < s.len() {
        return None;
    }
    let n = v.len();
    let cut = n - s.len();
    let mut k: usize = 0;
    while k < s.len()
        invariant
            k <= s@.len(),
            cut + s@.len() == n,
            n == v@.len(),
            s@ == suffix@,
            forall|j: int| 0 <= j < k ==> v@[cut + j] == s@[j],
        decreases s@.len() - k,
    {
        if v[cut + k] != s[k] {
            assert(v@.skip(cut as int)[k as int] != s@[k as int]);
            return None;
        }
        k += 1;
    }
    assert(v@.skip(cut as int) =~= s@);
    let x = slice_of(v, 0, cut);
    assert(v@.subrange(0, cut as int) == v@.take(cut as int));
    Some(x)
}

/// The IPv4 address that `x` names.
fn parse_v4(x: &Vec<char>) -> (r: Option<u32>)
    ensures
        r == ptr_v4(x@),
{
    let p = split_chars(x, '.');
    if p.len() != 4 {
        return None;
    }
    assert(texts(p@)[0] == p@[0]@ && texts(p@)[1] == p@[1]@ && texts(p@)[2] == p@[2]@ && texts(
        p@,
    )[3] == p@[3]@);
    let n0 = match parse_number(&p[0], 255) {
        Some(n) => n as u32,
        None => {
            return None;
        },
    };
    let n1 = match parse_number(&p[1], 255) {
        Some(n) => n as u32,
        None => {
            return None;
        },
    };
    let n2 = match parse_number(&p[2], 255) {
        Some(n) => n as u32,
        None => {
            return None;
        },
    };
    let n3 = match parse_number(&p[3], 255) {
        Some(n) => n as u32,
        None => {
            return None;
        },
    };
    Some(((n3 * 256 + n2) * 256 + n1) * 256 + n0)
}

/// The IPv6 address that `x` names.
fn parse_v6(x: &Vec<char>) -> (r: Option<u128>)
    ensures
        r == ptr_v6(x@),
{
    if x.len() != 63 {
        return None;
    }
    let mut acc: u128 = 0;
    let mut i: usize = 32;
    while i > 0
        invariant
            i <= 32,
            x@.len() == 63,
            acc == nibbles_value(x@, i as int),
            forall|j: int| i <= j < 32 ==> hex_value(#[trigger] x@[2 * j]) is Some,
            forall|j: int| i <= j < 31 ==> #[trigger] x@[2 * j + 1] == '.',
        decreases i,
    {
        i -= 1;
        let h = match hex_digit(x[2 * i]) {
            Some(h) => h,
            None => {
                return None;
            },
        };
        if i < 31 && x[2 * i + 1] != '.' {
            return None;
        }
        acc = (acc << 4) | (h as u128);
    }
    Some(acc)
}

/// The address that the reverse-lookup name `q` stands for, or nothing
/// where `q` is no such name.
pub fn parse_ptr(q: &str) -> (r: Option<IpAddr>)
    ensures
        r == ptr_address(q@),
{
    let v = chars_of(q);
    match strip(&v, ".in-addr.arpa.") {
        Some(x) => match parse_v4(&x) {
            Some(a) => Some(IpAddr::V4(a)),
            None => None,
        },
        None => match strip(&v, ".ip6.arpa.") {
            Some(x) => match parse_v6(&x) {
                Some(a) => Some(IpAddr::V6(a)),
                None => None,
            },
            None => None,
        },
    }
}

/// As `parse_ptr`. A caller that keeps a log notes the names for which
/// nothing comes back.
pub fn parse_ptr_verbose(q: &str) -> (r: Option<IpAddr>)
    ensures
        r == ptr_address(q@),
{
    parse_ptr(q)
}

} // verus!
