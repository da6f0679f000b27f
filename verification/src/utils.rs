//! Lists of entries, one to a line, and what is filled from them; and two
//! helpers for messages that go over a stream.

use crate::text::{chars_of, drop_spaces_at, lines_of, skip_spaces_at, string_of, trim};
use vstd::prelude::*;

verus! {

/// The entry that a line of a list holds: the line without the whitespace
/// around it. A line that is empty then, or that starts with `#`, holds
/// none.
pub open spec fn entry(l: Seq<char>) -> Option<Seq<char>> {
    let t = trim(l);
    if t.len() == 0 || t[0] == '#' {
        None
    } else {
        Some(t)
    }
}

/// The entry that the line `l` holds.
pub fn entry_of(l: &str) -> (r: Option<String>)
    ensures
        match r {
            Some(t) => entry(l@) == Some(t@),
            None => entry(l@) is None,
        },
{
    let v = chars_of(l);
    let lo = skip_spaces_at(&v, 0);
    let hi = drop_spaces_at(&v, lo, v.len());
    if lo == hi || v[lo] == '#' {
        None
    } else {
        Some(string_of(&v, lo, hi))
    }
}

/// A collection that is filled from the lines of a list, each line giving
/// one entry, all with the same value.
pub trait FromLst<T: Copy>: Sized {
    /// What the contracts say the collection holds.
    type Model;

    /// What the collection holds.
    spec fn model(&self) -> Self::Model;

    /// What a collection that held `m` holds once the entry `l` was
    /// appended with the value `v`, or nothing where `l` is no valid entry.
    spec fn with_line(m: Self::Model, l: Seq<char>, v: T) -> Option<Self::Model>;

    /// Appends the entry `l` with the value `v`. A line that is no valid
    /// entry changes nothing, and nothing comes back for it.
    fn append_line(&mut self, l: &str, v: T) -> (r: Option<()>)
        ensures
            match Self::with_line(old(self).model(), l@, v) {
                Some(m) => r is Some && final(self).model() == m,
                None => r is None && final(self).model() == old(self).model(),
            },
    ;

    /// Appends the entries of the lines `lst`, each with the value `v`, and
    /// returns how many were appended. Lines without an entry are passed
    /// over, and so are those whose entry is not valid.
    fn append_from(&mut self, lst: &Vec<String>, v: T) -> (c: usize)
        ensures
            (final(self).model(), c as nat) == fold_lines(
                |m: Self::Model, l: Seq<char>| Self::with_line(m, l, v),
                old(self).model(),
                lines_of(lst@),
                lst@.len() as int,
            ),
    {
        let mut c: usize = 0;
        let mut i: usize = 0;
        while i < lst.len()
            invariant
                i <= lst@.len(),
                c <= i,
                (self.model(), c as nat) == fold_lines(
                    |m: Self::Model, l: Seq<char>| Self::with_line(m, l, v),
                    old(self).model(),
                    lines_of(lst@),
                    i as int,
                ),
            decreases lst@.len() - i,
        {
            assert(lines_of(lst@)[i as int] == lst@[i as int]@);
            match entry_of(lst[i].as_str()) {
                Some(l) => {
                    if self.append_line(l.as_str(), v).is_some() {
                        c += 1;
                    }
                },
                None => {},
            }
            i += 1;
        }
        c
    }
}

/// What becomes of `m` as the entries of the first `n` of `lines` are
/// appended to it by `step`, and how many of them `step` takes.
pub open spec fn fold_lines<M>(
    step: spec_fn(M, Seq<char>) -> Option<M>,
    m: M,
    lines: Seq<Seq<char>>,
    n: int,
) -> (M, nat)
    decreases n,
{
    if n <= 0 {
        (m, 0)
    } else {
        let before = fold_lines(step, m, lines, n - 1);
        match entry(lines[n - 1]) {
            Some(l) => match step(before.0, l) {
                Some(after) => (after, before.1 + 1),
                None => before,
            },
            None => before,
        }
    }
}

/// Two ways to append an entry that agree on every entry agree on every
/// list.
pub proof fn lemma_fold_lines_agree<M>(
    f: spec_fn(M, Seq<char>) -> Option<M>,
    g: spec_fn(M, Seq<char>) -> Option<M>,
    m: M,
    lines: Seq<Seq<char>>,
    n: int,
)
    requires
        forall|x: M, l: Seq<char>| #[trigger] f(x, l) == g(x, l),
    ensures
        fold_lines(f, m, lines, n) == fold_lines(g, m, lines, n),
    decreases n,
{
    if n > 0 {
        lemma_fold_lines_agree(f, g, m, lines, n - 1);
    }
}

/// What holds of a collection before a list is appended, and is kept by
/// every entry that is appended, holds after.
pub proof fn lemma_fold_lines_keeps<M>(
    step: spec_fn(M, Seq<char>) -> Option<M>,
    m: M,
    lines: Seq<Seq<char>>,
    n: int,
    good: spec_fn(M) -> bool,
)
    requires
        good(m),
        forall|x: M, l: Seq<char>| good(x) && #[trigger] step(x, l) is Some ==> good(step(x, l)->0),
    ensures
        good(fold_lines(step, m, lines, n).0),
    decreases n,
{
    if n > 0 {
        lemma_fold_lines_keeps(step, m, lines, n - 1, good);
    }
}

/// A message as it goes over a stream: its length in two bytes, the high
/// one first, and then the message.
pub open spec fn framed(msg: Seq<u8>) -> Seq<u8> {
    seq![(msg.len() / 256) as u8, (msg.len() % 256) as u8] + msg
}

/// Puts the length of `msg` in front of it. Nothing comes back for a
/// message of more than 65535 bytes: its length has no place in two bytes.
pub fn frame(msg: &[u8]) -> (r: Option<Vec<u8>>)
    ensures
        match r {
            Some(buf) => msg@.len() <= 65535 && buf@ == framed(msg@),
            None => msg@.len() > 65535,
        },
{
    let n = msg.len();
    if n > 65535 {
        return None;
    }
    let mut buf: Vec<u8> = Vec::new();
    buf.push((n / 256) as u8);
    buf.push((n % 256) as u8);
    let mut i: usize = 0;
    while i < n
        invariant
            i <= n,
            n == msg@.len(),
            buf@ == seq![(n / 256) as u8, (n % 256) as u8] + msg@.take(i as int),
        decreases n - i,
    {
        buf.push(msg[i]);
        assert(msg@.take(i as int).push(msg@[i as int]) == msg@.take(i + 1));
        i += 1;
    }
    assert(msg@.take(n as int) == msg@);
    Some(buf)
}

/// `a` is a power of two.
pub open spec fn is_pow2(a: int) -> bool
    decreases a,
{
    if a <= 0 {
        false
    } else if a == 1 {
        true
    } else {
        a % 2 == 0 && is_pow2(a / 2)
    }
}

/// Rounds `n` up to the next multiple of `align`, which must be a power of
/// two.
pub fn align_to(n: usize, align: usize) -> (r: usize)
    requires
        is_pow2(align as int),
        n + align - 1 <= usize::MAX,
    ensures
        r % align == 0,
        n <= r < n + align,
{
    assert(align >= 1);
    let x = n + (align - 1);
    proof {
        lemma_round_down(x, align);
    }
    x & !(align - 1)
}

/// Clearing the bits below a power of two rounds down to a multiple of it.
proof fn lemma_round_down(x: usize, a: usize)
    requires
        is_pow2(a as int),
    ensures
        (x & !((a - 1) as usize)) % a == 0,
        x & !((a - 1) as usize) <= x,
        x - (x & !((a - 1) as usize)) < a,
    decreases a,
{
    if a == 1 {
        assert(x & !((1usize - 1) as usize) == x) by (bit_vector);
    } else {
        let h = (a / 2) as usize;
        let half = (x / 2) as usize;
        lemma_round_down(half, h);
        let y = half & !((h - 1) as usize);
        let r = x & !((a - 1) as usize);
        assert(h > 0 && a == 2 * h && half == x / 2 ==> x & !((a - 1) as usize) == 2 * (half & !((h
            - 1) as usize))) by (bit_vector);
        assert(r == 2 * y);
        let q = (y as int) / (h as int);
        assert(y == h * q) by {
            vstd::arithmetic::div_mod::lemma_fundamental_div_mod(y as int, h as int);
        }
        assert(r == a * q) by (nonlinear_arith)
            requires
                r == 2 * y,
                y == h * q,
                a == 2 * h,
        ;
        assert((r as int) % (a as int) == 0) by {
            vstd::arithmetic::div_mod::lemma_mod_multiples_basic(q, a as int);
        }
    }
}

} // verus!
