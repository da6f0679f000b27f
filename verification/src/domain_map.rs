//! A map from domain names to values, looked up by suffix.
//!
//! A key `example.com` answers for `example.com` and for every name below it,
//! such as `a.example.com`, but not for `myexample.com`. Where several keys
//! are suffixes of a name, the longest one answers.

use crate::text::{
    chars_of, find_at, lemma_find, lines_of, lower, lower_of, slice_of, split, split_lines,
    string_of,
};
use crate::utils::{fold_lines, lemma_fold_lines_agree, FromLst};
use vstd::hash_map::StringHashMap;
use vstd::prelude::*;

verus! {

/// `s` without one trailing dot.
pub open spec fn strip_dot(s: Seq<char>) -> Seq<char> {
    if s.len() > 0 && s.last() == '.' {
        s.drop_last()
    } else {
        s
    }
}

/// The form in which names are stored and compared: one trailing dot
/// removed, ASCII letters in lower case.
pub open spec fn canonical(name: Seq<char>) -> Seq<char> {
    lower(strip_dot(name))
}

/// A label of `c` starts at `i`: at the front, or right after a dot.
pub open spec fn label_start(c: Seq<char>, i: int) -> bool {
    0 <= i <= c.len() && (i == 0 || c[i - 1] == '.')
}

/// `key` is `c` itself or what follows one of its dots.
pub open spec fn is_label_suffix(key: Seq<char>, c: Seq<char>) -> bool {
    exists|i: int| label_start(c, i) && key == c.skip(i)
}

/// The suffix of `c` that starts at label `i` is a key of `m`.
pub open spec fn hit<T>(m: Map<Seq<char>, T>, c: Seq<char>, i: int) -> bool {
    label_start(c, i) && m.contains_key(c.skip(i))
}

/// `i` is the first label of `c` whose suffix is a key of `m`.
pub open spec fn first_hit<T>(m: Map<Seq<char>, T>, c: Seq<char>, i: int) -> bool {
    hit(m, c, i) && forall|j: int| 0 <= j < i ==> !hit(m, c, j)
}

/// What a lookup of the canonical name `c` in `m` gives: the value of the
/// longest key that is a label suffix of `c`.
pub open spec fn lookup_in<T>(m: Map<Seq<char>, T>, c: Seq<char>) -> Option<T> {
    if exists|i: int| first_hit(m, c, i) {
        Some(m[c.skip(choose|i: int| first_hit(m, c, i))])
    } else {
        None
    }
}

/// What a lookup of `name` in `m` gives: the value of the longest key that
/// is a label suffix of the canonical form of `name`.
pub open spec fn lookup<T>(m: Map<Seq<char>, T>, name: Seq<char>) -> Option<T> {
    lookup_in(m, canonical(name))
}

/// A map from canonical domain names to values.
#[verifier::reject_recursive_types(T)]
pub struct DomainMap<T> {
    map: StringHashMap<T>,
}

impl<T> View for DomainMap<T> {
    type V = Map<Seq<char>, T>;

    closed spec fn view(&self) -> Map<Seq<char>, T> {
        self.map@
    }
}

impl<T: Copy> DomainMap<T> {
    /// An empty map.
    pub fn new() -> (r: Self)
        ensures
            r@ == Map::<Seq<char>, T>::empty(),
    {
        DomainMap { map: StringHashMap::new() }
    }

    /// Stores `v` under the canonical form of `k`, replacing what was there.
    pub fn insert(&mut self, k: &str, v: T)
        ensures
            final(self)@ == old(self)@.insert(canonical(k@), v),
    {
        let c = canonical_of(k);
        let key = string_of(&c, 0, c.len());
        assert(c@.subrange(0, c@.len() as int) == c@);
        self.map.insert(key, v);
    }

    /// Stores `v` under each name that `list` lists, one name to a line.
    /// Lines that are empty or start with `#` are passed over.
    pub fn from_str(&mut self, list: &str, v: T)
        ensures
            final(self)@ == fold_lines(
                |m: Map<Seq<char>, T>, l: Seq<char>| Some(m.insert(canonical(l), v)),
                old(self)@,
                split(list@, '\n'),
                split(list@, '\n').len() as int,
            ).0,
    {
        let lines = split_lines(list);
        proof {
            lemma_fold_lines_agree(
                |m: Map<Seq<char>, T>, l: Seq<char>| Self::with_line(m, l, v),
                |m: Map<Seq<char>, T>, l: Seq<char>| Some(m.insert(canonical(l), v)),
                self@,
                lines_of(lines@),
                lines@.len() as int,
            );
        }
        self.append_from(&lines, v);
    }

    /// The value of the longest key that `k` is, or lies below.
    pub fn get(&self, k: &str) -> (r: Option<T>)
        ensures
            r == lookup(self@, k@),
    {
        let c = canonical_of(k);
        let mut start: usize = 0;
        loop
            invariant
                c@ == canonical(k@),
                label_start(c@, start as int),
                forall|j: int| 0 <= j < start ==> !hit(self@, c@, j),
            decreases c@.len() - start,
        {
            let key = string_of(&c, start, c.len());
            assert(c@.subrange(start as int, c@.len() as int) == c@.skip(start as int));
            match self.map.get(key.as_str()) {
                Some(v) => {
                    proof {
                        lemma_first_hit_unique(self@, c@, start as int);
                    }
                    return Some(*v);
                },
                None => {},
            }
            proof {
                lemma_find(c@, '.', start as int);
            }
            match find_at(&c, '.', start) {
                Some(i) => {
                    assert forall|j: int| 0 <= j < i + 1 implies !hit(self@, c@, j) by {
                        if start < j {
                            assert(c@[j - 1] != '.');
                        }
                    }
                    start = i + 1;
                },
                None => {
                    assert forall|j: int| !first_hit(self@, c@, j) by {
                        if start < j && j <= c@.len() {
                            assert(c@[j - 1] != '.');
                        }
                    }
                    return None;
                },
            }
        }
    }
}

impl<T: Copy> FromLst<T> for DomainMap<T> {
    type Model = Map<Seq<char>, T>;

    open spec fn model(&self) -> Map<Seq<char>, T> {
        self@
    }

    /// Every line gives a name.
    open spec fn with_line(m: Map<Seq<char>, T>, l: Seq<char>, v: T) -> Option<Map<Seq<char>, T>> {
        Some(m.insert(canonical(l), v))
    }

    fn append_line(&mut self, l: &str, v: T) -> (r: Option<()>) {
        self.insert(l, v);
        Some(())
    }
}

/// The canonical form of `k`, as characters.
fn canonical_of(k: &str) -> (c: Vec<char>)
    ensures
        c@ == canonical(k@),
{
    let raw = chars_of(k);
    let n = raw.len();
    let end = if n > 0 && raw[n - 1] == '.' {
        n - 1
    } else {
        n
    };
    let stripped = slice_of(&raw, 0, end);
    assert(stripped@ == strip_dot(k@));
    lower_of(&stripped)
}

/// There is one first hit at most.
pub proof fn lemma_first_hit_unique<T>(m: Map<Seq<char>, T>, c: Seq<char>, i: int)
    requires
        first_hit(m, c, i),
    ensures
        forall|j: int| first_hit(m, c, j) ==> j == i,
        lookup_in(m, c) == Some(m[c.skip(i)]),
{
    assert forall|j: int| first_hit(m, c, j) implies j == i by {
        if j < i {
            assert(!hit(m, c, j));
        } else if i < j {
            assert(!hit(m, c, i));
        }
    }
}

/// What a lookup gives is the value of one of the keys.
pub proof fn lemma_lookup_is_value<T>(m: Map<Seq<char>, T>, name: Seq<char>)
    ensures
        lookup(m, name) matches Some(v) ==> exists|key: Seq<char>|
            #[trigger] m.contains_key(key) && m[key] == v,
{
    let c = canonical(name);
    if lookup(m, name) is Some {
        let i = choose|i: int| first_hit(m, c, i);
        assert(m.contains_key(c.skip(i)));
    }
}

/// Among the keys that are label suffixes of a name, the longest one gives
/// the value that a lookup returns.
pub proof fn lemma_longest_suffix_wins<T>(m: Map<Seq<char>, T>, name: Seq<char>, key: Seq<char>)
    requires
        m.contains_key(key),
        is_label_suffix(key, canonical(name)),
        forall|other: Seq<char>|
            m.contains_key(other) && #[trigger] is_label_suffix(other, canonical(name))
                ==> other.len() <= key.len(),
    ensures
        lookup(m, name) == Some(m[key]),
{
    let c = canonical(name);
    let i = choose|i: int| label_start(c, i) && key == c.skip(i);
    assert(hit(m, c, i));
    assert forall|j: int| 0 <= j < i implies !hit(m, c, j) by {
        if hit(m, c, j) {
            let other = c.skip(j);
            assert(is_label_suffix(other, c));
            assert(other.len() == c.len() - j);
            assert(key.len() == c.len() - i);
        }
    }
    lemma_first_hit_unique(m, c, i);
}

/// A lookup succeeds exactly when some key is a label suffix of the name.
pub proof fn lemma_lookup_some_iff<T>(m: Map<Seq<char>, T>, name: Seq<char>)
    ensures
        lookup(m, name) is Some <==> exists|key: Seq<char>|
            m.contains_key(key) && #[trigger] is_label_suffix(key, canonical(name)),
{
    let c = canonical(name);
    if lookup(m, name) is Some {
        let i = choose|i: int| first_hit(m, c, i);
        assert(label_start(c, i) && c.skip(i) == c.skip(i));
        assert(is_label_suffix(c.skip(i), c));
    }
    if exists|key: Seq<char>| m.contains_key(key) && #[trigger] is_label_suffix(key, c) {
        let key = choose|key: Seq<char>| m.contains_key(key) && #[trigger] is_label_suffix(key, c);
        let i = choose|i: int| label_start(c, i) && key == c.skip(i);
        assert(hit(m, c, i));
        lemma_some_first_hit(m, c, i);
    }
}

/// Below any hit there is a first one.
proof fn lemma_some_first_hit<T>(m: Map<Seq<char>, T>, c: Seq<char>, i: int)
    requires
        hit(m, c, i),
    ensures
        exists|j: int| first_hit(m, c, j),
    decreases i,
{
    if exists|j: int| 0 <= j < i && hit(m, c, j) {
        let j = choose|j: int| 0 <= j < i && hit(m, c, j);
        lemma_some_first_hit(m, c, j);
    } else {
        assert(first_hit(m, c, i));
    }
}

} // verus!
