//! Text handling on sequences of characters.
//!
//! Strings are opaque to the verifier, so the parsers of this crate work on
//! `Vec<char>` and state their results over `Seq<char>`.

use vstd::prelude::*;

verus! {

/// ASCII whitespace: space, tab, line feed, form feed, carriage return.
pub open spec fn is_space(c: char) -> bool {
    c == ' ' || c == '\t' || c == '\n' || c == '\x0C' || c == '\r'
}

/// The ASCII lower-case form of `c`; other characters are unchanged.
pub open spec fn lower_char(c: char) -> char {
    if 'A' <= c && c <= 'Z' {
        ((c as u8) + 32) as char
    } else {
        c
    }
}

/// `s` with every ASCII upper-case letter replaced by its lower-case form.
pub open spec fn lower(s: Seq<char>) -> Seq<char> {
    Seq::new(s.len(), |i: int| lower_char(s[i]))
}

/// The first index at or after `i` whose character is not whitespace, or
/// the length of `s`.
pub open spec fn skip_spaces(s: Seq<char>, i: int) -> int
    decreases s.len() - i,
{
    if 0 <= i < s.len() && is_space(s[i]) {
        skip_spaces(s, i + 1)
    } else {
        i
    }
}

/// The least `j >= lo` such that no character of `s` in `j..hi` is other
/// than whitespace.
pub open spec fn drop_spaces(s: Seq<char>, lo: int, hi: int) -> int
    decreases hi,
{
    if 0 <= lo < hi <= s.len() && is_space(s[hi - 1]) {
        drop_spaces(s, lo, hi - 1)
    } else {
        hi
    }
}

/// `s` without leading and trailing ASCII whitespace.
pub open spec fn trim(s: Seq<char>) -> Seq<char> {
    let lo = skip_spaces(s, 0);
    s.subrange(lo, drop_spaces(s, lo, s.len() as int))
}

/// `s` without leading ASCII whitespace.
pub open spec fn trim_start(s: Seq<char>) -> Seq<char> {
    s.subrange(skip_spaces(s, 0), s.len() as int)
}

/// `s` without trailing ASCII whitespace.
pub open spec fn trim_end(s: Seq<char>) -> Seq<char> {
    s.subrange(0, drop_spaces(s, 0, s.len() as int))
}

/// The index of the first `c` in `s` at or after `from`, if there is one.
pub open spec fn find(s: Seq<char>, c: char, from: int) -> Option<int>
    decreases s.len() - from,
{
    if from < 0 || from >= s.len() {
        None
    } else if s[from] == c {
        Some(from)
    } else {
        find(s, c, from + 1)
    }
}

/// What `skip_spaces` passes over is whitespace, and where it stops within
/// `s` there is none.
pub proof fn lemma_skip_spaces_bounds(s: Seq<char>, i: int)
    requires
        0 <= i <= s.len(),
    ensures
        i <= skip_spaces(s, i) <= s.len(),
        forall|k: int| i <= k < skip_spaces(s, i) ==> is_space(s[k]),
        skip_spaces(s, i) < s.len() ==> !is_space(s[skip_spaces(s, i)]),
    decreases s.len() - i,
{
    if i < s.len() && is_space(s[i]) {
        lemma_skip_spaces_bounds(s, i + 1);
    }
}

/// What `find` returns is the first occurrence at or after `from`.
pub proof fn lemma_find(s: Seq<char>, c: char, from: int)
    requires
        0 <= from,
    ensures
        match find(s, c, from) {
            Some(i) => from <= i < s.len() && s[i] == c && forall|k: int|
                from <= k < i ==> s[k] != c,
            None => forall|k: int| from <= k < s.len() ==> s[k] != c,
        },
    decreases s.len() - from,
{
    if from < s.len() && s[from] != c {
        lemma_find(s, c, from + 1);
    }
}

/// The characters of a string, in order.
pub fn chars_of(s: &str) -> (v: Vec<char>)
    ensures
        v@ == s@,
{
    let mut v: Vec<char> = Vec::new();
    for c in it: s.chars()
        invariant
            v@ == it.seq().take(it.index() as int),
            it.seq() == s@,
    {
        v.push(c);
    }
    v
}

/// Collects `chars[lo..hi]` into a `String` with the standard library's
/// `FromIterator<&char>` for `String`, which appends each character in order.
#[verifier::external_body]
pub(crate) fn string_of(chars: &Vec<char>, lo: usize, hi: usize) -> (s: String)
    requires
        lo <= hi <= chars@.len(),
    ensures
        s@ == chars@.subrange(lo as int, hi as int),
{
    chars[lo..hi].iter().collect()
}

/// Whether `c` is ASCII whitespace.
pub fn char_is_space(c: char) -> (b: bool)
    ensures
        b == is_space(c),
{
    c == ' ' || c == '\t' || c == '\n' || c == '\x0C' || c == '\r'
}

/// The ASCII lower-case form of `c`.
pub fn char_to_lower(c: char) -> (r: char)
    ensures
        r == lower_char(c),
{
    if c >= 'A' && c <= 'Z' {
        ((c as u8) + 32) as char
    } else {
        c
    }
}

/// The index of the first character at or after `i` that is not whitespace.
pub fn skip_spaces_at(v: &Vec<char>, i: usize) -> (r: usize)
    requires
        i <= v@.len(),
    ensures
        r == skip_spaces(v@, i as int),
        i <= r <= v@.len(),
{
    let mut k = i;
    while k < v.len() && char_is_space(v[k])
        invariant
            i <= k <= v@.len(),
            skip_spaces(v@, i as int) == skip_spaces(v@, k as int),
        decreases v@.len() - k,
    {
        k += 1;
    }
    k
}

/// The end of `v[lo..hi]` once trailing whitespace is dropped.
pub fn drop_spaces_at(v: &Vec<char>, lo: usize, hi: usize) -> (r: usize)
    requires
        lo <= hi <= v@.len(),
    ensures
        r == drop_spaces(v@, lo as int, hi as int),
        lo <= r <= hi,
{
    let mut k = hi;
    while k > lo && char_is_space(v[k - 1])
        invariant
            lo <= k <= hi,
            hi <= v@.len(),
            drop_spaces(v@, lo as int, hi as int) == drop_spaces(v@, lo as int, k as int),
        decreases k,
    {
        k -= 1;
    }
    k
}

/// The index of the first `c` in `v[from..]`.
pub fn find_at(v: &Vec<char>, c: char, from: usize) -> (r: Option<usize>)
    ensures
        match r {
            Some(i) => find(v@, c, from as int) == Some(i as int) && from <= i < v@.len(),
            None => find(v@, c, from as int) is None,
        },
{
    let mut k = from;
    while k < v.len()
        invariant
            from <= k,
            find(v@, c, from as int) == find(v@, c, k as int),
        decreases v@.len() - k,
    {
        if v[k] == c {
            return Some(k);
        }
        k += 1;
    }
    None
}

/// A copy of `v[lo..hi]`.
pub fn slice_of(v: &Vec<char>, lo: usize, hi: usize) -> (r: Vec<char>)
    requires
        lo <= hi <= v@.len(),
    ensures
        r@ == v@.subrange(lo as int, hi as int),
{
    let mut r: Vec<char> = Vec::new();
    let mut k = lo;
    while k < hi
        invariant
            lo <= k <= hi,
            hi <= v@.len(),
            r@ == v@.subrange(lo as int, k as int),
        decreases hi - k,
    {
        r.push(v[k]);
        proof {
            assert(v@.subrange(lo as int, k as int).push(v@[k as int]) == v@.subrange(
                lo as int,
                k + 1,
            ));
        }
        k += 1;
    }
    r
}

/// `v` with ASCII upper-case letters turned into lower case.
pub fn lower_of(v: &Vec<char>) -> (r: Vec<char>)
    ensures
        r@ == lower(v@),
{
    let mut r: Vec<char> = Vec::new();
    let mut k: usize = 0;
    while k < v.len()
        invariant
            k <= v@.len(),
            r@.len() == k,
            forall|j: int| 0 <= j < k ==> r@[j] == lower_char(v@[j]),
        decreases v@.len() - k,
    {
        r.push(char_to_lower(v[k]));
        k += 1;
    }
    assert(r@ =~= lower(v@));
    r
}

/// Whether two character vectors hold the same text.
pub fn same(a: &Vec<char>, b: &Vec<char>) -> (r: bool)
    ensures
        r == (a@ == b@),
{
    if a.len() != b.len() {
        return false;
    }
    let mut k: usize = 0;
    while k < a.len()
        invariant
            k <= a@.len(),
            a@.len() == b@.len(),
            forall|j: int| 0 <= j < k ==> a@[j] == b@[j],
        decreases a@.len() - k,
    {
        if a[k] != b[k] {
            return false;
        }
        k += 1;
    }
    assert(a@ =~= b@);
    true
}

/// A decimal digit.
pub open spec fn is_digit(c: char) -> bool {
    '0' <= c && c <= '9'
}

/// The number that a decimal digit stands for.
pub open spec fn digit_value(c: char) -> nat {
    (c as u32 - '0' as u32) as nat
}

/// Every character of `s` is a decimal digit.
pub open spec fn all_digits(s: Seq<char>) -> bool {
    forall|i: int| 0 <= i < s.len() ==> is_digit(#[trigger] s[i])
}

/// The number that the digits of `s` spell in base ten.
pub open spec fn dec_value(s: Seq<char>) -> nat
    decreases s.len(),
{
    if s.len() == 0 {
        0
    } else {
        dec_value(s.drop_last()) * 10 + digit_value(s.last())
    }
}

/// The number that `s` spells, where `s` is one or more decimal digits and
/// the number is no greater than `max`.
pub open spec fn number(s: Seq<char>, max: nat) -> Option<nat> {
    if s.len() > 0 && all_digits(s) && dec_value(s) <= max {
        Some(dec_value(s))
    } else {
        None
    }
}

/// As `number`, with one `+` allowed in front of the digits.
pub open spec fn plus_number(s: Seq<char>, max: nat) -> Option<nat> {
    if s.len() > 0 && s[0] == '+' {
        number(s.skip(1), max)
    } else {
        number(s, max)
    }
}

/// The pieces of `s` from `from` on that stand between occurrences of `sep`.
pub open spec fn split_from(s: Seq<char>, sep: char, from: int) -> Seq<Seq<char>>
    decreases s.len() - from,
{
    match find(s, sep, from) {
        Some(i) => if from <= i < s.len() {
            seq![s.subrange(from, i)] + split_from(s, sep, i + 1)
        } else {
            seq![s.subrange(from, s.len() as int)]
        },
        None => seq![s.subrange(from, s.len() as int)],
    }
}

/// The pieces of `s` that stand between occurrences of `sep`. There is one
/// piece more than there are separators; a piece can be empty.
pub open spec fn split(s: Seq<char>, sep: char) -> Seq<Seq<char>> {
    split_from(s, sep, 0)
}

/// The texts that a sequence of character vectors holds.
pub open spec fn texts(v: Seq<Vec<char>>) -> Seq<Seq<char>> {
    Seq::new(v.len(), |i: int| v[i]@)
}

/// The first index at or after `i` whose character is whitespace, or the
/// length of `s`.
pub open spec fn skip_word(s: Seq<char>, i: int) -> int
    decreases s.len() - i,
{
    if 0 <= i < s.len() && !is_space(s[i]) {
        skip_word(s, i + 1)
    } else {
        i
    }
}

/// The words of `s` from `from` on: the pieces without whitespace that
/// stand between whitespace.
pub open spec fn words_from(s: Seq<char>, from: int) -> Seq<Seq<char>>
    decreases s.len() - from,
{
    let start = skip_spaces(s, from);
    let end = skip_word(s, start);
    if from <= start < end <= s.len() {
        seq![s.subrange(start, end)] + words_from(s, end)
    } else {
        Seq::empty()
    }
}

/// The words of `s`.
pub open spec fn words(s: Seq<char>) -> Seq<Seq<char>> {
    words_from(s, 0)
}

/// A word that starts at `i` ends after `i`, within `s`.
pub proof fn lemma_skip_word_bounds(s: Seq<char>, i: int)
    requires
        0 <= i <= s.len(),
    ensures
        i <= skip_word(s, i) <= s.len(),
        i < s.len() && !is_space(s[i]) ==> i < skip_word(s, i),
    decreases s.len() - i,
{
    if i < s.len() && !is_space(s[i]) {
        lemma_skip_word_bounds(s, i + 1);
    }
}

/// The index of the first whitespace at or after `i`.
pub fn skip_word_at(v: &Vec<char>, i: usize) -> (r: usize)
    requires
        i <= v@.len(),
    ensures
        r == skip_word(v@, i as int),
        i <= r <= v@.len(),
{
    let mut k = i;
    while k < v.len() && !char_is_space(v[k])
        invariant
            i <= k <= v@.len(),
            skip_word(v@, i as int) == skip_word(v@, k as int),
        decreases v@.len() - k,
    {
        k += 1;
    }
    k
}

/// The words of `v`.
pub fn split_words(v: &Vec<char>) -> (r: Vec<Vec<char>>)
    ensures
        texts(r@) == words(v@),
{
    let mut r: Vec<Vec<char>> = Vec::new();
    let mut from: usize = 0;
    loop
        invariant
            from <= v@.len(),
            words(v@) == texts(r@) + words_from(v@, from as int),
        decreases v@.len() - from,
    {
        let ghost before = texts(r@);
        let start = skip_spaces_at(v, from);
        let end = skip_word_at(v, start);
        proof {
            lemma_skip_spaces_bounds(v@, from as int);
            lemma_skip_word_bounds(v@, start as int);
        }
        if start == end {
            assert(texts(r@) + Seq::<Seq<char>>::empty() =~= texts(r@));
            return r;
        }
        r.push(slice_of(v, start, end));
        assert(texts(r@) =~= before + seq![v@.subrange(start as int, end as int)]);
        from = end;
    }
}

/// The text of each string.
pub open spec fn lines_of(lst: Seq<String>) -> Seq<Seq<char>> {
    Seq::new(lst.len(), |i: int| lst[i]@)
}

/// The lines of `s`: the pieces between its line feeds.
pub fn split_lines(s: &str) -> (r: Vec<String>)
    ensures
        lines_of(r@) == split(s@, '\n'),
{
    let v = chars_of(s);
    let pieces = split_chars(&v, '\n');
    let mut r: Vec<String> = Vec::new();
    let mut i: usize = 0;
    while i < pieces.len()
        invariant
            i <= pieces@.len(),
            r@.len() == i,
            forall|j: int| 0 <= j < i ==> (#[trigger] r@[j])@ == pieces@[j]@,
        decreases pieces@.len() - i,
    {
        let piece = &pieces[i];
        let line = string_of(piece, 0, piece.len());
        assert(piece@.subrange(0, piece@.len() as int) == piece@);
        r.push(line);
        i += 1;
    }
    assert(lines_of(r@) =~= texts(pieces@));
    r
}

/// A split gives one piece at least.
pub proof fn lemma_split_len(s: Seq<char>, sep: char, from: int)
    ensures
        split_from(s, sep, from).len() >= 1,
    decreases s.len() - from,
{
    match find(s, sep, from) {
        Some(i) => {
            if from <= i < s.len() {
                lemma_split_len(s, sep, i + 1);
            }
        },
        None => {},
    }
}

/// A longer numeral spells a number that is no smaller.
pub proof fn lemma_dec_value_grows(s: Seq<char>, k: int)
    requires
        0 <= k <= s.len(),
    ensures
        dec_value(s.take(k)) <= dec_value(s),
    decreases s.len() - k,
{
    if k < s.len() {
        lemma_dec_value_grows(s, k + 1);
        assert(s.take(k + 1).drop_last() == s.take(k));
    } else {
        assert(s.take(k) == s);
    }
}

/// Whether `c` is a decimal digit.
pub fn char_is_digit(c: char) -> (b: bool)
    ensures
        b == is_digit(c),
{
    c >= '0' && c <= '9'
}

/// The number that `v` spells in decimal digits, if it is no greater than
/// `max`.
pub fn parse_number(v: &Vec<char>, max: u64) -> (r: Option<u64>)
    ensures
        match r {
            Some(n) => number(v@, max as nat) == Some(n as nat),
            None => number(v@, max as nat) is None,
        },
{
    if v.len() == 0 {
        return None;
    }
    let mut acc: u64 = 0;
    let mut k: usize = 0;
    while k < v.len()
        invariant
            k <= v@.len(),
            all_digits(v@.take(k as int)),
            acc == dec_value(v@.take(k as int)),
            acc <= max,
        decreases v@.len() - k,
    {
        let c = v[k];
        if !char_is_digit(c) {
            return None;
        }
        let d: u64 = (c as u32 - '0' as u32) as u64;
        proof {
            assert(v@.take(k + 1).drop_last() == v@.take(k as int));
            assert(v@.take(k + 1).last() == c);
            assert(dec_value(v@.take(k + 1)) == acc * 10 + d);
            assert forall|i: int| 0 <= i < k + 1 implies is_digit(#[trigger] v@.take(k + 1)[i]) by {
                if i < k {
                    assert(v@.take(k as int)[i] == v@[i]);
                }
            }
        }
        if acc > max / 10 || (acc == max / 10 && d > max % 10) {
            proof {
                lemma_dec_value_grows(v@, k + 1);
            }
            return None;
        }
        acc = acc * 10 + d;
        k += 1;
    }
    assert(v@.take(k as int) == v@);
    Some(acc)
}

/// As `parse_number`, with one `+` allowed in front of the digits.
pub fn parse_plus_number(v: &Vec<char>, max: u64) -> (r: Option<u64>)
    ensures
        match r {
            Some(n) => plus_number(v@, max as nat) == Some(n as nat),
            None => plus_number(v@, max as nat) is None,
        },
{
    if v.len() > 0 && v[0] == '+' {
        let rest = slice_of(v, 1, v.len());
        assert(v@.subrange(1, v@.len() as int) == v@.skip(1));
        parse_number(&rest, max)
    } else {
        parse_number(v, max)
    }
}

/// The pieces of `v` that stand between occurrences of `sep`.
pub fn split_chars(v: &Vec<char>, sep: char) -> (r: Vec<Vec<char>>)
    ensures
        texts(r@) == split(v@, sep),
{
    let mut r: Vec<Vec<char>> = Vec::new();
    let mut start: usize = 0;
    loop
        invariant
            start <= v@.len(),
            split(v@, sep) == texts(r@) + split_from(v@, sep, start as int),
        decreases v@.len() - start,
    {
        let ghost before = texts(r@);
        let n = v.len();
        match find_at(v, sep, start) {
            Some(i) => {
                let piece = slice_of(v, start, i);
                r.push(piece);
                assert(texts(r@) =~= before + seq![v@.subrange(start as int, i as int)]);
                assert(i < n);
                start = i + 1;
            },
            None => {
                let piece = slice_of(v, start, v.len());
                r.push(piece);
                assert(texts(r@) =~= before + seq![v@.subrange(start as int, v@.len() as int)]);
                return r;
            },
        }
    }
}

} // verus!
