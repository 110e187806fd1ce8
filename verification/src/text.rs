//! Text handling shared by the other modules.
//!
//! Strings are modelled by their views, `Seq<char>`. The functions here scan a string once,
//! cut it at a separator, and compare strings by what they hold.

use vstd::prelude::*;
use vstd::string::*;

verus! {

/// What `str::to_lowercase` of the standard library makes of a string: the Unicode
/// lowercase mapping, which this library does not spell out.
pub uninterp spec fn lowercased(s: Seq<char>) -> Seq<char>;

/// The position of the first `c` in `s`, or `s.len()` where `s` holds none.
pub open spec fn first_index_of<A>(s: Seq<A>, c: A) -> int
    decreases s.len(),
{
    if s.len() == 0 {
        0
    } else if s[0] == c {
        0
    } else {
        1 + first_index_of(s.drop_first(), c)
    }
}

/// `s` cut at its first `sep`: what stands before it and what stands behind it.
/// `None` where `s` holds no `sep`.
pub open spec fn split_first(s: Seq<char>, sep: char) -> Option<(Seq<char>, Seq<char>)> {
    let i = first_index_of(s, sep);
    if i < s.len() {
        Some((s.take(i), s.skip(i + 1)))
    } else {
        None
    }
}

/// `s` cut at every `sep`: the pieces between the separators, in order. A string without
/// `sep` is one piece; `n` separators give `n + 1` pieces, empty ones included.
pub open spec fn split_all(s: Seq<char>, sep: char) -> Seq<Seq<char>>
    decreases s.len(),
{
    let i = first_index_of(s, sep);
    if 0 <= i < s.len() {
        seq![s.take(i)] + split_all(s.skip(i + 1), sep)
    } else {
        seq![s]
    }
}

/// The views of a sequence of strings.
pub open spec fn views(v: Seq<String>) -> Seq<Seq<char>> {
    v.map_values(|s: String| s@)
}

/// `first_index_of` is in range, nothing before it is `c`, and `c` stands there
/// unless it is the length.
pub proof fn lemma_first_index_of<A>(s: Seq<A>, c: A)
    ensures
        0 <= first_index_of(s, c) <= s.len(),
        forall|j: int| 0 <= j < first_index_of(s, c) ==> s[j] != c,
        first_index_of(s, c) < s.len() ==> s[first_index_of(s, c)] == c,
    decreases s.len(),
{
    if s.len() > 0 && s[0] != c {
        let t = s.drop_first();
        lemma_first_index_of(t, c);
        assert forall|j: int| 0 <= j < first_index_of(s, c) implies s[j] != c by {
            if j > 0 {
                assert(s[j] == t[j - 1]);
            }
        }
    }
}

/// A position with no `c` before it, which holds `c` or is the length, is `first_index_of`.
pub proof fn lemma_first_index_of_is<A>(s: Seq<A>, c: A, i: int)
    requires
        0 <= i <= s.len(),
        forall|j: int| 0 <= j < i ==> s[j] != c,
        i < s.len() ==> s[i] == c,
    ensures
        first_index_of(s, c) == i,
{
    lemma_first_index_of(s, c);
    let f = first_index_of(s, c);
    if f < i {
        assert(s[f] != c);
    } else if i < f {
        assert(s[i] != c);
    }
}

/// Whether two strings hold the same characters.
pub fn str_eq(a: &str, b: &str) -> (r: bool)
    ensures
        r == (a@ == b@),
{
    let x = a.to_owned();
    let y = b.to_owned();
    x == y
}

/// The position of the first string equal to `s` in `v`, or the length where there is
/// none.
pub fn position_in(v: &Vec<String>, s: &str) -> (i: usize)
    ensures
        i == first_index_of(views(v@), s@),
        i <= v.len(),
{
    let mut i: usize = 0;
    while i < v.len() && !str_eq(v[i].as_str(), s)
        invariant
            i <= v.len(),
            forall|j: int| 0 <= j < i ==> views(v@)[j] != s@,
        decreases v.len() - i,
    {
        i += 1;
    }
    proof {
        lemma_first_index_of_is(views(v@), s@, i as int);
    }
    i
}

/// The characters of `s`, in order.
pub fn chars_of(s: &str) -> (v: Vec<char>)
    ensures
        v@ == s@,
{
    broadcast use vstd::string::group_string_axioms;

    let mut v: Vec<char> = Vec::new();
    for c in it: s.chars()
        invariant
            it.seq() == s@,
            v@ == s@.take(it.index() as int),
    {
        v.push(c);
    }
    assert(s@.take(s@.len() as int) == s@);
    v
}

/// The position of the first `c` at or after `from`, or the length where there is none.
pub fn find_from(chars: &Vec<char>, from: usize, c: char) -> (i: usize)
    requires
        from <= chars.len(),
    ensures
        i == from + first_index_of(chars@.skip(from as int), c),
        from <= i <= chars.len(),
{
    let mut i: usize = from;
    while i < chars.len() && chars[i] != c
        invariant
            from <= i <= chars.len(),
            forall|j: int| from <= j < i ==> chars@[j] != c,
        decreases chars.len() - i,
    {
        i += 1;
    }
    proof {
        lemma_first_index_of_is(chars@.skip(from as int), c, i - from);
    }
    i
}

/// Cuts `s` at its first `sep`. An entry `"KEY=value"` cut at `'='` gives
/// `("KEY", "value")`; only the first separator counts, so the second part may hold more.
pub fn split_once(s: &str, sep: char) -> (r: Option<(String, String)>)
    ensures
        match r {
            Some((head, tail)) => split_first(s@, sep) == Some((head@, tail@)),
            None => split_first(s@, sep) is None,
        },
{
    let chars = chars_of(s);
    let i = find_from(&chars, 0, sep);
    assert(chars@.skip(0) == s@);
    if i < chars.len() {
        let head = s.substring_char(0, i).to_owned();
        let tail = s.substring_char(i + 1, chars.len()).to_owned();
        assert(s@.subrange(0, i as int) == s@.take(i as int));
        assert(s@.subrange(i + 1, s@.len() as int) == s@.skip(i + 1));
        Some((head, tail))
    } else {
        None
    }
}

/// The lowercase form of `s`, as `str::to_lowercase` gives it. Nothing is proved of the
/// mapping itself: the result is known only as `lowercased` of the input.
#[verifier::external_body]
pub(crate) fn to_lowercase(s: &str) -> (r: String)
    ensures
        r@ == lowercased(s@),
{
    s.to_lowercase()
}

} // verus!
