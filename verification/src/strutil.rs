//! String helpers: character-level views of strings, substring and
//! prefix tests, basenames, and the trusted bridge to Unicode case
//! folding.

use vstd::prelude::*;

verus! {

/// What `str::to_lowercase` returns for a given character sequence.
/// The result depends on the characters alone.
pub uninterp spec fn lower_of(s: Seq<char>) -> Seq<char>;

/// Relies on str::to_lowercase: the result is a function of the
/// characters alone; an empty string stays empty.
#[verifier::external_body]
pub(crate) fn to_lower(s: &str) -> (r: String)
    ensures
        r@ == lower_of(s@),
        s@.len() == 0 ==> r@.len() == 0,
{
    s.to_lowercase()
}

/// Relies on String's FromIterator<char>: collecting characters yields
/// the string made of exactly those characters in order.
#[verifier::external_body]
pub(crate) fn string_from_chars(v: &Vec<char>) -> (r: String)
    ensures
        r@ == v@,
{
    v.iter().copied().collect()
}

/// The characters of a string, as a vector.
pub fn to_char_vec(s: &str) -> (r: Vec<char>)
    ensures
        r@ == s@,
{
    let mut v: Vec<char> = Vec::new();
    for c in it: s.chars()
        invariant
            v@ == it.seq().take(it.index() as int),
            it.seq() == s@,
    {
        v.push(c);
    }
    proof {
        assert(v@ =~= s@);
    }
    v
}

/// True when the two strings hold the same characters.
pub fn streq(a: &str, b: &str) -> (r: bool)
    ensures
        r == (a@ == b@),
{
    let av = to_char_vec(a);
    let bv = to_char_vec(b);
    chars_eq(&av, &bv)
}

/// True when the two vectors hold the same characters.
pub fn chars_eq(a: &Vec<char>, b: &Vec<char>) -> (r: bool)
    ensures
        r == (a@ == b@),
{
    if a.len() != b.len() {
        return false;
    }
    let n = a.len();
    let mut i: usize = 0;
    while i < n
        invariant
            0 <= i <= n,
            n == a@.len(),
            n == b@.len(),
            forall|j: int| 0 <= j < i ==> a@[j] == b@[j],
        decreases n - i,
    {
        if a[i] != b[i] {
            return false;
        }
        i += 1;
    }
    proof {
        assert(a@ =~= b@);
    }
    true
}

/// True when `n` occurs in `h` starting at position `i`.
pub open spec fn matches_at(h: Seq<char>, n: Seq<char>, i: int) -> bool {
    &&& 0 <= i
    &&& i + n.len() <= h.len()
    &&& h.subrange(i, i + n.len() as int) == n
}

/// True when `n` occurs as a contiguous subsequence of `h`.
pub open spec fn spec_contains(h: Seq<char>, n: Seq<char>) -> bool {
    exists|i: int| matches_at(h, n, i)
}

/// True when `n` is a prefix of `h`.
pub open spec fn spec_starts_with(h: Seq<char>, n: Seq<char>) -> bool {
    n.is_prefix_of(h)
}

/// Substring test over character vectors.
pub fn contains_chars(h: &Vec<char>, n: &Vec<char>) -> (r: bool)
    ensures
        r == spec_contains(h@, n@),
{
    if n.len() > h.len() {
        proof {
            assert(forall|i: int| !matches_at(h@, n@, i));
        }
        return false;
    }
    if n.len() == 0 {
        proof {
            assert(h@.subrange(0, 0) =~= n@);
            assert(matches_at(h@, n@, 0));
        }
        return true;
    }
    let last = h.len() - n.len();
    let mut i: usize = 0;
    while i <= last
        invariant
            0 <= i <= last + 1,
            last == h@.len() - n@.len(),
            last < usize::MAX,
            1 <= n@.len() <= h@.len(),
            forall|k: int| 0 <= k < i ==> !matches_at(h@, n@, k),
        decreases last + 1 - i,
    {
        if matches_at_exec(h, n, i) {
            return true;
        }
        i += 1;
    }
    proof {
        assert(forall|k: int| matches_at(h@, n@, k) ==> 0 <= k <= last);
    }
    false
}

/// Check one candidate position of a substring match.
fn matches_at_exec(h: &Vec<char>, n: &Vec<char>, i: usize) -> (r: bool)
    requires
        i + n@.len() <= h@.len(),
    ensures
        r == matches_at(h@, n@, i as int),
{
    let hn = h.len();
    let mut j: usize = 0;
    while j < n.len()
        invariant
            0 <= j <= n@.len(),
            hn == h@.len(),
            i + n@.len() <= hn,
            forall|k: int| 0 <= k < j ==> h@[i + k] == n@[k],
        decreases n@.len() - j,
    {
        if h[i + j] != n[j] {
            proof {
                assert(h@.subrange(i as int, i + n@.len() as int)[j as int] == h@[i + j]);
            }
            return false;
        }
        j += 1;
    }
    proof {
        assert(h@.subrange(i as int, i + n@.len() as int) =~= n@);
    }
    true
}

/// Prefix test over character vectors.
pub fn starts_with_chars(h: &Vec<char>, n: &Vec<char>) -> (r: bool)
    ensures
        r == spec_starts_with(h@, n@),
{
    if n.len() > h.len() {
        return false;
    }
    let r = matches_at_exec(h, n, 0);
    proof {
        assert(h@.subrange(0, n@.len() as int) =~= h@.take(n@.len() as int));
    }
    r
}

/// Index just past the last occurrence of `sep` in `s` (0 when there
/// is none).
pub open spec fn spec_cut(s: Seq<char>, sep: char) -> nat
    decreases s.len(),
{
    if s.len() == 0 {
        0
    } else if s.last() == sep {
        s.len()
    } else {
        spec_cut(s.drop_last(), sep)
    }
}

/// The basename of a path: the suffix after the last `/`.
pub open spec fn spec_basename(s: Seq<char>) -> Seq<char> {
    s.subrange(spec_cut(s, '/') as int, s.len() as int)
}

/// Index just past the last occurrence of `sep` in `v`.
pub fn last_sep_cut(v: &Vec<char>, sep: char) -> (cut: usize)
    ensures
        cut == spec_cut(v@, sep),
        cut <= v@.len(),
{
    let n = v.len();
    let mut cut: usize = 0;
    let mut i: usize = 0;
    while i < n
        invariant
            0 <= i <= n,
            n == v@.len(),
            cut == spec_cut(v@.take(i as int), sep),
            cut <= i,
        decreases n - i,
    {
        proof {
            assert(v@.take(i + 1).drop_last() =~= v@.take(i as int));
            assert(v@.take(i + 1).last() == v@[i as int]);
        }
        if v[i] == sep {
            cut = i + 1;
        }
        i += 1;
    }
    proof {
        assert(v@.take(n as int) =~= v@);
    }
    cut
}

/// The suffix of `v` from position `cut` on.
pub fn suffix_from(v: &Vec<char>, cut: usize) -> (r: Vec<char>)
    requires
        cut <= v@.len(),
    ensures
        r@ == v@.subrange(cut as int, v@.len() as int),
{
    let n = v.len();
    let mut r: Vec<char> = Vec::new();
    let mut j: usize = cut;
    while j < n
        invariant
            cut <= j <= n,
            n == v@.len(),
            r@ == v@.subrange(cut as int, j as int),
        decreases n - j,
    {
        proof {
            assert(v@.subrange(cut as int, j + 1) =~= v@.subrange(cut as int, j as int).push(
                v@[j as int],
            ));
        }
        r.push(v[j]);
        j += 1;
    }
    r
}

/// The suffix of a path after its last `/` separator.
pub fn basename_chars(v: &Vec<char>) -> (r: Vec<char>)
    ensures
        r@ == spec_basename(v@),
{
    let cut = last_sep_cut(v, '/');
    suffix_from(v, cut)
}

} // verus!
