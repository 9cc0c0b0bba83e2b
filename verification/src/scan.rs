//! Character-sequence scanning primitives shared by the classifier and the
//! pipeline: whitespace trimming, first/last occurrence of a character,
//! and substring search, each with lemmas that pin the recursive definitions
//! to the index-based characterisations the executable loops establish.

use vstd::prelude::*;

verus! {

/// The characters removed by whitespace trimming: the Unicode `White_Space`
/// set, written out by code point.
pub open spec fn is_space_char(c: char) -> bool {
    let n = c as u32;
    n == 0x09 || n == 0x0A || n == 0x0B || n == 0x0C || n == 0x0D || n == 0x20 || n == 0x85
        || n == 0xA0 || n == 0x1680 || (0x2000 <= n && n <= 0x200A) || n == 0x2028 || n == 0x2029
        || n == 0x202F || n == 0x205F || n == 0x3000
}

/// Whether `c` is trimmed as whitespace.
pub fn is_space(c: char) -> (r: bool)
    ensures
        r == is_space_char(c),
{
    let n = c as u32;
    n == 0x09 || n == 0x0A || n == 0x0B || n == 0x0C || n == 0x0D || n == 0x20 || n == 0x85
        || n == 0xA0 || n == 0x1680 || (0x2000 <= n && n <= 0x200A) || n == 0x2028 || n == 0x2029
        || n == 0x202F || n == 0x205F || n == 0x3000
}

/// Index of the first occurrence of `c` in `s`, or `s.len()` if absent.
pub open spec fn first_idx(s: Seq<char>, c: char) -> int
    decreases s.len(),
{
    if s.len() == 0 {
        0
    } else if s[0] == c {
        0
    } else {
        1 + first_idx(s.drop_first(), c)
    }
}

pub proof fn lemma_first_idx_bounds(s: Seq<char>, c: char)
    ensures
        0 <= first_idx(s, c) <= s.len(),
        forall|k: int| 0 <= k < first_idx(s, c) ==> s[k] != c,
        first_idx(s, c) < s.len() ==> s[first_idx(s, c)] == c,
    decreases s.len(),
{
    if s.len() > 0 && s[0] != c {
        lemma_first_idx_bounds(s.drop_first(), c);
        assert forall|k: int| 0 <= k < first_idx(s, c) implies s[k] != c by {
            if k >= 1 {
                assert(s.drop_first()[k - 1] != c);
            }
        }
    }
}

pub proof fn lemma_first_idx_at(s: Seq<char>, c: char, i: int)
    requires
        0 <= i <= s.len(),
        forall|k: int| 0 <= k < i ==> s[k] != c,
        i < s.len() ==> s[i] == c,
    ensures
        first_idx(s, c) == i,
{
    lemma_first_idx_bounds(s, c);
    let f = first_idx(s, c);
    if f < i {
        assert(s[f] == c);
    } else if i < f {
        assert(s[i] != c);
    }
}

/// Index of the last occurrence of `c` in `s`, or `-1` if absent.
pub open spec fn last_idx(s: Seq<char>, c: char) -> int
    decreases s.len(),
{
    if s.len() == 0 {
        -1
    } else if s.last() == c {
        s.len() - 1
    } else {
        last_idx(s.drop_last(), c)
    }
}

pub proof fn lemma_last_idx_bounds(s: Seq<char>, c: char)
    ensures
        -1 <= last_idx(s, c) < s.len(),
        forall|k: int| last_idx(s, c) < k < s.len() ==> s[k] != c,
        last_idx(s, c) >= 0 ==> s[last_idx(s, c)] == c,
    decreases s.len(),
{
    if s.len() > 0 && s.last() != c {
        lemma_last_idx_bounds(s.drop_last(), c);
        assert forall|k: int| last_idx(s, c) < k < s.len() implies s[k] != c by {
            if k < s.len() - 1 {
                assert(s.drop_last()[k] != c);
            }
        }
    }
}

pub proof fn lemma_last_idx_at(s: Seq<char>, c: char, j: int)
    requires
        -1 <= j < s.len(),
        forall|k: int| j < k < s.len() ==> s[k] != c,
        j >= 0 ==> s[j] == c,
    ensures
        last_idx(s, c) == j,
{
    lemma_last_idx_bounds(s, c);
    let l = last_idx(s, c);
    if l < j {
        assert(s[j] == c);
    } else if j < l {
        assert(s[l] != c);
    }
}

/// Number of leading whitespace characters of `s`.
pub open spec fn trim_start(s: Seq<char>) -> int
    decreases s.len(),
{
    if s.len() == 0 {
        0
    } else if !is_space_char(s[0]) {
        0
    } else {
        1 + trim_start(s.drop_first())
    }
}

/// Index just past the last non-whitespace character of `s`, or `s.len()`
/// when `s` is empty, or `0` when `s` is all whitespace.
pub open spec fn trim_end(s: Seq<char>) -> int
    decreases s.len(),
{
    if s.len() == 0 {
        0
    } else if !is_space_char(s.last()) {
        s.len() as int
    } else {
        trim_end(s.drop_last())
    }
}

/// `s` with leading and trailing whitespace removed.
pub open spec fn trimmed(s: Seq<char>) -> Seq<char> {
    if trim_start(s) <= trim_end(s) {
        s.subrange(trim_start(s), trim_end(s))
    } else {
        Seq::empty()
    }
}

pub proof fn lemma_trim_start_bounds(s: Seq<char>)
    ensures
        0 <= trim_start(s) <= s.len(),
        forall|k: int| 0 <= k < trim_start(s) ==> is_space_char(s[k]),
        trim_start(s) < s.len() ==> !is_space_char(s[trim_start(s)]),
    decreases s.len(),
{
    if s.len() > 0 && is_space_char(s[0]) {
        lemma_trim_start_bounds(s.drop_first());
        assert forall|k: int| 0 <= k < trim_start(s) implies is_space_char(s[k]) by {
            if k >= 1 {
                assert(is_space_char(s.drop_first()[k - 1]));
            }
        }
    }
}

pub proof fn lemma_trim_start_at(s: Seq<char>, i: int)
    requires
        0 <= i <= s.len(),
        forall|k: int| 0 <= k < i ==> is_space_char(s[k]),
        i < s.len() ==> !is_space_char(s[i]),
    ensures
        trim_start(s) == i,
{
    lemma_trim_start_bounds(s);
    let t = trim_start(s);
    if t < i {
        assert(is_space_char(s[t]));
    } else if i < t {
        assert(!is_space_char(s[i]));
    }
}

pub proof fn lemma_trim_end_bounds(s: Seq<char>)
    ensures
        0 <= trim_end(s) <= s.len(),
        forall|k: int| trim_end(s) <= k < s.len() ==> is_space_char(s[k]),
        trim_end(s) > 0 ==> !is_space_char(s[trim_end(s) - 1]),
    decreases s.len(),
{
    if s.len() > 0 && is_space_char(s.last()) {
        lemma_trim_end_bounds(s.drop_last());
        assert forall|k: int| trim_end(s) <= k < s.len() implies is_space_char(s[k]) by {
            if k < s.len() - 1 {
                assert(is_space_char(s.drop_last()[k]));
            }
        }
    }
}

pub proof fn lemma_trim_end_at(s: Seq<char>, j: int)
    requires
        0 <= j <= s.len(),
        forall|k: int| j <= k < s.len() ==> is_space_char(s[k]),
        j > 0 ==> !is_space_char(s[j - 1]),
    ensures
        trim_end(s) == j,
{
    lemma_trim_end_bounds(s);
    let t = trim_end(s);
    if t < j {
        assert(is_space_char(s[j - 1]));
    } else if j < t {
        assert(is_space_char(s[t - 1]));
    }
}

/// The pattern `p` occurs in `t` starting at index `i`.
pub open spec fn occurs_at(t: Seq<char>, p: Seq<char>, i: int) -> bool {
    0 <= i && i + p.len() <= t.len() && (forall|k: int| 0 <= k < p.len() ==> t[i + k] == p[k])
}

/// The pattern `p` occurs somewhere in `t`.
pub open spec fn contains_seq(t: Seq<char>, p: Seq<char>) -> bool {
    exists|i: int| occurs_at(t, p, i)
}

/// Index of the first occurrence of `p` in `t`, if any.
pub open spec fn find_first(t: Seq<char>, p: Seq<char>) -> Option<int>
    decreases t.len(),
{
    if t.len() < p.len() {
        None
    } else if t.take(p.len() as int) == p {
        Some(0int)
    } else if t.len() == 0 {
        None
    } else {
        match find_first(t.drop_first(), p) {
            Some(i) => Some(i + 1),
            None => None,
        }
    }
}

/// Occurrences in `t` at positions past the first character are exactly the
/// occurrences in `t` without its first character, shifted by one.
pub proof fn lemma_occurs_shift(t: Seq<char>, p: Seq<char>, k: int)
    requires
        1 <= k,
        1 <= t.len(),
    ensures
        occurs_at(t, p, k) == occurs_at(t.drop_first(), p, k - 1),
{
    if occurs_at(t, p, k) {
        assert forall|q: int| 0 <= q < p.len() implies t.drop_first()[(k - 1) + q] == p[q] by {
            assert(t[k + q] == p[q]);
        }
    }
    if occurs_at(t.drop_first(), p, k - 1) {
        assert forall|q: int| 0 <= q < p.len() implies t[k + q] == p[q] by {
            assert(t.drop_first()[(k - 1) + q] == p[q]);
        }
    }
}

pub proof fn lemma_find_first_bounds(t: Seq<char>, p: Seq<char>)
    ensures
        match find_first(t, p) {
            Some(i) => occurs_at(t, p, i) && (forall|k: int| 0 <= k < i ==> !occurs_at(t, p, k)),
            None => forall|k: int| !occurs_at(t, p, k),
        },
    decreases t.len(),
{
    if t.len() >= p.len() && t.take(p.len() as int) == p {
        assert(occurs_at(t, p, 0)) by {
            assert(forall|k: int| 0 <= k < p.len() ==> t[k] == t.take(p.len() as int)[k]);
        }
    } else if t.len() < p.len() || t.len() == 0 {
        assert(forall|k: int| !occurs_at(t, p, k)) by {
            assert(forall|k: int| occurs_at(t, p, k) ==> k == 0 && t.take(p.len() as int) =~= p);
        }
    } else {
        lemma_find_first_bounds(t.drop_first(), p);
        assert(!occurs_at(t, p, 0)) by {
            if occurs_at(t, p, 0) {
                assert(t.take(p.len() as int) =~= p);
            }
        }
        assert forall|k: int| 1 <= k implies occurs_at(t, p, k) == occurs_at(
            t.drop_first(),
            p,
            k - 1,
        ) by {
            lemma_occurs_shift(t, p, k);
        }
        match find_first(t.drop_first(), p) {
            Some(i) => {
                assert(occurs_at(t.drop_first(), p, i));
                assert(occurs_at(t, p, i + 1));
            },
            None => {},
        }
    }
}

pub proof fn lemma_find_first_at(t: Seq<char>, p: Seq<char>, i: int)
    requires
        occurs_at(t, p, i),
        forall|k: int| 0 <= k < i ==> !occurs_at(t, p, k),
    ensures
        find_first(t, p) == Some(i),
{
    lemma_find_first_bounds(t, p);
    match find_first(t, p) {
        Some(f) => {
            if f < i {
                assert(occurs_at(t, p, f));
            } else if i < f {
                assert(!occurs_at(t, p, i));
            }
        },
        None => {
            assert(!occurs_at(t, p, i));
        },
    }
}

pub proof fn lemma_find_first_none(t: Seq<char>, p: Seq<char>)
    requires
        forall|k: int| !occurs_at(t, p, k),
    ensures
        find_first(t, p) is None,
{
    lemma_find_first_bounds(t, p);
    if let Some(f) = find_first(t, p) {
        assert(occurs_at(t, p, f));
    }
}

/// Checks whether `pat` occurs in `text` starting at character index `i`.
pub fn occurs_here(text: &str, pat: &str, i: usize) -> (r: bool)
    requires
        i + pat@.len() <= text@.len(),
        i + pat@.len() <= usize::MAX,
    ensures
        r == occurs_at(text@, pat@, i as int),
{
    let m = pat.unicode_len();
    let mut k: usize = 0;
    while k < m
        invariant
            0 <= k <= m,
            m == pat@.len(),
            i + m <= text@.len(),
            i + m <= usize::MAX,
            forall|q: int| 0 <= q < k ==> text@[i + q] == pat@[q],
        decreases m - k,
    {
        if text.get_char(i + k) != pat.get_char(k) {
            assert(!occurs_at(text@, pat@, i as int));
            return false;
        }
        k += 1;
    }
    true
}

} // verus!
