//! Character-level operations on strings.
use vstd::prelude::*;
use vstd::string::StrSliceExecFns;

verus! {

/// Whether `pat` occurs in `s` at position `i`.
pub open spec fn occurs_at(s: Seq<char>, pat: Seq<char>, i: int) -> bool {
    0 <= i && i + pat.len() <= s.len() && s.subrange(i, i + pat.len()) == pat
}

/// Whether `pat` occurs anywhere in `s`.
pub open spec fn contains_seq(s: Seq<char>, pat: Seq<char>) -> bool {
    exists|i: int| occurs_at(s, pat, i)
}

/// Whether the two strings hold the same characters.
pub fn str_equals(a: &str, b: &str) -> (r: bool)
    ensures
        r == (a@ == b@),
{
    let n = a.unicode_len();
    if n != b.unicode_len() {
        return false;
    }
    let mut i: usize = 0;
    while i < n
        invariant
            n == a@.len(),
            n == b@.len(),
            i <= n,
            a@.subrange(0, i as int) == b@.subrange(0, i as int),
        decreases n - i,
    {
        if a.get_char(i) != b.get_char(i) {
            return false;
        }
        assert(a@.subrange(0, i + 1) == a@.subrange(0, i as int).push(a@[i as int]));
        assert(b@.subrange(0, i + 1) == b@.subrange(0, i as int).push(b@[i as int]));
        i = i + 1;
    }
    assert(a@ == a@.subrange(0, n as int));
    assert(b@ == b@.subrange(0, n as int));
    true
}

/// Whether `pat` occurs in `s` at position `i`.
fn matches_at(s: &str, pat: &str, i: usize) -> (r: bool)
    requires
        i <= s@.len(),
    ensures
        r == occurs_at(s@, pat@, i as int),
{
    let n = s.unicode_len();
    let m = pat.unicode_len();
    if m > n - i {
        return false;
    }
    let mut j: usize = 0;
    while j < m
        invariant
            n == s@.len(),
            m == pat@.len(),
            i + m <= n,
            j <= m,
            s@.subrange(i as int, i + j) == pat@.subrange(0, j as int),
        decreases m - j,
    {
        if s.get_char(i + j) != pat.get_char(j) {
            assert(s@.subrange(i as int, i + m)[j as int] != pat@[j as int]);
            return false;
        }
        assert(s@.subrange(i as int, i + j + 1) == s@.subrange(i as int, i + j).push(s@[i + j]));
        assert(pat@.subrange(0, j + 1) == pat@.subrange(0, j as int).push(pat@[j as int]));
        j = j + 1;
    }
    assert(pat@ == pat@.subrange(0, m as int));
    true
}

/// Whether `pat` occurs in `s`.
pub fn contains(s: &str, pat: &str) -> (r: bool)
    ensures
        r == contains_seq(s@, pat@),
{
    let n = s.unicode_len();
    let mut i: usize = 0;
    while i < n
        invariant
            n == s@.len(),
            i <= n,
            forall|k: int| 0 <= k < i ==> !occurs_at(s@, pat@, k),
        decreases n - i,
    {
        if matches_at(s, pat, i) {
            return true;
        }
        i = i + 1;
    }
    if matches_at(s, pat, n) {
        return true;
    }
    assert forall|k: int| !occurs_at(s@, pat@, k) by {
        if 0 <= k && k + pat@.len() <= s@.len() {
            assert(k <= n);
        }
    }
    false
}

/// The positions of the `::` separators of a path, found by a scan from left
/// to right that starts at `i` and does not let two separators overlap.
pub open spec fn separators_from(s: Seq<char>, i: int) -> Seq<int>
    decreases s.len() - i,
{
    if i < 0 || i + 2 > s.len() {
        seq![]
    } else if s[i] == ':' && s[i + 1] == ':' {
        seq![i] + separators_from(s, i + 2)
    } else {
        separators_from(s, i + 1)
    }
}

/// The positions of the `::` separators of a path.
pub open spec fn separators(s: Seq<char>) -> Seq<int> {
    separators_from(s, 0)
}

/// The segment of a path that stands before separator `k`.
pub open spec fn segment_before(s: Seq<char>, seps: Seq<int>, k: int) -> Seq<char> {
    let start = if k == 0 { 0 } else { seps[k - 1] + 2 };
    s.subrange(start, seps[k])
}

/// The third segment from the end of a `::`-separated path, where there are
/// at least three.
pub open spec fn third_last_segment(s: Seq<char>) -> Option<Seq<char>> {
    let seps = separators(s);
    if seps.len() >= 2 {
        Some(segment_before(s, seps, seps.len() - 2))
    } else {
        None
    }
}

proof fn lemma_separators_bounds(s: Seq<char>, i: int)
    requires
        0 <= i,
    ensures
        forall|k: int|
            0 <= k < separators_from(s, i).len() ==> i <= #[trigger] separators_from(s, i)[k]
                && separators_from(s, i)[k] + 2 <= s.len(),
        forall|k: int|
            0 <= k < separators_from(s, i).len() - 1 ==> #[trigger] separators_from(s, i)[k] + 2
                <= separators_from(s, i)[k + 1],
    decreases s.len() - i,
{
    let all = separators_from(s, i);
    if i + 2 > s.len() {
        assert(all.len() == 0);
    } else if s[i] == ':' && s[i + 1] == ':' {
        lemma_separators_bounds(s, i + 2);
        let rest = separators_from(s, i + 2);
        assert(all == seq![i] + rest);
        assert forall|k: int| 0 <= k < all.len() implies i <= #[trigger] all[k] && all[k] + 2
            <= s.len() by {
            if k > 0 {
                assert(all[k] == rest[k - 1]);
            }
        }
        assert forall|k: int| 0 <= k < all.len() - 1 implies #[trigger] all[k] + 2 <= all[k + 1] by {
            assert(all[k + 1] == rest[k]);
            if k > 0 {
                assert(all[k] == rest[k - 1]);
            } else {
                assert(rest[0] >= i + 2);
            }
        }
    } else {
        lemma_separators_bounds(s, i + 1);
        assert(all == separators_from(s, i + 1));
    }
}

/// The positions of the `::` separators of a path.
fn separator_positions(s: &str) -> (r: Vec<usize>)
    ensures
        r@.map_values(|p: usize| p as int) == separators(s@),
{
    let n = s.unicode_len();
    let mut r: Vec<usize> = Vec::new();
    let mut i: usize = 0;
    while i < n && i + 1 < n
        invariant
            n == s@.len(),
            i <= n,
            r@.map_values(|p: usize| p as int) + separators_from(s@, i as int) == separators(s@),
        decreases n - i,
    {
        if s.get_char(i) == ':' && s.get_char(i + 1) == ':' {
            let ghost before = r@.map_values(|p: usize| p as int);
            r.push(i);
            assert(r@.map_values(|p: usize| p as int) == before.push(i as int));
            assert(separators_from(s@, i as int) == seq![i as int] + separators_from(s@, i + 2));
            assert(before + separators_from(s@, i as int) == before.push(i as int) + separators_from(s@, i + 2));
            i = i + 2;
        } else {
            i = i + 1;
        }
    }
    assert(separators_from(s@, i as int) == Seq::<int>::empty());
    assert(r@.map_values(|p: usize| p as int) + Seq::<int>::empty() == r@.map_values(|p: usize| p as int));
    r
}

/// The third segment from the end of a `::`-separated path, where there are
/// at least three segments.
pub fn third_last_path_segment(s: &str) -> (r: Option<String>)
    ensures
        r matches Some(x) ==> third_last_segment(s@) == Some(x@),
        r is None ==> third_last_segment(s@) is None,
{
    let seps = separator_positions(s);
    let ghost sp = separators(s@);
    proof {
        lemma_separators_bounds(s@, 0);
    }
    let k = seps.len();
    if k < 2 {
        return None;
    }
    assert(sp[k - 2] == seps@[k - 2] as int);
    let end = seps[k - 2];
    let start = if k == 2 {
        0
    } else {
        assert(sp[k - 3] == seps@[k - 3] as int);
        assert(sp[k - 3] + 2 <= sp[k - 2]);
        seps[k - 3] + 2
    };
    let seg = s.substring_char(start, end);
    Some(seg.to_string())
}

/// Whether `s` starts with `prefix`.
pub fn starts_with(s: &str, prefix: &str) -> (r: bool)
    ensures
        r == occurs_at(s@, prefix@, 0),
{
    matches_at(s, prefix, 0)
}

} // verus!
