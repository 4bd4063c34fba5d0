//! Character-sequence utilities: substring search, splicing and
//! replacement, with exact specifications over `Seq<char>`.

use vstd::prelude::*;

verus! {

/// The needle `n` occurs in `h` starting at index `i`.
pub open spec fn occurs_at(h: Seq<char>, n: Seq<char>, i: int) -> bool {
    0 <= i && i + n.len() <= h.len() && h.subrange(i, i + n.len() as int) == n
}

/// Index of the first occurrence of `n` in `h` at or after `i`, if any.
pub open spec fn spec_find_from(h: Seq<char>, n: Seq<char>, i: int) -> Option<int>
    decreases h.len() - i,
{
    if i < 0 || i + n.len() > h.len() {
        None
    } else if occurs_at(h, n, i) {
        Some(i)
    } else {
        proof {
            if n.len() == 0 {
                assert(h.subrange(i, i + n.len() as int) =~= n);
            }
        }
        spec_find_from(h, n, i + 1)
    }
}

/// Index of the leftmost occurrence of `n` in `h`, if any.
pub open spec fn spec_find(h: Seq<char>, n: Seq<char>) -> Option<int> {
    spec_find_from(h, n, 0)
}

/// `n` occurs somewhere in `h`.
pub open spec fn contains_sub(h: Seq<char>, n: Seq<char>) -> bool {
    exists|i: int| occurs_at(h, n, i)
}

/// What `spec_find_from` returns: the first occurrence at or after `s`,
/// or `None` exactly when there is no occurrence at or after `s`.
pub proof fn lemma_find_from(h: Seq<char>, n: Seq<char>, s: int)
    requires
        0 <= s,
    ensures
        match spec_find_from(h, n, s) {
            Some(j) => s <= j && occurs_at(h, n, j) && (forall|k: int|
                s <= k < j ==> !occurs_at(h, n, k)),
            None => forall|k: int| k >= s ==> !occurs_at(h, n, k),
        },
    decreases h.len() - s,
{
    if s + n.len() > h.len() {
        assert forall|k: int| k >= s implies !occurs_at(h, n, k) by {
            assert(k + n.len() >= s + n.len());
        }
    } else if occurs_at(h, n, s) {
    } else {
        if n.len() == 0 {
            assert(h.subrange(s, s + n.len() as int) =~= n);
        }
        lemma_find_from(h, n, s + 1);
    }
}

/// Exact check that `n` occurs in `h` at index `i`.
pub fn occurs_at_exec(h: &Vec<char>, n: &Vec<char>, i: usize) -> (b: bool)
    requires
        i + n@.len() <= h@.len(),
    ensures
        b == occurs_at(h@, n@, i as int),
{
    let hlen = h.len();
    let mut j: usize = 0;
    while j < n.len()
        invariant
            i + n@.len() <= h@.len(),
            h@.len() <= usize::MAX,
            0 <= j <= n@.len(),
            forall|k: int| 0 <= k < j ==> h@[i + k] == n@[k],
        decreases n@.len() - j,
    {
        assert(i + j < h@.len());
        if h[i + j] != n[j] {
            assert(h@.subrange(i as int, i + n@.len() as int)[j as int] != n@[j as int]);
            return false;
        }
        j += 1;
    }
    assert(h@.subrange(i as int, i + n@.len() as int) =~= n@);
    true
}

/// First occurrence of `n` in `h` at or after `start`.
pub fn find_sub_from(h: &Vec<char>, n: &Vec<char>, start: usize) -> (r: Option<usize>)
    ensures
        match r {
            Some(j) => spec_find_from(h@, n@, start as int) == Some(j as int)
                && start <= j && j + n@.len() <= h@.len() && occurs_at(h@, n@, j as int),
            None => spec_find_from(h@, n@, start as int) is None,
        },
{
    if n.len() > h.len() {
        return None;
    }
    let last = h.len() - n.len();
    let mut i: usize = start;
    if i > last {
        return None;
    }
    loop
        invariant
            start <= i <= last,
            n@.len() <= h@.len(),
            last == h@.len() - n@.len(),
            spec_find_from(h@, n@, start as int) == spec_find_from(h@, n@, i as int),
        decreases last - i,
    {
        if occurs_at_exec(h, n, i) {
            return Some(i);
        }
        if i == last {
            return None;
        }
        i += 1;
    }
}

/// First occurrence of `n` in `h`.
pub fn find_sub(h: &Vec<char>, n: &Vec<char>) -> (r: Option<usize>)
    ensures
        match r {
            Some(j) => spec_find(h@, n@) == Some(j as int)
                && j + n@.len() <= h@.len() && occurs_at(h@, n@, j as int),
            None => spec_find(h@, n@) is None,
        },
{
    find_sub_from(h, n, 0)
}

/// Copy of `h[a..b]`.
pub fn copy_range(h: &Vec<char>, a: usize, b: usize) -> (r: Vec<char>)
    requires
        a <= b <= h@.len(),
    ensures
        r@ == h@.subrange(a as int, b as int),
{
    let mut out: Vec<char> = Vec::new();
    let mut i: usize = a;
    while i < b
        invariant
            a <= i <= b <= h@.len(),
            out@ == h@.subrange(a as int, i as int),
        decreases b - i,
    {
        out.push(h[i]);
        assert(out@ =~= h@.subrange(a as int, i + 1));
        i += 1;
    }
    out
}

/// Appends all of `src` to `out`.
pub fn push_all(out: &mut Vec<char>, src: &Vec<char>)
    ensures
        final(out)@ == old(out)@ + src@,
{
    let mut i: usize = 0;
    while i < src.len()
        invariant
            0 <= i <= src@.len(),
            out@ == old(out)@ + src@.subrange(0, i as int),
        decreases src@.len() - i,
    {
        out.push(src[i]);
        assert(out@ =~= old(out)@ + src@.subrange(0, i + 1));
        i += 1;
    }
    assert(out@ =~= old(out)@ + src@);
}

/// The characters of `s`, as a vector.
pub fn chars_of(s: &str) -> (r: Vec<char>)
    ensures
        r@ == s@,
{
    let n = s.unicode_len();
    let mut out: Vec<char> = Vec::new();
    let mut i: usize = 0;
    while i < n
        invariant
            0 <= i <= n,
            n == s@.len(),
            out@ == s@.subrange(0, i as int),
        decreases n - i,
    {
        out.push(s.get_char(i));
        assert(out@ =~= s@.subrange(0, i + 1));
        i += 1;
    }
    assert(out@ =~= s@);
    out
}

/// Relies on `String`'s `FromIterator` impl: collecting characters
/// concatenates them in order into one string.
#[verifier::external_body]
pub fn string_from_chars(v: &Vec<char>) -> (r: String)
    ensures
        r@ == v@,
{
    v.iter().collect()
}

/// `h` starts with `p`.
pub open spec fn has_prefix(h: Seq<char>, p: Seq<char>) -> bool {
    p.len() <= h.len() && h.subrange(0, p.len() as int) == p
}

/// `h` ends with `p`.
pub open spec fn has_suffix(h: Seq<char>, p: Seq<char>) -> bool {
    p.len() <= h.len() && h.subrange(h.len() - p.len(), h.len() as int) == p
}

/// Exact prefix test.
pub fn starts_with(h: &Vec<char>, p: &Vec<char>) -> (b: bool)
    ensures
        b == has_prefix(h@, p@),
{
    if p.len() > h.len() {
        return false;
    }
    occurs_at_exec(h, p, 0)
}

/// Exact suffix test.
pub fn ends_with(h: &Vec<char>, p: &Vec<char>) -> (b: bool)
    ensures
        b == has_suffix(h@, p@),
{
    if p.len() > h.len() {
        return false;
    }
    let b = occurs_at_exec(h, p, h.len() - p.len());
    assert(occurs_at(h@, p@, h@.len() - p@.len()) == has_suffix(h@, p@));
    b
}

/// `h` with every occurrence of `pat` replaced by `rep`, scanning left to
/// right and never rescanning replaced text; `h` itself when `pat` is empty.
pub open spec fn spec_replace_all(h: Seq<char>, pat: Seq<char>, rep: Seq<char>) -> Seq<char>
    decreases h.len(),
{
    if pat.len() == 0 {
        h
    } else {
        match spec_find(h, pat) {
            None => h,
            Some(i) => {
                proof {
                    lemma_find_from(h, pat, 0);
                }
                h.subrange(0, i) + rep + spec_replace_all(
                    h.skip(i + pat.len() as int),
                    pat,
                    rep,
                )
            },
        }
    }
}

/// Exact left-to-right replacement of every occurrence.
pub fn replace_all(h: &Vec<char>, pat: &Vec<char>, rep: &Vec<char>) -> (r: Vec<char>)
    requires
        pat@.len() > 0,
    ensures
        r@ == spec_replace_all(h@, pat@, rep@),
    decreases h@.len(),
{
    match find_sub(h, pat) {
        None => copy_range(h, 0, h.len()),
        Some(i) => {
            assert(i + pat@.len() <= h@.len());
            let hlen = h.len();
            let mut out = copy_range(h, 0, i);
            push_all(&mut out, rep);
            let rest = copy_range(h, i + pat.len(), hlen);
            assert(rest@ =~= h@.skip(i + pat@.len() as int));
            let tail = replace_all(&rest, pat, rep);
            push_all(&mut out, &tail);
            assert(out@ =~= h@.subrange(0, i as int) + rep@ + tail@);
            out
        },
    }
}

/// The number of non-overlapping occurrences of `pat` in `h`, counted left
/// to right; 0 when `pat` is empty.
pub open spec fn count_occ(h: Seq<char>, pat: Seq<char>) -> nat
    decreases h.len(),
{
    if pat.len() == 0 {
        0
    } else {
        match spec_find(h, pat) {
            None => 0,
            Some(i) => {
                proof {
                    lemma_find_from(h, pat, 0);
                }
                1 + count_occ(h.skip(i + pat.len() as int), pat)
            },
        }
    }
}

/// Exact count of non-overlapping occurrences.
pub fn count_sub(h: &Vec<char>, pat: &Vec<char>) -> (r: usize)
    requires
        pat@.len() > 0,
    ensures
        r == count_occ(h@, pat@) || (count_occ(h@, pat@) > usize::MAX && r == usize::MAX),
    decreases h@.len(),
{
    match find_sub(h, pat) {
        None => 0,
        Some(i) => {
            assert(i + pat@.len() <= h@.len());
            let hlen = h.len();
            let rest = copy_range(h, i + pat.len(), hlen);
            assert(rest@ =~= h@.skip(i + pat@.len() as int));
            let c = count_sub(&rest, pat);
            if c == usize::MAX {
                usize::MAX
            } else {
                c + 1
            }
        },
    }
}

/// When nothing was found, nothing occurs.
pub proof fn lemma_no_find_no_occurrence(h: Seq<char>, n: Seq<char>)
    requires
        spec_find(h, n) is None,
    ensures
        !contains_sub(h, n),
{
    lemma_find_from(h, n, 0);
    assert forall|i: int| !occurs_at(h, n, i) by {
        if i >= 0 {
            assert(!occurs_at(h, n, i));
        }
    }
}

/// Exact character-for-character equality.
pub fn eq_chars(a: &Vec<char>, b: &Vec<char>) -> (r: bool)
    ensures
        r == (a@ == b@),
{
    if a.len() != b.len() {
        assert(a@ != b@);
        return false;
    }
    let mut i: usize = 0;
    while i < a.len()
        invariant
            a@.len() == b@.len(),
            0 <= i <= a@.len(),
            forall|k: int| 0 <= k < i ==> a@[k] == b@[k],
        decreases a@.len() - i,
    {
        if a[i] != b[i] {
            return false;
        }
        i += 1;
    }
    assert(a@ =~= b@);
    true
}

} // verus!
