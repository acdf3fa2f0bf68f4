//! Finding a pattern in a text, character by character.

use vstd::prelude::*;

verus! {

/// `pat` stands in `text` at the character position `k`.
pub open spec fn matches_at(text: Seq<char>, pat: Seq<char>, k: int) -> bool {
    &&& 0 <= k
    &&& k + pat.len() <= text.len()
    &&& text.subrange(k, k + pat.len()) == pat
}

/// `k` is the first position at which `pat` stands in `text`.
pub open spec fn is_first_match(text: Seq<char>, pat: Seq<char>, k: int) -> bool {
    &&& matches_at(text, pat, k)
    &&& forall|j: int| 0 <= j < k ==> !matches_at(text, pat, j)
}

/// `pat` stands nowhere in `text`.
pub open spec fn no_match(text: Seq<char>, pat: Seq<char>) -> bool {
    forall|j: int| !matches_at(text, pat, j)
}

/// The number of occurrences of `pat` in `text` that do not overlap, counted
/// from the left. The empty pattern occurs before every character and at the
/// end.
pub open spec fn count_matches(text: Seq<char>, pat: Seq<char>) -> nat
    decreases text.len(),
{
    if pat.len() == 0 {
        text.len() + 1
    } else if text.len() < pat.len() {
        0
    } else if text.take(pat.len() as int) == pat {
        1 + count_matches(text.skip(pat.len() as int), pat)
    } else {
        count_matches(text.drop_first(), pat)
    }
}

/// Whether `pat` stands in `text` at position `k`.
pub fn matches_here(text: &Vec<char>, pat: &Vec<char>, k: usize) -> (res: bool)
    ensures
        res == matches_at(text@, pat@, k as int),
{
    let n = text.len();
    let m = pat.len();
    if k > n || m > n - k {
        return false;
    }
    let mut i: usize = 0;
    while i < m
        invariant
            i <= m,
            m == pat.len(),
            n == text.len(),
            k + m <= n,
            text@.subrange(k as int, k + i) == pat@.take(i as int),
        decreases m - i,
    {
        if text[k + i] != pat[i] {
            proof {
                assert(text@.subrange(k as int, k + m)[i as int] == text@[k + i]);
            }
            return false;
        }
        proof {
            assert(text@.subrange(k as int, k + i + 1) =~= text@.subrange(k as int, k + i).push(
                text@[k + i],
            ));
            assert(pat@.take(i + 1) =~= pat@.take(i as int).push(pat@[i as int]));
        }
        i = i + 1;
    }
    proof {
        assert(pat@.take(m as int) =~= pat@);
    }
    true
}

/// The first position at which `pat` stands in `text`, if there is one.
pub fn find_first(text: &Vec<char>, pat: &Vec<char>) -> (res: Option<usize>)
    ensures
        match res {
            Some(k) => is_first_match(text@, pat@, k as int),
            None => no_match(text@, pat@),
        },
{
    let n = text.len();
    let m = pat.len();
    if m > n {
        return None;
    }
    let last = n - m;
    let mut k: usize = 0;
    while k < last
        invariant
            m <= n,
            n == text.len(),
            m == pat.len(),
            last == n - m,
            k <= last,
            forall|j: int| 0 <= j < k ==> !matches_at(text@, pat@, j),
        decreases last - k,
    {
        if matches_here(text, pat, k) {
            return Some(k);
        }
        k = k + 1;
    }
    if matches_here(text, pat, last) {
        Some(last)
    } else {
        None
    }
}

/// The number of occurrences of `pat` in `text` that do not overlap, where it
/// fits in an `i32`.
pub fn count_occurrences(text: &Vec<char>, pat: &Vec<char>) -> (res: Option<i32>)
    ensures
        res == (if count_matches(text@, pat@) <= i32::MAX {
            Some(count_matches(text@, pat@) as i32)
        } else {
            None
        }),
{
    let n = text.len();
    let m = pat.len();
    if m == 0 {
        if n >= 0x7FFF_FFFF {
            return None;
        }
        return Some((n + 1) as i32);
    }
    let mut count: usize = 0;
    let mut i: usize = 0;
    proof {
        assert(text@.skip(0) =~= text@);
    }
    while i < n && m <= n - i
        invariant
            i <= n,
            n == text.len(),
            m == pat.len(),
            m > 0,
            count <= i,
            count + count_matches(text@.skip(i as int), pat@) == count_matches(text@, pat@),
        decreases n - i,
    {
        let ghost rest = text@.skip(i as int);
        if matches_here(text, pat, i) {
            proof {
                assert(rest.take(m as int) =~= text@.subrange(i as int, i + m));
                assert(rest.skip(m as int) =~= text@.skip(i + m));
            }
            count = count + 1;
            i = i + m;
        } else {
            proof {
                assert(rest.take(m as int) =~= text@.subrange(i as int, i + m));
                assert(rest.drop_first() =~= text@.skip(i + 1));
            }
            i = i + 1;
        }
    }
    if count > 0x7FFF_FFFF {
        return None;
    }
    Some(count as i32)
}

} // verus!
