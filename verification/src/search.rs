//! Substring search over character sequences: non-overlapping matches scanned
//! left to right, as `str::matches`, `str::replacen` and `str::replace` do.
use vstd::prelude::*;

verus! {

/// `p` occurs in `t` starting at index `i`.
pub open spec fn occurs_at(t: Seq<char>, p: Seq<char>, i: int) -> bool {
    0 <= i && i + p.len() <= t.len() && t.subrange(i, i + p.len()) == p
}

/// The first index at or after `from` where `p` occurs in `t`.
pub open spec fn first_match_from(t: Seq<char>, p: Seq<char>, from: int) -> Option<int>
    decreases t.len() - from,
{
    if from < 0 || from + p.len() > t.len() {
        None
    } else if occurs_at(t, p, from) {
        Some(from)
    } else if from >= t.len() {
        None
    } else {
        first_match_from(t, p, from + 1)
    }
}

/// Start indices of the non-overlapping occurrences of a non-empty `p` in `t`,
/// scanning from `from`.
pub open spec fn match_starts(t: Seq<char>, p: Seq<char>, from: int) -> Seq<int>
    decreases t.len() - from,
{
    if p.len() == 0 || from < 0 || from > t.len() {
        Seq::empty()
    } else {
        match first_match_from(t, p, from) {
            None => Seq::empty(),
            Some(i) => if i >= from && i + p.len() <= t.len() {
                seq![i] + match_starts(t, p, i + p.len())
            } else {
                Seq::empty()
            },
        }
    }
}

/// Number of non-overlapping matches of `p` in `t`; an empty pattern matches
/// at every position, once more than there are characters.
pub open spec fn match_count(t: Seq<char>, p: Seq<char>) -> nat {
    if p.len() == 0 {
        t.len() + 1
    } else {
        match_starts(t, p, 0).len()
    }
}

/// `t` with its first occurrence of `p` replaced by `r` (unchanged when `p`
/// does not occur).
pub open spec fn replace_first(t: Seq<char>, p: Seq<char>, r: Seq<char>) -> Seq<char> {
    match first_match_from(t, p, 0) {
        None => t,
        Some(i) => t.take(i) + r + t.skip(i + p.len()),
    }
}

/// `t` from `from` on, with every non-overlapping occurrence of a non-empty
/// `p` replaced by `r`.
pub open spec fn replace_all_from(t: Seq<char>, p: Seq<char>, r: Seq<char>, from: int) -> Seq<char>
    decreases t.len() - from,
{
    if p.len() == 0 || from < 0 || from > t.len() {
        t.skip(from)
    } else {
        match first_match_from(t, p, from) {
            None => t.skip(from),
            Some(i) => if i >= from && i + p.len() <= t.len() {
                t.subrange(from, i) + r + replace_all_from(t, p, r, i + p.len())
            } else {
                t.skip(from)
            },
        }
    }
}

/// A match found from `from` lies in range and no earlier position matches.
pub proof fn lemma_first_match_from(t: Seq<char>, p: Seq<char>, from: int)
    requires
        0 <= from,
    ensures
        match first_match_from(t, p, from) {
            None => forall|j: int| from <= j ==> !occurs_at(t, p, j),
            Some(i) => from <= i && occurs_at(t, p, i) && forall|j: int|
                from <= j < i ==> !occurs_at(t, p, j),
        },
    decreases t.len() - from,
{
    if from + p.len() <= t.len() && !occurs_at(t, p, from) && from < t.len() {
        lemma_first_match_from(t, p, from + 1);
    } else if from + p.len() <= t.len() && !occurs_at(t, p, from) {
        assert(p.len() == 0);
        assert(t.subrange(from, from + p.len()) =~= p);
    }
}

/// Skipping positions that do not match does not change the first match.
pub proof fn lemma_first_match_skip(t: Seq<char>, p: Seq<char>, from: int, i: int)
    requires
        0 <= from <= i,
        forall|j: int| from <= j < i ==> !occurs_at(t, p, j),
    ensures
        first_match_from(t, p, from) == first_match_from(t, p, i),
    decreases i - from,
{
    if from < i {
        if from + p.len() <= t.len() {
            assert(!occurs_at(t, p, from));
        } else {
            lemma_first_match_from(t, p, i);
        }
        lemma_first_match_skip(t, p, from + 1, i);
    }
}

/// Whether `p` occurs in `t` at index `i`.
pub fn occurs_at_exec(t: &Vec<char>, p: &Vec<char>, i: usize) -> (r: bool)
    ensures
        r == occurs_at(t@, p@, i as int),
{
    if i > t.len() || p.len() > t.len() - i {
        return false;
    }
    let mut k: usize = 0;
    while k < p.len()
        invariant
            i + p.len() <= t.len(),
            k <= p.len(),
            forall|j: int| 0 <= j < k ==> t@[i + j] == p@[j],
        decreases p.len() - k,
    {
        if t[i + k] != p[k] {
            assert(t@.subrange(i as int, i + p.len())[k as int] != p@[k as int]);
            return false;
        }
        k += 1;
    }
    assert(t@.subrange(i as int, i + p.len()) =~= p@);
    true
}

/// The first index at or after `from` where `p` occurs in `t`.
pub fn find_from(t: &Vec<char>, p: &Vec<char>, from: usize) -> (r: Option<usize>)
    ensures
        match r {
            None => first_match_from(t@, p@, from as int) is None,
            Some(i) => first_match_from(t@, p@, from as int) == Some(i as int),
        },
{
    if from > t.len() || p.len() > t.len() - from {
        return None;
    }
    if p.len() == 0 {
        assert(t@.subrange(from as int, from as int) =~= p@);
        return Some(from);
    }
    let mut i = from;
    while i <= t.len() - p.len()
        invariant
            from <= i,
            0 < p.len() <= t.len(),
            forall|j: int| from <= j < i ==> !occurs_at(t@, p@, j),
        decreases t.len() - i,
    {
        if occurs_at_exec(t, p, i) {
            proof {
                lemma_first_match_skip(t@, p@, from as int, i as int);
            }
            return Some(i);
        }
        i += 1;
    }
    proof {
        lemma_first_match_skip(t@, p@, from as int, i as int);
    }
    None
}

/// Number of non-overlapping matches of `p` in `t`.
pub fn count_matches(t: &Vec<char>, p: &Vec<char>) -> (r: usize)
    requires
        t@.len() < usize::MAX,
    ensures
        r == match_count(t@, p@),
{
    if p.len() == 0 {
        return t.len() + 1;
    }
    let mut count: usize = 0;
    let mut pos: usize = 0;
    loop
        invariant
            p.len() > 0,
            pos <= t.len(),
            count <= pos,
            count + match_starts(t@, p@, pos as int).len() == match_starts(t@, p@, 0).len(),
        decreases t.len() - pos,
    {
        match find_from(t, p, pos) {
            None => {
                return count;
            },
            Some(i) => {
                proof {
                    lemma_first_match_from(t@, p@, pos as int);
                }
                count += 1;
                pos = i + p.len();
            },
        }
    }
}

/// `t` with its first occurrence of `p` replaced by `r`.
pub fn replace_first_exec(t: &Vec<char>, p: &Vec<char>, r: &Vec<char>) -> (out: Vec<char>)
    ensures
        out@ == replace_first(t@, p@, r@),
{
    match find_from(t, p, 0) {
        None => t.clone(),
        Some(i) => {
            proof {
                lemma_first_match_from(t@, p@, 0);
            }
            let mut out: Vec<char> = Vec::new();
            let mut k: usize = 0;
            while k < i
                invariant
                    i + p.len() <= t.len(),
                    k <= i,
                    out@ == t@.take(k as int),
                decreases i - k,
            {
                out.push(t[k]);
                assert(t@.take(k + 1) == t@.take(k as int).push(t@[k as int]));
                k += 1;
            }
            let mut k: usize = 0;
            while k < r.len()
                invariant
                    i + p.len() <= t.len(),
                    k <= r.len(),
                    out@ == t@.take(i as int) + r@.take(k as int),
                decreases r.len() - k,
            {
                out.push(r[k]);
                assert(r@.take(k + 1) == r@.take(k as int).push(r@[k as int]));
                k += 1;
            }
            let mut k: usize = i + p.len();
            while k < t.len()
                invariant
                    i + p.len() <= k <= t.len(),
                    out@ == t@.take(i as int) + r@ + t@.subrange(i + p.len(), k as int),
                decreases t.len() - k,
            {
                out.push(t[k]);
                assert(t@.subrange(i + p.len(), k + 1) == t@.subrange(i + p.len(), k as int).push(
                    t@[k as int],
                ));
                k += 1;
            }
            assert(r@.take(r.len() as int) == r@);
            assert(t@.subrange(i + p.len(), t.len() as int) == t@.skip(i + p.len()));
            out
        },
    }
}

/// `t` with every non-overlapping occurrence of a non-empty `p` replaced by `r`.
pub fn replace_all_exec(t: &Vec<char>, p: &Vec<char>, r: &Vec<char>) -> (out: Vec<char>)
    requires
        p@.len() > 0,
    ensures
        out@ == replace_all_from(t@, p@, r@, 0),
{
    let mut out: Vec<char> = Vec::new();
    let mut pos: usize = 0;
    loop
        invariant
            p.len() > 0,
            pos <= t.len(),
            out@ + replace_all_from(t@, p@, r@, pos as int) == replace_all_from(t@, p@, r@, 0),
        decreases t.len() - pos,
    {
        match find_from(t, p, pos) {
            None => {
                let ghost before = out@;
                let mut k = pos;
                while k < t.len()
                    invariant
                        pos <= k <= t.len(),
                        out@ == before + t@.subrange(pos as int, k as int),
                    decreases t.len() - k,
                {
                    out.push(t[k]);
                    assert(t@.subrange(pos as int, k + 1) == t@.subrange(pos as int, k as int).push(
                        t@[k as int],
                    ));
                    k += 1;
                }
                assert(t@.subrange(pos as int, t.len() as int) == t@.skip(pos as int));
                return out;
            },
            Some(i) => {
                proof {
                    lemma_first_match_from(t@, p@, pos as int);
                }
                let ghost before = out@;
                let mut k = pos;
                while k < i
                    invariant
                        pos <= k <= i,
                        i + p.len() <= t.len(),
                        out@ == before + t@.subrange(pos as int, k as int),
                    decreases i - k,
                {
                    out.push(t[k]);
                    assert(t@.subrange(pos as int, k + 1) == t@.subrange(pos as int, k as int).push(
                        t@[k as int],
                    ));
                    k += 1;
                }
                let mut k: usize = 0;
                while k < r.len()
                    invariant
                        k <= r.len(),
                        out@ == before + t@.subrange(pos as int, i as int) + r@.take(k as int),
                    decreases r.len() - k,
                {
                    out.push(r[k]);
                    assert(r@.take(k + 1) == r@.take(k as int).push(r@[k as int]));
                    k += 1;
                }
                assert(r@.take(r.len() as int) == r@);
                pos = i + p.len();
            },
        }
    }
}

} // verus!
