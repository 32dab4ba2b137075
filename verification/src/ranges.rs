//! Observed line ranges of a file: sorted and merged when reads accumulate.
use vstd::prelude::*;

verus! {

/// Lexicographic order on `(first, last)` pairs, the order `sort` uses for
/// tuples.
pub open spec fn range_le(a: (usize, usize), b: (usize, usize)) -> bool {
    a.0 < b.0 || (a.0 == b.0 && a.1 <= b.1)
}

/// `s` with `x` placed before its first element not below `x`.
pub open spec fn insert_sorted(s: Seq<(usize, usize)>, x: (usize, usize)) -> Seq<(usize, usize)>
    decreases s.len(),
{
    if s.len() == 0 {
        seq![x]
    } else if range_le(x, s[0]) {
        seq![x] + s
    } else {
        seq![s[0]] + insert_sorted(s.drop_first(), x)
    }
}

/// The ranges of `s` in ascending order.
pub open spec fn sort_ranges(s: Seq<(usize, usize)>) -> Seq<(usize, usize)>
    decreases s.len(),
{
    if s.len() == 0 {
        Seq::empty()
    } else {
        insert_sorted(sort_ranges(s.drop_last()), s.last())
    }
}

/// `s` is in ascending order.
pub open spec fn ranges_sorted(s: Seq<(usize, usize)>) -> bool {
    forall|i: int, j: int| 0 <= i < j < s.len() ==> range_le(#[trigger] s[i], #[trigger] s[j])
}

/// `last + 1`, saturated.
pub open spec fn sat_succ(x: usize) -> usize {
    if x == usize::MAX {
        usize::MAX
    } else {
        (x + 1) as usize
    }
}

/// Sorted ranges merged left to right: a range that starts at most one line
/// after the previous merged range ends extends it.
pub open spec fn merge_sorted_ranges(s: Seq<(usize, usize)>) -> Seq<(usize, usize)>
    decreases s.len(),
{
    if s.len() == 0 {
        Seq::empty()
    } else {
        let m = merge_sorted_ranges(s.drop_last());
        let x = s.last();
        if m.len() > 0 && x.0 <= sat_succ(m.last().1) {
            m.update(
                m.len() - 1,
                (
                    m.last().0,
                    if m.last().1 < x.1 {
                        x.1
                    } else {
                        m.last().1
                    },
                ),
            )
        } else {
            m.push(x)
        }
    }
}

/// Inserting into a sorted sequence keeps it sorted and adds exactly `x`.
pub proof fn lemma_insert_sorted(s: Seq<(usize, usize)>, x: (usize, usize))
    requires
        ranges_sorted(s),
    ensures
        ranges_sorted(insert_sorted(s, x)),
        insert_sorted(s, x).to_multiset() == s.to_multiset().insert(x),
    decreases s.len(),
{
    broadcast use vstd::seq_lib::group_to_multiset_ensures;

    if s.len() == 0 {
        assert(insert_sorted(s, x) == seq![x]);
        assert(seq![x] == Seq::<(usize, usize)>::empty().push(x));
    } else if range_le(x, s[0]) {
        let r = seq![x] + s;
        assert forall|i: int, j: int| 0 <= i < j < r.len() implies range_le(
            #[trigger] r[i],
            #[trigger] r[j],
        ) by {
            if i > 0 {
                assert(r[i] == s[i - 1] && r[j] == s[j - 1]);
            } else {
                assert(r[j] == s[j - 1]);
                if j > 1 {
                    assert(range_le(s[0], s[j - 1]));
                }
            }
        }
        assert(r == seq![x].add(s));
        vstd::seq_lib::lemma_multiset_commutative(seq![x], s);
        assert(seq![x] == Seq::<(usize, usize)>::empty().push(x));
    } else {
        let t = s.drop_first();
        assert forall|i: int, j: int| 0 <= i < j < t.len() implies range_le(
            #[trigger] t[i],
            #[trigger] t[j],
        ) by {
            assert(t[i] == s[i + 1] && t[j] == s[j + 1]);
        }
        lemma_insert_sorted(t, x);
        let it = insert_sorted(t, x);
        let r = seq![s[0]] + it;
        assert forall|j: int| 0 <= j < it.len() implies range_le(s[0], #[trigger] it[j]) by {
            assert(it.to_multiset().count(it[j]) > 0);
            assert(t.to_multiset().insert(x).count(it[j]) > 0);
            if it[j] != x {
                assert(t.to_multiset().count(it[j]) > 0);
                assert(t.contains(it[j]));
                let k = choose|k: int| 0 <= k < t.len() && t[k] == it[j];
                assert(s[k + 1] == t[k]);
            }
        }
        assert forall|i: int, j: int| 0 <= i < j < r.len() implies range_le(
            #[trigger] r[i],
            #[trigger] r[j],
        ) by {
            if i > 0 {
                assert(r[i] == it[i - 1] && r[j] == it[j - 1]);
            } else {
                assert(r[j] == it[j - 1]);
            }
        }
        vstd::seq_lib::lemma_multiset_commutative(seq![s[0]], it);
        vstd::seq_lib::lemma_multiset_commutative(seq![s[0]], t);
        assert(seq![s[0]] + t == s);
    }
}

/// [`sort_ranges`] yields the ranges of `s` in ascending order.
pub proof fn lemma_sort_ranges(s: Seq<(usize, usize)>)
    ensures
        ranges_sorted(sort_ranges(s)),
        sort_ranges(s).to_multiset() == s.to_multiset(),
    decreases s.len(),
{
    broadcast use vstd::seq_lib::group_to_multiset_ensures;

    if s.len() > 0 {
        lemma_sort_ranges(s.drop_last());
        lemma_insert_sorted(sort_ranges(s.drop_last()), s.last());
        assert(s.drop_last().push(s.last()) == s);
    }
}

/// [`insert_sorted`] places `x` at the first position whose element is not
/// below it.
proof fn lemma_insert_sorted_at(s: Seq<(usize, usize)>, x: (usize, usize), p: int)
    requires
        0 <= p <= s.len(),
        forall|j: int| 0 <= j < p ==> !range_le(x, #[trigger] s[j]),
        p == s.len() || range_le(x, s[p]),
    ensures
        insert_sorted(s, x) == s.take(p) + seq![x] + s.skip(p),
    decreases p,
{
    if p == 0 {
        assert(s.take(0) + seq![x] + s.skip(0) == seq![x] + s);
        if s.len() == 0 {
            assert(seq![x] + s == seq![x]);
        }
    } else {
        let t = s.drop_first();
        assert forall|j: int| 0 <= j < p - 1 implies !range_le(x, #[trigger] t[j]) by {
            assert(t[j] == s[j + 1]);
        }
        if p < s.len() {
            assert(t[p - 1] == s[p]);
        }
        lemma_insert_sorted_at(t, x, p - 1);
        assert(s.take(p) + seq![x] + s.skip(p) == seq![s[0]] + (t.take(p - 1) + seq![x] + t.skip(
            p - 1,
        )));
    }
}

fn range_le_exec(a: (usize, usize), b: (usize, usize)) -> (r: bool)
    ensures
        r == range_le(a, b),
{
    a.0 < b.0 || (a.0 == b.0 && a.1 <= b.1)
}

/// The ranges of `v` in ascending order.
pub fn sort_ranges_exec(v: &Vec<(usize, usize)>) -> (r: Vec<(usize, usize)>)
    ensures
        r@ == sort_ranges(v@),
{
    let mut out: Vec<(usize, usize)> = Vec::new();
    let mut i: usize = 0;
    while i < v.len()
        invariant
            i <= v.len(),
            out@ == sort_ranges(v@.take(i as int)),
        decreases v.len() - i,
    {
        let x = v[i];
        let mut p: usize = 0;
        while p < out.len() && !range_le_exec(x, out[p])
            invariant
                p <= out.len(),
                forall|j: int| 0 <= j < p ==> !range_le(x, #[trigger] out@[j]),
            decreases out.len() - p,
        {
            p += 1;
        }
        proof {
            lemma_insert_sorted_at(out@, x, p as int);
            assert(v@.take(i + 1).drop_last() == v@.take(i as int));
        }
        out.insert(p, x);
        assert(out@ == sort_ranges(v@.take(i + 1)));
        i += 1;
    }
    assert(v@.take(v.len() as int) == v@);
    out
}

/// [`merge_sorted_ranges`] of `v`.
pub fn merge_ranges_exec(v: &Vec<(usize, usize)>) -> (r: Vec<(usize, usize)>)
    ensures
        r@ == merge_sorted_ranges(v@),
{
    let mut out: Vec<(usize, usize)> = Vec::new();
    let mut i: usize = 0;
    while i < v.len()
        invariant
            i <= v.len(),
            out@ == merge_sorted_ranges(v@.take(i as int)),
        decreases v.len() - i,
    {
        let (start, end) = v[i];
        proof {
            assert(v@.take(i + 1).drop_last() == v@.take(i as int));
            assert(v@.take(i + 1).last() == v@[i as int]);
        }
        let n = out.len();
        if n > 0 && start <= out[n - 1].1.saturating_add(1) {
            let (first, last) = out[n - 1];
            let new_last = if last < end {
                end
            } else {
                last
            };
            out.set(n - 1, (first, new_last));
        } else {
            out.push((start, end));
        }
        i += 1;
    }
    assert(v@.take(v.len() as int) == v@);
    out
}

} // verus!
