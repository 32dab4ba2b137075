//! The order in which a call locks the files it mutates. Every call locks
//! its distinct paths in one global order, so two calls never wait on each
//! other's locks in a cycle.
use vstd::prelude::*;
use crate::claude_history::strings_view;
use crate::text::{chars_of, string_from_chars};
use crate::text_editor::{insert_entry, name_lt, named_view, sort_by_name, sort_entries};

verus! {

/// No name sorts before itself.
pub proof fn lemma_name_lt_irreflexive(a: Seq<char>)
    ensures
        !name_lt(a, a),
    decreases a.len(),
{
    if a.len() > 0 {
        lemma_name_lt_irreflexive(a.drop_first());
    }
}

/// The name order is transitive.
pub proof fn lemma_name_lt_transitive(a: Seq<char>, b: Seq<char>, c: Seq<char>)
    requires
        name_lt(a, b),
        name_lt(b, c),
    ensures
        name_lt(a, c),
    decreases a.len(),
{
    if a.len() > 0 && b.len() > 0 && c.len() > 0 && a[0] == b[0] && b[0] == c[0] {
        lemma_name_lt_transitive(a.drop_first(), b.drop_first(), c.drop_first());
    }
}

/// Of two different names, one sorts before the other.
pub proof fn lemma_name_lt_total(a: Seq<char>, b: Seq<char>)
    ensures
        a == b || name_lt(a, b) || name_lt(b, a),
    decreases a.len(),
{
    if a.len() > 0 && b.len() > 0 && a[0] == b[0] {
        lemma_name_lt_total(a.drop_first(), b.drop_first());
        if a.drop_first() == b.drop_first() {
            assert(a =~= seq![a[0]] + a.drop_first());
            assert(b =~= seq![b[0]] + b.drop_first());
        }
    } else if a.len() > 0 && b.len() > 0 {
        assert(a[0] != b[0]);
    } else if a.len() == 0 && b.len() == 0 {
        assert(a =~= b);
    }
}

/// No entry sorts before an earlier one.
pub open spec fn name_sorted<T>(s: Seq<(Seq<char>, T)>) -> bool {
    forall|i: int, j: int| 0 <= i < j < s.len() ==> !name_lt(#[trigger] s[j].0, #[trigger] s[i].0)
}

/// Inserting keeps the entries and adds one.
proof fn lemma_insert_entry_elements<T>(s: Seq<(Seq<char>, T)>, x: (Seq<char>, T))
    ensures
        insert_entry(s, x).len() == s.len() + 1,
        forall|y: (Seq<char>, T)| #[trigger] insert_entry(s, x).contains(y) <==> (s.contains(y) || y == x),
    decreases s.len(),
{
    if s.len() > 0 && !name_lt(x.0, s[0].0) {
        lemma_insert_entry_elements(s.drop_first(), x);
        let r = insert_entry(s.drop_first(), x);
        assert forall|y: (Seq<char>, T)| #[trigger] insert_entry(s, x).contains(y) <==> (s.contains(y)
            || y == x) by {
            assert(insert_entry(s, x) == seq![s[0]] + r);
            if insert_entry(s, x).contains(y) {
                let k = choose|k: int| 0 <= k < insert_entry(s, x).len() && insert_entry(s, x)[k] == y;
                if k > 0 {
                    assert(r[k - 1] == y);
                    assert(r.contains(y));
                    if s.drop_first().contains(y) {
                        let m = choose|m: int| 0 <= m < s.drop_first().len() && s.drop_first()[m] == y;
                        assert(s[m + 1] == y);
                    }
                }
            }
            if s.contains(y) {
                let k = choose|k: int| 0 <= k < s.len() && s[k] == y;
                if k > 0 {
                    assert(s.drop_first()[k - 1] == y);
                    assert(r.contains(y));
                    let m = choose|m: int| 0 <= m < r.len() && r[m] == y;
                    assert(insert_entry(s, x)[m + 1] == y);
                } else {
                    assert(insert_entry(s, x)[0] == y);
                }
            }
            if y == x {
                assert(r.contains(x));
                let m = choose|m: int| 0 <= m < r.len() && r[m] == x;
                assert(insert_entry(s, x)[m + 1] == x);
            }
        }
    } else if s.len() > 0 {
        assert(insert_entry(s, x) == seq![x] + s);
        assert forall|y: (Seq<char>, T)| #[trigger] insert_entry(s, x).contains(y) <==> (s.contains(y)
            || y == x) by {
            if insert_entry(s, x).contains(y) {
                let k = choose|k: int| 0 <= k < insert_entry(s, x).len() && insert_entry(s, x)[k] == y;
                if k > 0 {
                    assert(s[k - 1] == y);
                }
            }
            if s.contains(y) {
                let k = choose|k: int| 0 <= k < s.len() && s[k] == y;
                assert(insert_entry(s, x)[k + 1] == y);
            }
            if y == x {
                assert(insert_entry(s, x)[0] == x);
            }
        }
    } else {
        assert(insert_entry(s, x) == seq![x]);
        assert forall|y: (Seq<char>, T)| #[trigger] insert_entry(s, x).contains(y) <==> (s.contains(y)
            || y == x) by {
            if y == x {
                assert(insert_entry(s, x)[0] == x);
            }
        }
    }
}

/// Inserting into sorted entries keeps them sorted.
proof fn lemma_insert_entry_sorted<T>(s: Seq<(Seq<char>, T)>, x: (Seq<char>, T))
    requires
        name_sorted(s),
    ensures
        name_sorted(insert_entry(s, x)),
    decreases s.len(),
{
    let r = insert_entry(s, x);
    if s.len() == 0 {
        assert(r == seq![x]);
    } else if name_lt(x.0, s[0].0) {
        assert(r == seq![x] + s);
        assert forall|i: int, j: int| 0 <= i < j < r.len() implies !name_lt(#[trigger] r[j].0, #[trigger] r[i].0) by {
            if i == 0 {
                assert(r[j] == s[j - 1]);
                if name_lt(s[j - 1].0, x.0) {
                    lemma_name_lt_transitive(s[j - 1].0, x.0, s[0].0);
                    if j - 1 == 0 {
                        lemma_name_lt_irreflexive(s[0].0);
                    }
                }
            } else {
                assert(r[i] == s[i - 1] && r[j] == s[j - 1]);
            }
        }
    } else {
        let t = s.drop_first();
        assert(name_sorted(t)) by {
            assert forall|i: int, j: int| 0 <= i < j < t.len() implies !name_lt(#[trigger] t[j].0, #[trigger] t[i].0) by {
                assert(t[i] == s[i + 1] && t[j] == s[j + 1]);
            }
        }
        lemma_insert_entry_sorted(t, x);
        lemma_insert_entry_elements(t, x);
        let rt = insert_entry(t, x);
        assert(r == seq![s[0]] + rt);
        assert forall|i: int, j: int| 0 <= i < j < r.len() implies !name_lt(#[trigger] r[j].0, #[trigger] r[i].0) by {
            if i == 0 {
                assert(r[j] == rt[j - 1]);
                assert(rt.contains(rt[j - 1]));
                if t.contains(rt[j - 1]) {
                    let m = choose|m: int| 0 <= m < t.len() && t[m] == rt[j - 1];
                    assert(t[m] == s[m + 1]);
                }
            } else {
                assert(r[i] == rt[i - 1] && r[j] == rt[j - 1]);
            }
        }
    }
}

/// Sorting yields sorted entries holding exactly the entries given.
pub proof fn lemma_sort_entries<T>(s: Seq<(Seq<char>, T)>)
    ensures
        name_sorted(sort_entries(s)),
        sort_entries(s).len() == s.len(),
        forall|y: (Seq<char>, T)| #[trigger] sort_entries(s).contains(y) <==> s.contains(y),
    decreases s.len(),
{
    if s.len() > 0 {
        let d = s.drop_last();
        lemma_sort_entries(d);
        lemma_insert_entry_sorted(sort_entries(d), s.last());
        lemma_insert_entry_elements(sort_entries(d), s.last());
        assert forall|y: (Seq<char>, T)| #[trigger] sort_entries(s).contains(y) <==> s.contains(y) by {
            if d.contains(y) {
                let k = choose|k: int| 0 <= k < d.len() && d[k] == y;
                assert(s[k] == y);
            }
            if s.contains(y) {
                let k = choose|k: int| 0 <= k < s.len() && s[k] == y;
                if k < s.len() - 1 {
                    assert(d[k] == y);
                }
            }
        }
    } else {
        assert(sort_entries(s) == Seq::<(Seq<char>, T)>::empty());
    }
}

/// Each name sorts strictly before every later one.
pub open spec fn strictly_sorted(s: Seq<Seq<char>>) -> bool {
    forall|i: int, j: int| 0 <= i < j < s.len() ==> name_lt(#[trigger] s[i], #[trigger] s[j])
}

/// The order in which a call locks `paths`: each distinct path once, in
/// name order.
pub fn lock_order(paths: &Vec<String>) -> (r: Vec<String>)
    ensures
        strictly_sorted(strings_view(r@)),
        forall|p: Seq<char>| #[trigger] strings_view(r@).contains(p) <==> strings_view(paths@).contains(p),
{
    let ghost pv = strings_view(paths@);
    let mut named: Vec<(Vec<char>, ())> = Vec::new();
    let mut i: usize = 0;
    while i < paths.len()
        invariant
            i <= paths@.len(),
            pv == strings_view(paths@),
            named_view(named@) == pv.take(i as int).map_values(|p: Seq<char>| (p, ())),
        decreases paths.len() - i,
    {
        let x = (chars_of(paths[i].as_str()), ());
        let ghost prev = named@;
        named.push(x);
        proof {
            assert(named_view(prev.push(x)) =~= named_view(prev).push((x.0@, ())));
            assert(pv.take(i + 1).map_values(|p: Seq<char>| (p, ())) =~= pv.take(i as int).map_values(
                |p: Seq<char>| (p, ()),
            ).push((pv[i as int], ())));
        }
        i += 1;
    }
    assert(pv.take(paths.len() as int) == pv);
    let ghost input = pv.map_values(|p: Seq<char>| (p, ()));
    let sorted = sort_by_name(named);
    let ghost sv = named_view(sorted@);
    proof {
        lemma_sort_entries(input);
    }
    let mut out: Vec<String> = Vec::new();
    let mut last: Vec<char> = Vec::new();
    let mut k: usize = 0;
    while k < sorted.len()
        invariant
            k <= sorted@.len(),
            sv == named_view(sorted@),
            name_sorted(sv),
            strictly_sorted(strings_view(out@)),
            k > 0 ==> out@.len() > 0 && strings_view(out@).last() == last@ && last@ == sv[k - 1].0,
            k == 0 ==> out@.len() == 0,
            forall|p: Seq<char>| #[trigger] strings_view(out@).contains(p) <==> exists|m: int|
                0 <= m < k && sv[m].0 == p,
        decreases sorted.len() - k,
    {
        let name = &sorted[k].0;
        let ghost ov = strings_view(out@);
        let same = k > 0 && vec_char_eq(name, &last);
        if !same {
            let s = string_from_chars(name.as_slice());
            let ghost prev = out@;
            out.push(s);
            proof {
                assert(strings_view(prev.push(s)) =~= ov.push(s@));
                if k > 0 {
                    assert(!name_lt(sv[k as int].0, sv[k - 1].0));
                    lemma_name_lt_total(sv[k as int].0, sv[k - 1].0);
                    assert(name_lt(last@, s@));
                    assert forall|a: int, b: int| 0 <= a < b < strings_view(out@).len() implies name_lt(
                        #[trigger] strings_view(out@)[a],
                        #[trigger] strings_view(out@)[b],
                    ) by {
                        if b == strings_view(out@).len() - 1 && a < b {
                            if a < ov.len() - 1 {
                                lemma_name_lt_transitive(ov[a], ov.last(), s@);
                            }
                        }
                    }
                }
                assert forall|p: Seq<char>| #[trigger] strings_view(out@).contains(p) <==> exists|m: int|
                    0 <= m < k + 1 && sv[m].0 == p by {
                    if strings_view(out@).contains(p) {
                        let q = choose|q: int| 0 <= q < strings_view(out@).len() && strings_view(out@)[q] == p;
                        if q < ov.len() {
                            assert(ov[q] == p);
                            assert(ov.contains(p));
                            let mm = choose|mm: int| 0 <= mm < k && sv[mm].0 == p;
                            assert(0 <= mm < k + 1 && sv[mm].0 == p);
                        } else {
                            assert(p == s@);
                            assert(sv[k as int].0 == p);
                        }
                    }
                    if exists|m: int| 0 <= m < k + 1 && sv[m].0 == p {
                        let m = choose|m: int| 0 <= m < k + 1 && sv[m].0 == p;
                        if m < k {
                            assert(exists|mm: int| 0 <= mm < k && sv[mm].0 == p);
                            assert(ov.contains(p));
                            let q = choose|q: int| 0 <= q < ov.len() && ov[q] == p;
                            assert(strings_view(out@)[q] == p);
                        } else {
                            assert(strings_view(out@)[ov.len() as int] == p);
                        }
                    }
                }
            }
            last = name.clone();
        } else {
            proof {
                assert(name@ == last@);
                assert forall|p: Seq<char>| #[trigger] strings_view(out@).contains(p) <==> exists|m: int|
                    0 <= m < k + 1 && sv[m].0 == p by {
                    if exists|m: int| 0 <= m < k + 1 && sv[m].0 == p {
                        let m = choose|m: int| 0 <= m < k + 1 && sv[m].0 == p;
                        if m == k {
                            assert(sv[k as int].0 == name@);
                            assert(ov[ov.len() - 1] == p);
                            assert(ov.contains(p));
                        } else {
                            assert(exists|mm: int| 0 <= mm < k && sv[mm].0 == p);
                        }
                    }
                    if strings_view(out@).contains(p) {
                        assert(exists|mm: int| 0 <= mm < k && sv[mm].0 == p);
                        let mm = choose|mm: int| 0 <= mm < k && sv[mm].0 == p;
                        assert(0 <= mm < k + 1 && sv[mm].0 == p);
                    }
                }
            }
        }
        k += 1;
    }
    proof {
        assert forall|p: Seq<char>| #[trigger] strings_view(out@).contains(p) <==> pv.contains(p) by {
            if strings_view(out@).contains(p) {
                let m = choose|m: int| 0 <= m < sorted@.len() && sv[m].0 == p;
                assert(sv.contains(sv[m]));
                assert(input.contains(sv[m]));
                let q = choose|q: int| 0 <= q < input.len() && input[q] == sv[m];
                assert(pv[q] == p);
            }
            if pv.contains(p) {
                let q = choose|q: int| 0 <= q < pv.len() && pv[q] == p;
                assert(input[q] == (p, ()));
                assert(input.contains((p, ())));
                assert(sv.contains((p, ())));
                let m = choose|m: int| 0 <= m < sv.len() && sv[m] == (p, ());
                assert(sv[m].0 == p);
            }
        }
    }
    out
}

fn vec_char_eq(a: &Vec<char>, b: &Vec<char>) -> (r: bool)
    ensures
        r == (a@ == b@),
{
    if a.len() != b.len() {
        return false;
    }
    let mut i: usize = 0;
    while i < a.len()
        invariant
            i <= a@.len(),
            a@.len() == b@.len(),
            forall|j: int| 0 <= j < i ==> a@[j] == b@[j],
        decreases a.len() - i,
    {
        if a[i] != b[i] {
            return false;
        }
        i += 1;
    }
    assert(a@ =~= b@);
    true
}


/// Any two calls take the locks they share in the same order: a path
/// locked before another by one call is locked before it by every call.
/// So no two calls can wait on each other's locks.
pub proof fn law_shared_locks_taken_in_one_order(
    first: Seq<Seq<char>>,
    second: Seq<Seq<char>>,
    i: int,
    j: int,
    k: int,
    l: int,
)
    requires
        strictly_sorted(first),
        strictly_sorted(second),
        0 <= i < j < first.len(),
        0 <= k < second.len(),
        0 <= l < second.len(),
        second[k] == first[i],
        second[l] == first[j],
    ensures
        k < l,
{
    if l <= k {
        if l == k {
            lemma_name_lt_irreflexive(first[i]);
        } else {
            lemma_name_lt_transitive(first[i], first[j], first[i]);
            lemma_name_lt_irreflexive(first[i]);
        }
    }
}

} // verus!
