//! Sorted listings of the counters and the table rows built from them.

use vstd::prelude::*;

use crate::maps::{EventCounts, LogonCounts, event_counts, logon_counts};
use crate::order::{
    distinct_keys, key_less, key_lt, keyed_view, lemma_key_irreflexive, lemma_key_total,
    lemma_key_transitive, lemma_listing_len, lemma_map_listing_unique, lists_map, strict_order,
    strictly_sorted,
};

verus! {

broadcast use vstd::seq_lib::group_to_multiset_ensures;

/// Frequency order: the larger count first, equal counts by event ID.
pub open spec fn count_before(x: (Seq<char>, usize), y: (Seq<char>, usize)) -> bool {
    x.1 > y.1 || (x.1 == y.1 && key_less(x.0, y.0))
}

/// The frequency order as a relation.
pub open spec fn count_order() -> spec_fn((Seq<char>, usize), (Seq<char>, usize)) -> bool {
    |x: (Seq<char>, usize), y: (Seq<char>, usize)| count_before(x, y)
}

/// The entries of `m` in frequency order.
pub open spec fn sorted_counts(m: Map<Seq<char>, usize>) -> Seq<(Seq<char>, usize)> {
    choose|s: Seq<(Seq<char>, usize)>| strictly_sorted(s, count_order()) && lists_map(s, m)
}

/// The frequency order is a strict order.
pub proof fn lemma_count_order_strict()
    ensures
        strict_order(count_order()),
{
    assert forall|x: (Seq<char>, usize)| !#[trigger] count_order()(x, x) by {
        lemma_key_irreflexive(x.0);
    }
    assert forall|x: (Seq<char>, usize), y: (Seq<char>, usize), z: (Seq<char>, usize)|
        #[trigger] count_order()(x, y) && #[trigger] count_order()(y, z) implies count_order()(
        x,
        z,
    ) by {
        if x.1 == y.1 && y.1 == z.1 {
            lemma_key_transitive(x.0, y.0, z.0);
        }
    }
}

/// Whether entry `a` is listed before entry `b` in frequency order.
fn count_precedes(a: &(String, usize), b: &(String, usize)) -> (r: bool)
    ensures
        r == count_before((a.0@, a.1), (b.0@, b.1)),
{
    a.1 > b.1 || (a.1 == b.1 && key_lt(&a.0, &b.0))
}

/// `v` rearranged into frequency order.
fn sort_counts(v: &Vec<(String, usize)>) -> (r: Vec<(String, usize)>)
    requires
        distinct_keys(keyed_view(v@)),
    ensures
        strictly_sorted(keyed_view(r@), count_order()),
        keyed_view(r@).to_multiset() == keyed_view(v@).to_multiset(),
{
    proof {
        lemma_count_order_strict();
    }
    let mut r: Vec<(String, usize)> = Vec::new();
    let mut i: usize = 0;
    assert(keyed_view(r@) =~= keyed_view(v@.take(0)));
    while i < v.len()
        invariant
            i <= v.len(),
            distinct_keys(keyed_view(v@)),
            strict_order(count_order()),
            strictly_sorted(keyed_view(r@), count_order()),
            keyed_view(r@).to_multiset() == keyed_view(v@.take(i as int)).to_multiset(),
        decreases v.len() - i,
    {
        let x = (v[i].0.clone(), v[i].1);
        let ghost xv = (x.0@, x.1);
        let ghost rv = keyed_view(r@);
        let ghost done = keyed_view(v@.take(i as int));
        assert(keyed_view(v@)[i as int] == xv);
        // No entry placed so far has the key of `x`.
        assert forall|k: int| 0 <= k < rv.len() implies rv[k].0 != xv.0 by {
            assert(rv.contains(rv[k]));
            assert(rv.to_multiset().count(rv[k]) > 0);
            assert(done.contains(rv[k]));
            let j = choose|j: int| 0 <= j < done.len() && done[j] == rv[k];
            assert(keyed_view(v@)[j] == done[j]);
            assert(keyed_view(v@)[j].0 != keyed_view(v@)[i as int].0);
        }
        let mut pos: usize = 0;
        while pos < r.len() && count_precedes(&r[pos], &x)
            invariant
                pos <= r.len(),
                rv == keyed_view(r@),
                xv == (x.0@, x.1),
                forall|k: int| 0 <= k < pos ==> count_before(rv[k], xv),
            decreases r.len() - pos,
        {
            pos = pos + 1;
        }
        proof {
            if pos < r.len() {
                assert(rv[pos as int] == (r@[pos as int].0@, r@[pos as int].1));
                if rv[pos as int].1 == xv.1 {
                    lemma_key_total(rv[pos as int].0, xv.0);
                }
                assert(count_before(xv, rv[pos as int]));
            }
        }
        r.insert(pos, x);
        proof {
            let nv = keyed_view(r@);
            assert(nv =~= rv.insert(pos as int, xv));
            assert forall|a: int, b: int| 0 <= a < b < nv.len() implies #[trigger] count_order()(
                nv[a],
                nv[b],
            ) by {
                if b < pos {
                    assert(count_order()(rv[a], rv[b]));
                } else if b == pos {
                    assert(count_before(rv[a], xv));
                } else if a < pos {
                    assert(count_order()(rv[a], rv[b - 1]));
                } else if a == pos {
                    if b - 1 > pos {
                        assert(count_order()(rv[pos as int], rv[b - 1]));
                        assert(count_order()(xv, rv[pos as int]));
                    }
                } else {
                    assert(count_order()(rv[a - 1], rv[b - 1]));
                }
            }
            assert(keyed_view(v@.take(i + 1)) =~= done.push(xv));
        }
        i = i + 1;
    }
    assert(v@.take(v.len() as int) =~= v@);
    r
}

/// The entries of `counts` in frequency order: by count, larger first, and
/// equal counts by event ID.
pub fn sorted_event_counts(counts: &EventCounts) -> (r: Vec<(String, usize)>)
    ensures
        keyed_view(r@) == sorted_counts(event_counts(*counts)),
        strictly_sorted(keyed_view(r@), count_order()),
        lists_map(keyed_view(r@), event_counts(*counts)),
{
    let e = counts.entries();
    let r = sort_counts(&e);
    proof {
        let m = event_counts(*counts);
        let ev = keyed_view(e@);
        let rv = keyed_view(r@);
        assert forall|x: (Seq<char>, usize)| rv.contains(x) <==> ev.contains(x) by {
            assert(rv.to_multiset().count(x) == ev.to_multiset().count(x));
        }
        assert forall|k: Seq<char>| #[trigger] m.contains_key(k) implies rv.contains((k, m[k])) by {
            assert(ev.contains((k, m[k])));
        }
        assert forall|i: int| 0 <= i < rv.len() implies #[trigger] m.contains_key(rv[i].0)
            && m[rv[i].0] == rv[i].1 by {
            assert(rv.contains(rv[i]));
            let j = choose|j: int| 0 <= j < ev.len() && ev[j] == rv[i];
            assert(m.contains_key(ev[j].0));
        }
        assert(lists_map(rv, m));
        lemma_count_order_strict();
        lemma_map_listing_unique(rv, sorted_counts(m), m, count_order());
    }
    r
}

/// Logon order: by the user key as stored, quotes included.
pub open spec fn logon_before(x: (Seq<char>, (usize, usize)), y: (Seq<char>, (usize, usize))) -> bool {
    key_less(x.0, y.0)
}

/// The logon order as a relation.
pub open spec fn logon_order() -> spec_fn((Seq<char>, (usize, usize)), (Seq<char>, (usize, usize))) -> bool {
    |x: (Seq<char>, (usize, usize)), y: (Seq<char>, (usize, usize))| logon_before(x, y)
}

/// The entries of `m` in logon order.
pub open spec fn sorted_logons(m: Map<Seq<char>, (usize, usize)>) -> Seq<(Seq<char>, (usize, usize))> {
    choose|s: Seq<(Seq<char>, (usize, usize))>| strictly_sorted(s, logon_order()) && lists_map(s, m)
}

/// The logon order is a strict order.
pub proof fn lemma_logon_order_strict()
    ensures
        strict_order(logon_order()),
{
    assert forall|x: (Seq<char>, (usize, usize))| !#[trigger] logon_order()(x, x) by {
        lemma_key_irreflexive(x.0);
    }
    assert forall|x: (Seq<char>, (usize, usize)), y: (Seq<char>, (usize, usize)), z: (Seq<char>, (usize, usize))|
        #[trigger] logon_order()(x, y) && #[trigger] logon_order()(y, z) implies logon_order()(
        x,
        z,
    ) by {
        lemma_key_transitive(x.0, y.0, z.0);
    }
}

/// Whether entry `a` is listed before entry `b` in logon order.
fn logon_precedes(a: &(String, (usize, usize)), b: &(String, (usize, usize))) -> (r: bool)
    ensures
        r == logon_before((a.0@, a.1), (b.0@, b.1)),
{
    key_lt(&a.0, &b.0)
}

/// `v` rearranged into frequency order.
fn sort_logons(v: &Vec<(String, (usize, usize))>) -> (r: Vec<(String, (usize, usize))>)
    requires
        distinct_keys(keyed_view(v@)),
    ensures
        strictly_sorted(keyed_view(r@), logon_order()),
        keyed_view(r@).to_multiset() == keyed_view(v@).to_multiset(),
{
    proof {
        lemma_logon_order_strict();
    }
    let mut r: Vec<(String, (usize, usize))> = Vec::new();
    let mut i: usize = 0;
    assert(keyed_view(r@) =~= keyed_view(v@.take(0)));
    while i < v.len()
        invariant
            i <= v.len(),
            distinct_keys(keyed_view(v@)),
            strict_order(logon_order()),
            strictly_sorted(keyed_view(r@), logon_order()),
            keyed_view(r@).to_multiset() == keyed_view(v@.take(i as int)).to_multiset(),
        decreases v.len() - i,
    {
        let x = (v[i].0.clone(), v[i].1);
        let ghost xv = (x.0@, x.1);
        let ghost rv = keyed_view(r@);
        let ghost done = keyed_view(v@.take(i as int));
        assert(keyed_view(v@)[i as int] == xv);
        // No entry placed so far has the key of `x`.
        assert forall|k: int| 0 <= k < rv.len() implies rv[k].0 != xv.0 by {
            assert(rv.contains(rv[k]));
            assert(rv.to_multiset().count(rv[k]) > 0);
            assert(done.contains(rv[k]));
            let j = choose|j: int| 0 <= j < done.len() && done[j] == rv[k];
            assert(keyed_view(v@)[j] == done[j]);
            assert(keyed_view(v@)[j].0 != keyed_view(v@)[i as int].0);
        }
        let mut pos: usize = 0;
        while pos < r.len() && logon_precedes(&r[pos], &x)
            invariant
                pos <= r.len(),
                rv == keyed_view(r@),
                xv == (x.0@, x.1),
                forall|k: int| 0 <= k < pos ==> logon_before(rv[k], xv),
            decreases r.len() - pos,
        {
            pos = pos + 1;
        }
        proof {
            if pos < r.len() {
                assert(rv[pos as int] == (r@[pos as int].0@, r@[pos as int].1));
                lemma_key_total(rv[pos as int].0, xv.0);
                assert(logon_before(xv, rv[pos as int]));
            }
        }
        r.insert(pos, x);
        proof {
            let nv = keyed_view(r@);
            assert(nv =~= rv.insert(pos as int, xv));
            assert forall|a: int, b: int| 0 <= a < b < nv.len() implies #[trigger] logon_order()(
                nv[a],
                nv[b],
            ) by {
                if b < pos {
                    assert(logon_order()(rv[a], rv[b]));
                } else if b == pos {
                    assert(logon_before(rv[a], xv));
                } else if a < pos {
                    assert(logon_order()(rv[a], rv[b - 1]));
                } else if a == pos {
                    if b - 1 > pos {
                        assert(logon_order()(rv[pos as int], rv[b - 1]));
                        assert(logon_order()(xv, rv[pos as int]));
                    }
                } else {
                    assert(logon_order()(rv[a - 1], rv[b - 1]));
                }
            }
            assert(keyed_view(v@.take(i + 1)) =~= done.push(xv));
        }
        i = i + 1;
    }
    assert(v@.take(v.len() as int) =~= v@);
    r
}

/// The entries of `counts` in logon order: by user key as stored.
pub fn sorted_logon_counts(counts: &LogonCounts) -> (r: Vec<(String, (usize, usize))>)
    ensures
        keyed_view(r@) == sorted_logons(logon_counts(*counts)),
        strictly_sorted(keyed_view(r@), logon_order()),
        lists_map(keyed_view(r@), logon_counts(*counts)),
{
    let e = counts.entries();
    let r = sort_logons(&e);
    proof {
        let m = logon_counts(*counts);
        let ev = keyed_view(e@);
        let rv = keyed_view(r@);
        assert forall|x: (Seq<char>, (usize, usize))| rv.contains(x) <==> ev.contains(x) by {
            assert(rv.to_multiset().count(x) == ev.to_multiset().count(x));
        }
        assert forall|k: Seq<char>| #[trigger] m.contains_key(k) implies rv.contains((k, m[k])) by {
            assert(ev.contains((k, m[k])));
        }
        assert forall|i: int| 0 <= i < rv.len() implies #[trigger] m.contains_key(rv[i].0)
            && m[rv[i].0] == rv[i].1 by {
            assert(rv.contains(rv[i]));
            let j = choose|j: int| 0 <= j < ev.len() && ev[j] == rv[i];
            assert(m.contains_key(ev[j].0));
        }
        assert(lists_map(rv, m));
        lemma_logon_order_strict();
        lemma_map_listing_unique(rv, sorted_logons(m), m, logon_order());
    }
    r
}

/// A strictly sorted listing of a map lists no key twice.
proof fn lemma_sorted_listing_distinct<V>(
    s: Seq<(Seq<char>, V)>,
    m: Map<Seq<char>, V>,
    lt: spec_fn((Seq<char>, V), (Seq<char>, V)) -> bool,
)
    requires
        strict_order(lt),
        strictly_sorted(s, lt),
        lists_map(s, m),
    ensures
        distinct_keys(s),
{
    assert forall|i: int, j: int| 0 <= i < j < s.len() implies #[trigger] s[i].0 != #[trigger] s[j].0 by {
        assert(lt(s[i], s[j]));
        if s[i].0 == s[j].0 {
            assert(m.contains_key(s[i].0) && m.contains_key(s[j].0));
            assert(s[i] == s[j]);
        }
    }
}

/// The frequency listing of a map does not depend on the order in which its
/// entries were found: any strictly sorted listing of the map is the one
/// listing, its counts never increase, and it has one row per event ID.
pub proof fn lemma_frequency_listing(s: Seq<(Seq<char>, usize)>, m: Map<Seq<char>, usize>)
    requires
        m.dom().finite(),
        strictly_sorted(s, count_order()),
        lists_map(s, m),
    ensures
        s == sorted_counts(m),
        s.len() == m.dom().len(),
        forall|i: int, j: int| 0 <= i < j < s.len() ==> s[i].1 >= s[j].1,
{
    lemma_count_order_strict();
    lemma_map_listing_unique(s, sorted_counts(m), m, count_order());
    lemma_sorted_listing_distinct(s, m, count_order());
    lemma_listing_len(s, m);
    assert forall|i: int, j: int| 0 <= i < j < s.len() implies s[i].1 >= s[j].1 by {
        assert(count_order()(s[i], s[j]));
    }
}

/// The logon listing of a map does not depend on the order in which its
/// entries were found: any strictly sorted listing of the map is the one
/// listing, its user keys, quotes included, ascend, and it has one row per
/// user.
pub proof fn lemma_logon_listing(s: Seq<(Seq<char>, (usize, usize))>, m: Map<Seq<char>, (usize, usize)>)
    requires
        m.dom().finite(),
        strictly_sorted(s, logon_order()),
        lists_map(s, m),
    ensures
        s == sorted_logons(m),
        s.len() == m.dom().len(),
        forall|i: int, j: int| 0 <= i < j < s.len() ==> key_less(s[i].0, s[j].0),
{
    lemma_logon_order_strict();
    lemma_map_listing_unique(s, sorted_logons(m), m, logon_order());
    lemma_sorted_listing_distinct(s, m, logon_order());
    lemma_listing_len(s, m);
    assert forall|i: int, j: int| 0 <= i < j < s.len() implies key_less(s[i].0, s[j].0) by {
        assert(logon_order()(s[i], s[j]));
    }
}

} // verus!
