//! Ordering items by timestamp, keeping the order of equal timestamps.
use vstd::prelude::*;

use super::timestamp::{ts_less, ts_lt, Timestamp};

verus! {

/// Whether the items are in non-decreasing timestamp order.
pub open spec fn ts_sorted<T>(s: Seq<(Timestamp, T)>) -> bool {
    forall|i: int, j: int| 0 <= i < j < s.len() ==> !ts_lt(#[trigger] s[j].0, #[trigger] s[i].0)
}

/// Where an item with timestamp `t` goes in a sorted list: after every item
/// that is not later than it.
pub open spec fn insert_pos<T>(s: Seq<(Timestamp, T)>, t: Timestamp) -> int
    decreases s.len(),
{
    if s.len() == 0 {
        0
    } else if ts_lt(t, s.last().0) {
        insert_pos(s.drop_last(), t)
    } else {
        s.len() as int
    }
}

/// The items sorted by timestamp, equal timestamps in their first order.
pub open spec fn ts_sort<T>(s: Seq<(Timestamp, T)>) -> Seq<(Timestamp, T)>
    decreases s.len(),
{
    if s.len() == 0 {
        s
    } else {
        let r = ts_sort(s.drop_last());
        r.insert(insert_pos(r, s.last().0), s.last())
    }
}

proof fn lemma_insert_pos<T>(s: Seq<(Timestamp, T)>, t: Timestamp)
    requires
        ts_sorted(s),
    ensures
        0 <= insert_pos(s, t) <= s.len(),
        forall|i: int| 0 <= i < insert_pos(s, t) ==> !ts_lt(t, #[trigger] s[i].0),
        forall|i: int| insert_pos(s, t) <= i < s.len() ==> ts_lt(t, #[trigger] s[i].0),
    decreases s.len(),
{
    if s.len() > 0 {
        if ts_lt(t, s.last().0) {
            lemma_insert_pos(s.drop_last(), t);
            assert forall|i: int| insert_pos(s, t) <= i < s.len() implies ts_lt(t, #[trigger] s[i].0) by {
                if i < s.len() - 1 {
                    assert(s.drop_last()[i] == s[i]);
                }
            }
            assert forall|i: int| 0 <= i < insert_pos(s, t) implies !ts_lt(t, #[trigger] s[i].0) by {
                assert(s.drop_last()[i] == s[i]);
            }
        } else {
            assert forall|i: int| 0 <= i < s.len() implies !ts_lt(t, #[trigger] s[i].0) by {
                if i < s.len() - 1 {
                    assert(!ts_lt(s.last().0, s[i].0));
                }
            }
        }
    }
}

/// The sorted list is sorted and holds the same items.
pub proof fn lemma_ts_sort<T>(s: Seq<(Timestamp, T)>)
    ensures
        ts_sorted(ts_sort(s)),
        ts_sort(s).len() == s.len(),
        ts_sort(s).to_multiset() == s.to_multiset(),
    decreases s.len(),
{
    if s.len() > 0 {
        let r = ts_sort(s.drop_last());
        lemma_ts_sort(s.drop_last());
        let x = s.last();
        lemma_insert_pos(r, x.0);
        let p = insert_pos(r, x.0);
        let q = r.insert(p, x);
        assert forall|i: int, j: int| 0 <= i < j < q.len() implies !ts_lt(#[trigger] q[j].0, #[trigger] q[i].0) by {
            if j < p {
                assert(q[i] == r[i] && q[j] == r[j]);
            } else if j == p {
                assert(q[i] == r[i]);
            } else if i < p {
                assert(q[i] == r[i] && q[j] == r[j - 1]);
            } else if i == p {
                assert(q[j] == r[j - 1]);
            } else {
                assert(q[i] == r[i - 1] && q[j] == r[j - 1]);
            }
        }
        assert(q == r.take(p) + seq![x] + r.skip(p));
        vstd::seq_lib::lemma_multiset_commutative(r.take(p), seq![x]);
        vstd::seq_lib::lemma_multiset_commutative(r.take(p) + seq![x], r.skip(p));
        vstd::seq_lib::lemma_multiset_commutative(r.take(p), r.skip(p));
        assert(r.take(p) + r.skip(p) == r);
        vstd::seq_lib::lemma_multiset_commutative(s.drop_last(), seq![x]);
        assert(s.drop_last() + seq![x] == s);
        assert(seq![x].to_multiset() =~= vstd::multiset::Multiset::empty().insert(x)) by {
            broadcast use vstd::seq_lib::group_to_multiset_ensures;
            assert(seq![x] == Seq::<(Timestamp, T)>::empty().push(x));
        }
        assert(q.to_multiset() =~= s.to_multiset());
    }
}

/// Sorts by timestamp, keeping equal timestamps in their order.
pub fn sort_by_ts<T>(v: Vec<(Timestamp, T)>) -> (r: Vec<(Timestamp, T)>)
    ensures
        r@ == ts_sort(v@),
{
    let mut rest = v;
    let mut out: Vec<(Timestamp, T)> = Vec::new();
    let ghost all = rest@;
    let mut k: usize = 0;
    assert(all.len() == rest.len());
    while rest.len() > 0
        invariant
            k <= all.len() <= usize::MAX,
            rest@ == all.skip(k as int),
            out@ == ts_sort(all.take(k as int)),
        decreases rest@.len(),
    {
        proof {
            lemma_ts_sort(all.take(k as int));
        }
        let x = rest.remove(0);
        let mut p = out.len();
        proof {
            assert(out@.take(p as int) == out@);
        }
        while p > 0 && ts_less(&x.0, &out[p - 1].0)
            invariant
                p <= out@.len(),
                insert_pos(out@, x.0) == insert_pos(out@.take(p as int), x.0),
            decreases p,
        {
            proof {
                assert(out@.take(p as int).drop_last() == out@.take(p - 1));
                assert(out@.take(p as int).last() == out@[p - 1]);
            }
            p = p - 1;
        }
        proof {
            if p > 0 {
                assert(out@.take(p as int).last() == out@[p - 1]);
            }
            assert(all.take(k + 1).drop_last() == all.take(k as int));
            assert(all.take(k + 1).last() == x);
            assert(all.skip(k as int).skip(1) == all.skip(k + 1));
        }
        out.insert(p, x);
        k = k + 1;
    }
    proof {
        assert(all.take(all.len() as int) == all);
    }
    out
}

} // verus!
