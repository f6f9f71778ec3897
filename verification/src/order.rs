//! Walking sets of window ids in increasing order.

use crate::sequence::lemma_filter_members;
use std::collections::{BTreeMap, BTreeSet};
use vstd::prelude::*;
use vstd::std_specs::cmp::OrdSpec;
use vstd::std_specs::iter::IteratorSpec;

verus! {

broadcast use {vstd::std_specs::btree::group_btree_axioms, vstd::laws_cmp::group_laws_cmp};

/// Every id stands before the larger ones.
pub open spec fn increasing(ids: Seq<u32>) -> bool {
    forall|i: int, j: int| 0 <= i < j < ids.len() ==> ids[i] < ids[j]
}

/// The ids of a set, each once, in increasing order.
pub open spec fn in_order(ids: Set<u32>) -> Seq<u32> {
    choose|s: Seq<u32>| increasing(s) && s.to_set() == ids
}

/// A set has one increasing listing.
pub proof fn lemma_increasing_unique(a: Seq<u32>, b: Seq<u32>)
    requires
        increasing(a),
        increasing(b),
        a.to_set() == b.to_set(),
    ensures
        a == b,
    decreases a.len(),
{
    if a.len() == 0 {
        if b.len() > 0 {
            assert(b.to_set().contains(b[0]));
            assert(a.to_set().contains(b[0]));
        }
        assert(a =~= b);
    } else {
        assert(a.to_set().contains(a.last()));
        assert(b.to_set().contains(a.last()));
        assert(b.contains(a.last()));
        assert(b.to_set().contains(b.last()));
        assert(a.to_set().contains(b.last()));
        assert(a.contains(b.last()));
        assert(a.last() == b.last());
        let a0 = a.drop_last();
        let b0 = b.drop_last();
        assert(a0.to_set() =~= b0.to_set()) by {
            assert forall|w: u32| a0.to_set().contains(w) == b0.to_set().contains(w) by {
                if a0.contains(w) {
                    let i = a0.index_of(w);
                    assert(a[i] == w && a.contains(w));
                    assert(a.to_set().contains(w));
                    assert(b.to_set().contains(w));
                    let j = b.index_of(w);
                    assert(b[j] == w && w < a.last());
                    assert(b0[j] == w);
                }
                if b0.contains(w) {
                    let i = b0.index_of(w);
                    assert(b[i] == w && b.contains(w));
                    assert(b.to_set().contains(w));
                    assert(a.to_set().contains(w));
                    let j = a.index_of(w);
                    assert(a[j] == w && w < b.last());
                    assert(a0[j] == w);
                }
            }
        }
        lemma_increasing_unique(a0, b0);
        assert(a =~= a0.push(a.last()));
        assert(b =~= b0.push(b.last()));
    }
}

/// An increasing listing is the listing of its own set.
pub proof fn lemma_in_order(s: Seq<u32>)
    requires
        increasing(s),
    ensures
        in_order(s.to_set()) == s,
{
    let ids = s.to_set();
    assert(increasing(s) && s.to_set() == ids);
    let t = in_order(ids);
    assert(increasing(t) && t.to_set() == ids);
    lemma_increasing_unique(s, t);
}

/// Every finite set has an increasing listing.
pub proof fn lemma_finite_in_order(ids: Set<u32>)
    requires
        ids.finite(),
    ensures
        increasing(in_order(ids)),
        in_order(ids).to_set() == ids,
    decreases ids.len(),
{
    if ids.len() == 0 {
        let none = Seq::<u32>::empty();
        assert(none.to_set() =~= ids);
        lemma_in_order(none);
    } else {
        let top = lemma_largest(ids);
        let rest = ids.remove(top);
        lemma_finite_in_order(rest);
        let below = in_order(rest);
        let all = below.push(top);
        assert forall|i: int| 0 <= i < below.len() implies below[i] < top by {
            assert(below.to_set().contains(below[i]));
        }
        crate::sequence::lemma_push_to_set(below, top);
        assert(all.to_set() =~= ids);
        lemma_in_order(all);
    }
}

proof fn lemma_largest(ids: Set<u32>) -> (top: u32)
    requires
        ids.finite(),
        ids.len() > 0,
    ensures
        ids.contains(top),
        forall|w: u32| ids.contains(w) ==> w <= top,
    decreases ids.len(),
{
    let some = ids.choose();
    let rest = ids.remove(some);
    if rest.len() == 0 {
        assert forall|w: u32| ids.contains(w) implies w <= some by {
            if w != some {
                assert(rest.contains(w));
            }
        }
        some
    } else {
        let top = lemma_largest(rest);
        assert forall|w: u32| ids.contains(w) implies w <= (if some > top { some } else { top }) by {
            if w != some {
                assert(rest.contains(w));
            }
        }
        if some > top {
            some
        } else {
            top
        }
    }
}

/// Dropping ids keeps the order of the others.
pub proof fn lemma_filter_increasing(s: Seq<u32>, keep: spec_fn(u32) -> bool)
    requires
        increasing(s),
    ensures
        increasing(s.filter(keep)),
    decreases s.len(),
{
    reveal(Seq::filter);
    if s.len() > 0 {
        let init = s.drop_last();
        lemma_filter_increasing(init, keep);
        lemma_filter_members(init, keep);
        let kept = init.filter(keep);
        assert forall|i: int| 0 <= i < kept.len() implies kept[i] < s.last() by {
            assert(kept.contains(kept[i]));
            let j = init.index_of(kept[i]);
            assert(init[j] == kept[i]);
        }
    }
}

/// What the standard ordered collections call increasing is increasing here.
proof fn lemma_walk_in_order(walked: Seq<&u32>)
    requires
        vstd::std_specs::btree::increasing_seq(walked),
    ensures
        increasing(walked.unref()),
        in_order(walked.unref().to_set()) == walked.unref(),
{
    assert(vstd::laws_cmp::obeys_cmp::<&u32>());
    let ids = walked.unref();
    assert forall|i: int, j: int| 0 <= i < j < ids.len() implies ids[i] < ids[j] by {
        assert(OrdSpec::cmp_spec(&walked[i], &walked[j]) is Less);
    }
    lemma_in_order(ids);
}

/// A set that is held is finite.
pub proof fn lemma_members_finite(s: &BTreeSet<u32>)
    ensures
        s@.finite(),
{
    let walked = vstd::std_specs::btree::spec_btree_keys_iter(s).remaining();
    vstd::seq_lib::seq_to_set_is_finite(walked.unref());
}

/// The keys of a map in increasing order.
pub fn keys_in_order<V>(m: &BTreeMap<u32, V>) -> (keys: Vec<u32>)
    ensures
        keys@ == in_order(m@.dom()),
        increasing(keys@),
        keys@.to_set() == m@.dom(),
{
    let mut keys: Vec<u32> = Vec::new();
    for k in it: m.keys()
        invariant
            keys@ == it.seq().unref().take(it.index()),
    {
        keys.push(*k);
    }
    proof {
        let walked = vstd::std_specs::btree::spec_keys_iter(m).remaining();
        lemma_walk_in_order(walked);
        assert(keys@ =~= walked.unref());
    }
    keys
}

/// The members of a set in increasing order.
pub fn members_in_order(s: &BTreeSet<u32>) -> (ids: Vec<u32>)
    ensures
        ids@ == in_order(s@),
        increasing(ids@),
        ids@.to_set() == s@,
{
    let mut ids: Vec<u32> = Vec::new();
    for k in it: s.iter()
        invariant
            ids@ == it.seq().unref().take(it.index()),
    {
        ids.push(*k);
    }
    proof {
        let walked = vstd::std_specs::btree::spec_btree_keys_iter(s).remaining();
        lemma_walk_in_order(walked);
        assert(ids@ =~= walked.unref());
    }
    ids
}

}
