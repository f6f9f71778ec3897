//! Facts about sequences that the loops of several modules need.

use vstd::prelude::*;

verus! {

/// The elements after one more was added.
pub proof fn lemma_push_to_set<A>(s: Seq<A>, a: A)
    ensures
        s.push(a).to_set() == s.to_set().insert(a),
{
    let all = s.push(a);
    assert forall|x: A| all.to_set().contains(x) == s.to_set().insert(a).contains(x) by {
        if s.contains(x) {
            let i = s.index_of(x);
            assert(all[i] == x);
        }
        assert(all[s.len() as int] == a);
        if all.contains(x) && x != a {
            let i = all.index_of(x);
            assert(s[i] == x);
        }
    }
    assert(all.to_set() =~= s.to_set().insert(a));
}

/// Mapping after one more element was added.
pub proof fn lemma_map_push<A, B>(s: Seq<A>, a: A, f: spec_fn(A) -> B)
    ensures
        s.push(a).map_values(f) == s.map_values(f).push(f(a)),
{
    assert(s.push(a).map_values(f) =~= s.map_values(f).push(f(a)));
}

/// Filtering one more element keeps what was kept and adds it if it qualifies.
pub proof fn lemma_filter_take<A>(s: Seq<A>, i: int, keep: spec_fn(A) -> bool)
    requires
        0 <= i < s.len(),
    ensures
        s.take(i + 1).filter(keep) == (if keep(s[i]) {
            s.take(i).filter(keep).push(s[i])
        } else {
            s.take(i).filter(keep)
        }),
{
    reveal(Seq::filter);
    assert(s.take(i + 1).drop_last() =~= s.take(i));
}

/// Filtering by what holds of every element drops nothing.
pub proof fn lemma_filter_all<A>(s: Seq<A>, keep: spec_fn(A) -> bool)
    requires
        forall|i: int| 0 <= i < s.len() ==> keep(#[trigger] s[i]),
    ensures
        s.filter(keep) == s,
    decreases s.len(),
{
    reveal(Seq::filter);
    if s.len() > 0 {
        lemma_filter_all(s.drop_last(), keep);
        assert(s =~= s.drop_last().push(s.last()));
    }
}

/// A filtered sequence holds what qualifies of the sequence, and nothing else.
pub proof fn lemma_filter_members<A>(s: Seq<A>, keep: spec_fn(A) -> bool)
    ensures
        forall|a: A| #[trigger] s.filter(keep).contains(a) <==> s.contains(a) && keep(a),
    decreases s.len(),
{
    reveal(Seq::filter);
    if s.len() > 0 {
        let init = s.drop_last();
        lemma_filter_members(init, keep);
        assert(s =~= init.push(s.last()));
        let kept = init.filter(keep);
        assert forall|a: A| #[trigger] s.filter(keep).contains(a) <==> s.contains(a) && keep(a) by {
            assert(s.contains(a) <==> init.contains(a) || a == s.last()) by {
                if init.contains(a) {
                    let i = init.index_of(a);
                    assert(s[i] == a);
                }
                assert(s[s.len() - 1] == s.last());
                if s.contains(a) && a != s.last() {
                    let i = s.index_of(a);
                    assert(init[i] == a);
                }
            }
            if keep(s.last()) {
                let all = kept.push(s.last());
                assert(all[kept.len() as int] == s.last());
                if kept.contains(a) {
                    let i = kept.index_of(a);
                    assert(all[i] == a);
                }
                if all.contains(a) && a != s.last() {
                    let i = all.index_of(a);
                    assert(kept[i] == a);
                }
            }
        }
    }
}

}
