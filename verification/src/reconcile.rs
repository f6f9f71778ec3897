//! Reconciling every overlay finds the dead ones.

use crate::plan::{ReplyView, Task};
use crate::world::World;
use vstd::prelude::*;

verus! {

/// The task reconciles that window.
pub open spec fn reconciles(task: Task, w: u32) -> bool {
    (task matches Task::Sync(x, _) && x == w) || (task matches Task::Synced(x, _) && x == w)
}

impl World {
    /// Among the first `n` steps was one in which the window still deserved its border.
    pub open spec fn confirmed(
        self,
        replies: spec_fn(nat) -> (ReplyView, u64),
        n: nat,
        w: u32,
    ) -> bool {
        exists|k: nat|
            k < n && self.confirms(replies, k, w)
    }

    /// In that step the window still deserved its border.
    pub open spec fn confirms(
        self,
        replies: spec_fn(nat) -> (ReplyView, u64),
        k: nat,
        w: u32,
    ) -> bool {
        let world = self.at(replies, k);
        &&& world.state.agenda.len() > 0
        &&& world.state.agenda[0] is Synced
        &&& reconciles(world.state.agenda[0], w)
        &&& world.state.borders.still_valid(replies(k).0.facts())
    }

    /// While overlays are being reconciled, each one that is left has been confirmed
    /// or is still to be looked at.
    proof fn lemma_reconciling(
        self,
        replies: spec_fn(nat) -> (ReplyView, u64),
        n: nat,
        k: nat,
    ) -> (front: Seq<Task>)
        requires
            self.sound(),
            self.state.agenda.len() > 0,
            self.state.agenda[0] is Reconcile,
            1 <= k <= n,
            forall|m: nat|
                0 < m < n ==> (#[trigger] self.at(replies, m)).state.agenda.len()
                    >= self.state.agenda.len(),
        ensures
            self.at(replies, k).state.agenda == front + self.state.agenda.skip(1),
            forall|i: int|
                0 <= i < front.len() ==> #[trigger] front[i] is Sync || front[i] is Synced,
            forall|w: u32| #[trigger]
                self.at(replies, k).state.borders.tracks(w) ==> self.confirmed(replies, k, w)
                    || exists|i: int| 0 <= i < front.len() && reconciles(#[trigger] front[i], w),
        decreases k,
    {
        let rest = self.state.agenda.skip(1);
        let (reply, now) = replies((k - 1) as nat);
        let before = self.at(replies, (k - 1) as nat);
        let after = self.at(replies, k);
        assert(after == before.stepped(reply, now));
        if k == 1 {
            assert(before == self);
            let report = self.state.agenda[0]->Reconcile_0;
            let targets = self.state.borders.targets();
            let front = targets.map_values(|w: u32| Task::Sync(w, report));
            self.state.borders.lemma_targets();
            assert forall|w: u32| #[trigger] after.state.borders.tracks(w) implies exists|i: int|
                0 <= i < front.len() && reconciles(#[trigger] front[i], w) by {
                assert(targets.to_set().contains(w));
                let i = targets.index_of(w);
                assert(reconciles(front[i], w));
            }
            front
        } else {
            let earlier = self.lemma_reconciling(replies, n, (k - 1) as nat);
            assert(before.state.agenda.len() >= self.state.agenda.len());
            assert(earlier.len() > 0);
            let task = earlier[0];
            assert(before.state.agenda[0] == task);
            assert(before.popped().agenda =~= earlier.skip(1) + rest);
            let front = match task {
                Task::Sync(x, report) => if before.state.borders.tracks(x) {
                    seq![Task::Synced(x, report)] + earlier.skip(1)
                } else {
                    earlier.skip(1)
                },
                _ => earlier.skip(1),
            };
            assert(after.state.agenda =~= front + rest);
            assert forall|w: u32| #[trigger] after.state.borders.tracks(w) implies self.confirmed(
                replies,
                k,
                w,
            ) || exists|i: int| 0 <= i < front.len() && reconciles(#[trigger] front[i], w) by {
                assert(before.state.borders.tracks(w));
                if self.confirmed(replies, (k - 1) as nat, w) {
                    let m = choose|m: nat| m < (k - 1) as nat && self.confirms(replies, m, w);
                    assert(m < k && self.confirms(replies, m, w));
                } else {
                    let i = choose|i: int|
                        0 <= i < earlier.len() && reconciles(#[trigger] earlier[i], w);
                    if i == 0 {
                        if task is Sync {
                            assert(reconciles(front[0], w));
                        } else {
                            assert(self.confirms(replies, (k - 1) as nat, w));
                        }
                    } else {
                        let j = i - earlier.len() + front.len();
                        assert(front[j] == earlier[i]);
                        assert(reconciles(front[j], w));
                    }
                }
            }
            front
        }
    }

    /// Once the overlays have been reconciled, every one that is left was found to be
    /// around a window that still deserves it: no border stays around a window that
    /// the server does not know any more. `n` is the first step after which nothing
    /// of the work is left.
    pub proof fn law_reconciling_confirms_every_overlay(
        self,
        replies: spec_fn(nat) -> (ReplyView, u64),
        n: nat,
        w: u32,
    )
        requires
            self.sound(),
            self.state.agenda.len() > 0,
            self.state.agenda[0] is Reconcile,
            n > 0,
            self.at(replies, n).state.agenda == self.state.agenda.skip(1),
            forall|m: nat|
                0 < m < n ==> (#[trigger] self.at(replies, m)).state.agenda.len()
                    >= self.state.agenda.len(),
            self.at(replies, n).state.borders.tracks(w),
        ensures
            self.confirmed(replies, n, w),
    {
        let front = self.lemma_reconciling(replies, n, n);
        assert((front + self.state.agenda.skip(1)).len() == front.len() + self.state.agenda.skip(
            1,
        ).len());
    }
}

}
