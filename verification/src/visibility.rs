//! Which overlays are visible in active-only mode.

use crate::agenda::{expected, lemma_follow_ups, neutral};
use crate::borders::CommandView;
use crate::event::Event;
use crate::plan::{batch_tasks, poll_tasks, start_tasks, ReplyView, Task};
use crate::screen::{
    lemma_screen_add, lemma_screen_close, lemma_screen_one, lemma_screen_order, lemma_screen_two,
    orders, screen_after, Drawn,
};
use crate::sequence::lemma_filter_members;
use crate::world::{lemma_screen_sync, recolors, World};
use vstd::prelude::*;

verus! {

/// The task looks at the focus.
pub open spec fn looks_at_focus(task: Task) -> bool {
    task is UpdateFocus || task is Focus
}

/// The task has the same meaning whichever window has the focus.
pub open spec fn lasting(task: Task) -> bool {
    task is UpdateFocus || task is Reconcile || task is Sync || task is Synced
}

impl World {
    /// In active-only mode, the focused overlay is visible, and no other one.
    pub open spec fn only_focused_visible(self) -> bool {
        self.state.borders.active_only ==> forall|w: u32| #[trigger]
            self.screen.contains_key(w) ==> (self.screen[w].visible <==> w
                == self.state.borders.focused_wid)
    }

    /// In active-only mode, no overlay but the focused one is visible.
    pub open spec fn no_other_visible(self) -> bool {
        self.state.borders.active_only ==> forall|w: u32| #[trigger]
            self.screen.contains_key(w) && self.screen[w].visible ==> w
                == self.state.borders.focused_wid
    }

    /// Ending a batch settles what is visible.
    proof fn lemma_finish(self, reply: ReplyView, now: u64)
        requires
            self.sound(),
            self.state.agenda.len() > 0,
            self.state.agenda[0] is Finish,
        ensures
            self.stepped(reply, now).only_focused_visible(),
    {
        let b = self.state.borders;
        if b.active_only {
            let first = if self.state.resubscribe || self.state.destroyed.len() > 0 {
                b.subscribe_commands()
            } else {
                seq![]
            };
            lemma_screen_add(self.screen, first, b.enforce_commands());
            assert(screen_after(self.screen, first) == self.screen) by {
                if first.len() > 0 {
                    lemma_screen_one(self.screen, CommandView::Subscribe(b.targets()));
                }
            }
            let order = |w: u32|
                if w == b.focused_wid {
                    CommandView::OrderAbove(w)
                } else {
                    CommandView::OrderOut(w)
                };
            assert forall|w: u32| #[trigger] orders(order(w), w) by {}
            lemma_screen_order(self.screen, b.targets(), order);
            b.lemma_targets();
            assert forall|w: u32| self.screen.contains_key(w) implies b.targets().contains(w) by {
                assert(b.targets().to_set().contains(w));
            }
        }
    }

    /// Ending the start hides what is not focused.
    proof fn lemma_hide_unfocused(self, reply: ReplyView, now: u64)
        requires
            self.sound(),
            self.state.agenda.len() > 0,
            self.state.agenda[0] is HideUnfocused,
        ensures
            self.stepped(reply, now).no_other_visible(),
    {
        let b = self.state.borders;
        if b.active_only {
            let order = |w: u32| CommandView::OrderOut(w);
            let others = |w: u32| w != b.focused_wid;
            let hidden = b.targets().filter(others);
            assert forall|w: u32| #[trigger] orders(order(w), w) by {}
            lemma_screen_order(self.screen, hidden, order);
            lemma_filter_members(b.targets(), others);
            b.lemma_targets();
            assert forall|w: u32| self.screen.contains_key(w) && w != b.focused_wid implies hidden.contains(
                w,
            ) by {
                assert(b.targets().to_set().contains(w));
                assert(b.targets().contains(w));
            }
        }
    }

    /// As long as work is left, the last task is `last`; after that `done` holds.
    proof fn lemma_last_task(
        self,
        replies: spec_fn(nat) -> (ReplyView, u64),
        n: nat,
        last: Task,
    )
        requires
            self.sound(),
            self.state.agenda.len() > 0,
            self.state.agenda.last() == last,
            last == Task::Finish || last == Task::HideUnfocused,
        ensures
            ({
                let world = self.at(replies, n);
                &&& world.sound()
                &&& world.at_rest() ==> world.no_other_visible()
                &&& world.at_rest() && last is Finish ==> world.only_focused_visible()
                &&& !world.at_rest() ==> world.state.agenda.last() == last
            }),
        decreases n,
    {
        self.lemma_sound_at(replies, n);
        if n > 0 {
            let m = (n - 1) as nat;
            self.lemma_last_task(replies, m, last);
            let (reply, now) = replies(m);
            let before = self.at(replies, m);
            let after = before.stepped(reply, now);
            assert(after == self.at(replies, n));
            if before.at_rest() {
                assert(after.screen == before.screen);
            } else {
                let tasks = lemma_follow_ups(before.popped(), before.state.agenda[0], reply, now);
                if before.state.agenda.len() > 1 {
                    assert(before.popped().agenda.last() == last);
                    assert(after.state.agenda.last() == last);
                } else {
                    assert(before.state.agenda[0] == last);
                    if last is Finish {
                        before.lemma_finish(reply, now);
                    } else {
                        before.lemma_hide_unfocused(reply, now);
                    }
                    assert(tasks.len() == 0) by {
                        reveal(expected);
                        if tasks.len() > 0 {
                            assert(crate::agenda::rank(tasks[0]) < crate::agenda::rank(last));
                        }
                    }
                }
            }
        }
    }

    /// In active-only mode, once a batch of events has been worked off, the focused
    /// overlay is visible, and no other one.
    pub proof fn law_batch_leaves_only_focused_visible(
        self,
        events: Seq<Event>,
        replies: spec_fn(nat) -> (ReplyView, u64),
        n: nat,
    )
        requires
            self.sound(),
            self.given(batch_tasks(events)).at(replies, n).at_rest(),
        ensures
            self.given(batch_tasks(events)).at(replies, n).only_focused_visible(),
    {
        self.law_new_work_keeps_soundness(None, events, false);
        let given = self.given(batch_tasks(events));
        assert(given.state.agenda.last() == Task::Finish);
        given.lemma_last_task(replies, n, Task::Finish);
    }

    /// In active-only mode, once a session has started, no overlay but the focused one
    /// is visible.
    pub proof fn law_start_leaves_no_other_visible(
        self,
        target: Option<u32>,
        replies: spec_fn(nat) -> (ReplyView, u64),
        n: nat,
    )
        requires
            self.sound(),
            self.given(start_tasks(target)).at(replies, n).at_rest(),
        ensures
            self.given(start_tasks(target)).at(replies, n).no_other_visible(),
    {
        self.law_new_work_keeps_soundness(target, seq![], false);
        let given = self.given(start_tasks(target));
        assert(given.state.agenda.last() == Task::HideUnfocused);
        given.lemma_last_task(replies, n, Task::HideUnfocused);
    }

    /// The task only follows the focus, or reconciles overlays.
    pub open spec fn follows_focus(self, task: Task) -> bool {
        match task {
            Task::UpdateFocus => true,
            Task::Focus => true,
            Task::Subscribe(_) => true,
            Task::Recolor(..) => true,
            Task::FocusRetry(w) => w == self.state.borders.focused_wid,
            Task::AddFresh(w) => w == self.state.borders.focused_wid,
            Task::Admit(w) => w == self.state.borders.focused_wid,
            Task::Place(w, _) => w == self.state.borders.focused_wid,
            Task::Attach(w, _) => w == self.state.borders.focused_wid,
            Task::Reconcile(_) => true,
            Task::Sync(..) => true,
            Task::Synced(..) => true,
            _ => false,
        }
    }

    /// All that is left to do is to follow the focus and to reconcile overlays, and what
    /// is visible is right but for the windows that a change of focus concerns.
    pub open spec fn watching(self) -> bool {
        let agenda = self.state.agenda;
        &&& forall|i: int| 0 <= i < agenda.len() ==> self.follows_focus(#[trigger] agenda[i])
        &&& forall|i: int, j: int|
            0 <= i < j < agenda.len() && looks_at_focus(#[trigger] agenda[i]) ==> lasting(
                #[trigger] agenda[j],
            )
        &&& self.state.borders.active_only ==> forall|w: u32| #[trigger]
            self.screen.contains_key(w) && !self.stale(w) ==> (self.screen[w].visible <==> w
                == self.state.borders.focused_wid)
    }

    /// The windows that wait for their color, after a step that neither starts nor
    /// ends such a wait.
    proof fn lemma_stale_kept(self, reply: ReplyView, now: u64)
        requires
            self.state.agenda.len() > 0,
            !(self.state.agenda[0] is Focus),
            !(self.state.agenda[0] is Recolor),
        ensures
            forall|w: u32| #[trigger] self.stepped(reply, now).stale(w) == self.stale(w),
    {
        let agenda = self.state.agenda;
        let after = self.stepped(reply, now);
        let tasks = lemma_follow_ups(self.popped(), agenda[0], reply, now);
        reveal(expected);
        assert forall|w: u32| #[trigger] after.stale(w) == self.stale(w) by {
            if self.stale(w) {
                let i = choose|i: int| 0 <= i < agenda.len() && recolors(#[trigger] agenda[i], w);
                assert(after.state.agenda[tasks.len() + i - 1] == agenda[i]);
            }
            if after.stale(w) {
                let i = choose|i: int|
                    0 <= i < after.state.agenda.len() && recolors(
                        #[trigger] after.state.agenda[i],
                        w,
                    );
                if i < tasks.len() {
                    assert(after.state.agenda[i] == tasks[i]);
                } else {
                    assert(after.state.agenda[i] == agenda[i - tasks.len() + 1]);
                }
            }
        }
    }

    /// What a step leaves visible, as far as the windows that no change of focus
    /// concerns go, while all there is to do is to follow the focus and to reconcile.
    proof fn lemma_visible_step(self, reply: ReplyView, now: u64)
        requires
            self.sound(),
            self.watching(),
            self.state.agenda.len() > 0,
            !(self.state.agenda[0] is Focus),
            !(self.state.agenda[0] is Recolor),
            self.state.borders.active_only,
        ensures
            self.stepped(reply, now).state.borders.focused_wid == self.state.borders.focused_wid,
            forall|w: u32| #[trigger]
                self.stepped(reply, now).screen.contains_key(w) && !self.stale(w) ==> (self.stepped(
                    reply,
                    now,
                ).screen[w].visible <==> w == self.state.borders.focused_wid),
    {
        let b = self.state.borders;
        let screen = self.screen_at_reply(reply);
        let after = self.stepped(reply, now);
        let task = self.state.agenda[0];
        assert(self.follows_focus(task));
        match task {
            Task::UpdateFocus => {},
            Task::Subscribe(w) => {
                lemma_screen_one(screen, CommandView::Subscribe(seq![w]));
            },
            Task::FocusRetry(w) => {
                if b.tracks(w) {
                    lemma_screen_two(
                        screen,
                        CommandView::Subscribe(seq![w]),
                        CommandView::OrderAbove(w),
                    );
                }
            },
            Task::AddFresh(w) => {},
            Task::Admit(w) => {},
            Task::Place(w, bounds) => {
                lemma_screen_close(screen, b.replaced(w, bounds, reply.bounds()));
            },
            Task::Attach(w, bounds) => {
                lemma_screen_one(screen, CommandView::OrderAbove(w));
            },
            Task::Reconcile(report) => {},
            Task::Sync(w, report) => {},
            Task::Synced(w, report) => {
                let facts = reply.facts();
                lemma_screen_sync(screen, b, w, facts);
            },
            _ => {},
        }
    }

    proof fn lemma_watching_step(self, reply: ReplyView, now: u64)
        requires
            self.sound(),
            self.watching(),
        ensures
            self.stepped(reply, now).watching(),
    {
        let agenda = self.state.agenda;
        let after = self.stepped(reply, now);
        if agenda.len() > 0 {
            let s = self.popped();
            let task = agenda[0];
            assert(self.follows_focus(task));
            if task is Focus {
                self.lemma_focus_step(reply, now);
            } else if task is Recolor {
                self.lemma_recolor(reply, now);
                assert(after.state.agenda =~= s.agenda);
                assert forall|i: int| 0 <= i < after.state.agenda.len() implies after.follows_focus(
                    #[trigger] after.state.agenda[i],
                ) by {
                    assert(self.follows_focus(agenda[i + 1]));
                }
                assert forall|i: int, j: int|
                    0 <= i < j < after.state.agenda.len() && looks_at_focus(
                        #[trigger] after.state.agenda[i],
                    ) implies lasting(#[trigger] after.state.agenda[j]) by {
                    assert(looks_at_focus(agenda[i + 1]));
                    assert(lasting(agenda[j + 1]));
                }
                assert forall|w: u32| #[trigger] after.screen.contains_key(w) && self.stale(
                    w,
                ) implies recolors(task, w) by {
                    let i = choose|i: int| 0 <= i < agenda.len() && recolors(#[trigger] agenda[i], w);
                    if i > 0 {
                        assert(neutral(agenda[0]));
                    }
                }
            } else {
                self.lemma_stale_kept(reply, now);
                if self.state.borders.active_only {
                    self.lemma_visible_step(reply, now);
                }
                let tasks = self.lemma_watching_tasks(reply, now);
                assert(after.state.borders.focused_wid == self.state.borders.focused_wid);
                assert forall|i: int| 0 <= i < after.state.agenda.len() implies after.follows_focus(
                    #[trigger] after.state.agenda[i],
                ) by {
                    if i >= tasks.len() {
                        assert(after.state.agenda[i] == agenda[i - tasks.len() + 1]);
                        assert(self.follows_focus(agenda[i - tasks.len() + 1]));
                    } else {
                        assert(after.state.agenda[i] == tasks[i]);
                    }
                }
                assert forall|i: int, j: int|
                    0 <= i < j < after.state.agenda.len() && looks_at_focus(
                        #[trigger] after.state.agenda[i],
                    ) implies lasting(#[trigger] after.state.agenda[j]) by {
                    if i >= tasks.len() {
                        assert(after.state.agenda[i] == agenda[i - tasks.len() + 1]);
                        assert(after.state.agenda[j] == agenda[j - tasks.len() + 1]);
                    } else {
                        assert(after.state.agenda[i] == tasks[i]);
                        assert(looks_at_focus(agenda[0]));
                        assert(after.state.agenda[j] == agenda[j - tasks.len() + 1]);
                    }
                }
            }
        }
    }

    /// The tasks that follow from one that neither takes over nor shows a change of
    /// focus, while all there is to do is to follow the focus and to reconcile.
    proof fn lemma_watching_tasks(self, reply: ReplyView, now: u64) -> (tasks: Seq<Task>)
        requires
            self.watching(),
            self.state.agenda.len() > 0,
            !(self.state.agenda[0] is Focus),
            !(self.state.agenda[0] is Recolor),
        ensures
            self.stepped(reply, now).state.agenda == tasks + self.popped().agenda,
            forall|i: int|
                0 <= i < tasks.len() ==> self.follows_focus(#[trigger] tasks[i]) && !(
                tasks[i] is Recolor),
            forall|i: int|
                0 <= i < tasks.len() && looks_at_focus(#[trigger] tasks[i]) ==> looks_at_focus(
                    self.state.agenda[0],
                ) && tasks.len() == 1,
    {
        let s = self.popped();
        let task = self.state.agenda[0];
        let b = s.borders;
        assert(self.follows_focus(task));
        let nothing: Seq<Task> = seq![];
        assert(nothing + s.agenda =~= s.agenda);
        match task {
            Task::UpdateFocus => seq![Task::Focus],
            Task::Reconcile(report) => b.targets().map_values(|w: u32| Task::Sync(w, report)),
            Task::Sync(w, report) => if b.tracks(w) {
                seq![Task::Synced(w, report)]
            } else {
                nothing
            },
            Task::AddFresh(w) => if b.tracks(w) {
                nothing
            } else {
                seq![Task::Admit(w)]
            },
            Task::Admit(w) => if b.admits(reply.facts()) {
                seq![Task::Place(w, reply.facts().bounds->0)]
            } else {
                nothing
            },
            Task::Place(w, bounds) => if b.covered(w, bounds, reply.bounds()) {
                nothing
            } else {
                seq![Task::Attach(w, bounds)]
            },
            _ => nothing,
        }
    }

    proof fn lemma_focus_step(self, reply: ReplyView, now: u64)
        requires
            self.sound(),
            self.watching(),
            self.state.agenda.len() > 0,
            self.state.agenda[0] is Focus,
        ensures
            self.stepped(reply, now).watching(),
    {
        let agenda = self.state.agenda;
        let after = self.stepped(reply, now);
        let s = self.popped();
        let b = s.borders;
        let old_wid = b.focused_wid;
        let front = after.state.borders.focused_wid;
        assert(after.screen == self.screen);
        assert(looks_at_focus(agenda[0]));
        assert forall|i: int| 0 <= i < s.agenda.len() implies lasting(#[trigger] s.agenda[i]) by {
            assert(lasting(agenda[i + 1]));
        }
        assert forall|w: u32| !self.stale(w) by {
            if self.stale(w) {
                let i = choose|i: int| 0 <= i < agenda.len() && recolors(#[trigger] agenda[i], w);
                assert(neutral(agenda[0]));
            }
        }
        let first: Seq<Task> = if b.tracks(front) {
            seq![]
        } else {
            seq![Task::AddFresh(front), Task::Subscribe(front)]
        };
        let tasks: Seq<Task> = if front != old_wid {
            first + seq![
                Task::Sync(old_wid, false),
                Task::Sync(front, false),
                Task::Recolor(old_wid, front),
            ]
        } else if after.state.agenda.len() > s.agenda.len() {
            seq![Task::AddFresh(front), Task::FocusRetry(front)]
        } else {
            seq![]
        };
        assert(after.state.agenda =~= tasks + s.agenda);
        if front != old_wid {
            let last = tasks.len() - 1;
            assert(after.state.agenda[last] == Task::Recolor(old_wid, front));
            assert(recolors(after.state.agenda[last], old_wid));
            assert(recolors(after.state.agenda[last], front));
            assert(after.stale(old_wid) && after.stale(front));
        }
        assert forall|i: int| 0 <= i < after.state.agenda.len() implies after.follows_focus(
            #[trigger] after.state.agenda[i],
        ) && (i < tasks.len() ==> !looks_at_focus(after.state.agenda[i])) && (i >= tasks.len()
            ==> lasting(after.state.agenda[i])) by {
            if i >= tasks.len() {
                assert(after.state.agenda[i] == s.agenda[i - tasks.len()]);
            }
        }
    }

    proof fn lemma_watching_at(self, replies: spec_fn(nat) -> (ReplyView, u64), n: nat)
        requires
            self.sound(),
            self.watching(),
        ensures
            self.at(replies, n).watching(),
        decreases n,
    {
        if n > 0 {
            let m = (n - 1) as nat;
            let (reply, now) = replies(m);
            self.lemma_watching_at(replies, m);
            self.lemma_sound_at(replies, m);
            self.at(replies, m).lemma_watching_step(reply, now);
        }
    }

    /// In active-only mode, polling moves the one visible overlay along with the focus:
    /// where the focused overlay alone was visible before, it is so afterwards, for the
    /// window that has the focus then, whether or not the overlays are reconciled too.
    pub proof fn law_polling_keeps_only_focused_visible(
        self,
        reconcile: bool,
        replies: spec_fn(nat) -> (ReplyView, u64),
        n: nat,
    )
        requires
            self.sound(),
            self.at_rest(),
            self.only_focused_visible(),
            self.given(poll_tasks(reconcile)).at(replies, n).at_rest(),
        ensures
            self.given(poll_tasks(reconcile)).at(replies, n).only_focused_visible(),
    {
        self.law_new_work_keeps_soundness(None, seq![], reconcile);
        let given = self.given(poll_tasks(reconcile));
        assert(given.state.agenda =~= poll_tasks(reconcile));
        assert(given.watching());
        given.lemma_watching_at(replies, n);
    }

    /// In active-only mode, reconciling an overlay whose target does not have the focus
    /// shows nothing that was hidden.
    pub proof fn law_reconciled_overlays_stay_hidden(
        self,
        reply: ReplyView,
        now: u64,
        w: u32,
    )
        requires
            self.sound(),
            self.state.agenda.len() > 0,
            self.state.agenda[0] is Synced,
            self.state.borders.active_only,
            w != self.state.borders.focused_wid,
            self.stepped(reply, now).screen.contains_key(w),
        ensures
            self.screen.contains_key(w),
            self.stepped(reply, now).screen[w].visible == self.screen[w].visible,
    {
        let x = self.state.agenda[0]->Synced_0;
        lemma_screen_sync(self.screen, self.state.borders, x, reply.facts());
    }

    /// In active-only mode, the focused overlay is visible, unless a change of focus is
    /// still to be shown.
    pub open spec fn focused_visible(self) -> bool {
        let focused = self.state.borders.focused_wid;
        self.state.borders.active_only && self.screen.contains_key(focused) && !self.stale(focused)
            ==> self.screen[focused].visible
    }

    /// No event is left to be taken into account.
    pub open spec fn no_events(self) -> bool {
        forall|i: int|
            0 <= i < self.state.agenda.len() ==> !(#[trigger] self.state.agenda[i] is Handle)
    }

    /// Nothing but an event hides the focused overlay.
    proof fn lemma_focused_visible_step(self, reply: ReplyView, now: u64)
        requires
            self.sound(),
            self.no_events(),
            self.focused_visible(),
        ensures
            self.stepped(reply, now).focused_visible(),
    {
        let b = self.state.borders;
        let agenda = self.state.agenda;
        if b.active_only && agenda.len() > 0 {
            let screen = self.screen_at_reply(reply);
            let after = self.stepped(reply, now);
            let task = agenda[0];
            if !(task is Focus) && !(task is Recolor) {
                self.lemma_stale_kept(reply, now);
            }
            match task {
                Task::Focus => {
                    self.lemma_focus_change(reply, now);
                },
                Task::Recolor(old_wid, front) => {
                    self.lemma_recolor(reply, now);
                },
                Task::Reap => {
                    self.lemma_reap(reply, now);
                },
                Task::Place(w, bounds) => {
                    lemma_screen_close(screen, b.replaced(w, bounds, reply.bounds()));
                },
                Task::Attach(w, bounds) => {
                    lemma_screen_one(screen, CommandView::OrderAbove(w));
                },
                Task::Synced(w, report) => {
                    lemma_screen_sync(screen, b, w, reply.facts());
                },
                Task::Finish => {
                    self.lemma_finish(reply, now);
                },
                Task::HideUnfocused => {
                    let order = |w: u32| CommandView::OrderOut(w);
                    let others = |w: u32| w != b.focused_wid;
                    assert forall|w: u32| #[trigger] orders(order(w), w) by {}
                    lemma_screen_order(screen, b.targets().filter(others), order);
                    lemma_filter_members(b.targets(), others);
                },
                Task::HideUnlessFocused(w) => {
                    lemma_screen_one(screen, CommandView::OrderOut(w));
                },
                Task::ShowIfAllowed(w) => {
                    lemma_screen_one(screen, CommandView::OrderAbove(w));
                },
                Task::FocusRetry(w) => {
                    lemma_screen_two(
                        screen,
                        CommandView::Subscribe(seq![w]),
                        CommandView::OrderAbove(w),
                    );
                },
                Task::Subscribe(w) => {
                    lemma_screen_one(screen, CommandView::Subscribe(seq![w]));
                },
                Task::SubscribeAll => {
                    lemma_screen_one(screen, CommandView::Subscribe(b.targets()));
                },
                Task::SubscribeIfAdded => {
                    lemma_screen_one(screen, CommandView::Subscribe(b.targets()));
                },
                _ => {},
            }
        }
    }

    /// A change of focus is to be shown.
    proof fn lemma_focus_change(self, reply: ReplyView, now: u64)
        requires
            self.sound(),
            self.state.agenda.len() > 0,
            self.state.agenda[0] is Focus,
        ensures
            ({
                let after = self.stepped(reply, now);
                let front = after.state.borders.focused_wid;
                &&& after.screen == self.screen
                &&& front == self.state.borders.focused_wid || after.stale(front)
                &&& forall|w: u32| !self.stale(w)
            }),
    {
        let agenda = self.state.agenda;
        let after = self.stepped(reply, now);
        let s = self.popped();
        let old_wid = s.borders.focused_wid;
        let front = after.state.borders.focused_wid;
        assert forall|w: u32| !self.stale(w) by {
            if self.stale(w) {
                let i = choose|i: int| 0 <= i < agenda.len() && recolors(#[trigger] agenda[i], w);
                assert(neutral(agenda[0]));
            }
        }
        if front != old_wid {
            let first: Seq<Task> = if s.borders.tracks(front) {
                seq![]
            } else {
                seq![Task::AddFresh(front), Task::Subscribe(front)]
            };
            let last = first.len() + 2;
            assert(after.state.agenda[last as int] == Task::Recolor(old_wid, front));
            assert(recolors(after.state.agenda[last as int], front));
        }
    }

    proof fn lemma_focused_visible_at(self, replies: spec_fn(nat) -> (ReplyView, u64), n: nat)
        requires
            self.sound(),
            self.no_events(),
            self.focused_visible(),
        ensures
            self.at(replies, n).no_events(),
            self.at(replies, n).focused_visible(),
        decreases n,
    {
        if n > 0 {
            let m = (n - 1) as nat;
            let (reply, now) = replies(m);
            self.lemma_focused_visible_at(replies, m);
            self.lemma_sound_at(replies, m);
            let before = self.at(replies, m);
            let after = before.stepped(reply, now);
            before.lemma_focused_visible_step(reply, now);
            if before.state.agenda.len() > 0 {
                let tasks = lemma_follow_ups(before.popped(), before.state.agenda[0], reply, now);
                reveal(expected);
                assert forall|i: int| 0 <= i < after.state.agenda.len() implies !(
                #[trigger] after.state.agenda[i] is Handle) by {
                    if i < tasks.len() {
                        assert(after.state.agenda[i] == tasks[i]);
                    } else {
                        assert(after.state.agenda[i] == before.state.agenda[i - tasks.len() + 1]);
                    }
                }
            }
        }
    }

    /// In active-only mode, once a session has started, the focused overlay is visible,
    /// and no other one. From there on, batches and polls keep it so.
    pub proof fn law_start_leaves_only_focused_visible(
        self,
        target: Option<u32>,
        replies: spec_fn(nat) -> (ReplyView, u64),
        n: nat,
    )
        requires
            self.sound(),
            self.at_rest(),
            self.screen == Map::<u32, Drawn>::empty(),
            self.given(start_tasks(target)).at(replies, n).at_rest(),
        ensures
            self.given(start_tasks(target)).at(replies, n).only_focused_visible(),
    {
        self.law_new_work_keeps_soundness(target, seq![], false);
        let given = self.given(start_tasks(target));
        assert(given.state.agenda =~= start_tasks(target));
        given.lemma_focused_visible_at(replies, n);
        self.law_start_leaves_no_other_visible(target, replies, n);
        let world = given.at(replies, n);
        assert(!world.stale(world.state.borders.focused_wid));
    }

    /// A window that is hidden takes its border off the screen.
    pub proof fn law_hidden_windows_have_no_visible_border(
        self,
        reply: ReplyView,
        now: u64,
        w: u32,
    )
        requires
            self.sound(),
            self.state.agenda.len() > 0,
            self.state.agenda[0] == Task::Handle(Event::Hide(w)),
            self.state.borders.tracks(w),
        ensures
            self.stepped(reply, now).screen.contains_key(w),
            !self.stepped(reply, now).screen[w].visible,
    {
        lemma_screen_one(self.screen, CommandView::OrderOut(w));
        assert(self.screen.dom().contains(w));
    }

    /// A window that is shown again gets its border back on the screen, unless only the
    /// focused border is to be visible and the window does not have the focus.
    pub proof fn law_shown_windows_have_a_visible_border(
        self,
        reply: ReplyView,
        now: u64,
        w: u32,
    )
        requires
            self.sound(),
            self.state.agenda.len() > 0,
            self.state.agenda[0] == Task::ShowIfAllowed(w),
            self.state.borders.tracks(w),
            !self.state.borders.active_only || w == self.state.borders.focused_wid,
        ensures
            self.stepped(reply, now).screen.contains_key(w),
            self.stepped(reply, now).screen[w].visible,
    {
        lemma_screen_one(self.screen, CommandView::OrderAbove(w));
        assert(self.screen.dom().contains(w));
    }
}

}
