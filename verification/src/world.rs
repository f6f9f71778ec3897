//! The session and the screen together: what stays true of the overlays on the
//! screen whatever the window server reports.

use crate::agenda::{
    expected, law_session_comes_to_rest, lemma_follow_ups, neutral, opener, state_at,
};
use crate::borders::{Borders, CommandView, Overlay, WindowFacts};
use crate::event::Event;
use crate::order::{in_order, lemma_finite_in_order};
use crate::plan::{
    batch_tasks, poll_tasks, start_tasks, NewOverlay, QueryView, ReplyView, State, Task,
};
use crate::screen::{
    gentle, lemma_screen_add, lemma_screen_close, lemma_screen_gentle, lemma_screen_one,
    lemma_screen_two, screen_after, Drawn,
};
use crate::sequence::lemma_filter_members;
use crate::surface::trackable;
use vstd::prelude::*;

verus! {

/// The task is about to draw the window in its color.
pub open spec fn recolors(task: Task, w: u32) -> bool {
    task matches Task::Recolor(old_wid, front) && (w == old_wid || w == front)
}

/// The session, the overlays on the screen by target, and the overlay that was asked
/// for last, if it is not there yet.
pub struct World {
    pub state: State,
    pub screen: Map<u32, Drawn>,
    pub making: Option<NewOverlay>,
}

impl World {
    /// The overlays on the screen once the reply has come. A new overlay is visible.
    pub open spec fn screen_at_reply(self, reply: ReplyView) -> Map<u32, Drawn> {
        match (self.making, reply.number()) {
            (Some(n), Some(_)) => self.screen.insert(
                n.target_wid,
                Drawn { visible: true, bounds: n.bounds, color: n.color },
            ),
            _ => self.screen,
        }
    }

    /// One step, and what it does on the screen.
    pub open spec fn stepped(self, reply: ReplyView, now: u64) -> World {
        let (state, outcome) = self.state.stepped(reply, now);
        World {
            state,
            screen: screen_after(self.screen_at_reply(reply), outcome.commands),
            making: match outcome.ask {
                QueryView::Create(n) => Some(n),
                _ => None,
            },
        }
    }

    /// The sets and maps that the session keeps are finite, as those of any running
    /// session are.
    pub open spec fn finite(self) -> bool {
        &&& self.state.borders.overlays.dom().finite()
        &&& self.state.pending.dom().finite()
        &&& self.state.moved.finite()
        &&& self.state.resized.finite()
        &&& self.state.destroyed.finite()
    }

    /// Tasks that go on where a question was asked come first, and an overlay is
    /// being made exactly when the first task waits for it.
    pub open spec fn orderly(self) -> bool {
        let agenda = self.state.agenda;
        let borders = self.state.borders;
        &&& forall|i: int| 1 <= i < agenda.len() ==> opener(#[trigger] agenda[i])
        &&& agenda.len() > 0 ==> match agenda[0] {
            Task::Admit(w) => !borders.tracks(w),
            Task::Place(w, bounds) => !borders.tracks(w) && trackable(
                bounds,
                borders.border_width,
            ),
            Task::Attach(w, bounds) => {
                &&& !borders.tracks(w)
                &&& trackable(bounds, borders.border_width)
                &&& self.making == Some(self.state.new_overlay(w, bounds))
            },
            _ => true,
        }
        &&& self.making is Some ==> agenda.len() > 0 && agenda[0] is Attach
    }

    /// The overlays on the screen are the recorded ones, laid out as recorded, around
    /// windows that are large enough.
    pub open spec fn faithful(self) -> bool {
        let overlays = self.state.borders.overlays;
        &&& self.screen.dom() == overlays.dom()
        &&& forall|w: u32| #[trigger]
            overlays.contains_key(w) ==> self.screen[w].bounds == overlays[w].window.target_bounds()
                && trackable(self.screen[w].bounds, self.state.borders.border_width)
    }

    /// The window waits for being drawn in its color.
    pub open spec fn stale(self, w: u32) -> bool {
        exists|i: int|
            0 <= i < self.state.agenda.len() && recolors(#[trigger] self.state.agenda[i], w)
    }

    /// Every overlay has the color that its window's border has to have, but for the
    /// two windows that a change of focus concerns, as long as it is not shown.
    pub open spec fn colored(self) -> bool {
        let agenda = self.state.agenda;
        &&& forall|i: int|
            0 <= i < agenda.len() && #[trigger] agenda[i] is Recolor ==> agenda[i]->Recolor_1
                == self.state.borders.focused_wid && (forall|j: int|
                0 <= j < i ==> neutral(#[trigger] agenda[j]))
        &&& forall|w: u32| #[trigger]
            self.screen.contains_key(w) && !self.stale(w) ==> self.screen[w].color
                == self.state.borders.color_of(w)
    }

    pub open spec fn sound(self) -> bool {
        &&& self.finite()
        &&& self.orderly()
        &&& self.faithful()
        &&& self.colored()
    }
}

/// What reconciling an overlay does on the screen.
pub proof fn lemma_screen_sync(screen: Map<u32, Drawn>, b: Borders, w: u32, facts: WindowFacts)
    requires
        screen.dom() == b.overlays.dom(),
    ensures
        screen_after(screen, b.sync_commands(w, facts)) == (if b.sync_removes(w, facts) {
            screen.remove(w)
        } else if b.tracks(w) && b.out_of_place(w, facts.bounds->0) {
            screen.insert(
                w,
                Drawn {
                    visible: screen[w].visible || b.may_show(w),
                    bounds: facts.bounds->0,
                    color: screen[w].color,
                },
            )
        } else {
            screen
        }),
{
    let after = screen_after(screen, b.sync_commands(w, facts));
    if b.sync_removes(w, facts) {
        lemma_screen_one(screen, CommandView::Close(w));
    } else if b.tracks(w) && b.out_of_place(w, facts.bounds->0) {
        let follow = CommandView::SetBounds(w, facts.bounds->0);
        let show = CommandView::OrderAbove(w);
        assert(screen.dom().contains(w));
        if b.may_show(w) {
            assert(b.sync_commands(w, facts) =~= seq![follow, show]);
            lemma_screen_two(screen, follow, show);
        } else {
            assert(b.sync_commands(w, facts) =~= seq![follow]);
            lemma_screen_one(screen, follow);
        }
        assert(after =~= screen.insert(
            w,
            Drawn {
                visible: screen[w].visible || b.may_show(w),
                bounds: facts.bounds->0,
                color: screen[w].color,
            },
        ));
    }
}

impl World {
    /// The state without its first task.
    pub open spec fn popped(self) -> State {
        State { agenda: self.state.agenda.skip(1), ..self.state }
    }

    proof fn lemma_finite_step(self, reply: ReplyView, now: u64)
        requires
            self.finite(),
        ensures
            self.stepped(reply, now).finite(),
    {
        if self.state.agenda.len() > 0 {
            let s = self.popped();
            match self.state.agenda[0] {
                Task::Handle(event) => {},
                Task::Reap => {
                    assert(s.borders.overlays.remove_keys(s.destroyed).dom()
                        =~= s.borders.overlays.dom().difference(s.destroyed));
                },
                Task::Prune => {
                    assert(s.pending.remove_keys(s.ready.to_set()).dom()
                        =~= s.pending.dom().difference(s.ready.to_set()));
                },
                Task::Place(w, bounds) => {
                    let gone = s.borders.replaced(w, bounds, reply.bounds()).to_set();
                    assert(s.borders.overlays.remove_keys(gone).dom()
                        =~= s.borders.overlays.dom().difference(gone));
                },
                Task::Attach(w, bounds) => {},
                Task::Synced(w, report) => {},
                _ => {},
            }
        }
    }

    #[verifier::spinoff_prover]
    proof fn lemma_orderly_step(self, reply: ReplyView, now: u64)
        requires
            self.orderly(),
        ensures
            self.stepped(reply, now).orderly(),
    {
        if self.state.agenda.len() > 0 {
            let s = self.popped();
            let task = self.state.agenda[0];
            let tasks = lemma_follow_ups(s, task, reply, now);
            let after = self.stepped(reply, now);
            assert(forall|i: int| 0 <= i < s.agenda.len() ==> opener(#[trigger] s.agenda[i]));
            assert forall|i: int| 1 <= i < after.state.agenda.len() implies opener(
                #[trigger] after.state.agenda[i],
            ) by {
                reveal(expected);
                if i < tasks.len() {
                    assert(after.state.agenda[i] == tasks[i]);
                } else {
                    assert(after.state.agenda[i] == s.agenda[i - tasks.len()]);
                }
            }
            match task {
                Task::AddFresh(w) => {
                    assert(after.orderly());
                },
                Task::Admit(w) => {
                    assert(after.orderly());
                },
                Task::Place(w, bounds) => {
                    assert(after.orderly());
                },
                _ => {
                    assert(after.making is None);
                    if after.state.agenda.len() > 0 {
                        let head = after.state.agenda[0];
                        assert(!(head is Admit) && !(head is Place) && !(head is Attach)) by {
                            reveal(expected);
                            if tasks.len() > 0 {
                                assert(head == tasks[0]);
                            } else {
                                assert(head == s.agenda[0]);
                            }
                        }
                    }
                },
            }
        }
    }

    /// Most tasks touch nothing but what is visible.
    pub proof fn lemma_mostly_gentle(self, reply: ReplyView, now: u64)
        requires
            self.state.agenda.len() > 0,
            !(self.state.agenda[0] is Reap),
            !(self.state.agenda[0] is Place),
            !(self.state.agenda[0] is Synced),
            !(self.state.agenda[0] is Recolor),
        ensures
            forall|i: int|
                0 <= i < self.state.stepped(reply, now).1.commands.len() ==> gentle(
                    #[trigger] self.state.stepped(reply, now).1.commands[i],
                ),
    {
        let b = self.state.borders;
        let enforced = b.enforce_commands();
        assert(forall|i: int| 0 <= i < enforced.len() ==> gentle(#[trigger] enforced[i]));
        let hidden = b.hide_unfocused_commands();
        assert(forall|i: int| 0 <= i < hidden.len() ==> gentle(#[trigger] hidden[i]));
        let subscribed = b.subscribe_commands();
        assert(forall|i: int| 0 <= i < subscribed.len() ==> gentle(#[trigger] subscribed[i]));
    }

    /// Reaping closes exactly the overlays of the windows that are gone.
    pub proof fn lemma_reap(self, reply: ReplyView, now: u64)
        requires
            self.finite(),
            self.screen.dom() == self.state.borders.overlays.dom(),
            self.making is None,
            self.state.agenda.len() > 0,
            self.state.agenda[0] is Reap,
        ensures
            self.stepped(reply, now).screen == self.screen.remove_keys(self.state.destroyed),
    {
        let b = self.state.borders;
        let gone = in_order(self.state.destroyed);
        lemma_finite_in_order(self.state.destroyed);
        let had = |w: u32| b.tracks(w);
        lemma_filter_members(gone, had);
        lemma_screen_close(self.screen, gone.filter(had));
        assert(self.screen.remove_keys(gone.filter(had).to_set()) =~= self.screen.remove_keys(
            self.state.destroyed,
        )) by {
            assert forall|w: u32| self.screen.contains_key(w) implies gone.filter(
                had,
            ).to_set().contains(w) == self.state.destroyed.contains(w) by {
                assert(gone.to_set().contains(w) == gone.contains(w));
            }
        }
    }

    proof fn lemma_faithful_step(self, reply: ReplyView, now: u64)
        requires
            self.finite(),
            self.orderly(),
            self.faithful(),
        ensures
            self.stepped(reply, now).faithful(),
    {
        if self.state.agenda.len() > 0 {
            let s = self.popped();
            let b = s.borders;
            let screen = self.screen_at_reply(reply);
            let after = self.stepped(reply, now);
            match self.state.agenda[0] {
                Task::Reap => {
                    self.lemma_reap(reply, now);
                    assert(after.screen.dom() =~= after.state.borders.overlays.dom());
                    assert(after.faithful());
                },
                Task::Place(w, bounds) => {
                    lemma_screen_close(screen, b.replaced(w, bounds, reply.bounds()));
                    assert(after.screen.dom() =~= after.state.borders.overlays.dom());
                    assert(after.faithful());
                },
                Task::Synced(w, report) => {
                    let facts = reply.facts();
                    lemma_screen_sync(screen, b, w, facts);
                    assert(after.screen.dom() =~= after.state.borders.overlays.dom());
                    assert(after.faithful());
                },
                Task::Recolor(old_wid, front) => {
                    self.lemma_recolor(reply, now);
                    assert(after.faithful());
                },
                _ => {
                    self.lemma_mostly_gentle(reply, now);
                    lemma_screen_gentle(screen, self.state.stepped(reply, now).1.commands);
                    assert(after.screen.dom() =~= after.state.borders.overlays.dom());
                    assert(after.faithful());
                },
            }
        }
    }

    /// Showing a change of focus draws both windows in their colors and, in
    /// active-only mode, leaves the second one visible alone of the two.
    pub proof fn lemma_recolor(self, reply: ReplyView, now: u64)
        requires
            self.screen.dom() == self.state.borders.overlays.dom(),
            self.making is None,
            self.state.agenda.len() > 0,
            self.state.agenda[0] is Recolor,
        ensures
            ({
                let after = self.stepped(reply, now).screen;
                let b = self.state.borders;
                let old_wid = self.state.agenda[0]->Recolor_0;
                let front = self.state.agenda[0]->Recolor_1;
                &&& after.dom() == self.screen.dom()
                &&& forall|w: u32| #[trigger]
                    self.screen.contains_key(w) ==> after[w] == (Drawn {
                        visible: if b.active_only && w == front {
                            true
                        } else if b.active_only && w == old_wid {
                            false
                        } else {
                            self.screen[w].visible
                        },
                        bounds: self.screen[w].bounds,
                        color: if w == old_wid || w == front {
                            b.color_of(w)
                        } else {
                            self.screen[w].color
                        },
                    })
            }),
    {
        let b = self.state.borders;
        let old_wid = self.state.agenda[0]->Recolor_0;
        let front = self.state.agenda[0]->Recolor_1;
        let first = if b.active_only {
            b.hide_commands(old_wid) + b.unhide_commands(front)
        } else {
            seq![]
        };
        let one = b.redraw_commands(old_wid);
        let two = b.redraw_commands(front);
        lemma_screen_add(self.screen, first + one, two);
        lemma_screen_add(self.screen, first, one);
        if b.active_only {
            lemma_screen_add(self.screen, b.hide_commands(old_wid), b.unhide_commands(front));
        }
        let s0 = if b.active_only {
            screen_after(self.screen, b.hide_commands(old_wid))
        } else {
            self.screen
        };
        let s1 = screen_after(self.screen, first);
        let s2 = screen_after(s1, one);
        lemma_screen_one(self.screen, CommandView::OrderOut(old_wid));
        lemma_screen_one(s0, CommandView::OrderAbove(front));
        lemma_screen_one(s1, CommandView::SetColor(old_wid, b.color_of(old_wid)));
        lemma_screen_one(s2, CommandView::SetColor(front, b.color_of(front)));
        assert(self.stepped(reply, now).screen.dom() =~= self.screen.dom());
    }

    /// But for showing a change of focus, a step draws nothing but the overlay that
    /// was made for it, in the color that its window has to have.
    proof fn lemma_colors_kept(self, reply: ReplyView, now: u64)
        requires
            self.finite(),
            self.orderly(),
            self.faithful(),
            self.state.agenda.len() > 0,
            !(self.state.agenda[0] is Recolor),
        ensures
            forall|w: u32| #[trigger]
                self.stepped(reply, now).screen.contains_key(w) ==> {
                    let after = self.stepped(reply, now);
                    ||| after.screen[w].color == self.state.borders.color_of(w)
                    ||| self.screen.contains_key(w) && after.screen[w].color == self.screen[w].color
                },
    {
        let s = self.popped();
        let b = s.borders;
        let screen = self.screen_at_reply(reply);
        let after = self.stepped(reply, now);
        match self.state.agenda[0] {
            Task::Reap => {
                self.lemma_reap(reply, now);
            },
            Task::Place(w, bounds) => {
                lemma_screen_close(screen, b.replaced(w, bounds, reply.bounds()));
            },
            Task::Synced(w, report) => {
                let facts = reply.facts();
                lemma_screen_sync(screen, b, w, facts);
            },
            _ => {
                self.lemma_mostly_gentle(reply, now);
                lemma_screen_gentle(screen, self.state.stepped(reply, now).1.commands);
            },
        }
    }

    /// Changes of focus wait to be shown behind neutral tasks only.
    proof fn lemma_recolor_behind_neutral(self, reply: ReplyView, now: u64)
        requires
            self.colored(),
        ensures
            ({
                let after = self.stepped(reply, now).state;
                forall|i: int|
                    0 <= i < after.agenda.len() && #[trigger] after.agenda[i] is Recolor
                        ==> after.agenda[i]->Recolor_1 == after.borders.focused_wid && (forall|j: int|
                        0 <= j < i ==> neutral(#[trigger] after.agenda[j]))
            }),
    {
        if self.state.agenda.len() > 0 {
            let s = self.popped();
            let agenda = self.state.agenda;
            let task = agenda[0];
            let tasks = lemma_follow_ups(s, task, reply, now);
            let after = self.stepped(reply, now).state;
            reveal(expected);
            assert(neutral(task) ==> after.borders.focused_wid == s.borders.focused_wid);
            assert forall|i: int|
                0 <= i < after.agenda.len() && #[trigger] after.agenda[i] is Recolor implies after.agenda[i]->Recolor_1
                == after.borders.focused_wid && (forall|j: int|
                0 <= j < i ==> neutral(#[trigger] after.agenda[j])) by {
                if i < tasks.len() {
                    assert(after.agenda[i] == tasks[i]);
                    assert forall|j: int| 0 <= j < i implies neutral(#[trigger] after.agenda[j]) by {
                        assert(after.agenda[j] == tasks[j]);
                    }
                } else {
                    let k = i - tasks.len() + 1;
                    assert(after.agenda[i] == agenda[k]);
                    assert(neutral(agenda[0]));
                    assert forall|j: int| 0 <= j < i implies neutral(#[trigger] after.agenda[j]) by {
                        if j < tasks.len() {
                            assert(after.agenda[j] == tasks[j]);
                        } else {
                            assert(after.agenda[j] == agenda[j - tasks.len() + 1]);
                        }
                    }
                }
            }
        }
    }

    proof fn lemma_colored_step(self, reply: ReplyView, now: u64)
        requires
            self.sound(),
        ensures
            self.stepped(reply, now).colored(),
    {
        let after = self.stepped(reply, now);
        self.lemma_recolor_behind_neutral(reply, now);
        if self.state.agenda.len() > 0 {
            let s = self.popped();
            let agenda = self.state.agenda;
            let task = agenda[0];
            let tasks = lemma_follow_ups(s, task, reply, now);
            reveal(expected);
            if task is Recolor {
                self.lemma_recolor(reply, now);
                assert(tasks.len() == 0);
                assert forall|w: u32| #[trigger] after.screen.contains_key(w) && !after.stale(
                    w,
                ) implies after.screen[w].color == after.state.borders.color_of(w) by {
                    if self.stale(w) {
                        let i = choose|i: int| 0 <= i < agenda.len() && recolors(#[trigger] agenda[i], w);
                        if i > 0 {
                            assert(neutral(agenda[0]));
                        }
                    }
                }
            } else {
                self.lemma_colors_kept(reply, now);
                assert forall|w: u32| #[trigger] after.screen.contains_key(w) && !after.stale(
                    w,
                ) implies after.screen[w].color == after.state.borders.color_of(w) by {
                    if self.stale(w) {
                        let i = choose|i: int| 0 <= i < agenda.len() && recolors(#[trigger] agenda[i], w);
                        assert(i > 0);
                        assert(after.state.agenda[tasks.len() + i - 1] == agenda[i]);
                    }
                    if after.state.borders.focused_wid != self.state.borders.focused_wid {
                        assert(task is Focus);
                        let old_wid = self.state.borders.focused_wid;
                        let front = after.state.borders.focused_wid;
                        let last = tasks.len() - 1;
                        assert(after.state.agenda[last] == Task::Recolor(old_wid, front));
                        assert(recolors(after.state.agenda[last], old_wid));
                        assert(recolors(after.state.agenda[last], front));
                    }
                }
            }
        }
    }

    /// Soundness is kept by every step, whatever the reply.
    pub proof fn law_soundness_is_kept(self, reply: ReplyView, now: u64)
        requires
            self.sound(),
        ensures
            self.stepped(reply, now).sound(),
    {
        self.lemma_finite_step(reply, now);
        self.lemma_orderly_step(reply, now);
        self.lemma_faithful_step(reply, now);
        self.lemma_colored_step(reply, now);
    }

    /// With more tasks at the end.
    pub open spec fn given(self, tasks: Seq<Task>) -> World {
        World { state: State { agenda: self.state.agenda + tasks, ..self.state }, ..self }
    }

    /// The world after `n` steps, the replies and the times being given.
    pub open spec fn at(self, replies: spec_fn(nat) -> (ReplyView, u64), n: nat) -> World
        decreases n,
    {
        if n == 0 {
            self
        } else {
            let (reply, now) = replies((n - 1) as nat);
            self.at(replies, (n - 1) as nat).stepped(reply, now)
        }
    }

    pub open spec fn at_rest(self) -> bool {
        self.state.agenda.len() == 0
    }

    /// A session without overlays, before a screen without overlays, is sound.
    pub proof fn law_new_session_is_sound(self)
        requires
            self.finite(),
            self.at_rest(),
            self.making is None,
            self.screen == Map::<u32, Drawn>::empty(),
            self.state.borders.overlays == Map::<u32, Overlay>::empty(),
        ensures
            self.sound(),
    {
    }

    /// Starting, taking in events and polling keep soundness.
    pub proof fn law_new_work_keeps_soundness(
        self,
        target: Option<u32>,
        events: Seq<Event>,
        reconcile: bool,
    )
        requires
            self.sound(),
        ensures
            self.given(start_tasks(target)).sound(),
            self.given(batch_tasks(events)).sound(),
            self.given(poll_tasks(reconcile)).sound(),
    {
        self.lemma_given(start_tasks(target));
        self.lemma_given(batch_tasks(events));
        self.lemma_given(poll_tasks(reconcile));
    }

    pub proof fn lemma_given(self, tasks: Seq<Task>)
        requires
            self.sound(),
            forall|i: int|
                0 <= i < tasks.len() ==> opener(#[trigger] tasks[i]) && !(tasks[i] is Recolor),
        ensures
            self.given(tasks).sound(),
            forall|w: u32| self.given(tasks).stale(w) == self.stale(w),
    {
        let after = self.given(tasks);
        let agenda = self.state.agenda;
        assert(forall|i: int| 0 <= i < agenda.len() ==> after.state.agenda[i] == agenda[i]);
        assert(forall|i: int|
            agenda.len() <= i < after.state.agenda.len() ==> #[trigger] after.state.agenda[i]
                == tasks[i - agenda.len()]);
        assert forall|w: u32| self.given(tasks).stale(w) == self.stale(w) by {
            if self.stale(w) {
                let i = choose|i: int| 0 <= i < agenda.len() && recolors(#[trigger] agenda[i], w);
                assert(recolors(after.state.agenda[i], w));
            }
            if after.stale(w) {
                let i = choose|i: int|
                    0 <= i < after.state.agenda.len() && recolors(
                        #[trigger] after.state.agenda[i],
                        w,
                    );
                assert(recolors(agenda[i], w));
            }
        }
    }

    pub proof fn lemma_sound_at(self, replies: spec_fn(nat) -> (ReplyView, u64), n: nat)
        requires
            self.sound(),
        ensures
            self.at(replies, n).sound(),
        decreases n,
    {
        if n > 0 {
            let (reply, now) = replies((n - 1) as nat);
            self.lemma_sound_at(replies, (n - 1) as nat);
            self.at(replies, (n - 1) as nat).law_soundness_is_kept(reply, now);
        }
    }

    /// At rest the screen shows exactly the recorded overlays, each around the bounds
    /// that are recorded for its target and in the color that its border has to have:
    /// the active color for the focused window, the inactive one for the others.
    pub proof fn law_screen_is_right_at_rest(
        self,
        replies: spec_fn(nat) -> (ReplyView, u64),
        n: nat,
    )
        requires
            self.sound(),
            self.at(replies, n).at_rest(),
        ensures
            ({
                let world = self.at(replies, n);
                let borders = world.state.borders;
                &&& world.screen.dom() == borders.overlays.dom()
                &&& forall|w: u32| #[trigger]
                    borders.tracks(w) ==> {
                        &&& world.screen[w].bounds == borders.overlays[w].window.target_bounds()
                        &&& trackable(world.screen[w].bounds, borders.border_width)
                        &&& world.screen[w].color == borders.color_of(w)
                    }
            }),
    {
        self.lemma_sound_at(replies, n);
        let world = self.at(replies, n);
        assert forall|w: u32| #[trigger] world.state.borders.tracks(w) implies !world.stale(w)
            && world.screen.contains_key(w) by {
            assert(world.screen.dom().contains(w));
        }
    }

    /// Closing every recorded overlay leaves none on the screen.
    pub proof fn law_closing_all_clears_the_screen(self)
        requires
            self.sound(),
        ensures
            screen_after(
                self.screen,
                self.state.borders.targets().map_values(|w: u32| CommandView::Close(w)),
            ) == Map::<u32, Drawn>::empty(),
    {
        let targets = self.state.borders.targets();
        self.state.borders.lemma_targets();
        lemma_screen_close(self.screen, targets);
        assert(self.screen.remove_keys(targets.to_set()) =~= Map::<u32, Drawn>::empty());
    }

    proof fn lemma_state_at(self, replies: spec_fn(nat) -> (ReplyView, u64), n: nat)
        ensures
            self.at(replies, n).state == state_at(self.state, replies, n),
        decreases n,
    {
        if n > 0 {
            self.lemma_state_at(replies, (n - 1) as nat);
        }
    }

    /// Whatever the window server answers, the work that a session was given comes to
    /// an end.
    pub proof fn law_work_comes_to_an_end(self, replies: spec_fn(nat) -> (ReplyView, u64))
        ensures
            exists|n: nat| (#[trigger] self.at(replies, n)).at_rest(),
    {
        law_session_comes_to_rest(self.state, replies);
        let n = choose|n: nat| (#[trigger] state_at(self.state, replies, n)).agenda.len() == 0;
        self.lemma_state_at(replies, n);
        assert(self.at(replies, n).at_rest());
    }
}

}
