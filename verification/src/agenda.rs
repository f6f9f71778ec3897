//! How the work of a session unfolds: which tasks follow from which, and that it
//! comes to an end.

use crate::event::Event;
use crate::focus::front_window;
use crate::plan::{QueryView, ReplyView, State, Task};
use crate::window::discovered;
use vstd::prelude::*;

verus! {

/// A task that an agenda can hold at any place. The others go on where a question
/// was asked, and are only ever the first.
pub open spec fn opener(task: Task) -> bool {
    match task {
        Task::Prune => false,
        Task::Discovered => false,
        Task::BorderAll => false,
        Task::Synced(..) => false,
        Task::Focus => false,
        Task::Admit(_) => false,
        Task::Place(..) => false,
        Task::Attach(..) => false,
        _ => true,
    }
}

/// A task of those between a change of focus and its being shown.
pub open spec fn neutral(task: Task) -> bool {
    match task {
        Task::AddFresh(_) => true,
        Task::Admit(_) => true,
        Task::Place(..) => true,
        Task::Attach(..) => true,
        Task::Subscribe(_) => true,
        Task::Sync(..) => true,
        Task::Synced(..) => true,
        _ => false,
    }
}

/// How far a task is from having no tasks that follow from it.
pub open spec fn rank(task: Task) -> nat {
    match task {
        Task::Place(..) => 1,
        Task::Sync(..) => 1,
        Task::Admit(_) => 2,
        Task::Reconcile(_) => 2,
        Task::AddFresh(_) => 3,
        Task::Introduce(_) => 4,
        Task::Focus => 4,
        Task::Handle(_) => 4,
        Task::BorderAll => 4,
        Task::Adopt(_) => 5,
        Task::Prune => 5,
        Task::UpdateFocus => 5,
        Task::List => 5,
        Task::Discovered => 6,
        Task::Ripen => 6,
        Task::Discover => 7,
        Task::DiscoverIfNeeded => 8,
        _ => 0,
    }
}

/// What is known of the tasks that follow from a task.
#[verifier::opaque]
pub open spec fn expected(task: Task, tasks: Seq<Task>, old_wid: u32, front: u32) -> bool {
    &&& forall|i: int| 0 <= i < tasks.len() ==> rank(#[trigger] tasks[i]) < rank(task)
    &&& forall|i: int| 1 <= i < tasks.len() ==> opener(#[trigger] tasks[i])
    &&& forall|i: int| 0 <= i < tasks.len() ==> !(#[trigger] tasks[i] is Handle)
    &&& tasks.len() > 0 && (tasks[0] is Admit || tasks[0] is Place || tasks[0] is Attach) ==> task
        is AddFresh || task is Admit || task is Place
    &&& neutral(task) ==> forall|i: int| 0 <= i < tasks.len() ==> neutral(#[trigger] tasks[i])
    &&& forall|i: int|
        0 <= i < tasks.len() && #[trigger] tasks[i] is Recolor ==> task is Focus && tasks[i]
            == Task::Recolor(old_wid, front) && (forall|j: int|
            0 <= j < i ==> neutral(#[trigger] tasks[j]))
}

/// `tasks` follow from a task, and are what is expected of it.
pub open spec fn follows(s: State, task: Task, reply: ReplyView, now: u64, tasks: Seq<Task>) -> bool {
    let after = s.performed(task, reply, now).0;
    &&& after.agenda == tasks + s.agenda
    &&& expected(task, tasks, s.borders.focused_wid, after.borders.focused_wid)
}

proof fn lemma_follows_nothing(s: State, task: Task, reply: ReplyView, now: u64)
    requires
        s.performed(task, reply, now).0.agenda == s.agenda,
    ensures
        follows(s, task, reply, now, seq![]),
{
    reveal(expected);
    assert(seq![] + s.agenda =~= s.agenda);
}

proof fn lemma_follows_event(s: State, event: Event, reply: ReplyView, now: u64) -> (tasks: Seq<Task>)
    ensures
        follows(s, Task::Handle(event), reply, now, tasks),
{
    match event {
        Event::Unhide(w) => {
            if s.borders.overlay_number(w) {
                lemma_follows_nothing(s, Task::Handle(event), reply, now);
                seq![]
            } else {
                reveal(expected);
                if s.borders.tracks(w) {
                    seq![Task::ShowIfAllowed(w)]
                } else {
                    seq![Task::AddFresh(w), Task::Subscribe(w), Task::ShowIfAllowed(w)]
                }
            }
        },
        _ => {
            lemma_follows_nothing(s, Task::Handle(event), reply, now);
            seq![]
        },
    }
}

proof fn lemma_follows_prune(s: State, reply: ReplyView, now: u64) -> (tasks: Seq<Task>)
    ensures
        follows(s, Task::Prune, reply, now, tasks),
{
    reveal(expected);
    s.kept(reply.bounds()).map_values(|w: u32| Task::Introduce(w)) + s.only_moved().map_values(
        |w: u32| Task::Sync(w, true),
    ) + s.only_resized().map_values(|w: u32| Task::Sync(w, true))
}

proof fn lemma_follows_focus(s: State, reply: ReplyView, now: u64) -> (tasks: Seq<Task>)
    ensures
        follows(s, Task::Focus, reply, now, tasks),
{
    let front = front_window(s.borders.own_pid, reply.front_pid(), reply.windows());
    let old_wid = s.borders.focused_wid;
    if front == 0 || (front == old_wid && s.borders.tracks(front)) {
        lemma_follows_nothing(s, Task::Focus, reply, now);
        seq![]
    } else {
        reveal(expected);
        if front == old_wid {
            seq![Task::AddFresh(front), Task::FocusRetry(front)]
        } else {
            (if s.borders.tracks(front) {
                seq![]
            } else {
                seq![Task::AddFresh(front), Task::Subscribe(front)]
            }) + seq![
                Task::Sync(old_wid, false),
                Task::Sync(front, false),
                Task::Recolor(old_wid, front),
            ]
        }
    }
}

/// What follows from a task stands before the rest, and is closer to an end.
pub proof fn lemma_follow_ups(s: State, task: Task, reply: ReplyView, now: u64) -> (tasks: Seq<Task>)
    ensures
        follows(s, task, reply, now, tasks),
{
    match task {
        Task::Handle(event) => lemma_follows_event(s, event, reply, now),
        Task::Prune => lemma_follows_prune(s, reply, now),
        Task::Focus => lemma_follows_focus(s, reply, now),
        Task::Ripen => {
            reveal(expected);
            seq![Task::Prune]
        },
        Task::Introduce(w) => {
            reveal(expected);
            seq![Task::AddFresh(w), Task::HideUnlessFocused(w)]
        },
        Task::DiscoverIfNeeded => {
            if s.resubscribe {
                reveal(expected);
                seq![Task::Discover]
            } else {
                lemma_follows_nothing(s, task, reply, now);
                seq![]
            }
        },
        Task::Discover => {
            reveal(expected);
            seq![Task::Discovered]
        },
        Task::Discovered => {
            reveal(expected);
            discovered(s.borders.own_pid, reply.windows()).map_values(|w: u32| Task::Adopt(w))
                + seq![Task::SubscribeIfAdded]
        },
        Task::Adopt(w) => {
            if s.borders.tracks(w) {
                lemma_follows_nothing(s, task, reply, now);
                seq![]
            } else {
                reveal(expected);
                seq![Task::AddFresh(w), Task::HideUnlessFocused(w)]
            }
        },
        Task::List => {
            reveal(expected);
            seq![Task::BorderAll]
        },
        Task::BorderAll => {
            reveal(expected);
            discovered(s.borders.own_pid, reply.windows()).map_values(|w: u32| Task::AddFresh(w))
        },
        Task::Reconcile(report) => {
            reveal(expected);
            s.borders.targets().map_values(|w: u32| Task::Sync(w, report))
        },
        Task::Sync(w, report) => {
            if s.borders.tracks(w) {
                reveal(expected);
                seq![Task::Synced(w, report)]
            } else {
                lemma_follows_nothing(s, task, reply, now);
                seq![]
            }
        },
        Task::UpdateFocus => {
            reveal(expected);
            seq![Task::Focus]
        },
        Task::AddFresh(w) => {
            if s.borders.tracks(w) {
                lemma_follows_nothing(s, task, reply, now);
                seq![]
            } else {
                reveal(expected);
                seq![Task::Admit(w)]
            }
        },
        Task::Admit(w) => {
            if s.borders.admits(reply.facts()) {
                reveal(expected);
                seq![Task::Place(w, reply.facts().bounds->0)]
            } else {
                lemma_follows_nothing(s, task, reply, now);
                seq![]
            }
        },
        Task::Place(w, bounds) => {
            if s.borders.covered(w, bounds, reply.bounds()) {
                lemma_follows_nothing(s, task, reply, now);
                seq![]
            } else {
                reveal(expected);
                seq![Task::Attach(w, bounds)]
            }
        },
        _ => {
            lemma_follows_nothing(s, task, reply, now);
            seq![]
        },
    }
}

/// How many tasks of a rank there are.
pub open spec fn load(agenda: Seq<Task>, r: nat) -> nat {
    agenda.filter(|t: Task| rank(t) == r).len()
}

proof fn lemma_load_add(a: Seq<Task>, b: Seq<Task>, r: nat)
    ensures
        load(a + b, r) == load(a, r) + load(b, r),
{
    Seq::filter_distributes_over_add(a, b, |t: Task| rank(t) == r);
}

proof fn lemma_load_none(a: Seq<Task>, r: nat)
    requires
        forall|i: int| 0 <= i < a.len() ==> rank(#[trigger] a[i]) < r,
    ensures
        load(a, r) == 0,
    decreases a.len(),
{
    reveal(Seq::filter);
    if a.len() > 0 {
        lemma_load_none(a.drop_last(), r);
        assert(rank(a[a.len() - 1]) < r);
    }
}

/// A step takes one task off its rank and adds none to it or above it.
proof fn lemma_load_step(s: State, reply: ReplyView, now: u64, r: nat)
    requires
        s.agenda.len() > 0,
        r >= rank(s.agenda[0]),
    ensures
        load(s.stepped(reply, now).0.agenda, r) == load(s.agenda, r) - (if r == rank(s.agenda[0]) {
            1int
        } else {
            0int
        }),
{
    let popped = State { agenda: s.agenda.skip(1), ..s };
    let tasks = lemma_follow_ups(popped, s.agenda[0], reply, now);
    reveal(expected);
    lemma_load_add(tasks, popped.agenda, r);
    lemma_load_none(tasks, r);
    let head = seq![s.agenda[0]];
    assert(s.agenda =~= head + popped.agenda);
    lemma_load_add(head, popped.agenda, r);
    assert(load(head, r) == (if r == rank(s.agenda[0]) {
        1int
    } else {
        0int
    })) by {
        reveal(Seq::filter);
        assert(head.drop_last() =~= seq![]);
        assert(head.drop_last().filter(|t: Task| rank(t) == r) =~= seq![]);
    }
}

/// The state after `n` steps, the replies and the times being given.
pub open spec fn state_at(s: State, replies: spec_fn(nat) -> (ReplyView, u64), n: nat) -> State
    decreases n,
{
    if n == 0 {
        s
    } else {
        let (reply, now) = replies((n - 1) as nat);
        state_at(s, replies, (n - 1) as nat).stepped(reply, now).0
    }
}

proof fn lemma_rest_from(s: State, replies: spec_fn(nat) -> (ReplyView, u64), k: nat) -> (n: nat)
    ensures
        n >= k,
        state_at(s, replies, n).agenda.len() == 0,
    decreases
            load(state_at(s, replies, k).agenda, 8),
            load(state_at(s, replies, k).agenda, 7),
            load(state_at(s, replies, k).agenda, 6),
            load(state_at(s, replies, k).agenda, 5),
            load(state_at(s, replies, k).agenda, 4),
            load(state_at(s, replies, k).agenda, 3),
            load(state_at(s, replies, k).agenda, 2),
            load(state_at(s, replies, k).agenda, 1),
            load(state_at(s, replies, k).agenda, 0),
{
    let here = state_at(s, replies, k);
    if here.agenda.len() == 0 {
        k
    } else {
        let (reply, now) = replies(k);
        let r = rank(here.agenda[0]);
        assert forall|q: nat| r <= q <= 8 implies #[trigger] load(
            here.stepped(reply, now).0.agenda,
            q,
        ) == load(here.agenda, q) - (if q == r {
            1int
        } else {
            0int
        }) by {
            lemma_load_step(here, reply, now, q);
        }
        assert(state_at(s, replies, k + 1) == here.stepped(reply, now).0);
        lemma_rest_from(s, replies, k + 1)
    }
}

/// Whatever the window server answers, a session comes to rest: after some number
/// of steps no work is left.
pub proof fn law_session_comes_to_rest(s: State, replies: spec_fn(nat) -> (ReplyView, u64))
    ensures
        exists|n: nat| (#[trigger] state_at(s, replies, n)).agenda.len() == 0,
{
    let n = lemma_rest_from(s, replies, 0);
    assert(state_at(s, replies, n).agenda.len() == 0);
}

/// Where there is no work left, a step changes nothing.
pub proof fn law_rest_is_kept(s: State, reply: ReplyView, now: u64)
    requires
        s.agenda.len() == 0,
    ensures
        s.stepped(reply, now).0 == s,
        s.stepped(reply, now).1.commands.len() == 0,
        s.stepped(reply, now).1.ask == QueryView::Idle,
{
}

}
