//! A running session: the borders and the work that is under way.

use crate::borders::{find_bounds, lemma_views_add, views, BorderMap, Borders, Command, WindowFacts};
use crate::event::Event;
use crate::focus::get_front_window;
use crate::geometry::CGRect;
use crate::options::Options;
use crate::order::{in_order, keys_in_order, lemma_members_finite, members_in_order};
use crate::plan::{
    batch_tasks, bounds_or_zero, outdone, poll_tasks, skipped, start_tasks, NewOverlay,
    OutcomeView, Query, QueryView, Reply, State, Task, SETTLE_TIME,
};
use crate::sequence::{lemma_filter_take, lemma_push_to_set};
use crate::surface::{surface_preference, SurfacePreference};
use crate::window::{discover_windows, WindowEntry};
use crate::world::World;
use std::collections::{BTreeMap, BTreeSet, VecDeque};
use vstd::prelude::*;

verus! {

broadcast use {vstd::std_specs::btree::group_btree_axioms, vstd::laws_cmp::group_laws_cmp};

/// What a step gives back: what to do on the screen, in this order, and then the
/// question to ask.
pub struct Outcome {
    pub commands: Vec<Command>,
    pub ask: Query,
}

impl View for Outcome {
    type V = OutcomeView;

    open spec fn view(&self) -> OutcomeView {
        OutcomeView { commands: views(self.commands@), ask: self.ask@ }
    }
}

pub struct Session {
    pub borders: BorderMap,
    pub pending: BTreeMap<u32, u64>,
    pub agenda: VecDeque<Task>,
    pub moved: BTreeSet<u32>,
    pub resized: BTreeSet<u32>,
    pub destroyed: BTreeSet<u32>,
    pub ready: Vec<u32>,
    pub resubscribe: bool,
    pub added: bool,
}

impl View for Session {
    type V = State;

    open spec fn view(&self) -> State {
        State {
            borders: self.borders@,
            pending: self.pending@,
            agenda: self.agenda@,
            moved: self.moved@,
            resized: self.resized@,
            destroyed: self.destroyed@,
            ready: self.ready@,
            resubscribe: self.resubscribe,
            added: self.added,
        }
    }
}

/// Does something and asks nothing.
fn do_only(commands: Vec<Command>) -> (r: Outcome)
    ensures
        r@ == (OutcomeView { commands: views(commands@), ask: QueryView::Continue }),
{
    Outcome { commands, ask: Query::Continue }
}

/// Does nothing and asks something.
fn ask_only(ask: Query) -> (r: Outcome)
    ensures
        r@ == (OutcomeView { commands: seq![], ask: ask@ }),
{
    let commands: Vec<Command> = Vec::new();
    assert(views(commands@) =~= seq![]);
    Outcome { commands, ask }
}

/// Does nothing and asks nothing.
fn nothing() -> (r: Outcome)
    ensures
        r@ == (OutcomeView { commands: seq![], ask: QueryView::Continue }),
{
    ask_only(Query::Continue)
}

impl Reply {
    fn window_facts(&self) -> (r: WindowFacts)
        ensures
            r == self@.facts(),
    {
        match self {
            Reply::Window(facts) => *facts,
            _ => WindowFacts { shown: false, owner_pid: 0, metadata: None, bounds: None },
        }
    }

    fn into_bounds(self) -> (r: Vec<(u32, CGRect)>)
        ensures
            r@ == self@.bounds(),
    {
        match self {
            Reply::Bounds(answers) => answers,
            _ => Vec::new(),
        }
    }

    fn into_windows(self) -> (r: Vec<WindowEntry>)
        ensures
            r@ == self@.windows(),
    {
        match self {
            Reply::Windows(entries) => entries,
            Reply::Front(_, entries) => entries,
            _ => Vec::new(),
        }
    }

    fn front_process(&self) -> (r: i32)
        ensures
            r == self@.front_pid(),
    {
        match self {
            Reply::Front(pid, _) => *pid,
            _ => 0,
        }
    }

    fn overlay_number(&self) -> (r: Option<u32>)
        ensures
            r == self@.number(),
    {
        match self {
            Reply::Created(number) => *number,
            _ => None,
        }
    }
}

/// A task to introduce each window.
fn introductions(wids: &Vec<u32>) -> (tasks: Vec<Task>)
    ensures
        tasks@ == wids@.map_values(|w: u32| Task::Introduce(w)),
{
    let mut tasks: Vec<Task> = Vec::new();
    for i in 0..wids.len()
        invariant
            tasks@ == wids@.take(i as int).map_values(|w: u32| Task::Introduce(w)),
    {
        tasks.push(Task::Introduce(wids[i]));
        assert(tasks@ =~= wids@.take(i + 1).map_values(|w: u32| Task::Introduce(w)));
    }
    assert(wids@.take(wids@.len() as int) =~= wids@);
    tasks
}

/// A task to reconcile each window.
fn syncs(wids: &Vec<u32>, report: bool) -> (tasks: Vec<Task>)
    ensures
        tasks@ == wids@.map_values(|w: u32| Task::Sync(w, report)),
{
    let mut tasks: Vec<Task> = Vec::new();
    for i in 0..wids.len()
        invariant
            tasks@ == wids@.take(i as int).map_values(|w: u32| Task::Sync(w, report)),
    {
        tasks.push(Task::Sync(wids[i], report));
        assert(tasks@ =~= wids@.take(i + 1).map_values(|w: u32| Task::Sync(w, report)));
    }
    assert(wids@.take(wids@.len() as int) =~= wids@);
    tasks
}

/// Bounds among the answers, all zero for a window that the server does not know.
fn known_bounds(answers: &Vec<(u32, CGRect)>, wid: u32) -> (r: CGRect)
    ensures
        r == bounds_or_zero(answers@, wid),
{
    match find_bounds(answers, wid) {
        Some(b) => b,
        None => CGRect::default(),
    }
}

/// The new windows that are outdone by another one.
fn skipped_windows(ready: &Vec<u32>, answers: &Vec<(u32, CGRect)>) -> (skip: BTreeSet<u32>)
    ensures
        forall|w: u32| #[trigger] skip@.contains(w) <==> skipped(ready@, answers@, w),
{
    let mut skip: BTreeSet<u32> = BTreeSet::new();
    for i in 0..ready.len()
        invariant
            forall|w: u32| #[trigger]
                skip@.contains(w) <==> exists|x: int, y: int|
                    0 <= x < i && x < y < ready@.len() && #[trigger] outdone(
                        ready@[x],
                        ready@[y],
                        answers@,
                    ) == Some(w),
    {
        let a = known_bounds(answers, ready[i]);
        for j in i + 1..ready.len()
            invariant
                i < ready@.len(),
                a == bounds_or_zero(answers@, ready@[i as int]),
                forall|w: u32| #[trigger]
                    skip@.contains(w) <==> exists|x: int, y: int|
                        0 <= x <= i && x < y < ready@.len() && (x < i || y < j)
                            && #[trigger] outdone(ready@[x], ready@[y], answers@) == Some(w),
        {
            let b = known_bounds(answers, ready[j]);
            let ghost before = skip@;
            match surface_preference(a, b) {
                Some(SurfacePreference::KeepExisting) => {
                    skip.insert(ready[j]);
                },
                Some(SurfacePreference::ReplaceExisting) => {
                    skip.insert(ready[i]);
                },
                None => {},
            }
            proof {
                let here = outdone(ready@[i as int], ready@[j as int], answers@);
                assert forall|w: u32| #[trigger] skip@.contains(w) <==> exists|x: int, y: int|
                    0 <= x <= i && x < y < ready@.len() && (x < i || y < j + 1)
                        && #[trigger] outdone(ready@[x], ready@[y], answers@) == Some(w) by {
                    assert(skip@.contains(w) == (before.contains(w) || here == Some(w)));
                }
            }
        }
    }
    skip
}

impl Session {
    /// A session with no work and nothing pending.
    pub fn new(borders: BorderMap) -> (r: Self)
        ensures
            r.borders == borders,
            r@.pending == Map::<u32, u64>::empty(),
            r@.agenda == Seq::<Task>::empty(),
            r@ == r@.begun(),
    {
        Session {
            borders,
            pending: BTreeMap::new(),
            agenda: VecDeque::new(),
            moved: BTreeSet::new(),
            resized: BTreeSet::new(),
            destroyed: BTreeSet::new(),
            ready: Vec::new(),
            resubscribe: false,
            added: false,
        }
    }

    /// A session that draws borders as asked for, about to start.
    pub fn open(own_pid: i32, options: &Options) -> (r: Self)
        ensures
            r@.borders == (Borders {
                overlays: Map::empty(),
                own_pid,
                border_width: options.border_width,
                radius: options.radius,
                focused_wid: 0,
                active_color: options.active_color,
                inactive_color: options.inactive_color,
                active_only: options.active_only,
            }),
            r@.pending == Map::<u32, u64>::empty(),
            r@.agenda == start_tasks(options.target),
            r@ == r@.begun(),
            (World { state: r@, screen: Map::empty(), making: None }).sound(),
    {
        let mut borders = BorderMap::new(own_pid, options.border_width);
        borders.radius = options.radius;
        borders.active_color = options.active_color;
        borders.inactive_color = options.inactive_color;
        borders.active_only = options.active_only;
        let mut session = Session::new(borders);
        let ghost idle = World { state: session@, screen: Map::empty(), making: None };
        session.start(options.target);
        proof {
            idle.law_new_session_is_sound();
            idle.law_new_work_keeps_soundness(options.target, seq![], false);
        }
        session
    }

    /// What a session keeps is finite.
    pub proof fn law_sessions_are_finite(&self)
        ensures
            self@.borders.overlays.dom().finite(),
            self@.pending.dom().finite(),
            self@.moved.finite(),
            self@.resized.finite(),
            self@.destroyed.finite(),
    {
        lemma_members_finite(&self.moved);
        lemma_members_finite(&self.resized);
        lemma_members_finite(&self.destroyed);
    }

    /// Puts tasks before those that are left.
    fn ahead(&mut self, tasks: Vec<Task>)
        ensures
            final(self)@ == old(self)@.ahead(tasks@),
    {
        let ghost before = self@;
        let mut i: usize = tasks.len();
        assert(tasks@.skip(tasks@.len() as int) + before.agenda =~= before.agenda);
        while i > 0
            invariant
                i <= tasks@.len(),
                self@ == (State { agenda: tasks@.skip(i as int) + before.agenda, ..before }),
            decreases i,
        {
            i = i - 1;
            self.agenda.push_front(tasks[i]);
            assert(seq![tasks@[i as int]] + (tasks@.skip(i + 1) + before.agenda) =~= tasks@.skip(
                i as int,
            ) + before.agenda);
        }
        assert(tasks@.skip(0) =~= tasks@);
    }

    /// Puts a task before those that are left.
    fn next(&mut self, task: Task)
        ensures
            final(self)@ == old(self)@.ahead(seq![task]),
    {
        self.agenda.push_front(task);
    }

    /// Puts tasks behind those that are left.
    fn later(&mut self, tasks: Vec<Task>)
        ensures
            final(self)@ == (State { agenda: old(self)@.agenda + tasks@, ..old(self)@ }),
    {
        let ghost before = self@;
        for i in 0..tasks.len()
            invariant
                self@ == (State { agenda: before.agenda + tasks@.take(i as int), ..before }),
        {
            self.agenda.push_back(tasks[i]);
            assert((before.agenda + tasks@.take(i as int)).push(tasks@[i as int]) =~= before.agenda
                + tasks@.take(i + 1));
        }
        assert(tasks@.take(tasks@.len() as int) =~= tasks@);
    }

    /// A window was reported gone.
    fn note_gone(&mut self, wid: u32)
        ensures
            final(self)@ == old(self)@.reported_gone(wid),
    {
        let ghost before = self@;
        if !self.borders.is_overlay(wid) {
            self.destroyed.insert(wid);
            self.pending.remove(&wid);
            assert(self@.pending =~= before.pending.remove(wid));
        }
    }

    /// Takes one event of the batch into account.
    fn handle(&mut self, event: Event, now: u64) -> (r: Outcome)
        ensures
            (final(self)@, r@) == old(self)@.handled(event, now),
    {
        let mut commands: Vec<Command> = Vec::new();
        assert(views(commands@) =~= seq![]);
        match event {
            Event::Move(wid) => {
                if !self.borders.is_overlay(wid) {
                    self.moved.insert(wid);
                }
            },
            Event::Resize(wid) => {
                if !self.borders.is_overlay(wid) {
                    self.resized.insert(wid);
                }
            },
            Event::Close(wid) => self.note_gone(wid),
            Event::Destroy(wid) => self.note_gone(wid),
            Event::Create(wid) => {
                if !self.borders.is_overlay(wid) {
                    if !self.pending.contains_key(&wid) {
                        self.pending.insert(wid, now);
                    }
                    commands = self.borders.subscribe_target(wid);
                }
            },
            Event::Hide(wid) => {
                commands = self.borders.hide_overlay(wid);
            },
            Event::Unhide(wid) => {
                if !self.borders.is_overlay(wid) {
                    if self.borders.is_tracked(wid) {
                        self.next(Task::ShowIfAllowed(wid));
                    } else {
                        self.ahead(
                            vec![
                                Task::AddFresh(wid),
                                Task::Subscribe(wid),
                                Task::ShowIfAllowed(wid),
                            ],
                        );
                    }
                }
            },
            Event::FrontChange => {
                self.resubscribe = true;
            },
            Event::SpaceChange => {
                self.resubscribe = true;
            },
        }
        do_only(commands)
    }

    /// Forgets what the batch before has collected.
    fn begin(&mut self)
        ensures
            final(self)@ == old(self)@.begun(),
    {
        self.moved = BTreeSet::new();
        self.resized = BTreeSet::new();
        self.destroyed = BTreeSet::new();
        self.ready = Vec::new();
        self.resubscribe = false;
        self.added = false;
    }

    /// Closes the overlays of the windows that the batch reported gone.
    fn reap(&mut self) -> (r: Outcome)
        ensures
            (final(self)@, r@) == old(self)@.reaped(),
    {
        let gone = members_in_order(&self.destroyed);
        do_only(self.borders.remove_each(&gone))
    }

    /// Picks the new windows that have settled, and asks for their bounds.
    fn ripen(&mut self, now: u64) -> (r: Outcome)
        ensures
            (final(self)@, r@) == old(self)@.ripened(now),
    {
        let ghost before = self@;
        let wids = keys_in_order(&self.pending);
        let mut ready: Vec<u32> = Vec::new();
        let mut asked: Vec<u32> = Vec::new();
        let ghost keep = |w: u32| before.settled(w, now);
        proof {
            reveal(Seq::filter);
            assert(wids@.take(0).filter(keep) =~= Seq::<u32>::empty());
        }
        for i in 0..wids.len()
            invariant
                self@ == before,
                wids@ == in_order(before.pending.dom()),
                wids@.to_set() == before.pending.dom(),
                keep == (|w: u32| before.settled(w, now)),
                ready@ == wids@.take(i as int).filter(keep),
                asked@ == ready@,
        {
            let wid = wids[i];
            proof {
                lemma_filter_take(wids@, i as int, keep);
                assert(wids@.to_set().contains(wid));
            }
            match self.pending.get(&wid) {
                Some(seen_at) => {
                    if !self.destroyed.contains(&wid) && now.saturating_sub(*seen_at) >= SETTLE_TIME {
                        ready.push(wid);
                        asked.push(wid);
                    }
                },
                None => {},
            }
        }
        assert(wids@.take(wids@.len() as int) =~= wids@);
        self.ready = ready;
        self.next(Task::Prune);
        ask_only(Query::Bounds(asked))
    }

    /// The new windows that get a border.
    fn kept_windows(&self, answers: &Vec<(u32, CGRect)>) -> (r: Vec<u32>)
        ensures
            r@ == self@.kept(answers@),
    {
        let skip = skipped_windows(&self.ready, answers);
        let mut kept: Vec<u32> = Vec::new();
        let ghost keep = |w: u32| !skipped(self@.ready, answers@, w);
        proof {
            reveal(Seq::filter);
            assert(self.ready@.take(0).filter(keep) =~= Seq::<u32>::empty());
        }
        for i in 0..self.ready.len()
            invariant
                keep == (|w: u32| !skipped(self@.ready, answers@, w)),
                forall|w: u32| #[trigger] skip@.contains(w) <==> skipped(self.ready@, answers@, w),
                kept@ == self.ready@.take(i as int).filter(keep),
        {
            proof {
                lemma_filter_take(self.ready@, i as int, keep);
            }
            if !skip.contains(&self.ready[i]) {
                kept.push(self.ready[i]);
            }
        }
        assert(self.ready@.take(self.ready@.len() as int) =~= self.ready@);
        kept
    }

    fn is_ready(&self, wid: u32) -> (r: bool)
        ensures
            r == self@.ready.contains(wid),
    {
        for i in 0..self.ready.len()
            invariant
                forall|j: int| 0 <= j < i ==> self.ready@[j] != wid,
        {
            if self.ready[i] == wid {
                return true;
            }
        }
        false
    }

    /// The windows that only moved.
    fn moved_windows(&self) -> (r: Vec<u32>)
        ensures
            r@ == self@.only_moved(),
    {
        let wids = members_in_order(&self.moved);
        let mut kept: Vec<u32> = Vec::new();
        let ghost keep = |w: u32| !self@.resized.contains(w) && !self@.ready.contains(w);
        proof {
            reveal(Seq::filter);
            assert(wids@.take(0).filter(keep) =~= Seq::<u32>::empty());
        }
        for i in 0..wids.len()
            invariant
                keep == (|w: u32| !self@.resized.contains(w) && !self@.ready.contains(w)),
                kept@ == wids@.take(i as int).filter(keep),
        {
            proof {
                lemma_filter_take(wids@, i as int, keep);
            }
            if !self.resized.contains(&wids[i]) && !self.is_ready(wids[i]) {
                kept.push(wids[i]);
            }
        }
        assert(wids@.take(wids@.len() as int) =~= wids@);
        kept
    }

    /// The windows that changed their size, but for the new ones.
    fn resized_windows(&self) -> (r: Vec<u32>)
        ensures
            r@ == self@.only_resized(),
    {
        let wids = members_in_order(&self.resized);
        let mut kept: Vec<u32> = Vec::new();
        let ghost keep = |w: u32| !self@.ready.contains(w);
        proof {
            reveal(Seq::filter);
            assert(wids@.take(0).filter(keep) =~= Seq::<u32>::empty());
        }
        for i in 0..wids.len()
            invariant
                keep == (|w: u32| !self@.ready.contains(w)),
                kept@ == wids@.take(i as int).filter(keep),
        {
            proof {
                lemma_filter_take(wids@, i as int, keep);
            }
            if !self.is_ready(wids[i]) {
                kept.push(wids[i]);
            }
        }
        assert(wids@.take(wids@.len() as int) =~= wids@);
        kept
    }

    /// Introduces the new windows, but for those that are one surface with a larger
    /// one, and then reconciles the windows that moved or changed their size.
    fn prune(&mut self, answers: &Vec<(u32, CGRect)>) -> (r: Outcome)
        ensures
            (final(self)@, r@) == old(self)@.pruned(answers@),
    {
        let ghost before = self@;
        let kept = self.kept_windows(answers);
        let moved = self.moved_windows();
        let resized = self.resized_windows();
        let mut tasks = introductions(&kept);
        let mut moves = syncs(&moved, true);
        let mut resizes = syncs(&resized, true);
        tasks.append(&mut moves);
        tasks.append(&mut resizes);
        assert(before.ready.take(0).to_set() =~= Set::empty());
        assert(before.pending.remove_keys(Set::empty()) =~= before.pending);
        let count = self.ready.len();
        for i in 0..count
            invariant
                count == before.ready.len(),
                self@ == (State {
                    pending: before.pending.remove_keys(before.ready.take(i as int).to_set()),
                    ..before
                }),
        {
            let wid = self.ready[i];
            self.pending.remove(&wid);
            proof {
                let earlier = before.ready.take(i as int);
                lemma_push_to_set(earlier, wid);
                assert(before.ready.take(i + 1) =~= earlier.push(wid));
                assert(self@.pending =~= before.pending.remove_keys(
                    before.ready.take(i + 1).to_set(),
                ));
            }
        }
        assert(before.ready.take(before.ready.len() as int) =~= before.ready);
        if kept.len() > 0 {
            self.resubscribe = true;
        }
        self.ahead(tasks);
        nothing()
    }

    /// Gives a window a border, hidden if only the focused border shows.
    fn introduce(&mut self, wid: u32)
        ensures
            final(self)@ == old(self)@.introduced(wid),
    {
        self.ahead(vec![Task::AddFresh(wid), Task::HideUnlessFocused(wid)]);
    }

    /// Looks for windows without a border among those on the screen.
    fn discover_untracked(&mut self, entries: &Vec<WindowEntry>)
        ensures
            final(self)@ == old(self)@.listed(entries@),
    {
        let wids = discover_windows(self.borders.own_pid, entries);
        let mut tasks: Vec<Task> = Vec::new();
        for i in 0..wids.len()
            invariant
                tasks@ == wids@.take(i as int).map_values(|w: u32| Task::Adopt(w)),
        {
            tasks.push(Task::Adopt(wids[i]));
            assert(tasks@ =~= wids@.take(i + 1).map_values(|w: u32| Task::Adopt(w)));
        }
        assert(wids@.take(wids@.len() as int) =~= wids@);
        tasks.push(Task::SubscribeIfAdded);
        assert(tasks@ =~= wids@.map_values(|w: u32| Task::Adopt(w)) + seq![Task::SubscribeIfAdded]);
        self.ahead(tasks);
    }

    /// Introduces a window, unless it has a border by now.
    fn adopt(&mut self, wid: u32)
        ensures
            final(self)@ == old(self)@.adopted(wid),
    {
        if !self.borders.is_tracked(wid) {
            self.added = true;
            self.introduce(wid);
        }
    }

    /// Gives a border to every window on the screen that deserves one.
    fn border_all(&mut self, entries: &Vec<WindowEntry>)
        ensures
            final(self)@ == old(self)@.border_all(entries@),
    {
        let wids = discover_windows(self.borders.own_pid, entries);
        let mut tasks: Vec<Task> = Vec::new();
        for i in 0..wids.len()
            invariant
                tasks@ == wids@.take(i as int).map_values(|w: u32| Task::AddFresh(w)),
        {
            tasks.push(Task::AddFresh(wids[i]));
            assert(tasks@ =~= wids@.take(i + 1).map_values(|w: u32| Task::AddFresh(w)));
        }
        assert(wids@.take(wids@.len() as int) =~= wids@);
        self.ahead(tasks);
    }

    /// Reconciles every overlay.
    fn reconcile_tracked(&mut self, report: bool)
        ensures
            final(self)@ == old(self)@.reconciling(report),
    {
        let targets = self.borders.targets();
        let tasks = syncs(&targets, report);
        self.ahead(tasks);
    }

    /// Asks for the target of an overlay, to reconcile the two.
    fn sync(&mut self, wid: u32, report: bool) -> (r: Outcome)
        ensures
            (final(self)@, r@) == old(self)@.syncing(wid, report),
    {
        if self.borders.is_tracked(wid) {
            self.next(Task::Synced(wid, report));
            ask_only(Query::Window(wid))
        } else {
            nothing()
        }
    }

    /// Reconciles an overlay with its target.
    fn finish_sync(&mut self, wid: u32, report: bool, facts: &WindowFacts) -> (r: Outcome)
        ensures
            (final(self)@, r@) == old(self)@.synced(wid, report, *facts),
    {
        let (removed, commands) = self.borders.sync_overlay(wid, facts);
        if report && removed {
            self.resubscribe = true;
        }
        do_only(commands)
    }

    /// Follows the focus to the window `front`.
    fn update_focus(&mut self, front: u32)
        ensures
            final(self)@ == old(self)@.focused(front),
    {
        if front == 0 {
            return;
        }
        let new_target = !self.borders.is_tracked(front);
        if front == self.borders.focused_wid {
            if new_target {
                self.ahead(vec![Task::AddFresh(front), Task::FocusRetry(front)]);
            }
            return;
        }
        let ghost before = self@;
        let old_wid = self.borders.focused_wid;
        self.borders.focused_wid = front;
        let mut tasks: Vec<Task> = Vec::new();
        if new_target {
            tasks.push(Task::AddFresh(front));
            tasks.push(Task::Subscribe(front));
        }
        tasks.push(Task::Sync(old_wid, false));
        tasks.push(Task::Sync(front, false));
        tasks.push(Task::Recolor(old_wid, front));
        assert(tasks@ =~= (if before.borders.tracks(front) {
            seq![]
        } else {
            seq![Task::AddFresh(front), Task::Subscribe(front)]
        }) + seq![
            Task::Sync(old_wid, false),
            Task::Sync(front, false),
            Task::Recolor(old_wid, front),
        ]);
        self.ahead(tasks);
    }

    /// What to do once the focused window was tried again.
    fn finish_retry(&self, wid: u32) -> (commands: Vec<Command>)
        ensures
            views(commands@) == self@.retry_commands(wid),
    {
        if !self.borders.is_tracked(wid) {
            let commands: Vec<Command> = Vec::new();
            assert(views(commands@) =~= seq![]);
            return commands;
        }
        let mut commands = self.borders.subscribe_target(wid);
        if self.borders.active_only {
            let mut more = self.borders.unhide(wid);
            proof {
                lemma_views_add(commands@, more@);
            }
            commands.append(&mut more);
            assert(views(commands@) =~= self@.retry_commands(wid));
        }
        commands
    }

    /// Shows in which window the focus is now.
    fn recolor(&self, old_wid: u32, front: u32) -> (commands: Vec<Command>)
        ensures
            views(commands@) == self@.recolor_commands(old_wid, front),
    {
        let mut commands: Vec<Command> = Vec::new();
        assert(views(commands@) =~= seq![]);
        if self.borders.active_only {
            commands = self.borders.hide_overlay(old_wid);
            let mut shown = self.borders.unhide(front);
            proof {
                lemma_views_add(commands@, shown@);
            }
            commands.append(&mut shown);
        }
        let mut first = self.borders.redraw(old_wid);
        let mut second = self.borders.redraw(front);
        proof {
            lemma_views_add(commands@, first@);
            lemma_views_add(commands@ + first@, second@);
        }
        commands.append(&mut first);
        commands.append(&mut second);
        commands
    }

    /// Asks for a window that may deserve a border.
    fn add_fresh(&mut self, wid: u32) -> (r: Outcome)
        ensures
            (final(self)@, r@) == old(self)@.adding(wid),
    {
        if self.borders.is_tracked(wid) {
            nothing()
        } else {
            self.next(Task::Admit(wid));
            ask_only(Query::Window(wid))
        }
    }

    /// Asks for the bounds of the windows with a border, if the window is to join
    /// them.
    fn consider(&mut self, wid: u32, facts: &WindowFacts) -> (r: Outcome)
        ensures
            (final(self)@, r@) == old(self)@.admitted(wid, *facts),
    {
        if self.borders.is_candidate(facts) {
            if let Some(bounds) = facts.bounds {
                self.next(Task::Place(wid, bounds));
                return ask_only(Query::Bounds(self.borders.targets()));
            }
        }
        nothing()
    }

    /// Makes room for a border, and asks for the overlay.
    fn place(&mut self, wid: u32, bounds: CGRect, answers: &Vec<(u32, CGRect)>) -> (r: Outcome)
        ensures
            (final(self)@, r@) == old(self)@.placed(wid, bounds, answers@),
    {
        match self.borders.make_room(wid, bounds, answers) {
            None => nothing(),
            Some(commands) => {
                self.next(Task::Attach(wid, bounds));
                let overlay = NewOverlay {
                    target_wid: wid,
                    bounds,
                    border_width: self.borders.border_width,
                    radius: self.borders.radius,
                    color: self.borders.color_for(wid),
                };
                Outcome { commands, ask: Query::Create(overlay) }
            },
        }
    }

    /// Records an overlay that was made.
    fn attach(&mut self, wid: u32, bounds: CGRect, number: Option<u32>) -> (r: Outcome)
        ensures
            (final(self)@, r@) == old(self)@.attached(wid, bounds, number),
    {
        match number {
            Some(n) => do_only(self.borders.attach(wid, n, bounds)),
            None => nothing(),
        }
    }

    fn hide_unless_focused(&self, wid: u32) -> (commands: Vec<Command>)
        ensures
            views(commands@) == self@.hide_unless_focused_commands(wid),
    {
        if !self.borders.may_be_shown(wid) {
            self.borders.hide_overlay(wid)
        } else {
            let commands: Vec<Command> = Vec::new();
            assert(views(commands@) =~= seq![]);
            commands
        }
    }

    fn show_if_allowed(&self, wid: u32) -> (commands: Vec<Command>)
        ensures
            views(commands@) == self@.show_if_allowed_commands(wid),
    {
        if self.borders.may_be_shown(wid) {
            self.borders.unhide(wid)
        } else {
            let commands: Vec<Command> = Vec::new();
            assert(views(commands@) =~= seq![]);
            commands
        }
    }

    /// Ends a batch.
    fn finish(&self) -> (commands: Vec<Command>)
        ensures
            views(commands@) == self@.finish_commands(),
    {
        let mut commands: Vec<Command> = Vec::new();
        assert(views(commands@) =~= seq![]);
        if self.resubscribe || self.destroyed.len() > 0 {
            commands = self.borders.subscribe_all();
        }
        let mut last = self.borders.enforce_active_only();
        proof {
            lemma_views_add(commands@, last@);
        }
        commands.append(&mut last);
        commands
    }

    /// One task, already taken off the agenda.
    fn perform(&mut self, task: Task, reply: Reply, now: u64) -> (r: Outcome)
        ensures
            (final(self)@, r@) == old(self)@.performed(task, reply@, now),
    {
        match task {
            Task::Begin => {
                self.begin();
                nothing()
            },
            Task::Handle(event) => self.handle(event, now),
            Task::Reap => self.reap(),
            Task::Ripen => self.ripen(now),
            Task::Prune => {
                let answers = reply.into_bounds();
                self.prune(&answers)
            },
            Task::Introduce(wid) => {
                self.introduce(wid);
                nothing()
            },
            Task::DiscoverIfNeeded => {
                if self.resubscribe {
                    self.next(Task::Discover);
                }
                nothing()
            },
            Task::Discover => {
                self.added = false;
                self.next(Task::Discovered);
                ask_only(Query::Windows)
            },
            Task::Discovered => {
                let entries = reply.into_windows();
                self.discover_untracked(&entries);
                nothing()
            },
            Task::Adopt(wid) => {
                self.adopt(wid);
                nothing()
            },
            Task::SubscribeIfAdded => {
                if self.added {
                    do_only(self.borders.subscribe_all())
                } else {
                    nothing()
                }
            },
            Task::List => {
                self.next(Task::BorderAll);
                ask_only(Query::Windows)
            },
            Task::BorderAll => {
                let entries = reply.into_windows();
                self.border_all(&entries);
                nothing()
            },
            Task::Reconcile(report) => {
                self.reconcile_tracked(report);
                nothing()
            },
            Task::Sync(wid, report) => self.sync(wid, report),
            Task::Synced(wid, report) => {
                let facts = reply.window_facts();
                self.finish_sync(wid, report, &facts)
            },
            Task::UpdateFocus => {
                self.next(Task::Focus);
                ask_only(Query::Front)
            },
            Task::Focus => {
                let front_pid = reply.front_process();
                let entries = reply.into_windows();
                let front = get_front_window(self.borders.own_pid, front_pid, &entries);
                self.update_focus(front);
                nothing()
            },
            Task::FocusRetry(wid) => do_only(self.finish_retry(wid)),
            Task::Recolor(old_wid, front) => do_only(self.recolor(old_wid, front)),
            Task::AddFresh(wid) => self.add_fresh(wid),
            Task::Admit(wid) => {
                let facts = reply.window_facts();
                self.consider(wid, &facts)
            },
            Task::Place(wid, bounds) => {
                let answers = reply.into_bounds();
                self.place(wid, bounds, &answers)
            },
            Task::Attach(wid, bounds) => {
                let number = reply.overlay_number();
                self.attach(wid, bounds, number)
            },
            Task::HideUnlessFocused(wid) => do_only(self.hide_unless_focused(wid)),
            Task::ShowIfAllowed(wid) => do_only(self.show_if_allowed(wid)),
            Task::Subscribe(wid) => do_only(self.borders.subscribe_target(wid)),
            Task::SubscribeAll => do_only(self.borders.subscribe_all()),
            Task::HideUnfocused => do_only(self.borders.hide_unfocused()),
            Task::Finish => do_only(self.finish()),
        }
    }

    /// Takes one step. `reply` answers the question that the step before asked, and
    /// `now` is the time in nanoseconds, counted from any fixed moment.
    pub fn step(&mut self, reply: Reply, now: u64) -> (r: Outcome)
        ensures
            (final(self)@, r@) == old(self)@.stepped(reply@, now),
    {
        match self.agenda.pop_front() {
            Some(task) => self.perform(task, reply, now),
            None => ask_only(Query::Idle),
        }
    }

    /// Starts a session: borders for the window `target`, or for all windows.
    pub fn start(&mut self, target: Option<u32>)
        ensures
            final(self)@ == (State {
                agenda: old(self)@.agenda + start_tasks(target),
                ..old(self)@
            }),
    {
        let first = match target {
            Some(wid) => Task::AddFresh(wid),
            None => Task::List,
        };
        self.later(vec![first, Task::SubscribeAll, Task::UpdateFocus, Task::HideUnfocused]);
    }

    /// Takes in a batch of events.
    pub fn process_event_batch(&mut self, events: &Vec<Event>)
        ensures
            final(self)@ == (State {
                agenda: old(self)@.agenda + batch_tasks(events@),
                ..old(self)@
            }),
    {
        let mut tasks: Vec<Task> = vec![Task::Begin];
        for i in 0..events.len()
            invariant
                tasks@ == seq![Task::Begin] + events@.take(i as int).map_values(
                    |e: Event| Task::Handle(e),
                ),
        {
            tasks.push(Task::Handle(events[i]));
            assert(tasks@ =~= seq![Task::Begin] + events@.take(i + 1).map_values(
                |e: Event| Task::Handle(e),
            ));
        }
        assert(events@.take(events@.len() as int) =~= events@);
        let mut rest: Vec<Task> = vec![
            Task::Reap,
            Task::Ripen,
            Task::DiscoverIfNeeded,
            Task::Reconcile(true),
            Task::UpdateFocus,
            Task::Finish,
        ];
        tasks.append(&mut rest);
        assert(tasks@ =~= batch_tasks(events@));
        self.later(tasks);
    }

    /// Follows the focus, and on request reconciles every overlay.
    pub fn poll(&mut self, reconcile: bool)
        ensures
            final(self)@ == (State {
                agenda: old(self)@.agenda + poll_tasks(reconcile),
                ..old(self)@
            }),
    {
        let mut tasks: Vec<Task> = vec![Task::UpdateFocus];
        if reconcile {
            tasks.push(Task::Reconcile(false));
        }
        assert(tasks@ =~= poll_tasks(reconcile));
        self.later(tasks);
    }
}

}
