//! The work that a session does, step by step, and what each step means.
//!
//! Bringing the borders up to date alternates between asking the window server
//! and deciding. The work is therefore a list of tasks. A step takes the first
//! task off the list, together with the reply to the question that the step
//! before it asked, and gives back what to do on the screen, the next question,
//! and, in the session, the tasks that follow.

use crate::borders::{Borders, CommandView, WindowFacts};
use crate::color::Color;
use crate::event::Event;
use crate::focus::front_window;
use crate::geometry::{rect, CGRect};
use crate::order::in_order;
use crate::surface::{preference, SurfacePreference};
use crate::window::{discovered, WindowEntry};
use vstd::prelude::*;

verus! {

/// How long a new window is left alone before it is looked at, in nanoseconds:
/// 100 milliseconds.
pub const SETTLE_TIME: u64 = 100_000_000;

#[derive(Clone, Copy, Debug, PartialEq, Eq, Structural)]
pub enum Task {
    /// Forget what the batch before has collected.
    Begin,
    /// Take one event of the batch into account.
    Handle(Event),
    /// Close the overlays of the windows that the batch reported gone.
    Reap,
    /// Pick the new windows that have settled, and ask for their bounds.
    Ripen,
    /// Introduce them, but for those that are one surface with a larger one, and
    /// then reconcile the windows that moved or changed their size.
    Prune,
    /// Give a window a border, hidden if only the focused border shows.
    Introduce(u32),
    /// Look for windows without a border, if anything calls for it.
    DiscoverIfNeeded,
    /// Ask for the on-screen windows, to give a border to those that have none.
    Discover,
    Discovered,
    /// Introduce a window, unless it has a border by now.
    Adopt(u32),
    SubscribeIfAdded,
    /// Ask for the on-screen windows, to give a border to all of them.
    List,
    BorderAll,
    /// Reconcile every overlay. The flag says whether a lost overlay makes the
    /// batch subscribe anew; the same holds of the flags that follow.
    Reconcile(bool),
    Sync(u32, bool),
    Synced(u32, bool),
    /// Find out which window has the focus.
    UpdateFocus,
    Focus,
    /// The focused window had no border and was tried again.
    FocusRetry(u32),
    /// The focus went from the first window to the second.
    Recolor(u32, u32),
    /// Give a window a border if it deserves one: ask for the window, decide,
    /// ask for the windows around it, make room, and have the overlay made.
    AddFresh(u32),
    Admit(u32),
    Place(u32, CGRect),
    Attach(u32, CGRect),
    HideUnlessFocused(u32),
    ShowIfAllowed(u32),
    Subscribe(u32),
    SubscribeAll,
    HideUnfocused,
    /// Subscribe anew if the batch calls for it, and settle what is visible.
    Finish,
}

/// What a step asks for. The reply goes into the next step.
#[derive(Debug)]
pub enum Query {
    /// There is nothing left to do.
    Idle,
    /// Nothing: the next step can follow at once.
    Continue,
    /// What the window server says of a window.
    Window(u32),
    /// The bounds of these windows.
    Bounds(Vec<u32>),
    /// The on-screen windows, topmost first.
    Windows,
    /// The front process, and the on-screen windows, topmost first.
    Front,
    /// Make an overlay, and show it.
    Create(NewOverlay),
}

/// An overlay to be made.
#[derive(Clone, Copy, Debug, PartialEq, Eq, Structural)]
pub struct NewOverlay {
    pub target_wid: u32,
    pub bounds: CGRect,
    pub border_width: i64,
    pub radius: i64,
    pub color: Color,
}

#[verifier::ext_equal]
pub enum QueryView {
    Idle,
    Continue,
    Window(u32),
    Bounds(Seq<u32>),
    Windows,
    Front,
    Create(NewOverlay),
}

impl View for Query {
    type V = QueryView;

    open spec fn view(&self) -> QueryView {
        match self {
            Query::Idle => QueryView::Idle,
            Query::Continue => QueryView::Continue,
            Query::Window(w) => QueryView::Window(*w),
            Query::Bounds(ws) => QueryView::Bounds(ws@),
            Query::Windows => QueryView::Windows,
            Query::Front => QueryView::Front,
            Query::Create(n) => QueryView::Create(*n),
        }
    }
}

/// The reply to a question. A step that gets another reply than it asked for goes
/// on as if the window server had known nothing.
#[derive(Debug)]
pub enum Reply {
    Nothing,
    Window(WindowFacts),
    /// The windows that the server knows, with their bounds.
    Bounds(Vec<(u32, CGRect)>),
    Windows(Vec<WindowEntry>),
    Front(i32, Vec<WindowEntry>),
    /// The window number of the overlay, or `None` if it could not be made.
    Created(Option<u32>),
}

pub enum ReplyView {
    Nothing,
    Window(WindowFacts),
    Bounds(Seq<(u32, CGRect)>),
    Windows(Seq<WindowEntry>),
    Front(i32, Seq<WindowEntry>),
    Created(Option<u32>),
}

impl View for Reply {
    type V = ReplyView;

    open spec fn view(&self) -> ReplyView {
        match self {
            Reply::Nothing => ReplyView::Nothing,
            Reply::Window(f) => ReplyView::Window(*f),
            Reply::Bounds(b) => ReplyView::Bounds(b@),
            Reply::Windows(w) => ReplyView::Windows(w@),
            Reply::Front(p, w) => ReplyView::Front(*p, w@),
            Reply::Created(n) => ReplyView::Created(*n),
        }
    }
}

/// What is known of a window that the server does not know.
pub open spec fn unknown_window() -> WindowFacts {
    WindowFacts { shown: false, owner_pid: 0, metadata: None, bounds: None }
}

impl ReplyView {
    pub open spec fn facts(self) -> WindowFacts {
        match self {
            ReplyView::Window(f) => f,
            _ => unknown_window(),
        }
    }

    pub open spec fn bounds(self) -> Seq<(u32, CGRect)> {
        match self {
            ReplyView::Bounds(b) => b,
            _ => seq![],
        }
    }

    pub open spec fn windows(self) -> Seq<WindowEntry> {
        match self {
            ReplyView::Windows(w) => w,
            ReplyView::Front(_, w) => w,
            _ => seq![],
        }
    }

    pub open spec fn front_pid(self) -> i32 {
        match self {
            ReplyView::Front(p, _) => p,
            _ => 0,
        }
    }

    pub open spec fn number(self) -> Option<u32> {
        match self {
            ReplyView::Created(n) => n,
            _ => None,
        }
    }
}

/// What a step gives back.
#[verifier::ext_equal]
pub struct OutcomeView {
    pub commands: Seq<CommandView>,
    pub ask: QueryView,
}

/// The borders, the work that is left, and what the current batch has collected.
#[verifier::ext_equal]
pub struct State {
    pub borders: Borders,
    /// New windows, with the time at which each was first heard of.
    pub pending: Map<u32, u64>,
    pub agenda: Seq<Task>,
    pub moved: Set<u32>,
    pub resized: Set<u32>,
    pub destroyed: Set<u32>,
    pub ready: Seq<u32>,
    /// Something calls for looking for new windows and subscribing anew.
    pub resubscribe: bool,
    /// The search for windows without a border found one.
    pub added: bool,
}

/// A step that does something and asks nothing.
pub open spec fn quiet(s: State, commands: Seq<CommandView>) -> (State, OutcomeView) {
    (s, OutcomeView { commands, ask: QueryView::Continue })
}

/// A step that does nothing and asks something.
pub open spec fn asking(s: State, ask: QueryView) -> (State, OutcomeView) {
    (s, OutcomeView { commands: seq![], ask })
}

/// Bounds among the replies, all zero for a window that the server does not know.
pub open spec fn bounds_or_zero(answers: Seq<(u32, CGRect)>, wid: u32) -> CGRect {
    match crate::borders::answer_for(answers, wid) {
        Some(b) => b,
        None => rect(0, 0, 0, 0),
    }
}

/// Of two new windows that are one surface, the smaller one, or the second if they
/// are of one size, gets no border.
pub open spec fn outdone(first: u32, second: u32, answers: Seq<(u32, CGRect)>) -> Option<u32> {
    match preference(bounds_or_zero(answers, first), bounds_or_zero(answers, second)) {
        Some(SurfacePreference::KeepExisting) => Some(second),
        Some(SurfacePreference::ReplaceExisting) => Some(first),
        None => None,
    }
}

/// A new window is outdone by another one.
pub open spec fn skipped(ready: Seq<u32>, answers: Seq<(u32, CGRect)>, wid: u32) -> bool {
    exists|i: int, j: int|
        0 <= i < j < ready.len() && #[trigger] outdone(ready[i], ready[j], answers) == Some(wid)
}

impl State {
    /// With other tasks before those that are left.
    pub open spec fn ahead(self, tasks: Seq<Task>) -> State {
        State { agenda: tasks + self.agenda, ..self }
    }

    pub open spec fn handled(self, event: Event, now: u64) -> (State, OutcomeView) {
        match event {
            Event::Move(w) => quiet(
                if self.borders.overlay_number(w) {
                    self
                } else {
                    State { moved: self.moved.insert(w), ..self }
                },
                seq![],
            ),
            Event::Resize(w) => quiet(
                if self.borders.overlay_number(w) {
                    self
                } else {
                    State { resized: self.resized.insert(w), ..self }
                },
                seq![],
            ),
            Event::Close(w) => quiet(self.reported_gone(w), seq![]),
            Event::Destroy(w) => quiet(self.reported_gone(w), seq![]),
            Event::Create(w) => if self.borders.overlay_number(w) {
                quiet(self, seq![])
            } else {
                quiet(
                    if self.pending.contains_key(w) {
                        self
                    } else {
                        State { pending: self.pending.insert(w, now), ..self }
                    },
                    seq![CommandView::Subscribe(seq![w])],
                )
            },
            Event::Hide(w) => quiet(self, self.borders.hide_commands(w)),
            Event::Unhide(w) => quiet(
                if self.borders.overlay_number(w) {
                    self
                } else if self.borders.tracks(w) {
                    self.ahead(seq![Task::ShowIfAllowed(w)])
                } else {
                    self.ahead(seq![Task::AddFresh(w), Task::Subscribe(w), Task::ShowIfAllowed(w)])
                },
                seq![],
            ),
            Event::FrontChange => quiet(State { resubscribe: true, ..self }, seq![]),
            Event::SpaceChange => quiet(State { resubscribe: true, ..self }, seq![]),
        }
    }

    pub open spec fn reported_gone(self, w: u32) -> State {
        if self.borders.overlay_number(w) {
            self
        } else {
            State { destroyed: self.destroyed.insert(w), pending: self.pending.remove(w), ..self }
        }
    }

    pub open spec fn begun(self) -> State {
        State {
            moved: Set::empty(),
            resized: Set::empty(),
            destroyed: Set::empty(),
            ready: Seq::empty(),
            resubscribe: false,
            added: false,
            ..self
        }
    }

    pub open spec fn reaped(self) -> (State, OutcomeView) {
        quiet(
            State { borders: self.borders.without_all(self.destroyed), ..self },
            self.borders.close_commands(in_order(self.destroyed)),
        )
    }

    /// The window has been known for long enough, and has not gone.
    pub open spec fn settled(self, w: u32, now: u64) -> bool {
        !self.destroyed.contains(w) && now - self.pending[w] >= SETTLE_TIME
    }

    pub open spec fn ripened(self, now: u64) -> (State, OutcomeView) {
        let ready = in_order(self.pending.dom()).filter(|w: u32| self.settled(w, now));
        asking(
            State { ready, ..self }.ahead(seq![Task::Prune]),
            QueryView::Bounds(ready),
        )
    }

    /// The new windows that get a border.
    pub open spec fn kept(self, answers: Seq<(u32, CGRect)>) -> Seq<u32> {
        self.ready.filter(|w: u32| !skipped(self.ready, answers, w))
    }

    /// The windows that only moved.
    pub open spec fn only_moved(self) -> Seq<u32> {
        in_order(self.moved).filter(
            |w: u32| !self.resized.contains(w) && !self.ready.contains(w),
        )
    }

    /// The windows that changed their size, but for the new ones.
    pub open spec fn only_resized(self) -> Seq<u32> {
        in_order(self.resized).filter(|w: u32| !self.ready.contains(w))
    }

    pub open spec fn pruned(self, answers: Seq<(u32, CGRect)>) -> (State, OutcomeView) {
        let kept = self.kept(answers);
        quiet(
            State {
                pending: self.pending.remove_keys(self.ready.to_set()),
                resubscribe: self.resubscribe || kept.len() > 0,
                ..self
            }.ahead(
                kept.map_values(|w: u32| Task::Introduce(w)) + self.only_moved().map_values(
                    |w: u32| Task::Sync(w, true),
                ) + self.only_resized().map_values(|w: u32| Task::Sync(w, true)),
            ),
            seq![],
        )
    }

    pub open spec fn introduced(self, w: u32) -> State {
        self.ahead(seq![Task::AddFresh(w), Task::HideUnlessFocused(w)])
    }

    pub open spec fn listed(self, entries: Seq<WindowEntry>) -> State {
        self.ahead(
            discovered(self.borders.own_pid, entries).map_values(|w: u32| Task::Adopt(w)) + seq![
                Task::SubscribeIfAdded,
            ],
        )
    }

    pub open spec fn adopted(self, w: u32) -> State {
        if self.borders.tracks(w) {
            self
        } else {
            State { added: true, ..self }.introduced(w)
        }
    }

    pub open spec fn border_all(self, entries: Seq<WindowEntry>) -> State {
        self.ahead(
            discovered(self.borders.own_pid, entries).map_values(|w: u32| Task::AddFresh(w)),
        )
    }

    pub open spec fn reconciling(self, report: bool) -> State {
        self.ahead(self.borders.targets().map_values(|w: u32| Task::Sync(w, report)))
    }

    pub open spec fn syncing(self, w: u32, report: bool) -> (State, OutcomeView) {
        if self.borders.tracks(w) {
            asking(self.ahead(seq![Task::Synced(w, report)]), QueryView::Window(w))
        } else {
            quiet(self, seq![])
        }
    }

    pub open spec fn synced(self, w: u32, report: bool, facts: WindowFacts) -> (State, OutcomeView) {
        quiet(
            State {
                borders: self.borders.synced(w, facts),
                resubscribe: self.resubscribe || (report && self.borders.sync_removes(w, facts)),
                ..self
            },
            self.borders.sync_commands(w, facts),
        )
    }

    pub open spec fn focused(self, front: u32) -> State {
        if front == 0 {
            self
        } else if front == self.borders.focused_wid {
            if self.borders.tracks(front) {
                self
            } else {
                self.ahead(seq![Task::AddFresh(front), Task::FocusRetry(front)])
            }
        } else {
            let old_wid = self.borders.focused_wid;
            State { borders: Borders { focused_wid: front, ..self.borders }, ..self }.ahead(
                (if self.borders.tracks(front) {
                    seq![]
                } else {
                    seq![Task::AddFresh(front), Task::Subscribe(front)]
                }) + seq![
                    Task::Sync(old_wid, false),
                    Task::Sync(front, false),
                    Task::Recolor(old_wid, front),
                ],
            )
        }
    }

    pub open spec fn retry_commands(self, w: u32) -> Seq<CommandView> {
        if !self.borders.tracks(w) {
            seq![]
        } else if self.borders.active_only {
            seq![CommandView::Subscribe(seq![w]), CommandView::OrderAbove(w)]
        } else {
            seq![CommandView::Subscribe(seq![w])]
        }
    }

    pub open spec fn recolor_commands(self, old_wid: u32, front: u32) -> Seq<CommandView> {
        (if self.borders.active_only {
            self.borders.hide_commands(old_wid) + self.borders.unhide_commands(front)
        } else {
            seq![]
        }) + self.borders.redraw_commands(old_wid) + self.borders.redraw_commands(front)
    }

    pub open spec fn adding(self, w: u32) -> (State, OutcomeView) {
        if self.borders.tracks(w) {
            quiet(self, seq![])
        } else {
            asking(self.ahead(seq![Task::Admit(w)]), QueryView::Window(w))
        }
    }

    pub open spec fn admitted(self, w: u32, facts: WindowFacts) -> (State, OutcomeView) {
        if self.borders.admits(facts) {
            asking(
                self.ahead(seq![Task::Place(w, facts.bounds->0)]),
                QueryView::Bounds(self.borders.targets()),
            )
        } else {
            quiet(self, seq![])
        }
    }

    pub open spec fn new_overlay(self, w: u32, bounds: CGRect) -> NewOverlay {
        NewOverlay {
            target_wid: w,
            bounds,
            border_width: self.borders.border_width,
            radius: self.borders.radius,
            color: self.borders.color_of(w),
        }
    }

    pub open spec fn placed(self, w: u32, bounds: CGRect, answers: Seq<(u32, CGRect)>) -> (
        State,
        OutcomeView,
    ) {
        if self.borders.covered(w, bounds, answers) {
            quiet(self, seq![])
        } else {
            let gone = self.borders.replaced(w, bounds, answers);
            (
                State { borders: self.borders.without_all(gone.to_set()), ..self }.ahead(
                    seq![Task::Attach(w, bounds)],
                ),
                OutcomeView {
                    commands: gone.map_values(|x: u32| CommandView::Close(x)),
                    ask: QueryView::Create(self.new_overlay(w, bounds)),
                },
            )
        }
    }

    pub open spec fn attached(self, w: u32, bounds: CGRect, number: Option<u32>) -> (
        State,
        OutcomeView,
    ) {
        match number {
            Some(n) => quiet(
                State { borders: self.borders.attached(w, n, bounds), ..self },
                seq![CommandView::OrderAbove(w)],
            ),
            None => quiet(self, seq![]),
        }
    }

    pub open spec fn hide_unless_focused_commands(self, w: u32) -> Seq<CommandView> {
        if !self.borders.may_show(w) {
            self.borders.hide_commands(w)
        } else {
            seq![]
        }
    }

    pub open spec fn show_if_allowed_commands(self, w: u32) -> Seq<CommandView> {
        if self.borders.may_show(w) {
            self.borders.unhide_commands(w)
        } else {
            seq![]
        }
    }

    pub open spec fn finish_commands(self) -> Seq<CommandView> {
        (if self.resubscribe || self.destroyed.len() > 0 {
            self.borders.subscribe_commands()
        } else {
            seq![]
        }) + self.borders.enforce_commands()
    }

    /// One task, already taken off the agenda.
    pub open spec fn performed(self, task: Task, reply: ReplyView, now: u64) -> (
        State,
        OutcomeView,
    ) {
        match task {
            Task::Begin => quiet(self.begun(), seq![]),
            Task::Handle(event) => self.handled(event, now),
            Task::Reap => self.reaped(),
            Task::Ripen => self.ripened(now),
            Task::Prune => self.pruned(reply.bounds()),
            Task::Introduce(w) => quiet(self.introduced(w), seq![]),
            Task::DiscoverIfNeeded => quiet(
                if self.resubscribe {
                    self.ahead(seq![Task::Discover])
                } else {
                    self
                },
                seq![],
            ),
            Task::Discover => asking(
                State { added: false, ..self }.ahead(seq![Task::Discovered]),
                QueryView::Windows,
            ),
            Task::Discovered => quiet(self.listed(reply.windows()), seq![]),
            Task::Adopt(w) => quiet(self.adopted(w), seq![]),
            Task::SubscribeIfAdded => quiet(
                self,
                if self.added {
                    self.borders.subscribe_commands()
                } else {
                    seq![]
                },
            ),
            Task::List => asking(self.ahead(seq![Task::BorderAll]), QueryView::Windows),
            Task::BorderAll => quiet(self.border_all(reply.windows()), seq![]),
            Task::Reconcile(report) => quiet(self.reconciling(report), seq![]),
            Task::Sync(w, report) => self.syncing(w, report),
            Task::Synced(w, report) => self.synced(w, report, reply.facts()),
            Task::UpdateFocus => asking(self.ahead(seq![Task::Focus]), QueryView::Front),
            Task::Focus => quiet(
                self.focused(
                    front_window(self.borders.own_pid, reply.front_pid(), reply.windows()),
                ),
                seq![],
            ),
            Task::FocusRetry(w) => quiet(self, self.retry_commands(w)),
            Task::Recolor(old_wid, front) => quiet(self, self.recolor_commands(old_wid, front)),
            Task::AddFresh(w) => self.adding(w),
            Task::Admit(w) => self.admitted(w, reply.facts()),
            Task::Place(w, bounds) => self.placed(w, bounds, reply.bounds()),
            Task::Attach(w, bounds) => self.attached(w, bounds, reply.number()),
            Task::HideUnlessFocused(w) => quiet(self, self.hide_unless_focused_commands(w)),
            Task::ShowIfAllowed(w) => quiet(self, self.show_if_allowed_commands(w)),
            Task::Subscribe(w) => quiet(self, seq![CommandView::Subscribe(seq![w])]),
            Task::SubscribeAll => quiet(self, self.borders.subscribe_commands()),
            Task::HideUnfocused => quiet(self, self.borders.hide_unfocused_commands()),
            Task::Finish => quiet(self, self.finish_commands()),
        }
    }

    /// One step: the first task, or nothing if none is left.
    pub open spec fn stepped(self, reply: ReplyView, now: u64) -> (State, OutcomeView) {
        if self.agenda.len() == 0 {
            asking(self, QueryView::Idle)
        } else {
            State { agenda: self.agenda.skip(1), ..self }.performed(self.agenda[0], reply, now)
        }
    }
}

/// The tasks of a batch of events.
pub open spec fn batch_tasks(events: Seq<Event>) -> Seq<Task> {
    seq![Task::Begin] + events.map_values(|e: Event| Task::Handle(e)) + seq![
        Task::Reap,
        Task::Ripen,
        Task::DiscoverIfNeeded,
        Task::Reconcile(true),
        Task::UpdateFocus,
        Task::Finish,
    ]
}

/// The tasks with which a session starts: borders for all windows, or for one.
pub open spec fn start_tasks(target: Option<u32>) -> Seq<Task> {
    seq![
        match target {
            Some(w) => Task::AddFresh(w),
            None => Task::List,
        },
        Task::SubscribeAll,
        Task::UpdateFocus,
        Task::HideUnfocused,
    ]
}

/// The tasks of a tick without events.
pub open spec fn poll_tasks(reconcile: bool) -> Seq<Task> {
    if reconcile {
        seq![Task::UpdateFocus, Task::Reconcile(false)]
    } else {
        seq![Task::UpdateFocus]
    }
}

}
