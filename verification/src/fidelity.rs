//! What making, following and coloring overlays comes down to, number by number.

use crate::borders::{answer_for, Borders, CommandView, Overlay, WindowFacts};
use crate::event::Event;
use crate::focus::front_window;
use crate::geometry::{CGRect, POINT};
use crate::order::{in_order, increasing, lemma_filter_increasing, lemma_finite_in_order};
use crate::plan::{
    batch_tasks, bounds_or_zero, outdone, poll_tasks, skipped, start_tasks, NewOverlay, QueryView,
    ReplyView, State, Task,
};
use crate::sequence::lemma_filter_members;
use crate::surface::{
    area, law_half_a_point_is_no_change, law_same_surface_is_symmetric, law_trackable_sizes,
    same_surface, SurfacePreference,
};
use crate::window::{discovered, known_suitable, WindowEntry};
use vstd::prelude::*;

verus! {

/// Two numbers are at most half a point apart.
pub open spec fn within_half_a_point(a: i64, b: i64) -> bool {
    -POINT <= 2 * (a - b) <= POINT
}

/// An overlay is recorded where a window stands, to within half a point, on each of the
/// four numbers.
pub open spec fn stands_at(o: Overlay, bounds: CGRect) -> bool {
    &&& within_half_a_point(o.window.bounds_cg_x, bounds.origin.x)
    &&& within_half_a_point(o.window.bounds_cg_y, bounds.origin.y)
    &&& within_half_a_point(o.window.bounds_cg_w, bounds.size.width)
    &&& within_half_a_point(o.window.bounds_cg_h, bounds.size.height)
}

/// An overlay is recorded exactly where a window stands.
pub open spec fn stands_exactly_at(o: Overlay, bounds: CGRect) -> bool {
    &&& o.window.bounds_cg_x == bounds.origin.x
    &&& o.window.bounds_cg_y == bounds.origin.y
    &&& o.window.bounds_cg_w == bounds.size.width
    &&& o.window.bounds_cg_h == bounds.size.height
}

/// The same overlay, but for where it is.
pub open spec fn same_but_for_place(a: Overlay, b: Overlay) -> bool {
    &&& a.window.number == b.window.number
    &&& a.window.border_width == b.window.border_width
    &&& a.window.radius == b.window.radius
}

/// What the user asked for, which no work changes.
pub open spec fn same_settings(a: Borders, b: Borders) -> bool {
    &&& a.own_pid == b.own_pid
    &&& a.border_width == b.border_width
    &&& a.radius == b.radius
    &&& a.active_color == b.active_color
    &&& a.inactive_color == b.inactive_color
    &&& a.active_only == b.active_only
}

/// The window is there, suitable, and no side of it is shorter than the border's width
/// or four points.
pub open spec fn deserves_border(facts: WindowFacts, border_width: i64) -> bool {
    &&& facts.bounds is Some
    &&& known_suitable(facts.metadata)
    &&& facts.bounds->0.size.width >= border_width
    &&& facts.bounds->0.size.width >= 4 * POINT
    &&& facts.bounds->0.size.height >= border_width
    &&& facts.bounds->0.size.height >= 4 * POINT
}

/// Reconciling an overlay closes it if its window does not deserve it any more. Otherwise
/// it leaves it recorded within half a point of the window, each of the four numbers: if
/// it was so before, nothing is done, and if not, it is laid out exactly anew, and shown,
/// unless it has to stay hidden. No other overlay is touched.
pub proof fn law_reconciling_follows_the_window(b: Borders, w: u32, facts: WindowFacts)
    requires
        b.tracks(w),
    ensures
        ({
            let after = b.synced(w, facts);
            let commands = b.sync_commands(w, facts);
            let bounds = facts.bounds->0;
            &&& after.tracks(w) <==> deserves_border(facts, b.border_width)
            &&& b.sync_removes(w, facts) <==> !after.tracks(w)
            &&& !after.tracks(w) ==> commands == seq![CommandView::Close(w)]
            &&& after.tracks(w) ==> {
                &&& stands_at(after.overlays[w], bounds)
                &&& same_but_for_place(after.overlays[w], b.overlays[w])
            }
            &&& after.tracks(w) && stands_at(b.overlays[w], bounds) ==> after == b
                && commands.len() == 0
            &&& after.tracks(w) && !stands_at(b.overlays[w], bounds) ==> {
                &&& stands_exactly_at(after.overlays[w], bounds)
                &&& commands.len() > 0 && commands[0] == CommandView::SetBounds(w, bounds)
                &&& commands.len() == 2 <==> (!b.active_only || w == b.focused_wid)
                &&& commands.len() == 2 ==> commands[1] == CommandView::OrderAbove(w)
                &&& commands.len() <= 2
            }
            &&& forall|x: u32|
                x != w ==> (#[trigger] after.tracks(x) <==> b.tracks(x)) && (b.tracks(x)
                    ==> after.overlays[x] == b.overlays[x])
            &&& same_settings(after, b)
            &&& after.focused_wid == b.focused_wid
        }),
{
    if facts.bounds is Some {
        law_half_a_point_is_no_change(
            b.overlays[w].window.target_bounds(),
            facts.bounds->0,
        );
        law_trackable_sizes(facts.bounds->0, b.border_width);
        law_half_a_point_is_no_change(
            b.synced(w, facts).overlays[w].window.target_bounds(),
            facts.bounds->0,
        );
    }
}

/// Reconciling a window without an overlay does nothing.
pub proof fn law_reconciling_nothing_does_nothing(b: Borders, w: u32, facts: WindowFacts)
    requires
        !b.tracks(w),
    ensures
        b.synced(w, facts) == b,
        b.sync_commands(w, facts).len() == 0,
        !b.sync_removes(w, facts),
{
}

/// A window is let in exactly if it is visible, belongs to another process, and deserves
/// a border.
pub proof fn law_windows_let_in(b: Borders, facts: WindowFacts)
    ensures
        b.admits(facts) <==> facts.shown && facts.owner_pid != b.own_pid && deserves_border(
            facts,
            b.border_width,
        ),
{
    if facts.bounds is Some {
        law_trackable_sizes(facts.bounds->0, b.border_width);
    }
}

/// Every overlay that a session asks for is as wide, as round and of the color that the
/// session was told: the active color for the focused window and the inactive one for any
/// other. It is asked for around the bounds that were found for the window.
pub proof fn law_new_overlays_are_as_asked(s: State, reply: ReplyView, now: u64, n: NewOverlay)
    requires
        s.stepped(reply, now).1.ask == QueryView::Create(n),
    ensures
        n.border_width == s.borders.border_width,
        n.radius == s.borders.radius,
        n.target_wid == s.borders.focused_wid ==> n.color == s.borders.active_color,
        n.target_wid != s.borders.focused_wid ==> n.color == s.borders.inactive_color,
        s.agenda.len() > 0,
        s.agenda[0] == Task::Place(n.target_wid, n.bounds),
        s.stepped(reply, now).0.agenda == seq![Task::Attach(n.target_wid, n.bounds)]
            + s.agenda.skip(1),
{
}

/// An overlay that was made is recorded under its window with its own number, the bounds
/// that it was asked for around, and the session's width and radius, and is shown. One
/// that could not be made is not recorded.
pub proof fn law_made_overlays_are_recorded(
    s: State,
    reply: ReplyView,
    now: u64,
    w: u32,
    bounds: CGRect,
)
    requires
        s.agenda.len() > 0,
        s.agenda[0] == Task::Attach(w, bounds),
    ensures
        ({
            let (after, outcome) = s.stepped(reply, now);
            &&& reply matches ReplyView::Created(Some(number)) ==> {
                &&& after.borders.tracks(w)
                &&& after.borders.overlays[w].window.number == number
                &&& stands_exactly_at(after.borders.overlays[w], bounds)
                &&& after.borders.overlays[w].window.border_width == s.borders.border_width
                &&& after.borders.overlays[w].window.radius == s.borders.radius
                &&& outcome.commands == seq![CommandView::OrderAbove(w)]
            }
            &&& !(reply matches ReplyView::Created(Some(_))) ==> after.borders == s.borders
                && outcome.commands.len() == 0
            &&& forall|x: u32|
                x != w ==> (#[trigger] after.borders.tracks(x) <==> s.borders.tracks(x)) && (
                s.borders.tracks(x) ==> after.borders.overlays[x] == s.borders.overlays[x])
        }),
{
}

/// No step changes what the user asked for, nor any number of an overlay but for those of
/// the window that is reconciled or gets its overlay.
pub proof fn law_steps_keep_the_settings(s: State, reply: ReplyView, now: u64)
    ensures
        same_settings(s.stepped(reply, now).0.borders, s.borders),
        forall|x: u32| #[trigger]
            s.borders.tracks(x) && s.stepped(reply, now).0.borders.tracks(x) && (s.agenda.len() > 0
                ==> !(s.agenda[0] is Synced) && !(s.agenda[0] is Attach)) ==> s.stepped(
                reply,
                now,
            ).0.borders.overlays[x] == s.borders.overlays[x],
{
}

/// Every overlay is recorded with the session's width and radius.
pub open spec fn uniform(b: Borders) -> bool {
    forall|x: u32| #[trigger]
        b.overlays.contains_key(x) ==> b.overlays[x].window.border_width == b.border_width
            && b.overlays[x].window.radius == b.radius
}

/// All overlays of a session are as wide and as round as the session was told.
pub proof fn law_overlays_stay_uniform(s: State, reply: ReplyView, now: u64)
    requires
        uniform(s.borders),
    ensures
        uniform(s.stepped(reply, now).0.borders),
{
}

/// The color of a window's border is the active one if it has the focus, and otherwise
/// the inactive one.
pub proof fn law_focus_has_the_active_color(b: Borders, w: u32)
    ensures
        w == b.focused_wid ==> b.color_of(w) == b.active_color,
        w != b.focused_wid ==> b.color_of(w) == b.inactive_color,
        b.tracks(w) ==> b.redraw_commands(w) == seq![CommandView::SetColor(w, b.color_of(w))],
{
}

/// The first answer for a window is the one that counts.
pub proof fn law_first_answer_counts(answers: Seq<(u32, CGRect)>, w: u32, i: int)
    ensures
        answer_for(answers, w) is None <==> forall|j: int|
            0 <= j < answers.len() ==> (#[trigger] answers[j]).0 != w,
        0 <= i < answers.len() && answers[i].0 == w && (forall|j: int|
            0 <= j < i ==> (#[trigger] answers[j]).0 != w) ==> answer_for(answers, w) == Some(
            answers[i].1,
        ),
    decreases answers.len(),
{
    if answers.len() > 0 {
        let rest = answers.skip(1);
        law_first_answer_counts(rest, w, i - 1);
        assert(forall|j: int| 0 <= j < rest.len() ==> #[trigger] rest[j] == answers[j + 1]);
        if answers[0].0 != w && answer_for(rest, w) is None {
            assert forall|j: int| 0 <= j < answers.len() implies (#[trigger] answers[j]).0 != w by {
                if j > 0 {
                    assert(rest[j - 1] == answers[j]);
                }
            }
        }
    }
}

/// A window gets no border for the sake of another one exactly if that one has a border,
/// is one surface with it, and has no less area.
pub proof fn law_covered_windows(
    b: Borders,
    w: u32,
    bounds: CGRect,
    answers: Seq<(u32, CGRect)>,
)
    ensures
        b.covered(w, bounds, answers) <==> exists|x: u32| #[trigger]
            b.tracks(x) && x != w && answer_for(answers, x) is Some && same_surface(
                answer_for(answers, x)->0,
                bounds,
            ) && area(answer_for(answers, x)->0) >= area(bounds),
{
    if b.covered(w, bounds, answers) {
        let x = choose|x: u32| #[trigger]
            b.overlays.contains_key(x) && b.standing(x, w, bounds, answers) == Some(
                SurfacePreference::KeepExisting,
            );
        assert(b.tracks(x));
    }
    if exists|x: u32| #[trigger]
        b.tracks(x) && x != w && answer_for(answers, x) is Some && same_surface(
            answer_for(answers, x)->0,
            bounds,
        ) && area(answer_for(answers, x)->0) >= area(bounds) {
        let x = choose|x: u32| #[trigger]
            b.tracks(x) && x != w && answer_for(answers, x) is Some && same_surface(
                answer_for(answers, x)->0,
                bounds,
            ) && area(answer_for(answers, x)->0) >= area(bounds);
        assert(b.overlays.contains_key(x));
    }
}

/// Making room for a window closes the overlays of the windows that give way, and no
/// others; if it is covered, nothing is closed, asked for or recorded.
pub proof fn law_making_room(
    s: State,
    reply: ReplyView,
    now: u64,
    w: u32,
    bounds: CGRect,
)
    requires
        s.agenda.len() > 0,
        s.agenda[0] == Task::Place(w, bounds),
        s.borders.overlays.dom().finite(),
    ensures
        ({
            let (after, outcome) = s.stepped(reply, now);
            let gone = s.borders.replaced(w, bounds, reply.bounds());
            let covered = s.borders.covered(w, bounds, reply.bounds());
            &&& covered ==> after.borders == s.borders && after.agenda == s.agenda.skip(1)
                && outcome.commands.len() == 0 && outcome.ask is Continue
            &&& !covered ==> {
                &&& outcome.ask is Create
                &&& outcome.commands.len() == gone.len()
                &&& forall|i: int|
                    0 <= i < gone.len() ==> #[trigger] outcome.commands[i] == CommandView::Close(
                        gone[i],
                    )
                &&& forall|x: u32| #[trigger]
                    after.borders.tracks(x) <==> s.borders.tracks(x) && !gone.contains(x)
                &&& forall|x: u32| #[trigger]
                    after.borders.tracks(x) ==> after.borders.overlays[x] == s.borders.overlays[x]
            }
        }),
{
    let gone = s.borders.replaced(w, bounds, reply.bounds());
    assert(forall|x: u32| gone.to_set().contains(x) == gone.contains(x));
}

/// Of the new windows, one is given its chance exactly if every other one on its surface
/// has less area, or as much and a higher id.
pub proof fn law_new_windows_that_are_kept(s: State, answers: Seq<(u32, CGRect)>, w: u32)
    requires
        increasing(s.ready),
    ensures
        s.kept(answers).contains(w) <==> s.ready.contains(w) && forall|x: u32| #[trigger]
            s.ready.contains(x) && x != w && same_surface(
                bounds_or_zero(answers, x),
                bounds_or_zero(answers, w),
            ) ==> {
                let (a, b) = (bounds_or_zero(answers, w), bounds_or_zero(answers, x));
                area(b) < area(a) || (area(b) == area(a) && w < x)
            },
{
    let keep = |x: u32| !skipped(s.ready, answers, x);
    lemma_filter_members(s.ready, keep);
    let ready = s.ready;
    if ready.contains(w) {
        let k = ready.index_of(w);
        assert(ready[k] == w);
        assert forall|x: u32| #[trigger] ready.contains(x) && x != w && same_surface(
            bounds_or_zero(answers, x),
            bounds_or_zero(answers, w),
        ) && !skipped(ready, answers, w) implies ({
            let (a, b) = (bounds_or_zero(answers, w), bounds_or_zero(answers, x));
            area(b) < area(a) || (area(b) == area(a) && w < x)
        }) by {
            let m = ready.index_of(x);
            assert(ready[m] == x);
            law_same_surface_is_symmetric(bounds_or_zero(answers, x), bounds_or_zero(answers, w));
            if m < k {
                assert(outdone(ready[m], ready[k], answers) != Some(w));
                assert(outdone(ready[m], ready[k], answers) is Some);
            } else {
                assert(outdone(ready[k], ready[m], answers) != Some(w));
                assert(outdone(ready[k], ready[m], answers) is Some);
            }
        }
        if skipped(ready, answers, w) {
            let (i, j) = choose|i: int, j: int|
                0 <= i < j < ready.len() && #[trigger] outdone(ready[i], ready[j], answers) == Some(
                    w,
                );
            assert(ready[i] < ready[j]);
            let x = if ready[i] == w {
                ready[j]
            } else {
                ready[i]
            };
            assert(ready.contains(ready[i]) && ready.contains(ready[j]));
            law_same_surface_is_symmetric(bounds_or_zero(answers, x), bounds_or_zero(answers, w));
            assert(ready.contains(x) && x != w);
        }
    }
}

/// The bounds that count for a new window: those that the server gives, or none at all.
pub proof fn law_unknown_windows_have_no_extent(answers: Seq<(u32, CGRect)>, w: u32)
    ensures
        answer_for(answers, w) is Some ==> bounds_or_zero(answers, w) == answer_for(answers, w)->0,
        answer_for(answers, w) is None ==> area(bounds_or_zero(answers, w)) == 0,
{
}

/// What the events of a batch collect: windows that moved, changed their size, went or
/// came, each under its own id, unless it is an overlay. A new window is known from when
/// it was first heard of.
pub proof fn law_events_are_collected(s: State, w: u32, now: u64)
    requires
        !s.borders.overlay_number(w),
    ensures
        s.handled(Event::Move(w), now).0 == (State { moved: s.moved.insert(w), ..s }),
        s.handled(Event::Resize(w), now).0 == (State { resized: s.resized.insert(w), ..s }),
        s.handled(Event::Destroy(w), now).0 == (State {
            destroyed: s.destroyed.insert(w),
            pending: s.pending.remove(w),
            ..s
        }),
        s.handled(Event::Close(w), now) == s.handled(Event::Destroy(w), now),
        s.pending.contains_key(w) ==> s.handled(Event::Create(w), now).0 == s,
        !s.pending.contains_key(w) ==> s.handled(Event::Create(w), now).0 == (State {
            pending: s.pending.insert(w, now),
            ..s
        }),
        s.handled(Event::Create(w), now).1.commands == seq![CommandView::Subscribe(seq![w])],
        s.handled(Event::Move(w), now).1.commands.len() == 0,
        s.handled(Event::Resize(w), now).1.commands.len() == 0,
        s.handled(Event::Destroy(w), now).1.commands.len() == 0,
{
}

/// What a window's hiding and showing and a change of the space or of the front process
/// set going.
pub proof fn law_other_events(s: State, w: u32, now: u64)
    ensures
        s.borders.tracks(w) ==> s.handled(Event::Hide(w), now).1.commands == seq![
            CommandView::OrderOut(w),
        ],
        !s.borders.tracks(w) ==> s.handled(Event::Hide(w), now).1.commands.len() == 0,
        s.handled(Event::Hide(w), now).0 == s,
        !s.borders.overlay_number(w) && s.borders.tracks(w) ==> s.handled(
            Event::Unhide(w),
            now,
        ).0.agenda == seq![Task::ShowIfAllowed(w)] + s.agenda,
        !s.borders.overlay_number(w) && !s.borders.tracks(w) ==> s.handled(
            Event::Unhide(w),
            now,
        ).0.agenda == seq![Task::AddFresh(w), Task::Subscribe(w), Task::ShowIfAllowed(w)]
            + s.agenda,
        s.handled(Event::FrontChange, now).0 == (State { resubscribe: true, ..s }),
        s.handled(Event::SpaceChange, now).0 == (State { resubscribe: true, ..s }),
{
}

/// A window is one of the overlays exactly if its id is an overlay's window number.
pub proof fn law_overlays_by_their_numbers(b: Borders, w: u32, t: u32)
    ensures
        b.tracks(t) && b.overlays[t].window.number == w ==> b.overlay_number(w),
        b.overlay_number(w) ==> exists|x: u32| #[trigger]
            b.tracks(x) && b.overlays[x].window.number == w,
{
    if b.overlay_number(w) {
        let x = choose|x: u32| b.overlays.contains_key(x) && b.overlays[x].window.number == w;
        assert(b.tracks(x) && b.overlays[x].window.number == w);
    }
}

/// Reaping closes the overlays of the windows that went, each once, and no others.
pub proof fn law_reaping(s: State, x: u32)
    requires
        s.destroyed.finite(),
    ensures
        ({
            let (after, outcome) = s.reaped();
            &&& after.borders.tracks(x) <==> s.borders.tracks(x) && !s.destroyed.contains(x)
            &&& after.borders.tracks(x) ==> after.borders.overlays[x] == s.borders.overlays[x]
            &&& outcome.commands.contains(CommandView::Close(x)) <==> s.borders.tracks(x)
                && s.destroyed.contains(x)
            &&& forall|i: int| 0 <= i < outcome.commands.len() ==> #[trigger] outcome.commands[i]
                is Close
        }),
{
    let had = |w: u32| s.borders.tracks(w);
    let close = |w: u32| CommandView::Close(w);
    let all = in_order(s.destroyed);
    lemma_finite_in_order(s.destroyed);
    lemma_filter_members(all, had);
    let some = all.filter(had);
    let commands = s.borders.close_commands(all);
    assert(commands == some.map_values(close));
    assert(all.to_set().contains(x) == all.contains(x));
    if some.contains(x) {
        let i = some.index_of(x);
        assert(commands[i] == CommandView::Close(x));
    }
    if commands.contains(CommandView::Close(x)) {
        let i = commands.index_of(CommandView::Close(x));
        assert(some[i] == x);
    }
}

/// After the new windows were looked at, those that are kept are introduced, every window
/// that moved or changed its size is reconciled, and nothing else is set going. New
/// windows that were looked at are not pending any more.
pub proof fn law_looking_at_new_windows(s: State, answers: Seq<(u32, CGRect)>, w: u32)
    requires
        s.moved.finite(),
        s.resized.finite(),
    ensures
        ({
            let after = s.pruned(answers).0;
            let kept = s.kept(answers);
            let more = after.agenda.len() - s.agenda.len();
            &&& more >= 0
            &&& after.agenda.skip(more) == s.agenda
            &&& after.agenda.take(more).contains(Task::Introduce(w)) <==> kept.contains(w)
            &&& after.agenda.take(more).contains(Task::Sync(w, true)) <==> (s.moved.contains(w)
                || s.resized.contains(w)) && !s.ready.contains(w)
            &&& forall|i: int|
                0 <= i < more ==> #[trigger] after.agenda[i] is Introduce || after.agenda[i]
                    is Sync
            &&& after.pending.contains_key(w) <==> s.pending.contains_key(w) && !s.ready.contains(w)
            &&& after.pending.contains_key(w) ==> after.pending[w] == s.pending[w]
            &&& after.resubscribe <==> s.resubscribe || kept.len() > 0
            &&& after.borders == s.borders
            &&& s.pruned(answers).1.commands.len() == 0
        }),
{
    let after = s.pruned(answers).0;
    let kept = s.kept(answers);
    let (moved, resized) = (s.only_moved(), s.only_resized());
    let introduce = |x: u32| Task::Introduce(x);
    let sync = |x: u32| Task::Sync(x, true);
    let (first, second, third) = (
        kept.map_values(introduce),
        moved.map_values(sync),
        resized.map_values(sync),
    );
    let tasks = first + second + third;
    let more = after.agenda.len() - s.agenda.len();
    assert(after.agenda == tasks + s.agenda);
    assert(after.agenda.take(more) =~= tasks);
    assert(after.agenda.skip(more) =~= s.agenda);
    lemma_finite_in_order(s.moved);
    lemma_finite_in_order(s.resized);
    lemma_filter_members(
        in_order(s.moved),
        |x: u32| !s.resized.contains(x) && !s.ready.contains(x),
    );
    lemma_filter_members(in_order(s.resized), |x: u32| !s.ready.contains(x));
    assert(in_order(s.moved).to_set().contains(w) == in_order(s.moved).contains(w));
    assert(in_order(s.resized).to_set().contains(w) == in_order(s.resized).contains(w));
    assert(s.ready.to_set().contains(w) == s.ready.contains(w));
    if kept.contains(w) {
        let i = kept.index_of(w);
        assert(tasks[i] == Task::Introduce(w));
    }
    if moved.contains(w) {
        let i = moved.index_of(w);
        assert(tasks[first.len() + i] == Task::Sync(w, true));
    }
    if resized.contains(w) {
        let i = resized.index_of(w);
        assert(tasks[first.len() + second.len() + i] == Task::Sync(w, true));
    }
    if tasks.contains(Task::Introduce(w)) {
        let i = tasks.index_of(Task::Introduce(w));
        assert(i < first.len());
        assert(kept[i] == w);
    }
    if tasks.contains(Task::Sync(w, true)) {
        let i = tasks.index_of(Task::Sync(w, true));
        assert(i >= first.len());
        if i < first.len() + second.len() {
            assert(moved[i - first.len()] == w);
        } else {
            assert(resized[i - first.len() - second.len()] == w);
        }
    }
    assert forall|i: int| 0 <= i < more implies #[trigger] after.agenda[i] is Introduce
        || after.agenda[i] is Sync by {
        assert(after.agenda[i] == tasks[i]);
    }
}

/// Reconciling all overlays reconciles each of them, and nothing else.
pub proof fn law_all_overlays_are_reconciled(s: State, report: bool, w: u32)
    requires
        s.borders.overlays.dom().finite(),
    ensures
        ({
            let after = s.reconciling(report);
            let more = after.agenda.len() - s.agenda.len();
            &&& more >= 0
            &&& after.agenda.skip(more) == s.agenda
            &&& after.agenda.take(more).contains(Task::Sync(w, report)) <==> s.borders.tracks(w)
            &&& forall|i: int|
                0 <= i < more ==> #[trigger] after.agenda[i] is Sync && after.agenda[i]->Sync_1
                    == report
            &&& after.borders == s.borders
        }),
{
    let after = s.reconciling(report);
    let targets = s.borders.targets();
    let sync = |x: u32| Task::Sync(x, report);
    let tasks = targets.map_values(sync);
    let more = after.agenda.len() - s.agenda.len();
    s.borders.lemma_targets();
    assert(after.agenda.take(more) =~= tasks);
    assert(after.agenda.skip(more) =~= s.agenda);
    assert(targets.to_set().contains(w) == targets.contains(w));
    if targets.contains(w) {
        let i = targets.index_of(w);
        assert(tasks[i] == Task::Sync(w, report));
    }
    if tasks.contains(Task::Sync(w, report)) {
        let i = tasks.index_of(Task::Sync(w, report));
        assert(targets[i] == w);
    }
    assert forall|i: int| 0 <= i < more implies #[trigger] after.agenda[i] is Sync
        && after.agenda[i]->Sync_1 == report by {
        assert(after.agenda[i] == tasks[i]);
    }
}

/// The focus goes to the front window as soon as there is one, and stays where it is if
/// there is none. A change sets going that the new window gets a border if it has none,
/// that both windows are reconciled, and then that both are drawn in their colors.
pub proof fn law_focus_goes_to_the_front_window(
    s: State,
    front_pid: i32,
    entries: Seq<WindowEntry>,
    now: u64,
)
    requires
        s.agenda.len() > 0,
        s.agenda[0] is Focus,
    ensures
        ({
            let front = front_window(s.borders.own_pid, front_pid, entries);
            let (after, outcome) = s.stepped(ReplyView::Front(front_pid, entries), now);
            let old_wid = s.borders.focused_wid;
            let rest = s.agenda.skip(1);
            &&& outcome.commands.len() == 0
            &&& after.borders.overlays == s.borders.overlays
            &&& front == 0 ==> after.borders.focused_wid == old_wid && after.agenda == rest
            &&& front != 0 ==> after.borders.focused_wid == front
            &&& front != 0 && front == old_wid && s.borders.tracks(front) ==> after.agenda == rest
            &&& front != 0 && front != old_wid && s.borders.tracks(front) ==> after.agenda == seq![
                Task::Sync(old_wid, false),
                Task::Sync(front, false),
                Task::Recolor(old_wid, front),
            ] + rest
            &&& front != 0 && front != old_wid && !s.borders.tracks(front) ==> after.agenda == seq![
                Task::AddFresh(front),
                Task::Subscribe(front),
                Task::Sync(old_wid, false),
                Task::Sync(front, false),
                Task::Recolor(old_wid, front),
            ] + rest
        }),
{
    let front = front_window(s.borders.own_pid, front_pid, entries);
    let old_wid = s.borders.focused_wid;
    let tail = seq![
        Task::Sync(old_wid, false),
        Task::Sync(front, false),
        Task::Recolor(old_wid, front),
    ];
    assert(Seq::<Task>::empty() + tail =~= tail);
    assert(seq![Task::AddFresh(front), Task::Subscribe(front)] + tail =~= seq![
        Task::AddFresh(front),
        Task::Subscribe(front),
        Task::Sync(old_wid, false),
        Task::Sync(front, false),
        Task::Recolor(old_wid, front),
    ]);
}

/// A change of focus draws the border of the window that lost it in the inactive color,
/// and that of the window that has it in the active one. Where only the focused border is
/// to be visible, the one goes off the screen and the other one comes onto it.
pub proof fn law_change_of_focus_is_shown(s: State, old_wid: u32, front: u32)
    requires
        s.borders.focused_wid == front,
        old_wid != front,
    ensures
        ({
            let commands = s.recolor_commands(old_wid, front);
            let b = s.borders;
            &&& commands.contains(CommandView::SetColor(old_wid, b.inactive_color)) <==> b.tracks(
                old_wid,
            )
            &&& commands.contains(CommandView::SetColor(front, b.active_color)) <==> b.tracks(front)
            &&& commands.contains(CommandView::OrderOut(old_wid)) <==> b.active_only && b.tracks(
                old_wid,
            )
            &&& commands.contains(CommandView::OrderAbove(front)) <==> b.active_only && b.tracks(
                front,
            )
            &&& !commands.contains(CommandView::OrderAbove(old_wid))
            &&& !commands.contains(CommandView::OrderOut(front))
        }),
{
    let b = s.borders;
    let hidden = b.hide_commands(old_wid);
    let shown = b.unhide_commands(front);
    let first = if b.active_only {
        hidden + shown
    } else {
        seq![]
    };
    let old_color = b.redraw_commands(old_wid);
    let color = b.redraw_commands(front);
    let commands = s.recolor_commands(old_wid, front);
    assert(commands == first + old_color + color);
    if b.tracks(old_wid) {
        assert(commands[first.len() as int] == CommandView::SetColor(old_wid, b.inactive_color));
        if b.active_only {
            assert(commands[0] == CommandView::OrderOut(old_wid));
        }
    }
    if b.tracks(front) {
        assert(commands[(first + old_color).len() as int] == CommandView::SetColor(
            front,
            b.active_color,
        ));
        if b.active_only {
            assert(commands[hidden.len() as int] == CommandView::OrderAbove(front));
        }
    }
}

/// All windows worth a border that a search finds are adopted, in their order, and then
/// the session subscribes anew if that added one. At the start each gets its border.
pub proof fn law_found_windows_are_taken_up(s: State, entries: Seq<WindowEntry>, i: int)
    requires
        0 <= i < discovered(s.borders.own_pid, entries).len(),
    ensures
        ({
            let found = discovered(s.borders.own_pid, entries);
            let n = found.len() as int;
            &&& s.listed(entries).agenda.len() == n + 1 + s.agenda.len()
            &&& s.listed(entries).agenda[i] == Task::Adopt(found[i])
            &&& s.listed(entries).agenda[n] is SubscribeIfAdded
            &&& s.listed(entries).agenda.skip(n + 1) == s.agenda
            &&& s.border_all(entries).agenda.len() == n + s.agenda.len()
            &&& s.border_all(entries).agenda[i] == Task::AddFresh(found[i])
            &&& s.border_all(entries).agenda.skip(n) == s.agenda
        }),
{
    let n = discovered(s.borders.own_pid, entries).len() as int;
    assert(s.listed(entries).agenda.skip(n + 1) =~= s.agenda);
    assert(s.border_all(entries).agenda.skip(n) =~= s.agenda);
}

/// A window that is adopted and has no border gets one, and hides it where only the
/// focused one is to be visible.
pub proof fn law_adopted_windows_get_borders(s: State, w: u32)
    ensures
        s.borders.tracks(w) ==> s.adopted(w) == s,
        !s.borders.tracks(w) ==> s.adopted(w) == (State {
            added: true,
            agenda: seq![Task::AddFresh(w), Task::HideUnlessFocused(w)] + s.agenda,
            ..s
        }),
        s.introduced(w).agenda == seq![Task::AddFresh(w), Task::HideUnlessFocused(w)] + s.agenda,
{
}

/// Which overlays are shown and hidden where a window is introduced, unhidden or tried
/// again.
pub proof fn law_showing_and_hiding(s: State, w: u32)
    ensures
        ({
            let b = s.borders;
            let may = !b.active_only || w == b.focused_wid;
            &&& s.hide_unless_focused_commands(w) == (if b.tracks(w) && !may {
                seq![CommandView::OrderOut(w)]
            } else {
                seq![]
            })
            &&& s.show_if_allowed_commands(w) == (if b.tracks(w) && may {
                seq![CommandView::OrderAbove(w)]
            } else {
                seq![]
            })
            &&& s.retry_commands(w).len() > 0 <==> b.tracks(w)
            &&& b.tracks(w) ==> s.retry_commands(w)[0] == CommandView::Subscribe(seq![w])
            &&& b.tracks(w) ==> (s.retry_commands(w).contains(CommandView::OrderAbove(w))
                <==> b.active_only)
        }),
{
    if s.borders.tracks(w) && s.borders.active_only {
        assert(s.retry_commands(w)[1] == CommandView::OrderAbove(w));
    }
}

/// Subscribing names every window with a border, once, and is not done if there is none.
/// A batch ends with it if it found new windows, or any went.
pub proof fn law_subscriptions(s: State, w: u32)
    requires
        s.borders.overlays.dom().finite(),
    ensures
        ({
            let commands = s.borders.subscribe_commands();
            let anew = s.resubscribe || s.destroyed.len() > 0;
            &&& s.borders.tracks(w) ==> commands.len() == 1
            &&& commands.len() <= 1
            &&& commands.len() == 1 ==> commands[0] is Subscribe && increasing(
                commands[0]->Subscribe_0,
            ) && (commands[0]->Subscribe_0.contains(w) <==> s.borders.tracks(w))
            &&& anew ==> s.finish_commands() == commands + s.borders.enforce_commands()
            &&& !anew ==> s.finish_commands() == s.borders.enforce_commands()
        }),
{
    let targets = s.borders.targets();
    s.borders.lemma_targets();
    assert(targets.to_set().contains(w) == targets.contains(w));
    if s.borders.tracks(w) {
        let i = targets.index_of(w);
        assert(targets.len() > 0);
    }
    assert(Seq::<CommandView>::empty() + s.borders.enforce_commands()
        =~= s.borders.enforce_commands());
}

/// Where only the focused border is to be visible, settling that shows it and hides each
/// of the others; elsewhere it does nothing.
pub proof fn law_visibility_is_settled(b: Borders, w: u32)
    requires
        b.overlays.dom().finite(),
    ensures
        b.enforce_commands().contains(CommandView::OrderAbove(w)) <==> b.active_only && b.tracks(w)
            && w == b.focused_wid,
        b.enforce_commands().contains(CommandView::OrderOut(w)) <==> b.active_only && b.tracks(w)
            && w != b.focused_wid,
        b.hide_unfocused_commands().contains(CommandView::OrderOut(w)) <==> b.active_only
            && b.tracks(w) && w != b.focused_wid,
        !b.hide_unfocused_commands().contains(CommandView::OrderAbove(w)),
        !b.active_only ==> b.enforce_commands().len() == 0,
{
    let targets = b.targets();
    b.lemma_targets();
    assert(targets.to_set().contains(w) == targets.contains(w));
    let all = b.enforce_commands();
    let others = |x: u32| x != b.focused_wid;
    lemma_filter_members(targets, others);
    let some = targets.filter(others);
    let hidden = b.hide_unfocused_commands();
    if b.active_only {
        if targets.contains(w) {
            let i = targets.index_of(w);
            assert(all[i] == (if w == b.focused_wid {
                CommandView::OrderAbove(w)
            } else {
                CommandView::OrderOut(w)
            }));
        }
        if all.contains(CommandView::OrderAbove(w)) {
            let i = all.index_of(CommandView::OrderAbove(w));
            assert(targets[i] == w);
        }
        if all.contains(CommandView::OrderOut(w)) {
            let i = all.index_of(CommandView::OrderOut(w));
            assert(targets[i] == w);
        }
        assert(hidden == some.map_values(|x: u32| CommandView::OrderOut(x)));
        if some.contains(w) {
            let i = some.index_of(w);
            assert(hidden[i] == CommandView::OrderOut(w));
        }
        if hidden.contains(CommandView::OrderOut(w)) {
            let i = hidden.index_of(CommandView::OrderOut(w));
            assert(some[i] == w);
        }
    }
}

/// A batch takes its events into account in their order, and then closes what went,
/// looks at the new windows, searches if anything calls for it, reconciles all overlays,
/// finds the focus, and settles what is subscribed and visible.
pub proof fn law_course_of_a_batch(events: Seq<Event>)
    ensures
        ({
            let t = batch_tasks(events);
            let n = events.len() as int;
            &&& t.len() == n + 7
            &&& t[0] is Begin
            &&& forall|i: int| 0 <= i < n ==> #[trigger] t[i + 1] == Task::Handle(events[i])
            &&& t[n + 1] is Reap
            &&& t[n + 2] is Ripen
            &&& t[n + 3] is DiscoverIfNeeded
            &&& t[n + 4] == Task::Reconcile(true)
            &&& t[n + 5] is UpdateFocus
            &&& t[n + 6] is Finish
        }),
{
}

/// A session starts with borders for all windows, or for the one that was asked for, and
/// then subscribes, finds the focus and hides what is not to be visible. A tick without
/// events finds the focus, and now and then reconciles all overlays.
pub proof fn law_course_of_starting_and_polling(w: u32)
    ensures
        start_tasks(Some(w)) == seq![
            Task::AddFresh(w),
            Task::SubscribeAll,
            Task::UpdateFocus,
            Task::HideUnfocused,
        ],
        start_tasks(None) == seq![
            Task::List,
            Task::SubscribeAll,
            Task::UpdateFocus,
            Task::HideUnfocused,
        ],
        poll_tasks(false) == seq![Task::UpdateFocus],
        poll_tasks(true) == seq![Task::UpdateFocus, Task::Reconcile(false)],
{
}

/// A new window is left alone for a tenth of a second, in nanoseconds, and its bounds are
/// asked for after that.
pub proof fn law_settling_takes_a_tenth_of_a_second(s: State, now: u64, w: u32)
    requires
        s.pending.dom().finite(),
    ensures
        ({
            let (after, outcome) = s.ripened(now);
            &&& after.ready.contains(w) <==> s.pending.contains_key(w) && !s.destroyed.contains(w)
                && now - s.pending[w] >= 100_000_000
            &&& outcome.ask == QueryView::Bounds(after.ready)
            &&& increasing(after.ready)
            &&& after.pending == s.pending
            &&& after.agenda == seq![Task::Prune] + s.agenda
        }),
{
    crate::admission::law_new_windows_settle(s, now, w);
    lemma_finite_in_order(s.pending.dom());
    lemma_filter_increasing(in_order(s.pending.dom()), |x: u32| s.settled(x, now));
}

/// The questions that tasks ask, and what waits for the reply.
pub proof fn law_questions(s: State, reply: ReplyView, now: u64)
    requires
        s.agenda.len() > 0,
    ensures
        ({
            let (after, outcome) = s.stepped(reply, now);
            let rest = s.agenda.skip(1);
            let b = s.borders;
            &&& s.agenda[0] matches Task::AddFresh(w) ==> if b.tracks(w) {
                after.agenda == rest && outcome.ask is Continue
            } else {
                after.agenda == seq![Task::Admit(w)] + rest && outcome.ask == QueryView::Window(w)
            }
            &&& s.agenda[0] matches Task::Sync(w, report) ==> if b.tracks(w) {
                after.agenda == seq![Task::Synced(w, report)] + rest && outcome.ask
                    == QueryView::Window(w)
            } else {
                after.agenda == rest && outcome.ask is Continue
            }
            &&& s.agenda[0] is UpdateFocus ==> after.agenda == seq![Task::Focus] + rest
                && outcome.ask is Front
            &&& s.agenda[0] is List ==> after.agenda == seq![Task::BorderAll] + rest && outcome.ask
                is Windows
            &&& s.agenda[0] is Discover ==> after.agenda == seq![Task::Discovered] + rest
                && outcome.ask is Windows && !after.added
            &&& s.agenda[0] is DiscoverIfNeeded ==> after.agenda == (if s.resubscribe {
                seq![Task::Discover] + rest
            } else {
                rest
            })
        }),
{
}

/// What a step does to the overlays once the reply is there.
pub proof fn law_replies_are_acted_on(s: State, reply: ReplyView, now: u64)
    requires
        s.agenda.len() > 0,
    ensures
        ({
            let (after, outcome) = s.stepped(reply, now);
            let rest = s.agenda.skip(1);
            let b = s.borders;
            &&& s.agenda[0] matches Task::Admit(w) ==> {
                &&& b.admits(reply.facts()) ==> after.agenda == seq![
                    Task::Place(w, reply.facts().bounds->0),
                ] + rest && outcome.ask == QueryView::Bounds(b.targets())
                &&& !b.admits(reply.facts()) ==> after.agenda == rest && outcome.ask is Continue
                &&& after.borders == b && outcome.commands.len() == 0
            }
            &&& s.agenda[0] matches Task::Synced(w, report) ==> {
                &&& after.borders == b.synced(w, reply.facts())
                &&& outcome.commands == b.sync_commands(w, reply.facts())
                &&& after.agenda == rest
                &&& after.resubscribe <==> s.resubscribe || (report && b.tracks(w)
                    && !after.borders.tracks(w))
            }
            &&& s.agenda[0] is SubscribeIfAdded ==> outcome.commands == (if s.added {
                b.subscribe_commands()
            } else {
                seq![]
            })
            &&& s.agenda[0] is SubscribeAll ==> outcome.commands == b.subscribe_commands()
            &&& s.agenda[0] matches Task::Subscribe(w) ==> outcome.commands == seq![
                CommandView::Subscribe(seq![w]),
            ]
        }),
{
}

/// A reply of another kind than was asked for counts as if the window server had known
/// nothing; the others are taken as they are.
pub proof fn law_replies_are_read(
    facts: WindowFacts,
    bounds: Seq<(u32, CGRect)>,
    entries: Seq<WindowEntry>,
    pid: i32,
    number: Option<u32>,
)
    ensures
        ReplyView::Window(facts).facts() == facts,
        ReplyView::Bounds(bounds).bounds() == bounds,
        ReplyView::Windows(entries).windows() == entries,
        ReplyView::Front(pid, entries).windows() == entries,
        ReplyView::Front(pid, entries).front_pid() == pid,
        ReplyView::Created(number).number() == number,
        ReplyView::Nothing.facts().bounds is None,
        !ReplyView::Nothing.facts().shown,
        ReplyView::Nothing.facts().metadata is None,
        ReplyView::Nothing.bounds().len() == 0,
        ReplyView::Nothing.windows().len() == 0,
        ReplyView::Nothing.front_pid() == 0,
        ReplyView::Nothing.number() is None,
{
}

/// A batch starts with nothing collected; what is pending and recorded stays.
pub proof fn law_batches_start_afresh(s: State)
    ensures
        s.begun().moved.len() == 0,
        s.begun().resized.len() == 0,
        s.begun().destroyed.len() == 0,
        s.begun().ready.len() == 0,
        !s.begun().resubscribe,
        !s.begun().added,
        s.begun().borders == s.borders,
        s.begun().pending == s.pending,
        s.begun().agenda == s.agenda,
{
}

/// Taking a window's overlay away closes it and forgets it, and no other one.
pub proof fn law_taking_an_overlay_away(b: Borders, w: u32, x: u32)
    ensures
        b.without(w).tracks(x) <==> b.tracks(x) && x != w,
        b.without(w).tracks(x) ==> b.without(w).overlays[x] == b.overlays[x],
        b.tracks(w) ==> b.remove_commands(w) == seq![CommandView::Close(w)],
        !b.tracks(w) ==> b.remove_commands(w).len() == 0,
        same_settings(b.without(w), b),
        b.without(w).focused_wid == b.focused_wid,
{
}

}
