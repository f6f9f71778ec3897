//! Which windows come to have a border, and which lose it.

use crate::agenda::lemma_follow_ups;
use crate::borders::{answer_for, Borders, CommandView, WindowFacts};
use crate::event::Event;
use crate::focus::front_window;
use crate::geometry::CGRect;
use crate::order::{in_order, increasing, lemma_finite_in_order};
use crate::plan::{
    bounds_or_zero, outdone, quiet, skipped, QueryView, ReplyView, State, Task, SETTLE_TIME,
};
use crate::sequence::lemma_filter_members;
use crate::surface::{area, same_surface};
use crate::world::World;
use vstd::prelude::*;

verus! {

/// A window gets an overlay in three steps, and in no other way: it is found visible,
/// suitable, large enough and not one of this process; no window with a border makes
/// it needless; and its overlay is made.
pub proof fn law_only_admitted_windows_get_borders(
    world: World,
    reply: ReplyView,
    now: u64,
    w: u32,
    bounds: CGRect,
)
    requires
        world.sound(),
        world.state.agenda.len() > 0,
    ensures
        ({
            let task = world.state.agenda[0];
            let b = world.state.borders;
            let after = world.stepped(reply, now).state;
            &&& after.borders.tracks(w) && !b.tracks(w) ==> task is Attach && task->Attach_0 == w
                && reply.number() is Some
            &&& after.agenda.len() > 0 && after.agenda[0] == Task::Attach(w, bounds) ==> task
                == Task::Place(w, bounds) && !b.covered(w, bounds, reply.bounds())
            &&& after.agenda.len() > 0 && after.agenda[0] == Task::Place(w, bounds) ==> task
                == Task::Admit(w) && b.admits(reply.facts()) && reply.facts().bounds == Some(bounds)
        }),
{
    let task = world.state.agenda[0];
    let s = world.popped();
    let after = world.stepped(reply, now).state;
    let tasks = lemma_follow_ups(s, task, reply, now);
    assert(s.agenda.len() > 0 ==> s.agenda[0] == world.state.agenda[1]);
    if tasks.len() == 0 {
        assert(after.agenda =~= s.agenda);
    } else {
        assert(after.agenda[0] == tasks[0]);
        assert(tasks.len() == after.agenda.len() - s.agenda.len());
    }
}

/// A window that is found to deserve a border gets it: within four steps it has its
/// overlay, around the bounds that were found, the overlays that it takes the place of
/// are closed, and the rest of the work is what it was.
pub proof fn law_admitted_windows_get_borders(
    s: State,
    w: u32,
    facts: WindowFacts,
    answers: Seq<(u32, CGRect)>,
    number: u32,
    first: ReplyView,
    now: u64,
)
    requires
        s.agenda.len() > 0,
        s.agenda[0] == Task::AddFresh(w),
        !s.borders.tracks(w),
        s.borders.admits(facts),
        !s.borders.covered(w, facts.bounds->0, answers),
    ensures
        ({
            let bounds = facts.bounds->0;
            let gone = s.borders.replaced(w, bounds, answers);
            let (s1, o1) = s.stepped(first, now);
            let (s2, o2) = s1.stepped(ReplyView::Window(facts), now);
            let (s3, o3) = s2.stepped(ReplyView::Bounds(answers), now);
            let (s4, o4) = s3.stepped(ReplyView::Created(Some(number)), now);
            &&& o1.ask == QueryView::Window(w)
            &&& o2.ask == QueryView::Bounds(s.borders.targets())
            &&& o3.ask == QueryView::Create(s.new_overlay(w, bounds))
            &&& o1.commands.len() == 0
            &&& o2.commands.len() == 0
            &&& o3.commands == gone.map_values(|x: u32| CommandView::Close(x))
            &&& o4.commands == seq![CommandView::OrderAbove(w)]
            &&& s4 == (State {
                borders: s.borders.without_all(gone.to_set()).attached(w, number, bounds),
                agenda: s.agenda.skip(1),
                ..s
            })
            &&& s4.borders.tracks(w)
        }),
{
    let rest = s.agenda.skip(1);
    let bounds = facts.bounds->0;
    let s1 = s.stepped(first, now).0;
    assert(s1.agenda =~= seq![Task::Admit(w)] + rest);
    assert(s1.agenda.skip(1) =~= rest);
    let s2 = s1.stepped(ReplyView::Window(facts), now).0;
    assert(s2.agenda =~= seq![Task::Place(w, bounds)] + rest);
    assert(s2.agenda.skip(1) =~= rest);
    let s3 = s2.stepped(ReplyView::Bounds(answers), now).0;
    assert(s3.agenda =~= seq![Task::Attach(w, bounds)] + rest);
    assert(s3.agenda.skip(1) =~= rest);
}

/// An overlay that was reconciled with its target is where the target is, to within
/// half a point, and has its size.
pub proof fn law_reconciled_overlays_are_in_place(b: Borders, w: u32, facts: WindowFacts)
    requires
        b.synced(w, facts).tracks(w),
    ensures
        facts.bounds is Some,
        !b.synced(w, facts).out_of_place(w, facts.bounds->0),
{
}

/// Where a border is given, no window that has one is one surface with the new one any
/// more, as far as the server knew their bounds.
pub proof fn law_no_two_borders_for_one_surface(
    s: State,
    w: u32,
    bounds: CGRect,
    answers: Seq<(u32, CGRect)>,
    x: u32,
)
    requires
        s.borders.overlays.dom().finite(),
        !s.borders.covered(w, bounds, answers),
        s.placed(w, bounds, answers).0.borders.tracks(x),
        x != w,
    ensures
        answer_for(answers, x) matches Some(b) ==> !same_surface(b, bounds),
{
    let b = s.borders;
    let smaller = |y: u32|
        b.standing(y, w, bounds, answers) == Some(
            crate::surface::SurfacePreference::ReplaceExisting,
        );
    lemma_filter_members(b.targets(), smaller);
    b.lemma_targets();
    assert(b.overlays.contains_key(x));
    assert(b.targets().to_set().contains(x));
    assert(b.targets().contains(x));
}

/// No two windows with a border are one surface, if `live` says where each stands.
pub open spec fn one_border_each(b: Borders, live: spec_fn(u32) -> CGRect) -> bool {
    forall|x: u32, y: u32|
        x != y && #[trigger] b.tracks(x) && #[trigger] b.tracks(y) ==> !same_surface(
            live(x),
            live(y),
        )
}

/// The server says of each window with a border where it stands.
pub open spec fn all_answered(
    b: Borders,
    answers: Seq<(u32, CGRect)>,
    live: spec_fn(u32) -> CGRect,
) -> bool {
    forall|x: u32| #[trigger] b.tracks(x) ==> answer_for(answers, x) == Some(live(x))
}

/// A border takes the place of those of smaller windows, and of no others: the window
/// that loses its border is one surface with the new one and has less area.
pub proof fn law_only_smaller_windows_give_way(
    b: Borders,
    w: u32,
    bounds: CGRect,
    answers: Seq<(u32, CGRect)>,
    x: u32,
)
    requires
        b.overlays.dom().finite(),
    ensures
        b.replaced(w, bounds, answers).contains(x) <==> {
            &&& b.tracks(x)
            &&& x != w
            &&& answer_for(answers, x) is Some
            &&& same_surface(answer_for(answers, x)->0, bounds)
            &&& area(answer_for(answers, x)->0) < area(bounds)
        },
{
    let smaller = |y: u32|
        b.standing(y, w, bounds, answers) == Some(
            crate::surface::SurfacePreference::ReplaceExisting,
        );
    lemma_filter_members(b.targets(), smaller);
    b.lemma_targets();
    assert(b.targets().to_set().contains(x) == b.targets().contains(x));
}

/// If no two windows with a border are one surface, that is still so once a new window
/// has got its border and the smaller windows on its surface have lost theirs.
pub proof fn law_one_border_per_surface(
    b: Borders,
    w: u32,
    number: u32,
    answers: Seq<(u32, CGRect)>,
    live: spec_fn(u32) -> CGRect,
)
    requires
        b.overlays.dom().finite(),
        one_border_each(b, live),
        all_answered(b, answers, live),
        !b.covered(w, live(w), answers),
    ensures
        ({
            let gone = b.replaced(w, live(w), answers);
            one_border_each(b.without_all(gone.to_set()).attached(w, number, live(w)), live)
        }),
{
    let gone = b.replaced(w, live(w), answers);
    let after = b.without_all(gone.to_set()).attached(w, number, live(w));
    assert forall|x: u32| #[trigger] after.tracks(x) && x != w implies b.tracks(x) && !same_surface(
        live(x),
        live(w),
    ) by {
        law_only_smaller_windows_give_way(b, w, live(w), answers, x);
        assert(b.tracks(x) && !gone.contains(x));
        assert(b.overlays.contains_key(x));
    }
    assert forall|x: u32, y: u32|
        x != y && #[trigger] after.tracks(x) && #[trigger] after.tracks(y) implies !same_surface(
        live(x),
        live(y),
    ) by {
        crate::surface::law_same_surface_is_symmetric(live(x), live(y));
    }
}

/// No two windows with a border are one surface, nor is one that has a border and the
/// window that is about to get one.
pub open spec fn surfaces_apart(s: State, live: spec_fn(u32) -> CGRect) -> bool {
    &&& one_border_each(s.borders, live)
    &&& s.agenda.len() > 0 ==> match s.agenda[0] {
        Task::Place(w, bounds) => bounds == live(w),
        Task::Attach(w, bounds) => forall|x: u32|
            x != w && #[trigger] s.borders.tracks(x) ==> !same_surface(live(x), live(w)),
        _ => true,
    }
}

/// What the server says about bounds where a window is let in is what holds.
pub open spec fn truthful(s: State, reply: ReplyView, live: spec_fn(u32) -> CGRect) -> bool {
    match s.agenda[0] {
        Task::Admit(w) => reply.facts().bounds matches Some(bounds) ==> bounds == live(w),
        Task::Place(..) => all_answered(s.borders, reply.bounds(), live),
        _ => true,
    }
}

/// While windows stand still and the server knows them, no step of whatever work gives
/// a second border to a surface, and a window loses its border to another one only if
/// that is larger and on its surface.
pub proof fn law_steps_keep_one_border_per_surface(
    world: World,
    reply: ReplyView,
    now: u64,
    live: spec_fn(u32) -> CGRect,
)
    requires
        world.sound(),
        world.state.agenda.len() > 0,
        surfaces_apart(world.state, live),
        truthful(world.state, reply, live),
    ensures
        surfaces_apart(world.stepped(reply, now).state, live),
        world.state.agenda[0] matches Task::Place(w, bounds) ==> forall|x: u32| #[trigger]
            world.state.borders.tracks(x) && !world.stepped(reply, now).state.borders.tracks(x)
                ==> same_surface(live(x), live(w)) && area(live(x)) < area(live(w)),
{
    let before = world.state.borders;
    let task = world.state.agenda[0];
    let after = world.stepped(reply, now).state;
    assert forall|x: u32| #[trigger] after.borders.tracks(x) && !before.tracks(x) implies task
        is Attach && task->Attach_0 == x by {
        law_only_admitted_windows_get_borders(world, reply, now, x, live(x));
    }
    assert forall|x: u32, y: u32|
        x != y && #[trigger] after.borders.tracks(x) && #[trigger] after.borders.tracks(
            y,
        ) implies !same_surface(live(x), live(y)) by {
        crate::surface::law_same_surface_is_symmetric(live(x), live(y));
    }
    if let Task::Place(w, bounds) = task {
        assert forall|x: u32| #[trigger] before.tracks(x) && !after.borders.tracks(x) implies
            same_surface(live(x), live(w)) && area(live(x)) < area(live(w)) by {
            law_only_smaller_windows_give_way(before, w, bounds, reply.bounds(), x);
        }
    }
    if after.agenda.len() > 0 {
        match after.agenda[0] {
            Task::Place(w, bounds) => {
                law_only_admitted_windows_get_borders(world, reply, now, w, bounds);
            },
            Task::Attach(w, bounds) => {
                law_only_admitted_windows_get_borders(world, reply, now, w, bounds);
                assert forall|x: u32|
                    x != w && #[trigger] after.borders.tracks(x) implies !same_surface(
                    live(x),
                    live(w),
                ) by {
                    assert(before.tracks(x));
                    law_no_two_borders_for_one_surface(
                        world.popped(),
                        w,
                        bounds,
                        reply.bounds(),
                        x,
                    );
                }
            },
            _ => {},
        }
    }
}

/// A new window is looked at once it has been known for long enough and has not gone,
/// and only then.
pub proof fn law_new_windows_settle(s: State, now: u64, w: u32)
    requires
        s.pending.dom().finite(),
    ensures
        s.ripened(now).0.ready.contains(w) <==> {
            &&& s.pending.contains_key(w)
            &&& !s.destroyed.contains(w)
            &&& now - s.pending[w] >= SETTLE_TIME
        },
{
    let keep = |x: u32| s.settled(x, now);
    lemma_finite_in_order(s.pending.dom());
    lemma_filter_members(in_order(s.pending.dom()), keep);
    assert(in_order(s.pending.dom()).to_set().contains(w) == in_order(s.pending.dom()).contains(w));
}

/// The windows that a batch reported gone have no overlay once they are reaped.
pub proof fn law_gone_windows_lose_their_borders(s: State, w: u32)
    requires
        s.destroyed.contains(w),
    ensures
        !s.reaped().0.borders.tracks(w),
{
}

/// A window that is reported gone stops pending, unless it is one of the overlays.
pub proof fn law_gone_windows_stop_pending(s: State, w: u32)
    requires
        !s.borders.overlay_number(w),
    ensures
        s.reported_gone(w).destroyed.contains(w),
        !s.reported_gone(w).pending.contains_key(w),
{
}

/// What happens to the overlays themselves has no consequences, but for hiding a
/// border whose target has that id.
pub proof fn law_own_overlays_are_ignored(s: State, w: u32, now: u64)
    requires
        s.borders.overlay_number(w),
    ensures
        s.handled(Event::Move(w), now) == quiet(s, seq![]),
        s.handled(Event::Resize(w), now) == quiet(s, seq![]),
        s.handled(Event::Close(w), now) == quiet(s, seq![]),
        s.handled(Event::Destroy(w), now) == quiet(s, seq![]),
        s.handled(Event::Create(w), now) == quiet(s, seq![]),
        s.handled(Event::Unhide(w), now) == quiet(s, seq![]),
{
}

/// A focused window without a border is tried again each time that the focus is
/// looked at.
pub proof fn law_focused_window_is_tried_again(s: State, reply: ReplyView, now: u64)
    requires
        s.agenda.len() > 0,
        s.agenda[0] is Focus,
        s.borders.focused_wid != 0,
        !s.borders.tracks(s.borders.focused_wid),
        front_window(s.borders.own_pid, reply.front_pid(), reply.windows())
            == s.borders.focused_wid,
    ensures
        s.stepped(reply, now).0.agenda.len() >= 2,
        s.stepped(reply, now).0.agenda[0] == Task::AddFresh(s.borders.focused_wid),
        s.stepped(reply, now).0.agenda[1] == Task::FocusRetry(s.borders.focused_wid),
{
}

/// Reconciling an overlay once more, with nothing changed, does nothing.
pub proof fn law_reconciling_is_idempotent(b: Borders, w: u32, facts: WindowFacts)
    ensures
        b.synced(w, facts).synced(w, facts) == b.synced(w, facts),
        b.synced(w, facts).sync_commands(w, facts).len() == 0,
        !b.synced(w, facts).sync_removes(w, facts),
{
}

/// Of the new windows that are one surface, no two get a border.
pub proof fn law_new_surfaces_get_one_border(
    s: State,
    answers: Seq<(u32, CGRect)>,
    first: u32,
    second: u32,
)
    requires
        first != second,
        s.kept(answers).contains(first),
        s.kept(answers).contains(second),
    ensures
        !same_surface(bounds_or_zero(answers, first), bounds_or_zero(answers, second)),
{
    let keep = |w: u32| !skipped(s.ready, answers, w);
    lemma_filter_members(s.ready, keep);
    let i = s.ready.index_of(first);
    let j = s.ready.index_of(second);
    assert(s.ready[i] == first && s.ready[j] == second);
    if same_surface(bounds_or_zero(answers, first), bounds_or_zero(answers, second)) {
        crate::surface::law_same_surface_is_symmetric(
            bounds_or_zero(answers, first),
            bounds_or_zero(answers, second),
        );
        if i < j {
            assert(outdone(s.ready[i], s.ready[j], answers) is Some);
        } else {
            assert(outdone(s.ready[j], s.ready[i], answers) is Some);
        }
    }
}

/// Of the new windows, the largest, and of several such the one with the least id,
/// always gets its chance.
pub proof fn law_largest_new_window_is_kept(s: State, answers: Seq<(u32, CGRect)>, k: int)
    requires
        increasing(s.ready),
        0 <= k < s.ready.len(),
        forall|i: int|
            0 <= i < s.ready.len() ==> area(bounds_or_zero(answers, #[trigger] s.ready[i])) <= area(
                bounds_or_zero(answers, s.ready[k]),
            ),
        forall|i: int|
            0 <= i < k ==> area(bounds_or_zero(answers, #[trigger] s.ready[i])) < area(
                bounds_or_zero(answers, s.ready[k]),
            ),
    ensures
        s.kept(answers).contains(s.ready[k]),
{
    let keep = |w: u32| !skipped(s.ready, answers, w);
    lemma_filter_members(s.ready, keep);
    let w = s.ready[k];
    if skipped(s.ready, answers, w) {
        let (i, j) = choose|i: int, j: int|
            0 <= i < j < s.ready.len() && #[trigger] outdone(s.ready[i], s.ready[j], answers)
                == Some(w);
        assert(i == k || j == k);
    }
    assert(s.ready.contains(w));
}

}
