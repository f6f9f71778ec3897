//! Finding the window that has the focus.

use crate::geometry::CGRect;
use crate::sequence::{lemma_filter_members, lemma_filter_take};
use crate::surface::{area, preference, same_surface, surface_preference, SurfacePreference};
use crate::window::{borderable, is_borderable, WindowEntry};
use vstd::prelude::*;

verus! {

/// The window chosen among those of the front process, and its bounds if the
/// server gave them. A `wid` of 0 says that there is none yet.
#[derive(Clone, Copy, Debug, PartialEq, Eq, Structural)]
pub struct FrontChoice {
    pub wid: u32,
    pub bounds: Option<CGRect>,
}

impl FrontChoice {
    fn considering(self, e: &WindowEntry) -> (r: FrontChoice)
        ensures
            r == consider(self, *e),
    {
        if self.wid == 0 {
            return FrontChoice { wid: e.window_id(), bounds: e.bounds };
        }
        match (self.bounds, e.bounds) {
            (Some(front), Some(bounds)) => match surface_preference(front, bounds) {
                Some(SurfacePreference::ReplaceExisting) => FrontChoice {
                    wid: e.window_id(),
                    bounds: Some(bounds),
                },
                _ => self,
            },
            _ => self,
        }
    }
}

/// One more window of the front process, further back than those before it.
pub open spec fn consider(chosen: FrontChoice, e: WindowEntry) -> FrontChoice {
    if chosen.wid == 0 {
        FrontChoice { wid: e.wid_or_none(), bounds: e.bounds }
    } else {
        match (chosen.bounds, e.bounds) {
            (Some(front), Some(bounds)) => if preference(front, bounds) == Some(
                SurfacePreference::ReplaceExisting,
            ) {
                FrontChoice { wid: e.wid_or_none(), bounds: Some(bounds) }
            } else {
                chosen
            },
            _ => chosen,
        }
    }
}

/// The topmost of the windows, or rather a larger one further back that is one
/// surface with it.
pub open spec fn chosen_front(windows: Seq<WindowEntry>) -> FrontChoice
    decreases windows.len(),
{
    if windows.len() == 0 {
        FrontChoice { wid: 0, bounds: None }
    } else {
        consider(chosen_front(windows.drop_last()), windows.last())
    }
}

/// The borderable windows of one process, topmost first.
pub open spec fn windows_of(own_pid: i32, pid: i32, entries: Seq<WindowEntry>) -> Seq<WindowEntry> {
    entries.filter(|e: WindowEntry| borderable(e, own_pid) && e.pid_or_none() == pid)
}

/// The topmost borderable window, whoever owns it; 0 if there is none.
pub open spec fn topmost(own_pid: i32, entries: Seq<WindowEntry>) -> u32 {
    let all = entries.filter(|e: WindowEntry| borderable(e, own_pid));
    if all.len() == 0 {
        0
    } else {
        all[0].wid_or_none()
    }
}

/// The focused window: a window of the front process, or the topmost window if
/// the front process shows none, or 0 if there is no front process but this one.
pub open spec fn front_window(own_pid: i32, front_pid: i32, entries: Seq<WindowEntry>) -> u32 {
    let chosen = chosen_front(windows_of(own_pid, front_pid, entries));
    if front_pid == 0 || front_pid == own_pid {
        0
    } else if chosen.wid != 0 {
        chosen.wid
    } else {
        topmost(own_pid, entries)
    }
}

/// Get the front (focused) window id.
///
/// `front_pid` is the process that the window server calls the front one, and
/// `entries` are the on-screen windows, topmost first. Focus follows the front
/// process and not the stacking order, because a tiling window manager moves the
/// focus without raising windows.
pub fn get_front_window(own_pid: i32, front_pid: i32, entries: &Vec<WindowEntry>) -> (r: u32)
    ensures
        r == front_window(own_pid, front_pid, entries@),
{
    if front_pid == 0 || front_pid == own_pid {
        return 0;
    }
    let mut front = FrontChoice { wid: 0, bounds: None };
    let mut fallback_wid: u32 = 0;
    let ghost fronts = |e: WindowEntry| borderable(e, own_pid) && e.pid_or_none() == front_pid;
    let ghost all = |e: WindowEntry| borderable(e, own_pid);
    for i in 0..entries.len()
        invariant
            fronts == (|e: WindowEntry| borderable(e, own_pid) && e.pid_or_none() == front_pid),
            all == (|e: WindowEntry| borderable(e, own_pid)),
            front == chosen_front(entries@.take(i as int).filter(fronts)),
            fallback_wid == topmost(own_pid, entries@.take(i as int)),
            (fallback_wid == 0) == (entries@.take(i as int).filter(all).len() == 0),
    {
        let e = &entries[i];
        proof {
            lemma_filter_take(entries@, i as int, fronts);
            lemma_filter_take(entries@, i as int, all);
            let before = entries@.take(i as int).filter(fronts);
            assert(before.push(entries@[i as int]).drop_last() =~= before);
        }
        let candidate = is_borderable(e, own_pid);
        if candidate && fallback_wid == 0 {
            fallback_wid = e.window_id();
        }
        if candidate && e.owner_pid() == front_pid {
            front = front.considering(e);
        }
    }
    assert(entries@.take(entries@.len() as int) =~= entries@);
    if front.wid == 0 {
        fallback_wid
    } else {
        front.wid
    }
}

proof fn lemma_chosen_among(windows: Seq<WindowEntry>)
    requires
        forall|i: int| 0 <= i < windows.len() ==> (#[trigger] windows[i]).wid_or_none() != 0,
    ensures
        chosen_front(windows).wid == 0 <==> windows.len() == 0,
        windows.len() > 0 ==> exists|i: int|
            0 <= i < windows.len() && (#[trigger] windows[i]).wid_or_none() == chosen_front(
                windows,
            ).wid && windows[i].bounds == chosen_front(windows).bounds,
        windows.len() > 0 && windows[0].bounds is Some ==> chosen_front(windows).bounds is Some
            && area(chosen_front(windows).bounds->0) >= area(windows[0].bounds->0),
    decreases windows.len(),
{
    if windows.len() > 0 {
        let init = windows.drop_last();
        assert forall|i: int| 0 <= i < init.len() implies (#[trigger] init[i]).wid_or_none() != 0 by {
            assert(init[i] == windows[i]);
        }
        lemma_chosen_among(init);
        let c = chosen_front(windows);
        if c == chosen_front(init) && init.len() > 0 {
            let i = choose|i: int|
                0 <= i < init.len() && (#[trigger] init[i]).wid_or_none() == c.wid && init[i].bounds
                    == c.bounds;
            assert(windows[i] == init[i]);
        } else {
            assert(windows[windows.len() - 1] == windows.last());
        }
    }
}

/// The focused window is never one of this process: it is one of the borderable
/// windows on the screen, or none.
pub proof fn law_front_window_is_borderable(
    own_pid: i32,
    front_pid: i32,
    entries: Seq<WindowEntry>,
)
    ensures
        front_window(own_pid, front_pid, entries) != 0 ==> exists|i: int|
            0 <= i < entries.len() && borderable(#[trigger] entries[i], own_pid)
                && entries[i].wid_or_none() == front_window(own_pid, front_pid, entries),
{
    let fronts = |e: WindowEntry| borderable(e, own_pid) && e.pid_or_none() == front_pid;
    let all = |e: WindowEntry| borderable(e, own_pid);
    let of_front = entries.filter(fronts);
    lemma_filter_members(entries, fronts);
    lemma_filter_members(entries, all);
    assert forall|i: int| 0 <= i < of_front.len() implies (
    #[trigger] of_front[i]).wid_or_none() != 0 by {
        assert(of_front.contains(of_front[i]));
    }
    lemma_chosen_among(of_front);
    if front_window(own_pid, front_pid, entries) != 0 {
        if of_front.len() > 0 {
            let k = choose|k: int|
                0 <= k < of_front.len() && (#[trigger] of_front[k]).wid_or_none() == chosen_front(
                    of_front,
                ).wid && of_front[k].bounds == chosen_front(of_front).bounds;
            assert(of_front.contains(of_front[k]));
            let i = entries.index_of(of_front[k]);
            assert(entries[i] == of_front[k]);
        } else {
            let any = entries.filter(all);
            assert(any.contains(any[0]));
            let i = entries.index_of(any[0]);
            assert(entries[i] == any[0]);
        }
    }
}

/// As long as the front process shows a borderable window, the focused window is
/// one of its windows, and no smaller than the topmost of them.
pub proof fn law_front_process_keeps_focus(
    own_pid: i32,
    front_pid: i32,
    entries: Seq<WindowEntry>,
)
    requires
        front_pid != 0,
        windows_of(own_pid, front_pid, entries).len() > 0,
    ensures
        ({
            let of_front = windows_of(own_pid, front_pid, entries);
            &&& exists|i: int|
                0 <= i < of_front.len() && (#[trigger] of_front[i]).wid_or_none() == front_window(
                    own_pid,
                    front_pid,
                    entries,
                ) && (of_front[0].bounds is Some ==> of_front[i].bounds is Some && area(
                    of_front[i].bounds->0,
                ) >= area(of_front[0].bounds->0))
        }),
{
    let fronts = |e: WindowEntry| borderable(e, own_pid) && e.pid_or_none() == front_pid;
    let of_front = entries.filter(fronts);
    lemma_filter_members(entries, fronts);
    assert(of_front.contains(of_front[0]));
    assert forall|i: int| 0 <= i < of_front.len() implies (
    #[trigger] of_front[i]).wid_or_none() != 0 by {
        assert(of_front.contains(of_front[i]));
    }
    lemma_chosen_among(of_front);
}

/// A window is one surface with another one and has more area, as far as the server gave
/// the bounds of both.
pub open spec fn takes_over(front: WindowEntry, e: WindowEntry) -> bool {
    &&& front.bounds is Some
    &&& e.bounds is Some
    &&& same_surface(front.bounds->0, e.bounds->0)
    &&& area(e.bounds->0) > area(front.bounds->0)
}

/// The window at the place behind number `k` of the chain takes over from the one there.
pub open spec fn linked(windows: Seq<WindowEntry>, chain: Seq<int>, k: int) -> bool {
    chain[k] < chain[k + 1] && takes_over(windows[chain[k]], windows[chain[k + 1]])
}

/// Where the part of the list ends that number `k` of the chain is to be held against.
pub open spec fn reach(windows: Seq<WindowEntry>, chain: Seq<int>, k: int) -> int {
    if k + 1 < chain.len() {
        chain[k + 1]
    } else {
        windows.len() as int
    }
}

/// The window at place `j` does not take over from the one at number `k` of the chain.
pub open spec fn passed(windows: Seq<WindowEntry>, chain: Seq<int>, k: int, j: int) -> bool {
    !takes_over(windows[chain[k]], windows[j])
}

/// Places in a list of windows, from the topmost on: at each place but the first is the
/// next window further back that takes over from the one at the place before, and no
/// window takes over from the one at the last place.
pub open spec fn takeovers(windows: Seq<WindowEntry>, chain: Seq<int>) -> bool {
    &&& chain.len() > 0
    &&& chain[0] == 0
    &&& forall|k: int| 0 <= k < chain.len() ==> 0 <= #[trigger] chain[k] < windows.len()
    &&& forall|k: int| 0 <= k < chain.len() - 1 ==> #[trigger] linked(windows, chain, k)
    &&& forall|k: int, j: int|
        0 <= k < chain.len() && chain[k] < j < reach(windows, chain, k) ==> #[trigger] passed(
            windows,
            chain,
            k,
            j,
        )
}

proof fn lemma_takeovers(windows: Seq<WindowEntry>) -> (chain: Seq<int>)
    requires
        windows.len() > 0,
        forall|i: int| 0 <= i < windows.len() ==> (#[trigger] windows[i]).wid_or_none() != 0,
    ensures
        takeovers(windows, chain),
        windows[chain.last()].wid_or_none() == chosen_front(windows).wid,
        windows[chain.last()].bounds == chosen_front(windows).bounds,
    decreases windows.len(),
{
    let init = windows.drop_last();
    let n = windows.len() - 1;
    if n == 0 {
        assert(chosen_front(init).wid == 0);
        seq![0int]
    } else {
        assert forall|i: int| 0 <= i < init.len() implies (#[trigger] init[i]).wid_or_none() != 0 by {
            assert(init[i] == windows[i]);
        }
        let before = lemma_takeovers(init);
        lemma_chosen_among(init);
        let last = before[before.len() - 1];
        assert(init[last] == windows[last]);
        let chain = if takes_over(windows[last], windows[n]) {
            before.push(n)
        } else {
            before
        };
        assert forall|k: int| 0 <= k < chain.len() - 1 implies #[trigger] linked(
            windows,
            chain,
            k,
        ) by {
            assert(chain[k] == before[k]);
            if k < before.len() - 1 {
                assert(linked(init, before, k));
                assert(chain[k + 1] == before[k + 1]);
            }
        }
        assert forall|k: int, j: int|
            0 <= k < chain.len() && chain[k] < j < reach(windows, chain, k) implies #[trigger] passed(
            windows,
            chain,
            k,
            j,
        ) by {
            if k < before.len() {
                assert(chain[k] == before[k]);
                if k + 1 < before.len() {
                    assert(chain[k + 1] == before[k + 1]);
                }
                if j < n {
                    assert(passed(init, before, k, j));
                }
            }
        }
        chain
    }
}

/// The focus goes from the topmost window of the front process along windows that take
/// over from each other, each one surface with the one before and larger, and stays with
/// the last of them.
pub proof fn law_focus_moves_along_surfaces(
    own_pid: i32,
    front_pid: i32,
    entries: Seq<WindowEntry>,
)
    requires
        front_pid != 0,
        windows_of(own_pid, front_pid, entries).len() > 0,
    ensures
        exists|chain: Seq<int>| #[trigger]
            takeovers(windows_of(own_pid, front_pid, entries), chain) && windows_of(
                own_pid,
                front_pid,
                entries,
            )[chain.last()].wid_or_none() == front_window(own_pid, front_pid, entries),
{
    let fronts = |e: WindowEntry| borderable(e, own_pid) && e.pid_or_none() == front_pid;
    let of_front = entries.filter(fronts);
    lemma_filter_members(entries, fronts);
    assert(of_front.contains(of_front[0]));
    assert forall|i: int| 0 <= i < of_front.len() implies (
    #[trigger] of_front[i]).wid_or_none() != 0 by {
        assert(of_front.contains(of_front[i]));
    }
    let chain = lemma_takeovers(of_front);
    lemma_chosen_among(of_front);
    assert(takeovers(windows_of(own_pid, front_pid, entries), chain));
}

proof fn lemma_filter_first<A>(s: Seq<A>, keep: spec_fn(A) -> bool, i: int)
    requires
        0 <= i < s.len(),
        keep(s[i]),
        forall|j: int| 0 <= j < i ==> !keep(#[trigger] s[j]),
    ensures
        s.filter(keep).len() > 0,
        s.filter(keep)[0] == s[i],
    decreases s.len(),
{
    reveal(Seq::filter);
    let init = s.drop_last();
    if i < init.len() {
        assert(init[i] == s[i]);
        lemma_filter_first(init, keep, i);
    } else {
        lemma_filter_members(init, keep);
        if init.filter(keep).len() > 0 {
            let a = init.filter(keep)[0];
            assert(init.filter(keep).contains(a));
            let j = init.index_of(a);
            assert(s[j] == a);
        }
    }
}

/// The topmost borderable window of the front process has the focus, unless another one
/// of them is one surface with it and larger.
pub proof fn law_topmost_front_window_has_the_focus(
    own_pid: i32,
    front_pid: i32,
    entries: Seq<WindowEntry>,
    i: int,
)
    requires
        front_pid != 0,
        0 <= i < entries.len(),
        borderable(entries[i], own_pid),
        entries[i].pid == Some(front_pid),
        forall|j: int|
            0 <= j < i ==> !(borderable(#[trigger] entries[j], own_pid) && entries[j].pid == Some(
                front_pid,
            )),
        forall|j: int|
            i < j < entries.len() && borderable(#[trigger] entries[j], own_pid) && entries[j].pid
                == Some(front_pid) ==> !takes_over(entries[i], entries[j]),
    ensures
        entries[i].wid == Some(front_window(own_pid, front_pid, entries)),
{
    let fronts = |e: WindowEntry| borderable(e, own_pid) && e.pid_or_none() == front_pid;
    let of_front = entries.filter(fronts);
    assert(windows_of(own_pid, front_pid, entries) == of_front);
    lemma_filter_members(entries, fronts);
    lemma_filter_first(entries, fronts, i);
    law_focus_moves_along_surfaces(own_pid, front_pid, entries);
    let chain = choose|chain: Seq<int>| #[trigger]
        takeovers(of_front, chain) && of_front[chain.last()].wid_or_none() == front_window(
            own_pid,
            front_pid,
            entries,
        );
    if chain.len() > 1 {
        let second = of_front[chain[1]];
        assert(linked(of_front, chain, 0));
        assert(chain[0] < chain[1] && takes_over(of_front[0], second));
        assert(of_front.contains(second));
        let j = entries.index_of(second);
        assert(entries[j] == second);
        assert(borderable(entries[j], own_pid) && entries[j].pid == Some(front_pid));
        assert(j != i);
        assert(false);
    }
}

/// If the front process has no borderable window, the topmost borderable one of any other
/// process has the focus, and none has it if there is none. With no front process, or
/// with this one in front, no window has it.
pub proof fn law_focus_without_front_windows(
    own_pid: i32,
    front_pid: i32,
    entries: Seq<WindowEntry>,
)
    requires
        forall|j: int|
            0 <= j < entries.len() && borderable(#[trigger] entries[j], own_pid) ==> entries[j].pid
                != Some(front_pid),
    ensures
        front_pid == 0 || front_pid == own_pid ==> front_window(own_pid, front_pid, entries) == 0,
        (forall|j: int| 0 <= j < entries.len() ==> !borderable(#[trigger] entries[j], own_pid))
            ==> front_window(own_pid, front_pid, entries) == 0,
        front_pid != 0 && front_pid != own_pid ==> forall|i: int|
            0 <= i < entries.len() && borderable(#[trigger] entries[i], own_pid) && (forall|j: int|
                0 <= j < i ==> !borderable(#[trigger] entries[j], own_pid)) ==> entries[i].wid
                == Some(front_window(own_pid, front_pid, entries)),
{
    let fronts = |e: WindowEntry| borderable(e, own_pid) && e.pid_or_none() == front_pid;
    let all = |e: WindowEntry| borderable(e, own_pid);
    lemma_filter_members(entries, fronts);
    lemma_filter_members(entries, all);
    if front_pid != 0 && front_pid != own_pid {
        let of_front = entries.filter(fronts);
        if of_front.len() > 0 {
            assert(of_front.contains(of_front[0]));
            let j = entries.index_of(of_front[0]);
            assert(borderable(entries[j], own_pid));
        }
        assert(windows_of(own_pid, front_pid, entries).len() == 0);
        let any = entries.filter(all);
        if any.len() > 0 {
            assert(any.contains(any[0]));
            let j = entries.index_of(any[0]);
            assert(borderable(entries[j], own_pid));
        }
        assert forall|i: int|
            0 <= i < entries.len() && borderable(#[trigger] entries[i], own_pid) && (forall|j: int|
                0 <= j < i ==> !borderable(#[trigger] entries[j], own_pid)) implies entries[i].wid
            == Some(front_window(own_pid, front_pid, entries)) by {
            lemma_filter_first(entries, all, i);
        }
    }
}

/// The windows of one process in a list are those in its first part, and then those in
/// the rest.
pub proof fn law_front_windows_keep_their_order(
    own_pid: i32,
    pid: i32,
    first: Seq<WindowEntry>,
    second: Seq<WindowEntry>,
    e: WindowEntry,
)
    ensures
        windows_of(own_pid, pid, first + second) == windows_of(own_pid, pid, first) + windows_of(
            own_pid,
            pid,
            second,
        ),
        windows_of(own_pid, pid, first).contains(e) <==> {
            &&& first.contains(e)
            &&& borderable(e, own_pid)
            &&& e.pid == Some(pid) || (e.pid is None && pid == 0)
        },
{
    let fronts = |e: WindowEntry| borderable(e, own_pid) && e.pid_or_none() == pid;
    Seq::filter_distributes_over_add(first, second, fronts);
    lemma_filter_members(first, fronts);
}

}
