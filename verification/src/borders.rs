//! The borders on the screen: which windows have one, and what each of the
//! things that can happen to a window does to it.

use crate::color::Color;
use crate::geometry::CGRect;
use crate::order::{in_order, increasing, keys_in_order, lemma_filter_increasing};
use crate::overlay::OverlayWindow;
use crate::sequence::{lemma_filter_members, lemma_filter_take, lemma_map_push};
use crate::surface::{
    is_trackable_window, moved, origin_changed, preference, resized, size_changed,
    surface_preference, trackable, SurfacePreference,
};
use crate::window::{is_suitable_window, known_suitable, WindowMetadata};
use std::collections::BTreeMap;
use vstd::prelude::*;

verus! {

broadcast use {vstd::std_specs::btree::group_btree_axioms, vstd::laws_cmp::group_laws_cmp};

/// Something to be done to the overlays on the screen. A window id names the
/// target window of the overlay that is meant.
#[derive(Debug)]
pub enum Command {
    /// Show the overlay directly above its target.
    OrderAbove(u32),
    /// Take the overlay off the screen, without closing it.
    OrderOut(u32),
    /// Lay the overlay out around these target bounds.
    SetBounds(u32, CGRect),
    SetColor(u32, Color),
    /// Take the overlay off the screen and close it.
    Close(u32),
    /// Ask the window server to report what happens to these windows.
    Subscribe(Vec<u32>),
}

#[verifier::ext_equal]
pub enum CommandView {
    OrderAbove(u32),
    OrderOut(u32),
    SetBounds(u32, CGRect),
    SetColor(u32, Color),
    Close(u32),
    Subscribe(Seq<u32>),
}

impl View for Command {
    type V = CommandView;

    open spec fn view(&self) -> CommandView {
        match self {
            Command::OrderAbove(w) => CommandView::OrderAbove(*w),
            Command::OrderOut(w) => CommandView::OrderOut(*w),
            Command::SetBounds(w, b) => CommandView::SetBounds(*w, *b),
            Command::SetColor(w, c) => CommandView::SetColor(*w, *c),
            Command::Close(w) => CommandView::Close(*w),
            Command::Subscribe(ws) => CommandView::Subscribe(ws@),
        }
    }
}

/// A list of commands by what they say.
pub open spec fn views(commands: Seq<Command>) -> Seq<CommandView> {
    commands.map_values(|c: Command| c@)
}

pub proof fn lemma_views_push(commands: Seq<Command>, c: Command)
    ensures
        views(commands.push(c)) == views(commands).push(c@),
{
    assert(views(commands.push(c)) =~= views(commands).push(c@));
}

pub proof fn lemma_views_add(first: Seq<Command>, second: Seq<Command>)
    ensures
        views(first + second) == views(first) + views(second),
{
    assert(views(first + second) =~= views(first) + views(second));
}

/// What the window server says of a window when asked for it.
#[derive(Clone, Copy, Debug, PartialEq, Eq, Structural)]
pub struct WindowFacts {
    /// The window is ordered in, that is, visible.
    pub shown: bool,
    pub owner_pid: i32,
    pub metadata: Option<WindowMetadata>,
    /// `None` when there is no such window any more.
    pub bounds: Option<CGRect>,
}

/// The overlay of one target window.
#[derive(Clone, Copy, Debug, PartialEq, Eq, Structural)]
pub struct Overlay {
    pub window: OverlayWindow,
}

impl Overlay {
    pub fn wid(&self) -> (r: u32)
        ensures
            r == self.window.number,
    {
        self.window.wid()
    }

    pub fn bounds(&self) -> (r: CGRect)
        ensures
            r == self.window.target_bounds(),
    {
        CGRect::new(
            self.window.bounds_cg_x,
            self.window.bounds_cg_y,
            self.window.bounds_cg_w,
            self.window.bounds_cg_h,
        )
    }
}

/// The bounds that a list of answers gives for a window, if it gives any.
pub open spec fn answer_for(answers: Seq<(u32, CGRect)>, wid: u32) -> Option<CGRect>
    decreases answers.len(),
{
    if answers.len() == 0 {
        None
    } else if answers[0].0 == wid {
        Some(answers[0].1)
    } else {
        answer_for(answers.skip(1), wid)
    }
}

/// Finds a window's bounds in a list of answers.
pub fn find_bounds(answers: &Vec<(u32, CGRect)>, wid: u32) -> (r: Option<CGRect>)
    ensures
        r == answer_for(answers@, wid),
{
    assert(answers@.skip(0) =~= answers@);
    for i in 0..answers.len()
        invariant
            answer_for(answers@, wid) == answer_for(answers@.skip(i as int), wid),
    {
        assert(answers@.skip(i as int).skip(1) =~= answers@.skip(i + 1));
        if answers[i].0 == wid {
            return Some(answers[i].1);
        }
    }
    None
}

/// Tracks overlays for target windows.
pub struct BorderMap {
    pub overlays: BTreeMap<u32, Overlay>,
    pub own_pid: i32,
    pub border_width: i64,
    pub radius: i64,
    pub focused_wid: u32,
    pub active_color: Color,
    pub inactive_color: Color,
    pub active_only: bool,
}

/// The borders as contracts see them.
#[verifier::ext_equal]
pub struct Borders {
    pub overlays: Map<u32, Overlay>,
    pub own_pid: i32,
    pub border_width: i64,
    pub radius: i64,
    pub focused_wid: u32,
    pub active_color: Color,
    pub inactive_color: Color,
    pub active_only: bool,
}

impl View for BorderMap {
    type V = Borders;

    open spec fn view(&self) -> Borders {
        Borders {
            overlays: self.overlays@,
            own_pid: self.own_pid,
            border_width: self.border_width,
            radius: self.radius,
            focused_wid: self.focused_wid,
            active_color: self.active_color,
            inactive_color: self.inactive_color,
            active_only: self.active_only,
        }
    }
}

impl Borders {
    /// The window has an overlay.
    pub open spec fn tracks(self, wid: u32) -> bool {
        self.overlays.contains_key(wid)
    }

    /// The windows with an overlay, by increasing id.
    pub open spec fn targets(self) -> Seq<u32> {
        in_order(self.overlays.dom())
    }

    pub open spec fn with_overlays(self, overlays: Map<u32, Overlay>) -> Borders {
        Borders { overlays, ..self }
    }

    pub open spec fn without(self, wid: u32) -> Borders {
        self.with_overlays(self.overlays.remove(wid))
    }

    pub open spec fn without_all(self, wids: Set<u32>) -> Borders {
        self.with_overlays(self.overlays.remove_keys(wids))
    }

    /// The color that a window's border has to have.
    pub open spec fn color_of(self, wid: u32) -> Color {
        if wid == self.focused_wid {
            self.active_color
        } else {
            self.inactive_color
        }
    }

    /// The window's overlay may be visible: in active-only mode, only that of the focused
    /// window may.
    pub open spec fn may_show(self, wid: u32) -> bool {
        !self.active_only || wid == self.focused_wid
    }

    /// The window is one of the overlays.
    pub open spec fn overlay_number(self, wid: u32) -> bool {
        exists|t: u32| self.overlays.contains_key(t) && self.overlays[t].window.number == wid
    }

    /// A visible, suitable and large enough window of another process.
    pub open spec fn admits(self, facts: WindowFacts) -> bool {
        &&& facts.shown
        &&& facts.owner_pid != self.own_pid
        &&& known_suitable(facts.metadata)
        &&& facts.bounds is Some
        &&& trackable(facts.bounds->0, self.border_width)
    }

    /// How a window that has a border fares against a new one.
    pub open spec fn standing(
        self,
        existing: u32,
        target: u32,
        bounds: CGRect,
        answers: Seq<(u32, CGRect)>,
    ) -> Option<SurfacePreference> {
        match answer_for(answers, existing) {
            Some(b) => if existing == target {
                None
            } else {
                preference(b, bounds)
            },
            None => None,
        }
    }

    /// Some window with a border stands where the new one does and is no smaller.
    pub open spec fn covered(self, target: u32, bounds: CGRect, answers: Seq<(u32, CGRect)>) -> bool {
        exists|w: u32| #[trigger]
            self.overlays.contains_key(w) && self.standing(w, target, bounds, answers) == Some(
                SurfacePreference::KeepExisting,
            )
    }

    /// The windows with a border that stand where the new one does and are smaller.
    pub open spec fn replaced(
        self,
        target: u32,
        bounds: CGRect,
        answers: Seq<(u32, CGRect)>,
    ) -> Seq<u32> {
        self.targets().filter(
            |w: u32|
                self.standing(w, target, bounds, answers) == Some(
                    SurfacePreference::ReplaceExisting,
                ),
        )
    }

    pub open spec fn hide_commands(self, wid: u32) -> Seq<CommandView> {
        if self.tracks(wid) {
            seq![CommandView::OrderOut(wid)]
        } else {
            seq![]
        }
    }

    pub open spec fn unhide_commands(self, wid: u32) -> Seq<CommandView> {
        if self.tracks(wid) {
            seq![CommandView::OrderAbove(wid)]
        } else {
            seq![]
        }
    }

    pub open spec fn redraw_commands(self, wid: u32) -> Seq<CommandView> {
        if self.tracks(wid) {
            seq![CommandView::SetColor(wid, self.color_of(wid))]
        } else {
            seq![]
        }
    }

    pub open spec fn remove_commands(self, wid: u32) -> Seq<CommandView> {
        if self.tracks(wid) {
            seq![CommandView::Close(wid)]
        } else {
            seq![]
        }
    }

    /// Closing those of the windows that have an overlay.
    pub open spec fn close_commands(self, wids: Seq<u32>) -> Seq<CommandView> {
        wids.filter(|w: u32| self.tracks(w)).map_values(|w: u32| CommandView::Close(w))
    }

    pub open spec fn subscribe_commands(self) -> Seq<CommandView> {
        if self.targets().len() == 0 {
            seq![]
        } else {
            seq![CommandView::Subscribe(self.targets())]
        }
    }

    /// Showing the focused overlay and hiding every other one, in active-only mode.
    pub open spec fn enforce_commands(self) -> Seq<CommandView> {
        if self.active_only {
            self.targets().map_values(
                |w: u32|
                    if w == self.focused_wid {
                        CommandView::OrderAbove(w)
                    } else {
                        CommandView::OrderOut(w)
                    },
            )
        } else {
            seq![]
        }
    }

    /// Hiding every overlay but the focused one, in active-only mode.
    pub open spec fn hide_unfocused_commands(self) -> Seq<CommandView> {
        if self.active_only {
            self.targets().filter(|w: u32| w != self.focused_wid).map_values(
                |w: u32| CommandView::OrderOut(w),
            )
        } else {
            seq![]
        }
    }

    /// The window still deserves its border.
    pub open spec fn still_valid(self, facts: WindowFacts) -> bool {
        &&& facts.bounds is Some
        &&& known_suitable(facts.metadata)
        &&& trackable(facts.bounds->0, self.border_width)
    }

    /// The window is not where its overlay was laid out.
    pub open spec fn out_of_place(self, wid: u32, bounds: CGRect) -> bool {
        let recorded = self.overlays[wid].window.target_bounds();
        resized(recorded, bounds) || moved(recorded, bounds)
    }

    pub open spec fn relaid(self, wid: u32, bounds: CGRect) -> Borders {
        let old = self.overlays[wid].window;
        self.with_overlays(
            self.overlays.insert(
                wid,
                Overlay {
                    window: OverlayWindow {
                        bounds_cg_x: bounds.origin.x,
                        bounds_cg_y: bounds.origin.y,
                        bounds_cg_w: bounds.size.width,
                        bounds_cg_h: bounds.size.height,
                        ..old
                    },
                },
            ),
        )
    }

    /// The overlays after one was reconciled with its target.
    pub open spec fn synced(self, wid: u32, facts: WindowFacts) -> Borders {
        if !self.tracks(wid) {
            self
        } else if !self.still_valid(facts) {
            self.without(wid)
        } else if self.out_of_place(wid, facts.bounds->0) {
            self.relaid(wid, facts.bounds->0)
        } else {
            self
        }
    }

    /// What reconciling an overlay does on the screen.
    pub open spec fn sync_commands(self, wid: u32, facts: WindowFacts) -> Seq<CommandView> {
        if !self.tracks(wid) {
            seq![]
        } else if !self.still_valid(facts) {
            seq![CommandView::Close(wid)]
        } else if self.out_of_place(wid, facts.bounds->0) {
            seq![CommandView::SetBounds(wid, facts.bounds->0)] + (if self.may_show(wid) {
                seq![CommandView::OrderAbove(wid)]
            } else {
                seq![]
            })
        } else {
            seq![]
        }
    }

    /// Reconciling an overlay takes it away.
    pub open spec fn sync_removes(self, wid: u32, facts: WindowFacts) -> bool {
        self.tracks(wid) && !self.still_valid(facts)
    }

    /// The overlays with one more, which the system numbered `number`.
    pub open spec fn attached(self, target: u32, number: u32, bounds: CGRect) -> Borders {
        self.with_overlays(
            self.overlays.insert(
                target,
                Overlay {
                    window: OverlayWindow {
                        number,
                        bounds_cg_x: bounds.origin.x,
                        bounds_cg_y: bounds.origin.y,
                        bounds_cg_w: bounds.size.width,
                        bounds_cg_h: bounds.size.height,
                        border_width: self.border_width,
                        radius: self.radius,
                    },
                },
            ),
        )
    }
}

impl Borders {
    /// The targets are listed once each, in order.
    pub proof fn lemma_targets(self)
        requires
            self.overlays.dom().finite(),
        ensures
            increasing(self.targets()),
            self.targets().to_set() == self.overlays.dom(),
    {
        crate::order::lemma_finite_in_order(self.overlays.dom());
    }
}

impl BorderMap {
    pub fn new(own_pid: i32, border_width: i64) -> (r: Self)
        ensures
            r@.overlays == Map::<u32, Overlay>::empty(),
            r.own_pid == own_pid,
            r.border_width == border_width,
            r.radius == 10 * crate::geometry::POINT,
            r.focused_wid == 0,
            r.active_color == (Color { r: 0x52, g: 0x94, b: 0xe2, a: 0xff }),
            r.inactive_color == (Color { r: 0x59, g: 0x59, b: 0x59, a: 0x80 }),
            !r.active_only,
    {
        BorderMap {
            overlays: BTreeMap::new(),
            own_pid,
            border_width,
            radius: 655_360,
            focused_wid: 0,
            active_color: Color { r: 0x52, g: 0x94, b: 0xe2, a: 0xff },
            inactive_color: Color { r: 0x59, g: 0x59, b: 0x59, a: 0x80 },
            active_only: false,
        }
    }

    pub fn is_tracked(&self, wid: u32) -> (r: bool)
        ensures
            r == self@.tracks(wid),
    {
        self.overlays.contains_key(&wid)
    }

    /// The windows with an overlay, by increasing id.
    pub fn targets(&self) -> (wids: Vec<u32>)
        ensures
            wids@ == self@.targets(),
            increasing(wids@),
            wids@.to_set() == self@.overlays.dom(),
    {
        keys_in_order(&self.overlays)
    }

    pub fn color_for(&self, target_wid: u32) -> (r: Color)
        ensures
            r == self@.color_of(target_wid),
    {
        if target_wid == self.focused_wid {
            self.active_color
        } else {
            self.inactive_color
        }
    }

    /// Whether the window's overlay may be visible.
    pub fn may_be_shown(&self, target_wid: u32) -> (r: bool)
        ensures
            r == self@.may_show(target_wid),
    {
        !self.active_only || target_wid == self.focused_wid
    }

    pub fn is_overlay(&self, wid: u32) -> (r: bool)
        ensures
            r == self@.overlay_number(wid),
    {
        let targets = self.targets();
        for i in 0..targets.len()
            invariant
                targets@.to_set() == self@.overlays.dom(),
                forall|j: int|
                    0 <= j < i ==> self@.overlays[#[trigger] targets@[j]].window.number != wid,
        {
            assert(targets@.to_set().contains(targets@[i as int]));
            match self.overlays.get(&targets[i]) {
                Some(overlay) => {
                    if overlay.wid() == wid {
                        return true;
                    }
                },
                None => {},
            }
        }
        assert forall|t: u32| self@.overlays.contains_key(t) implies self@.overlays[t].window.number
            != wid by {
            assert(targets@.to_set().contains(t));
            let j = targets@.index_of(t);
            assert(targets@[j] == t);
        }
        false
    }

    /// The filter for a new border: the window must be visible, owned by another
    /// process, suitable and not tiny.
    pub fn is_candidate(&self, facts: &WindowFacts) -> (r: bool)
        ensures
            r == self@.admits(*facts),
    {
        match facts.bounds {
            Some(bounds) => facts.shown && facts.owner_pid != self.own_pid && is_suitable_window(
                facts.metadata,
            ) && is_trackable_window(bounds, self.border_width),
            None => false,
        }
    }

    /// The overlays that a border on `target_wid` takes the place of, or `None` if
    /// an overlay that is there already makes that border needless. `answers` are
    /// the current bounds of the windows that have an overlay, as far as the window
    /// server gave them.
    pub fn surface_replacements(
        &self,
        target_wid: u32,
        bounds: CGRect,
        answers: &Vec<(u32, CGRect)>,
    ) -> (r: Option<Vec<u32>>)
        ensures
            r is None <==> self@.covered(target_wid, bounds, answers@),
            r matches Some(wids) ==> wids@ == self@.replaced(target_wid, bounds, answers@),
    {
        let wids = self.targets();
        let mut replacements: Vec<u32> = Vec::new();
        let ghost smaller = |w: u32|
            self@.standing(w, target_wid, bounds, answers@) == Some(
                SurfacePreference::ReplaceExisting,
            );
        assert(wids@.take(0).filter(smaller) =~= Seq::<u32>::empty()) by {
            reveal(Seq::filter);
        }
        for i in 0..wids.len()
            invariant
                wids@ == self@.targets(),
                wids@.to_set() == self@.overlays.dom(),
                smaller == (|w: u32|
                    self@.standing(w, target_wid, bounds, answers@) == Some(
                        SurfacePreference::ReplaceExisting,
                    )),
                replacements@ == wids@.take(i as int).filter(smaller),
                forall|j: int|
                    0 <= j < i ==> self@.standing(
                        #[trigger] wids@[j],
                        target_wid,
                        bounds,
                        answers@,
                    ) != Some(SurfacePreference::KeepExisting),
        {
            let existing_wid = wids[i];
            proof {
                lemma_filter_take(wids@, i as int, smaller);
                assert(wids@.to_set().contains(existing_wid));
            }
            if existing_wid != target_wid {
                match find_bounds(answers, existing_wid) {
                    Some(existing_bounds) => match surface_preference(existing_bounds, bounds) {
                        Some(SurfacePreference::KeepExisting) => {
                            assert(self@.overlays.contains_key(existing_wid));
                            return None;
                        },
                        Some(SurfacePreference::ReplaceExisting) => {
                            replacements.push(existing_wid);
                        },
                        None => {},
                    },
                    None => {},
                }
            }
        }
        proof {
            assert(wids@.take(wids@.len() as int) =~= wids@);
            assert forall|w: u32| #[trigger] self@.overlays.contains_key(w) implies self@.standing(
                w,
                target_wid,
                bounds,
                answers@,
            ) != Some(SurfacePreference::KeepExisting) by {
                assert(wids@.to_set().contains(w));
                let j = wids@.index_of(w);
                assert(wids@[j] == w);
            }
        }
        Some(replacements)
    }

    /// Closes the overlay of a window, if it has one.
    pub fn remove(&mut self, target_wid: u32) -> (commands: Vec<Command>)
        ensures
            final(self)@ == old(self)@.without(target_wid),
            views(commands@) == old(self)@.remove_commands(target_wid),
    {
        let mut commands: Vec<Command> = Vec::new();
        let ghost before = self@;
        if self.overlays.contains_key(&target_wid) {
            self.overlays.remove(&target_wid);
            commands.push(Command::Close(target_wid));
        } else {
            assert(before.overlays.remove(target_wid) =~= before.overlays);
        }
        assert(views(commands@) =~= before.remove_commands(target_wid));
        commands
    }

    /// Closes the overlays of several windows, each named once, as far as they have one.
    pub fn remove_each(&mut self, wids: &Vec<u32>) -> (commands: Vec<Command>)
        requires
            wids@.no_duplicates(),
        ensures
            final(self)@ == old(self)@.without_all(wids@.to_set()),
            views(commands@) == old(self)@.close_commands(wids@),
    {
        let mut commands: Vec<Command> = Vec::new();
        let ghost before = self@;
        let ghost had = |w: u32| before.tracks(w);
        let ghost close = |w: u32| CommandView::Close(w);
        proof {
            reveal(Seq::filter);
            assert(views(commands@) =~= wids@.take(0).filter(had).map_values(close));
            assert(before.overlays.remove_keys(wids@.take(0).to_set()) =~= before.overlays);
        }
        for i in 0..wids.len()
            invariant
                wids@.no_duplicates(),
                had == (|w: u32| before.tracks(w)),
                close == (|w: u32| CommandView::Close(w)),
                self@ == before.without_all(wids@.take(i as int).to_set()),
                views(commands@) == wids@.take(i as int).filter(had).map_values(close),
        {
            let wid = wids[i];
            let ghost earlier = wids@.take(i as int);
            let ghost so_far = commands@;
            proof {
                lemma_filter_take(wids@, i as int, had);
                if earlier.contains(wid) {
                    let j = earlier.index_of(wid);
                    assert(wids@[j] == wids@[i as int]);
                }
                assert(!earlier.to_set().contains(wid));
                assert(self@.tracks(wid) == before.tracks(wid));
                assert(wids@.take(i + 1) =~= earlier.push(wid));
                assert(earlier.push(wid).to_set() =~= earlier.to_set().insert(wid)) by {
                    crate::sequence::lemma_push_to_set(earlier, wid);
                }
                assert(self@.overlays.remove(wid) =~= before.overlays.remove_keys(
                    wids@.take(i + 1).to_set(),
                ));
            }
            let mut more = self.remove(wid);
            proof {
                lemma_views_add(so_far, more@);
                lemma_map_push(earlier.filter(had), wid, close);
            }
            commands.append(&mut more);
            assert(views(commands@) =~= wids@.take(i + 1).filter(had).map_values(close));
        }
        assert(wids@.take(wids@.len() as int) =~= wids@);
        commands
    }

    /// Closes every overlay.
    pub fn remove_all(&mut self) -> (commands: Vec<Command>)
        ensures
            final(self)@ == old(self)@.with_overlays(Map::empty()),
            views(commands@) == old(self)@.targets().map_values(|w: u32| CommandView::Close(w)),
    {
        let wids = self.targets();
        let ghost before = self@;
        let commands = self.remove_each(&wids);
        proof {
            let had = |w: u32| before.tracks(w);
            assert forall|i: int| 0 <= i < wids@.len() implies had(#[trigger] wids@[i]) by {
                assert(wids@.to_set().contains(wids@[i]));
            }
            crate::sequence::lemma_filter_all(wids@, had);
            assert(self@.overlays =~= Map::empty());
        }
        commands
    }

    /// Makes room for a border on `target_wid`: closes the overlays that it takes
    /// the place of. Returns `None`, and closes nothing, if another overlay makes
    /// it needless.
    pub fn make_room(
        &mut self,
        target_wid: u32,
        bounds: CGRect,
        answers: &Vec<(u32, CGRect)>,
    ) -> (r: Option<Vec<Command>>)
        ensures
            r is None <==> old(self)@.covered(target_wid, bounds, answers@),
            r is None ==> final(self)@ == old(self)@,
            r matches Some(commands) ==> {
                &&& final(self)@ == old(self)@.without_all(
                    old(self)@.replaced(target_wid, bounds, answers@).to_set(),
                )
                &&& views(commands@) == old(self)@.replaced(
                    target_wid,
                    bounds,
                    answers@,
                ).map_values(|w: u32| CommandView::Close(w))
            },
    {
        match self.surface_replacements(target_wid, bounds, answers) {
            None => None,
            Some(wids) => {
                let ghost before = self@;
                proof {
                    let smaller = |w: u32|
                        before.standing(w, target_wid, bounds, answers@) == Some(
                            SurfacePreference::ReplaceExisting,
                        );
                    before.lemma_targets();
                    lemma_filter_increasing(before.targets(), smaller);
                    lemma_filter_members(before.targets(), smaller);
                    let had = |w: u32| before.tracks(w);
                    assert forall|i: int| 0 <= i < wids@.len() implies had(#[trigger] wids@[i]) by {
                        assert(before.targets().filter(smaller).contains(wids@[i]));
                        assert(before.targets().to_set().contains(wids@[i]));
                    }
                    crate::sequence::lemma_filter_all(wids@, had);
                }
                Some(self.remove_each(&wids))
            },
        }
    }

    /// Records the overlay that the system made for `target_wid` around `bounds`
    /// under the window number `number`, and puts it above its target.
    pub fn attach(&mut self, target_wid: u32, number: u32, bounds: CGRect) -> (commands: Vec<
        Command,
    >)
        ensures
            final(self)@ == old(self)@.attached(target_wid, number, bounds),
            views(commands@) == seq![CommandView::OrderAbove(target_wid)],
    {
        let window = OverlayWindow::new(
            number,
            bounds.origin.x,
            bounds.origin.y,
            bounds.size.width,
            bounds.size.height,
            self.border_width,
            self.radius,
        );
        self.overlays.insert(target_wid, Overlay { window });
        let mut commands: Vec<Command> = Vec::new();
        commands.push(Command::OrderAbove(target_wid));
        assert(views(commands@) =~= seq![CommandView::OrderAbove(target_wid)]);
        commands
    }

    /// Reconciles an overlay with its target window, of which the window server
    /// says `facts`. An overlay that is hidden because its target does not have the
    /// focus follows its target and stays hidden. Returns whether that took the overlay away, and what to do on
    /// the screen.
    pub fn sync_overlay(&mut self, target_wid: u32, facts: &WindowFacts) -> (r: (bool, Vec<Command>))
        ensures
            final(self)@ == old(self)@.synced(target_wid, *facts),
            r.0 == old(self)@.sync_removes(target_wid, *facts),
            views(r.1@) == old(self)@.sync_commands(target_wid, *facts),
    {
        let mut commands: Vec<Command> = Vec::new();
        let ghost before = self@;
        let overlay = match self.overlays.get(&target_wid) {
            Some(overlay) => *overlay,
            None => {
                assert(views(commands@) =~= seq![]);
                return (false, commands);
            },
        };
        let bounds = match facts.bounds {
            Some(bounds) => bounds,
            None => {
                return (true, self.remove(target_wid));
            },
        };
        if !is_suitable_window(facts.metadata) || !is_trackable_window(bounds, self.border_width) {
            return (true, self.remove(target_wid));
        }
        let prev = overlay.bounds();
        if size_changed(prev, bounds) || origin_changed(prev, bounds) {
            let mut window = overlay.window;
            window.set_bounds(
                bounds.origin.x,
                bounds.origin.y,
                bounds.size.width,
                bounds.size.height,
            );
            self.overlays.insert(target_wid, Overlay { window });
            commands.push(Command::SetBounds(target_wid, bounds));
            if self.may_be_shown(target_wid) {
                commands.push(Command::OrderAbove(target_wid));
            }
        }
        assert(views(commands@) =~= before.sync_commands(target_wid, *facts));
        (false, commands)
    }

    /// Reconciles an overlay after its target was resized: the overlay follows in
    /// place, without being made anew.
    pub fn recreate(&mut self, target_wid: u32, facts: &WindowFacts) -> (commands: Vec<Command>)
        ensures
            final(self)@ == old(self)@.synced(target_wid, *facts),
            views(commands@) == old(self)@.sync_commands(target_wid, *facts),
    {
        self.sync_overlay(target_wid, facts).1
    }

    pub fn hide_overlay(&self, target_wid: u32) -> (commands: Vec<Command>)
        ensures
            views(commands@) == self@.hide_commands(target_wid),
    {
        let mut commands: Vec<Command> = Vec::new();
        if self.is_tracked(target_wid) {
            commands.push(Command::OrderOut(target_wid));
        }
        assert(views(commands@) =~= self@.hide_commands(target_wid));
        commands
    }

    pub fn unhide(&self, target_wid: u32) -> (commands: Vec<Command>)
        ensures
            views(commands@) == self@.unhide_commands(target_wid),
    {
        let mut commands: Vec<Command> = Vec::new();
        if self.is_tracked(target_wid) {
            commands.push(Command::OrderAbove(target_wid));
        }
        assert(views(commands@) =~= self@.unhide_commands(target_wid));
        commands
    }

    pub fn subscribe_target(&self, target_wid: u32) -> (commands: Vec<Command>)
        ensures
            views(commands@) == seq![CommandView::Subscribe(seq![target_wid])],
    {
        let mut wids: Vec<u32> = Vec::new();
        wids.push(target_wid);
        assert(wids@ =~= seq![target_wid]);
        let mut commands: Vec<Command> = Vec::new();
        commands.push(Command::Subscribe(wids));
        assert(views(commands@) =~= seq![CommandView::Subscribe(seq![target_wid])]);
        commands
    }

    pub fn subscribe_all(&self) -> (commands: Vec<Command>)
        ensures
            views(commands@) == self@.subscribe_commands(),
    {
        let mut commands: Vec<Command> = Vec::new();
        let target_wids = self.targets();
        if target_wids.len() > 0 {
            commands.push(Command::Subscribe(target_wids));
        }
        assert(views(commands@) =~= self@.subscribe_commands());
        commands
    }

    /// Redraw an existing overlay with its current color, without making it anew.
    pub fn redraw(&self, target_wid: u32) -> (commands: Vec<Command>)
        ensures
            views(commands@) == self@.redraw_commands(target_wid),
    {
        let mut commands: Vec<Command> = Vec::new();
        if self.is_tracked(target_wid) {
            commands.push(Command::SetColor(target_wid, self.color_for(target_wid)));
        }
        assert(views(commands@) =~= self@.redraw_commands(target_wid));
        commands
    }

    /// In active-only mode, ensure only the focused overlay is visible.
    pub fn enforce_active_only(&self) -> (commands: Vec<Command>)
        ensures
            views(commands@) == self@.enforce_commands(),
    {
        let mut commands: Vec<Command> = Vec::new();
        if !self.active_only {
            assert(views(commands@) =~= seq![]);
            return commands;
        }
        let wids = self.targets();
        let ghost order = |w: u32|
            if w == self@.focused_wid {
                CommandView::OrderAbove(w)
            } else {
                CommandView::OrderOut(w)
            };
        for i in 0..wids.len()
            invariant
                wids@ == self@.targets(),
                order == (|w: u32|
                    if w == self@.focused_wid {
                        CommandView::OrderAbove(w)
                    } else {
                        CommandView::OrderOut(w)
                    }),
                views(commands@) == wids@.take(i as int).map_values(order),
        {
            let target_wid = wids[i];
            let command = if target_wid == self.focused_wid {
                Command::OrderAbove(target_wid)
            } else {
                Command::OrderOut(target_wid)
            };
            proof {
                lemma_views_push(commands@, command);
                lemma_map_push(wids@.take(i as int), target_wid, order);
                assert(wids@.take(i + 1) =~= wids@.take(i as int).push(target_wid));
            }
            commands.push(command);
        }
        assert(wids@.take(wids@.len() as int) =~= wids@);
        commands
    }

    /// In active-only mode, hide every overlay but the focused one.
    pub fn hide_unfocused(&self) -> (commands: Vec<Command>)
        ensures
            views(commands@) == self@.hide_unfocused_commands(),
    {
        let mut commands: Vec<Command> = Vec::new();
        if !self.active_only {
            assert(views(commands@) =~= seq![]);
            return commands;
        }
        let wids = self.targets();
        let ghost others = |w: u32| w != self@.focused_wid;
        let ghost out = |w: u32| CommandView::OrderOut(w);
        proof {
            reveal(Seq::filter);
            assert(views(commands@) =~= wids@.take(0).filter(others).map_values(out));
        }
        for i in 0..wids.len()
            invariant
                wids@ == self@.targets(),
                others == (|w: u32| w != self@.focused_wid),
                out == (|w: u32| CommandView::OrderOut(w)),
                views(commands@) == wids@.take(i as int).filter(others).map_values(out),
        {
            let target_wid = wids[i];
            proof {
                lemma_filter_take(wids@, i as int, others);
                lemma_views_push(commands@, Command::OrderOut(target_wid));
                lemma_map_push(wids@.take(i as int).filter(others), target_wid, out);
            }
            if target_wid != self.focused_wid {
                commands.push(Command::OrderOut(target_wid));
            }
        }
        assert(wids@.take(wids@.len() as int) =~= wids@);
        commands
    }
}

}
