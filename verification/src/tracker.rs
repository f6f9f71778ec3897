//! Window tracking: maps target window ids to their borders.
//!
//! The borders here are windows of the window server itself. What the server has to
//! be asked for is handed in, and what is to be done is handed back.

use crate::border::{
    law_borders_show_as_asked, shown_by, BorderAction, BorderWindow, TargetFacts,
};
use crate::config::{Config, ConfigView};
use crate::geometry::CGRect;
use crate::order::{in_order, increasing, keys_in_order};
use crate::sequence::lemma_filter_take;
use crate::window::{
    is_suitable_window, is_suitable_window_metadata, known_suitable, suitable, WindowMetadata,
};
use std::collections::BTreeMap;
use vstd::prelude::*;

verus! {

broadcast use {vstd::std_specs::btree::group_btree_axioms, vstd::laws_cmp::group_laws_cmp};

pub struct WindowTracker {
    pub borders: BTreeMap<u32, BorderWindow>,
    pub focused_wid: u32,
    pub cid: i32,
    pub own_pid: i32,
}

/// The tracker as contracts see it.
#[verifier::ext_equal]
pub struct Tracker {
    pub borders: Map<u32, BorderWindow>,
    pub focused_wid: u32,
    pub cid: i32,
    pub own_pid: i32,
}

impl View for WindowTracker {
    type V = Tracker;

    open spec fn view(&self) -> Tracker {
        Tracker {
            borders: self.borders@,
            focused_wid: self.focused_wid,
            cid: self.cid,
            own_pid: self.own_pid,
        }
    }
}

/// A window on one of the spaces.
#[derive(Clone, Copy, Debug, PartialEq, Eq, Structural)]
pub struct FoundWindow {
    pub wid: u32,
    pub metadata: WindowMetadata,
    pub owner_pid: i32,
}

/// What is to be done: first to the borders, and then, unless there are none, the
/// windows to be told about.
pub struct Changes {
    pub actions: Vec<BorderAction>,
    pub notify: Vec<u32>,
}

/// The ids of the spaces that have one, display by display.
pub open spec fn ids_of(displays: Seq<Vec<Option<u64>>>) -> Seq<u64>
    decreases displays.len(),
{
    if displays.len() == 0 {
        seq![]
    } else {
        ids_of(displays.drop_last()) + known_ids(displays.last()@)
    }
}

/// The ids of the spaces that have one.
pub open spec fn known_ids(spaces: Seq<Option<u64>>) -> Seq<u64> {
    spaces.filter(|s: Option<u64>| s is Some).map_values(|s: Option<u64>| s->0)
}

/// Collects the ids of all spaces of all displays.
pub fn space_ids(displays: &Vec<Vec<Option<u64>>>) -> (ids: Vec<u64>)
    ensures
        ids@ == ids_of(displays@),
{
    let mut ids: Vec<u64> = Vec::new();
    for i in 0..displays.len()
        invariant
            ids@ == ids_of(displays@.take(i as int)),
    {
        let ghost before = ids@;
        let spaces = &displays[i];
        let ghost known = |s: Option<u64>| s is Some;
        let ghost id = |s: Option<u64>| s->0;
        proof {
            reveal(Seq::filter);
            assert(spaces@.take(0).filter(known).map_values(id) =~= Seq::<u64>::empty());
            assert(before + Seq::<u64>::empty() =~= before);
        }
        for j in 0..spaces.len()
            invariant
                known == (|s: Option<u64>| s is Some),
                id == (|s: Option<u64>| s->0),
                ids@ == before + spaces@.take(j as int).filter(known).map_values(id),
        {
            proof {
                lemma_filter_take(spaces@, j as int, known);
            }
            if let Some(sid) = spaces[j] {
                ids.push(sid);
            }
            assert(ids@ =~= before + spaces@.take(j + 1).filter(known).map_values(id));
        }
        assert(spaces@.take(spaces@.len() as int) =~= spaces@);
        assert(displays@.take(i + 1).drop_last() =~= displays@.take(i as int));
    }
    assert(displays@.take(displays@.len() as int) =~= displays@);
    ids
}

/// What the server says of a target, among some answers; that it is gone, if there is
/// no answer.
pub open spec fn facts_for(answers: Seq<(u32, TargetFacts)>, wid: u32) -> TargetFacts
    decreases answers.len(),
{
    if answers.len() == 0 {
        TargetFacts { bounds: None, shown: false }
    } else if answers[0].0 == wid {
        answers[0].1
    } else {
        facts_for(answers.skip(1), wid)
    }
}

fn find_facts(answers: &Vec<(u32, TargetFacts)>, wid: u32) -> (r: TargetFacts)
    ensures
        r == facts_for(answers@, wid),
{
    assert(answers@.skip(0) =~= answers@);
    for i in 0..answers.len()
        invariant
            facts_for(answers@, wid) == facts_for(answers@.skip(i as int), wid),
    {
        assert(answers@.skip(i as int).skip(1) =~= answers@.skip(i + 1));
        if answers[i].0 == wid {
            return answers[i].1;
        }
    }
    TargetFacts { bounds: None, shown: false }
}

impl Tracker {
    pub open spec fn tracks(self, wid: u32) -> bool {
        self.borders.contains_key(wid)
    }

    /// The windows with a border, by increasing id.
    pub open spec fn targets(self) -> Seq<u32> {
        in_order(self.borders.dom())
    }

    /// Every border belongs to the window that it is found under.
    pub open spec fn well_formed(self) -> bool {
        forall|w: u32| #[trigger] self.borders.contains_key(w) ==> self.borders[w].target_wid == w
    }

    pub open spec fn with_border(self, wid: u32, border: BorderWindow) -> Tracker {
        Tracker { borders: self.borders.insert(wid, border), ..self }
    }

    /// A suitable window of another process, without a border.
    pub open spec fn wants(self, wid: u32, owner_pid: i32, metadata: Option<WindowMetadata>) -> bool {
        !self.tracks(wid) && owner_pid != self.own_pid && known_suitable(metadata)
    }

    /// How a window's border is to be shown: above or below its target, as configured. In
    /// active-only mode no border but that of the focused window is to be shown.
    pub open spec fn order_for(self, wid: u32, config: ConfigView) -> Option<i32> {
        if !config.active_only || wid == self.focused_wid {
            Some(config.border_order)
        } else {
            None
        }
    }

    /// The border of a window after a full update.
    pub open spec fn border_updated(self, wid: u32, config: ConfigView, facts: TargetFacts) -> Tracker {
        if self.tracks(wid) {
            self.with_border(wid, self.borders[wid].updated(facts, config.border_width))
        } else {
            self
        }
    }

    pub open spec fn border_update_actions(
        self,
        wid: u32,
        config: ConfigView,
        facts: TargetFacts,
    ) -> Seq<BorderAction> {
        if self.tracks(wid) {
            update_actions_of(self.borders[wid], config, self.order_for(wid, config), facts)
        } else {
            seq![]
        }
    }

    /// The tracker after the borders of some windows were drawn anew, one after the
    /// other.
    pub open spec fn redrawn(
        self,
        wids: Seq<u32>,
        config: ConfigView,
        answers: Seq<(u32, TargetFacts)>,
    ) -> Tracker
        decreases wids.len(),
    {
        if wids.len() == 0 {
            self
        } else {
            let before = self.redrawn(wids.drop_last(), config, answers);
            before.marked(wids.last()).border_updated(
                wids.last(),
                config,
                facts_for(answers, wids.last()),
            )
        }
    }

    /// What drawing the borders of some windows anew does.
    pub open spec fn redraw_actions(
        self,
        wids: Seq<u32>,
        config: ConfigView,
        answers: Seq<(u32, TargetFacts)>,
    ) -> Seq<BorderAction>
        decreases wids.len(),
    {
        if wids.len() == 0 {
            seq![]
        } else {
            let before = self.redrawn(wids.drop_last(), config, answers);
            self.redraw_actions(wids.drop_last(), config, answers) + before.marked(
                wids.last(),
            ).border_update_actions(wids.last(), config, facts_for(answers, wids.last()))
        }
    }

    pub open spec fn unhide_window_actions(self, wid: u32, config: ConfigView) -> Seq<BorderAction> {
        match self.order_for(wid, config) {
            Some(order) => if self.tracks(wid) {
                self.borders[wid].unhide_actions(order)
            } else {
                seq![]
            },
            None => seq![],
        }
    }

    /// With the border of a window asked to be drawn.
    pub open spec fn marked(self, wid: u32) -> Tracker {
        if self.tracks(wid) {
            self.with_border(wid, BorderWindow { needs_redraw: true, ..self.borders[wid] })
        } else {
            self
        }
    }

    /// With a window's border being that of the focused window, or not, and asked to be
    /// drawn.
    pub open spec fn focus_set(self, wid: u32, focused: bool) -> Tracker {
        if self.tracks(wid) {
            self.with_border(
                wid,
                BorderWindow { focused, needs_redraw: true, ..self.borders[wid] },
            )
        } else {
            self
        }
    }

    /// The focus went to `front`, and the border of the window that had it shows that.
    pub open spec fn unfocused(self, front: u32, config: ConfigView, facts: TargetFacts) -> Tracker {
        let old_wid = self.focused_wid;
        let after = Tracker { focused_wid: front, ..self }.focus_set(old_wid, false);
        if config.active_only {
            after
        } else {
            after.border_updated(old_wid, config, facts)
        }
    }

    pub open spec fn unfocus_actions(self, config: ConfigView, facts: TargetFacts) -> Seq<BorderAction> {
        let old_wid = self.focused_wid;
        if !self.tracks(old_wid) {
            seq![]
        } else if config.active_only {
            self.borders[old_wid].hide_actions()
        } else {
            self.focus_set(old_wid, false).border_update_actions(old_wid, config, facts)
        }
    }
}

/// What a full update of a border does.
pub open spec fn update_actions_of(
    border: BorderWindow,
    config: ConfigView,
    border_order: Option<i32>,
    facts: TargetFacts,
) -> Seq<BorderAction> {
    border.update_actions(
        facts,
        config.active_color,
        config.inactive_color,
        config.border_width,
        config.radius,
        border_order,
    )
}

fn update_border(
    border: &mut BorderWindow,
    config: &Config,
    border_order: Option<i32>,
    facts: TargetFacts,
) -> (actions: Vec<BorderAction>)
    ensures
        *final(border) == old(border).updated(facts, config.border_width),
        actions@ == update_actions_of(*old(border), config@, border_order, facts),
{
    border.update(
        &config.active_color,
        &config.inactive_color,
        config.border_width,
        config.radius,
        border_order,
        facts,
    )
}

impl WindowTracker {
    pub fn new(cid: i32, own_pid: i32) -> (r: Self)
        ensures
            r@ == (Tracker { borders: Map::empty(), focused_wid: 0, cid, own_pid }),
            r@.well_formed(),
    {
        WindowTracker { borders: BTreeMap::new(), focused_wid: 0, cid, own_pid }
    }

    /// Check if a window is a "suitable" application window.
    pub fn window_suitable(metadata: WindowMetadata) -> (r: bool)
        ensures
            r == suitable(metadata),
    {
        is_suitable_window_metadata(metadata)
    }

    /// Is a window of that owner one of this process?
    pub fn is_own_window(&self, owner_pid: i32) -> (r: bool)
        ensures
            r == (owner_pid == self@.own_pid),
    {
        owner_pid == self.own_pid
    }

    /// How a window's border is to be shown; `None` if it is not to be.
    pub fn border_order(&self, wid: u32, config: &Config) -> (r: Option<i32>)
        ensures
            r == self@.order_for(wid, config@),
    {
        if !config.active_only || wid == self.focused_wid {
            Some(config.border_order)
        } else {
            None
        }
    }

    /// Which of the windows on all spaces are to get a border, in their order. `None`
    /// if there is no space at all; otherwise the windows with a border are to be told
    /// about afterwards.
    pub fn add_existing_windows(&self, spaces: &Vec<u64>, windows: &Vec<FoundWindow>) -> (r: Option<
        Vec<u32>,
    >)
        ensures
            r is None <==> spaces@.len() == 0,
            r matches Some(wids) ==> wids@ == windows@.filter(
                |w: FoundWindow| suitable(w.metadata) && w.owner_pid != self@.own_pid,
            ).map_values(|w: FoundWindow| w.wid),
    {
        if spaces.len() == 0 {
            return None;
        }
        let mut wids: Vec<u32> = Vec::new();
        let ghost keep = |w: FoundWindow| suitable(w.metadata) && w.owner_pid != self@.own_pid;
        let ghost id = |w: FoundWindow| w.wid;
        proof {
            reveal(Seq::filter);
            assert(wids@ =~= windows@.take(0).filter(keep).map_values(id));
        }
        for i in 0..windows.len()
            invariant
                keep == (|w: FoundWindow| suitable(w.metadata) && w.owner_pid != self@.own_pid),
                id == (|w: FoundWindow| w.wid),
                wids@ == windows@.take(i as int).filter(keep).map_values(id),
        {
            let w = windows[i];
            proof {
                lemma_filter_take(windows@, i as int, keep);
            }
            if Self::window_suitable(w.metadata) && !self.is_own_window(w.owner_pid) {
                wids.push(w.wid);
            }
            assert(wids@ =~= windows@.take(i + 1).filter(keep).map_values(id));
        }
        assert(windows@.take(windows@.len() as int) =~= windows@);
        Some(wids)
    }

    /// Whether a window is to get a border, so that one has to be made.
    pub fn wants_border(&self, wid: u32, owner_pid: i32, metadata: Option<WindowMetadata>) -> (r:
        bool)
        ensures
            r == self@.wants(wid, owner_pid, metadata),
    {
        !self.borders.contains_key(&wid) && !self.is_own_window(owner_pid) && is_suitable_window(
            metadata,
        )
    }

    /// Create a border for a window if it passes suitability checks. `made` is the
    /// window that was made for it, 0 if none was. In active-only mode the border stays
    /// off the screen, unless the window has the focus.
    pub fn create_border(
        &mut self,
        wid: u32,
        config: &Config,
        owner_pid: i32,
        metadata: Option<WindowMetadata>,
        target_bounds: Option<CGRect>,
        made: u32,
    ) -> (r: Option<Changes>)
        ensures
            r is Some <==> old(self)@.wants(wid, owner_pid, metadata) && target_bounds is Some
                && made != 0,
            r is None ==> final(self)@ == old(self)@,
            r matches Some(changes) ==> {
                let border = BorderWindow::fresh(
                    old(self)@.cid,
                    made,
                    wid,
                    config.hidpi,
                    config.border_width,
                    target_bounds->0,
                );
                &&& final(self)@ == old(self)@.with_border(wid, border)
                &&& changes.actions@ == border.first_actions(old(self)@.order_for(wid, config@))
                &&& changes.notify@ == final(self)@.targets()
            },
            old(self)@.well_formed() ==> final(self)@.well_formed(),
    {
        if !self.wants_border(wid, owner_pid, metadata) {
            return None;
        }
        match BorderWindow::new(
            self.cid,
            wid,
            config.hidpi,
            config.border_width,
            self.border_order(wid, config),
            target_bounds,
            made,
        ) {
            None => None,
            Some((border, actions)) => {
                self.borders.insert(wid, border);
                Some(Changes { actions, notify: self.update_notifications() })
            },
        }
    }

    /// Remove a window's border. Returns `None` if it has none.
    pub fn destroy_border(&mut self, wid: u32) -> (r: Option<Changes>)
        ensures
            r is Some <==> old(self)@.tracks(wid),
            final(self)@ == (Tracker { borders: old(self)@.borders.remove(wid), ..old(self)@ }),
            r matches Some(changes) ==> {
                &&& changes.actions@ == old(self)@.borders[wid].close_actions()
                &&& changes.notify@ == final(self)@.targets()
            },
            old(self)@.well_formed() ==> final(self)@.well_formed(),
    {
        let ghost before = self@;
        let border = match self.borders.get(&wid) {
            Some(border) => *border,
            None => {
                assert(before.borders.remove(wid) =~= before.borders);
                return None;
            },
        };
        self.borders.remove(&wid);
        let actions = border.close();
        Some(Changes { actions, notify: self.update_notifications() })
    }

    /// Update all borders (full redraw).
    pub fn update_all(&mut self, config: &Config, answers: &Vec<(u32, TargetFacts)>) -> (actions: Vec<
        BorderAction,
    >)
        ensures
            final(self)@ == old(self)@.redrawn(old(self)@.targets(), config@, answers@),
            actions@ == old(self)@.redraw_actions(old(self)@.targets(), config@, answers@),
            old(self)@.well_formed() ==> final(self)@.well_formed(),
    {
        let ghost before = self@;
        let wids = keys_in_order(&self.borders);
        let mut actions: Vec<BorderAction> = Vec::new();
        for i in 0..wids.len()
            invariant
                wids@ == before.targets(),
                self@ == before.redrawn(wids@.take(i as int), config@, answers@),
                actions@ == before.redraw_actions(wids@.take(i as int), config@, answers@),
                before.well_formed() ==> self@.well_formed(),
        {
            let wid = wids[i];
            assert(wids@.take(i + 1).drop_last() =~= wids@.take(i as int));
            let entry = match self.borders.get(&wid) {
                Some(border) => Some(*border),
                None => None,
            };
            if let Some(border) = entry {
                let mut border = border;
                border.needs_redraw = true;
                let order = self.border_order(wid, config);
                let mut more = update_border(&mut border, config, order, find_facts(answers, wid));
                self.borders.insert(wid, border);
                actions.append(&mut more);
            }
            assert(self@ =~= before.redrawn(wids@.take(i + 1), config@, answers@));
            assert(actions@ =~= before.redraw_actions(wids@.take(i + 1), config@, answers@));
        }
        assert(wids@.take(wids@.len() as int) =~= wids@);
        actions
    }

    /// Update a single window's border.
    pub fn update_window(&mut self, wid: u32, config: &Config, facts: TargetFacts) -> (actions: Vec<
        BorderAction,
    >)
        ensures
            final(self)@ == old(self)@.border_updated(wid, config@, facts),
            actions@ == old(self)@.border_update_actions(wid, config@, facts),
            old(self)@.well_formed() ==> final(self)@.well_formed(),
    {
        let mut border = match self.borders.get(&wid) {
            Some(border) => *border,
            None => {
                return Vec::new();
            },
        };
        let order = self.border_order(wid, config);
        let actions = update_border(&mut border, config, order, facts);
        self.borders.insert(wid, border);
        actions
    }

    /// Fast move-only update for a window.
    pub fn move_window(&mut self, wid: u32, config: &Config, bounds: Option<CGRect>) -> (actions: Vec<
        BorderAction,
    >)
        ensures
            final(self)@ == (if old(self)@.tracks(wid) {
                old(self)@.with_border(
                    wid,
                    old(self)@.borders[wid].repositioned(bounds, config.border_width),
                )
            } else {
                old(self)@
            }),
            actions@ == (if old(self)@.tracks(wid) && old(self)@.borders[wid].wid != 0 && bounds
                is Some {
                seq![
                    BorderAction::Move(
                        old(self)@.borders[wid].wid,
                        final(self)@.borders[wid].origin,
                    ),
                ]
            } else {
                seq![]
            }),
            old(self)@.well_formed() ==> final(self)@.well_formed(),
    {
        let mut border = match self.borders.get(&wid) {
            Some(border) => *border,
            None => {
                return Vec::new();
            },
        };
        let actions = border.reposition_only(config.border_width, bounds);
        self.borders.insert(wid, border);
        actions
    }

    /// Hide a window's border.
    pub fn hide_window(&self, wid: u32) -> (actions: Vec<BorderAction>)
        ensures
            actions@ == (if self@.tracks(wid) {
                self@.borders[wid].hide_actions()
            } else {
                seq![]
            }),
    {
        match self.borders.get(&wid) {
            Some(border) => border.hide_border(),
            None => Vec::new(),
        }
    }

    /// Unhide a window's border, if it is to be shown.
    pub fn unhide_window(&self, wid: u32, config: &Config) -> (actions: Vec<BorderAction>)
        ensures
            actions@ == self@.unhide_window_actions(wid, config@),
    {
        match (self.borders.get(&wid), self.border_order(wid, config)) {
            (Some(border), Some(order)) => border.unhide(order),
            _ => Vec::new(),
        }
    }

    /// Takes over the front window. Returns `None` if there is none or it has the focus
    /// already. Otherwise the window that had the focus shows that it has lost it, the
    /// front window is to get a border if it has none, and [`Self::show_focus`] follows.
    /// `facts` are those of the window that had the focus.
    pub fn determine_focus(&mut self, front_wid: u32, config: &Config, facts: TargetFacts) -> (r: Option<
        Vec<BorderAction>,
    >)
        ensures
            r is None <==> front_wid == 0 || front_wid == old(self)@.focused_wid,
            r is None ==> final(self)@ == old(self)@,
            r matches Some(actions) ==> {
                &&& final(self)@ == old(self)@.unfocused(front_wid, config@, facts)
                &&& actions@ == old(self)@.unfocus_actions(config@, facts)
            },
            old(self)@.well_formed() ==> final(self)@.well_formed(),
    {
        if front_wid == 0 || front_wid == self.focused_wid {
            return None;
        }
        let old_wid = self.focused_wid;
        self.focused_wid = front_wid;
        let mut border = match self.borders.get(&old_wid) {
            Some(border) => *border,
            None => {
                return Some(Vec::new());
            },
        };
        border.focused = false;
        border.needs_redraw = true;
        let actions = if config.active_only {
            border.hide_border()
        } else {
            update_border(&mut border, config, Some(config.border_order), facts)
        };
        self.borders.insert(old_wid, border);
        Some(actions)
    }

    /// The window that has the focus shows it, if it has a border.
    pub fn show_focus(&mut self, config: &Config, facts: TargetFacts) -> (actions: Vec<BorderAction>)
        ensures
            final(self)@ == old(self)@.focus_set(old(self)@.focused_wid, true).border_updated(
                old(self)@.focused_wid,
                config@,
                facts,
            ),
            actions@ == old(self)@.focus_set(
                old(self)@.focused_wid,
                true,
            ).border_update_actions(old(self)@.focused_wid, config@, facts),
            old(self)@.well_formed() ==> final(self)@.well_formed(),
    {
        let wid = self.focused_wid;
        let mut border = match self.borders.get(&wid) {
            Some(border) => *border,
            None => {
                return Vec::new();
            },
        };
        border.focused = true;
        border.needs_redraw = true;
        let order = self.border_order(wid, config);
        let actions = update_border(&mut border, config, order, facts);
        self.borders.insert(wid, border);
        actions
    }

    /// The windows to be told about: all with a border. Nothing is to be asked for if
    /// there are none.
    pub fn update_notifications(&self) -> (wids: Vec<u32>)
        ensures
            wids@ == self@.targets(),
            increasing(wids@),
            wids@.to_set() == self@.borders.dom(),
    {
        keys_in_order(&self.borders)
    }

    /// Test mode: a border on a specific window, shown as that of the focused one. The
    /// border that the window had gives its own window back. Returns `None` if the new
    /// one could not be made.
    pub fn test_wid(
        &mut self,
        wid: u32,
        config: &Config,
        target_bounds: Option<CGRect>,
        made: u32,
        facts: TargetFacts,
    ) -> (r: Option<Changes>)
        ensures
            r is Some <==> target_bounds is Some && made != 0,
            r is None ==> final(self)@ == old(self)@,
            r matches Some(changes) ==> {
                let fresh = BorderWindow::fresh(
                    old(self)@.cid,
                    made,
                    wid,
                    config.hidpi,
                    config.border_width,
                    target_bounds->0,
                );
                let focused = BorderWindow { focused: true, ..fresh };
                &&& final(self)@ == old(self)@.with_border(
                    wid,
                    focused.updated(facts, config.border_width),
                )
                &&& changes.actions@ == fresh.first_actions(Some(config.border_order))
                    + update_actions_of(focused, config@, Some(config.border_order), facts) + (
                if old(self)@.tracks(wid) {
                    old(self)@.borders[wid].close_actions()
                } else {
                    seq![]
                })
                &&& changes.notify@ == final(self)@.targets()
            },
            old(self)@.well_formed() ==> final(self)@.well_formed(),
    {
        let ghost before = self@;
        match BorderWindow::new(
            self.cid,
            wid,
            config.hidpi,
            config.border_width,
            Some(config.border_order),
            target_bounds,
            made,
        ) {
            None => None,
            Some((border, actions)) => {
                let mut border = border;
                let mut actions = actions;
                border.focused = true;
                let order = Some(config.border_order);
                let mut more = update_border(&mut border, config, order, facts);
                actions.append(&mut more);
                let mut last = match self.borders.get(&wid) {
                    Some(replaced) => replaced.close(),
                    None => Vec::new(),
                };
                actions.append(&mut last);
                self.borders.insert(wid, border);
                assert forall|w: u32| before.well_formed() && #[trigger] self@.borders.contains_key(
                    w,
                ) implies self@.borders[w].target_wid == w by {
                    if w == wid {
                        assert(self@.borders[w] == border);
                        assert(border.target_wid == wid);
                    } else {
                        assert(before.borders.contains_key(w));
                        assert(self@.borders[w] == before.borders[w]);
                    }
                }
                Some(Changes { actions, notify: self.update_notifications() })
            },
        }
    }
}

/// The first suitable window of the front process on the active space; 0 if there is
/// none, or no active space.
pub open spec fn first_suitable(active_sid: u64, windows: Seq<(u32, WindowMetadata)>) -> u32
    decreases windows.len(),
{
    if active_sid == 0 || windows.len() == 0 {
        0
    } else if suitable(windows[0].1) {
        windows[0].0
    } else {
        first_suitable(active_sid, windows.skip(1))
    }
}

/// Get the front (focused) window id. `windows` are those of the front process on the
/// active space, topmost first.
pub fn get_front_window(active_sid: u64, windows: &Vec<(u32, WindowMetadata)>) -> (r: u32)
    ensures
        r == first_suitable(active_sid, windows@),
{
    if active_sid == 0 {
        return 0;
    }
    assert(windows@.skip(0) =~= windows@);
    for i in 0..windows.len()
        invariant
            active_sid != 0,
            first_suitable(active_sid, windows@) == first_suitable(
                active_sid,
                windows@.skip(i as int),
            ),
    {
        assert(windows@.skip(i as int).skip(1) =~= windows@.skip(i + 1));
        if WindowTracker::window_suitable(windows[i].1) {
            return windows[i].0;
        }
    }
    0
}

impl Tracker {
    /// No border but that of the focused window is drawn as focused.
    pub open spec fn one_focus(self) -> bool {
        forall|w: u32| #[trigger]
            self.borders.contains_key(w) && self.borders[w].focused ==> w == self.focused_wid
    }

    /// Following the focus leaves no border but that of the focused window drawn as
    /// focused.
    pub proof fn law_one_focus_is_kept(
        self,
        front: u32,
        config: ConfigView,
        old_facts: TargetFacts,
        facts: TargetFacts,
    )
        requires
            self.one_focus(),
        ensures
            self.unfocused(front, config, old_facts).one_focus(),
            self.focus_set(self.focused_wid, true).border_updated(
                self.focused_wid,
                config,
                facts,
            ).one_focus(),
    {
    }

    /// A border that was just made is not drawn as focused.
    pub proof fn law_new_borders_are_not_focused(
        self,
        wid: u32,
        made: u32,
        hidpi: bool,
        border_width: i64,
        bounds: CGRect,
    )
        requires
            self.one_focus(),
        ensures
            self.with_border(
                wid,
                BorderWindow::fresh(self.cid, made, wid, hidpi, border_width, bounds),
            ).one_focus(),
    {
    }

    /// The actions bring no window onto the screen but the focused window's border.
    pub open spec fn shows_focused_only(self, actions: Seq<BorderAction>) -> bool {
        forall|i: int|
            0 <= i < actions.len() && shown_by(#[trigger] actions[i]) is Some ==> self.tracks(
                self.focused_wid,
            ) && shown_by(actions[i]) == Some(self.borders[self.focused_wid].wid)
    }

    /// In active-only mode, updating a window's border, updating all of them and
    /// unhiding one bring no border onto the screen but that of the focused window.
    pub proof fn law_updates_show_the_focused_border_only(
        self,
        wid: u32,
        config: ConfigView,
        facts: TargetFacts,
        answers: Seq<(u32, TargetFacts)>,
    )
        requires
            config.active_only,
        ensures
            self.shows_focused_only(self.border_update_actions(wid, config, facts)),
            self.shows_focused_only(self.redraw_actions(self.targets(), config, answers)),
            self.shows_focused_only(self.unhide_window_actions(wid, config)),
    {
        self.lemma_update_shows(wid, config, facts);
        self.lemma_redraw_shows(self.targets(), config, answers);
    }

    proof fn lemma_update_shows(self, wid: u32, config: ConfigView, facts: TargetFacts)
        requires
            config.active_only,
        ensures
            self.shows_focused_only(self.border_update_actions(wid, config, facts)),
    {
        law_borders_show_as_asked(
            self.borders[wid],
            facts,
            config.active_color,
            config.inactive_color,
            config.border_width,
            config.radius,
            self.order_for(wid, config),
        );
    }

    proof fn lemma_redraw_shows(
        self,
        wids: Seq<u32>,
        config: ConfigView,
        answers: Seq<(u32, TargetFacts)>,
    )
        requires
            config.active_only,
        ensures
            self.shows_focused_only(self.redraw_actions(wids, config, answers)),
            self.redrawn(wids, config, answers).focused_wid == self.focused_wid,
            forall|w: u32| #[trigger]
                self.redrawn(wids, config, answers).tracks(w) ==> self.tracks(w) && self.redrawn(
                    wids,
                    config,
                    answers,
                ).borders[w].wid == self.borders[w].wid,
        decreases wids.len(),
    {
        if wids.len() > 0 {
            let init = wids.drop_last();
            let wid = wids.last();
            self.lemma_redraw_shows(init, config, answers);
            let before = self.redrawn(init, config, answers);
            let marked = before.marked(wid);
            let facts = facts_for(answers, wid);
            let first = self.redraw_actions(init, config, answers);
            let more = marked.border_update_actions(wid, config, facts);
            marked.lemma_update_shows(wid, config, facts);
            assert(marked.focused_wid == self.focused_wid);
            let after = self.redrawn(wids, config, answers);
            assert forall|w: u32| #[trigger] after.tracks(w) implies self.tracks(w)
                && after.borders[w].wid == self.borders[w].wid by {
                assert(before.tracks(w));
            }
            assert forall|i: int|
                0 <= i < (first + more).len() && shown_by(
                    #[trigger] (first + more)[i],
                ) is Some implies self.tracks(self.focused_wid) && shown_by((first + more)[i])
                == Some(self.borders[self.focused_wid].wid) by {
                if i < first.len() {
                    assert((first + more)[i] == first[i]);
                } else {
                    assert((first + more)[i] == more[i - first.len()]);
                    assert(marked.tracks(self.focused_wid));
                    assert(before.tracks(self.focused_wid));
                }
            }
        }
    }

    /// In active-only mode, a border that is made comes onto the screen only if its
    /// window has the focus, and losing the focus brings none onto it.
    pub proof fn law_unfocused_borders_stay_off_the_screen(
        self,
        border: BorderWindow,
        config: ConfigView,
        facts: TargetFacts,
        i: int,
    )
        requires
            config.active_only,
        ensures
            ({
                let actions = border.first_actions(self.order_for(border.target_wid, config));
                0 <= i < actions.len() && shown_by(actions[i]) is Some ==> border.target_wid
                    == self.focused_wid
            }),
            ({
                let actions = self.unfocus_actions(config, facts);
                0 <= i < actions.len() ==> shown_by(actions[i]) is None
            }),
    {
    }
}

/// The first answer for a target is the one that counts; without one it is gone.
pub proof fn law_first_facts_count(answers: Seq<(u32, TargetFacts)>, w: u32, i: int)
    ensures
        (forall|j: int| 0 <= j < answers.len() ==> (#[trigger] answers[j]).0 != w) ==> facts_for(
            answers,
            w,
        ).bounds is None && !facts_for(answers, w).shown,
        0 <= i < answers.len() && answers[i].0 == w && (forall|j: int|
            0 <= j < i ==> (#[trigger] answers[j]).0 != w) ==> facts_for(answers, w)
            == answers[i].1,
    decreases answers.len(),
{
    if answers.len() > 0 {
        let rest = answers.skip(1);
        law_first_facts_count(rest, w, i - 1);
        assert(forall|j: int| 0 <= j < rest.len() ==> #[trigger] rest[j] == answers[j + 1]);
    }
}

/// The front window is the first suitable one, if there is an active space.
pub proof fn law_first_suitable_window_is_in_front(
    active_sid: u64,
    windows: Seq<(u32, WindowMetadata)>,
    i: int,
)
    ensures
        active_sid == 0 ==> first_suitable(active_sid, windows) == 0,
        (forall|j: int| 0 <= j < windows.len() ==> !suitable((#[trigger] windows[j]).1))
            ==> first_suitable(active_sid, windows) == 0,
        active_sid != 0 && 0 <= i < windows.len() && suitable(windows[i].1) && (forall|j: int|
            0 <= j < i ==> !suitable((#[trigger] windows[j]).1)) ==> first_suitable(
            active_sid,
            windows,
        ) == windows[i].0,
    decreases windows.len(),
{
    if active_sid != 0 && windows.len() > 0 {
        let rest = windows.skip(1);
        law_first_suitable_window_is_in_front(active_sid, rest, i - 1);
        assert(forall|j: int| 0 <= j < rest.len() ==> #[trigger] rest[j] == windows[j + 1]);
    }
}

/// The ids of spaces are collected space by space and display by display, in their order.
pub proof fn law_spaces_are_collected_in_order(
    displays: Seq<Vec<Option<u64>>>,
    display: Vec<Option<u64>>,
    spaces: Seq<Option<u64>>,
    id: u64,
)
    ensures
        ids_of(seq![]).len() == 0,
        ids_of(displays.push(display)) == ids_of(displays) + known_ids(display@),
        known_ids(seq![]).len() == 0,
        known_ids(spaces.push(Some(id))) == known_ids(spaces).push(id),
        known_ids(spaces.push(None)) == known_ids(spaces),
{
    reveal(Seq::filter);
    assert(displays.push(display).drop_last() =~= displays);
    assert(spaces.push(Some(id)).drop_last() =~= spaces);
    assert(spaces.push(None).drop_last() =~= spaces);
    assert(known_ids(spaces.push(Some(id))) =~= known_ids(spaces).push(id));
}

impl Tracker {
    /// A window is wanted exactly if it has no border, belongs to another process, and is
    /// known and suitable. Its border is shown as configured, unless only that of the
    /// focused window is to be shown and it is another one.
    pub proof fn law_wanted_windows(
        self,
        wid: u32,
        owner_pid: i32,
        m: WindowMetadata,
        config: ConfigView,
    )
        ensures
            self.wants(wid, owner_pid, Some(m)) <==> !self.tracks(wid) && owner_pid != self.own_pid
                && suitable(m),
            !self.wants(wid, owner_pid, None),
            self.order_for(wid, config) is None <==> config.active_only && wid != self.focused_wid,
            self.order_for(wid, config) is Some ==> self.order_for(wid, config)->0
                == config.border_order,
    {
    }

    /// Updating a window's border touches no other one, nor the focus.
    pub proof fn law_updates_touch_one_border(
        self,
        wid: u32,
        config: ConfigView,
        facts: TargetFacts,
        focused: bool,
        x: u32,
    )
        ensures
            ({
                let after = self.border_updated(wid, config, facts);
                let set = self.focus_set(wid, focused);
                &&& after.tracks(x) <==> self.tracks(x)
                &&& set.tracks(x) <==> self.tracks(x)
                &&& x != wid && self.tracks(x) ==> after.borders[x] == self.borders[x]
                    && set.borders[x] == self.borders[x]
                &&& self.tracks(wid) ==> {
                    &&& after.borders[wid] == self.borders[wid].updated(facts, config.border_width)
                    &&& set.borders[wid].focused == focused
                    &&& set.borders[wid].needs_redraw
                    &&& set.borders[wid].wid == self.borders[wid].wid
                    &&& set.borders[wid].target_bounds == self.borders[wid].target_bounds
                    &&& set.borders[wid].frame == self.borders[wid].frame
                    &&& set.borders[wid].origin == self.borders[wid].origin
                }
                &&& after.focused_wid == self.focused_wid
                &&& set.focused_wid == self.focused_wid
            }),
    {
    }

    /// Redrawing some borders updates each of them, asked to be drawn, with what the
    /// server says of its own target, and touches no others.
    pub proof fn law_redrawing_updates_each(
        self,
        wids: Seq<u32>,
        config: ConfigView,
        answers: Seq<(u32, TargetFacts)>,
        x: u32,
    )
        requires
            wids.no_duplicates(),
        ensures
            ({
                let after = self.redrawn(wids, config, answers);
                &&& after.tracks(x) <==> self.tracks(x)
                &&& self.tracks(x) && !wids.contains(x) ==> after.borders[x] == self.borders[x]
                &&& self.tracks(x) && wids.contains(x) ==> after.borders[x] == (BorderWindow {
                    needs_redraw: true,
                    ..self.borders[x]
                }).updated(facts_for(answers, x), config.border_width)
                &&& after.focused_wid == self.focused_wid
            }),
        decreases wids.len(),
    {
        if wids.len() > 0 {
            let init = wids.drop_last();
            let last = wids.last();
            self.law_redrawing_updates_each(init, config, answers, x);
            assert(wids[wids.len() - 1] == last);
            assert(wids.contains(x) <==> init.contains(x) || x == last) by {
                if init.contains(x) {
                    let i = init.index_of(x);
                    assert(wids[i] == x);
                }
                if wids.contains(x) && x != last {
                    let i = wids.index_of(x);
                    assert(init[i] == x);
                }
            }
            if init.contains(last) {
                let i = init.index_of(last);
                assert(wids[i] == last);
            }
        }
    }

    /// The focus goes to the front window, and the window that lost it, if it has a
    /// border, is not drawn as focused any more: it is drawn anew, or, where only the
    /// focused border is to be visible, hidden.
    pub proof fn law_focus_moves(self, front: u32, config: ConfigView, facts: TargetFacts, x: u32)
        ensures
            ({
                let after = self.unfocused(front, config, facts);
                let old_wid = self.focused_wid;
                let lost = BorderWindow {
                    focused: false,
                    needs_redraw: true,
                    ..self.borders[old_wid]
                };
                &&& after.focused_wid == front
                &&& after.tracks(x) <==> self.tracks(x)
                &&& x != old_wid && self.tracks(x) ==> after.borders[x] == self.borders[x]
                &&& self.tracks(old_wid) ==> !after.borders[old_wid].focused
                &&& self.tracks(old_wid) && config.active_only ==> {
                    &&& after.borders[old_wid] == lost
                    &&& self.unfocus_actions(config, facts) == self.borders[old_wid].hide_actions()
                }
                &&& self.tracks(old_wid) && !config.active_only ==> {
                    &&& after.borders[old_wid] == lost.updated(facts, config.border_width)
                    &&& self.unfocus_actions(config, facts) == lost.update_actions(
                        facts,
                        config.active_color,
                        config.inactive_color,
                        config.border_width,
                        config.radius,
                        Some(config.border_order),
                    )
                }
                &&& !self.tracks(old_wid) ==> self.unfocus_actions(config, facts).len() == 0
            }),
    {
    }

    /// What an update and an unhiding do, for a window that has a border and for one that
    /// has none.
    pub proof fn law_actions_are_those_of_the_border(
        self,
        wid: u32,
        config: ConfigView,
        facts: TargetFacts,
    )
        ensures
            self.tracks(wid) ==> self.border_update_actions(wid, config, facts)
                == self.borders[wid].update_actions(
                facts,
                config.active_color,
                config.inactive_color,
                config.border_width,
                config.radius,
                self.order_for(wid, config),
            ),
            !self.tracks(wid) ==> self.border_update_actions(wid, config, facts).len() == 0
                && self.border_updated(wid, config, facts) == self
                && self.unhide_window_actions(wid, config).len() == 0,
            self.tracks(wid) && (!config.active_only || wid == self.focused_wid)
                ==> self.unhide_window_actions(wid, config) == self.borders[wid].unhide_actions(
                config.border_order,
            ),
            config.active_only && wid != self.focused_wid ==> self.unhide_window_actions(
                wid,
                config,
            ).len() == 0,
    {
    }
}

}
