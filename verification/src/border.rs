//! A border that is a window of the window server itself: where it goes, and when it
//! is reshaped, drawn, moved and shown.

use crate::color::Color;
use crate::geometry::{clamp_length, clamped, rect, CGPoint, CGRect};
use crate::overlay::{frame_around, outer_frame};
use crate::surface::{resized, size_changed};
use vstd::prelude::*;

verus! {

/// The level that a border window is given.
pub const BORDER_LEVEL: i32 = 25;

/// Something to be done to the border window that stands first.
#[derive(Clone, Copy, Debug, PartialEq, Eq, Structural)]
pub enum BorderAction {
    /// Two pixels per point, or one.
    SetResolution(u32, bool),
    SetOpacity(u32, bool),
    SetLevel(u32, i32),
    /// Put the window above (positive) or below (negative) another one; 0 takes it off
    /// the screen.
    Order(u32, i32, u32),
    /// Fill the window for the first time.
    Paint(u32, CGRect),
    /// Draw the border into the window, of which this is all in pixels.
    Draw(u32, CGRect, Color, i64, i64),
    Reshape(u32, CGRect),
    Move(u32, CGPoint),
    /// The same, in one transaction.
    OrderInTransaction(u32, i32, u32),
    Release(u32),
}

/// What the window server says of the target.
#[derive(Clone, Copy, Debug, PartialEq, Eq, Structural)]
pub struct TargetFacts {
    /// `None` when there is no such window any more.
    pub bounds: Option<CGRect>,
    pub shown: bool,
}

#[derive(Clone, Copy, Debug, PartialEq, Eq, Structural)]
pub struct BorderWindow {
    pub cid: i32,
    /// The border's own window; 0 if it has none.
    pub wid: u32,
    pub target_wid: u32,
    /// The border's shape.
    pub frame: CGRect,
    pub target_bounds: CGRect,
    pub origin: CGPoint,
    pub focused: bool,
    pub needs_redraw: bool,
    pub hidpi: bool,
}

/// The shape of a border around a target.
pub open spec fn border_shape(bounds: CGRect, border_width: i64) -> CGRect {
    let frame = outer_frame(bounds, border_width as int);
    rect(0, 0, frame.size.width, frame.size.height)
}

/// All of a border, in pixels.
pub open spec fn in_pixels(frame: CGRect, hidpi: bool) -> CGRect {
    let scale: int = if hidpi {
        2
    } else {
        1
    };
    rect(0, 0, clamped(scale * frame.size.width), clamped(scale * frame.size.height))
}

fn pixels(frame: CGRect, hidpi: bool) -> (r: CGRect)
    ensures
        r == in_pixels(frame, hidpi),
{
    if hidpi {
        CGRect::new(
            0,
            0,
            clamp_length(2 * frame.size.width as i128),
            clamp_length(2 * frame.size.height as i128),
        )
    } else {
        CGRect::new(0, 0, frame.size.width, frame.size.height)
    }
}

/// The shape and the place of a border around a target.
pub fn frame_and_origin(bounds: CGRect, border_width: i64) -> (r: (CGRect, CGPoint))
    ensures
        r.0 == border_shape(bounds, border_width),
        r.1 == outer_frame(bounds, border_width as int).origin,
{
    let outer = frame_around(bounds, border_width);
    (CGRect::new(0, 0, outer.size.width, outer.size.height), outer.origin)
}

impl BorderWindow {
    /// A border around a target, just made.
    pub open spec fn fresh(
        cid: i32,
        wid: u32,
        target_wid: u32,
        hidpi: bool,
        border_width: i64,
        bounds: CGRect,
    ) -> BorderWindow {
        BorderWindow {
            cid,
            wid,
            target_wid,
            frame: border_shape(bounds, border_width),
            target_bounds: bounds,
            origin: outer_frame(bounds, border_width as int).origin,
            focused: false,
            needs_redraw: false,
            hidpi,
        }
    }

    /// What puts a border on the screen, above or below its target; nothing if it is not
    /// to be shown.
    pub open spec fn order_actions(self, border_order: Option<i32>) -> Seq<BorderAction> {
        match border_order {
            Some(order) => seq![BorderAction::Order(self.wid, order, self.target_wid)],
            None => seq![],
        }
    }

    /// What a border that was just made needs.
    pub open spec fn first_actions(self, border_order: Option<i32>) -> Seq<BorderAction> {
        seq![
            BorderAction::SetResolution(self.wid, self.hidpi),
            BorderAction::SetOpacity(self.wid, false),
            BorderAction::SetLevel(self.wid, BORDER_LEVEL),
        ] + self.order_actions(border_order) + seq![
            BorderAction::Paint(self.wid, in_pixels(self.frame, self.hidpi)),
        ]
    }

    /// The border of `target_wid`, for which the server made the window `wid` (0 if it
    /// could not) in the shape and at the place that [`frame_and_origin`] gives. It is
    /// shown above or below its target, as `border_order` says, or not at all if that is
    /// `None`. Returns `None` if the target is gone or there is no window.
    pub fn new(
        cid: i32,
        target_wid: u32,
        hidpi: bool,
        border_width: i64,
        border_order: Option<i32>,
        target_bounds: Option<CGRect>,
        wid: u32,
    ) -> (r: Option<(Self, Vec<BorderAction>)>)
        ensures
            r is Some <==> target_bounds is Some && wid != 0,
            r matches Some((border, actions)) ==> {
                &&& border == Self::fresh(
                    cid,
                    wid,
                    target_wid,
                    hidpi,
                    border_width,
                    target_bounds->0,
                )
                &&& actions@ == border.first_actions(border_order)
            },
    {
        let bounds = match target_bounds {
            Some(b) => b,
            None => {
                return None;
            },
        };
        if wid == 0 {
            return None;
        }
        let (frame, origin) = frame_and_origin(bounds, border_width);
        let border = BorderWindow {
            cid,
            wid,
            target_wid,
            frame,
            target_bounds: bounds,
            origin,
            focused: false,
            needs_redraw: false,
            hidpi,
        };
        let mut actions = vec![
            BorderAction::SetResolution(wid, hidpi),
            BorderAction::SetOpacity(wid, false),
            BorderAction::SetLevel(wid, BORDER_LEVEL),
        ];
        if let Some(order) = border_order {
            actions.push(BorderAction::Order(wid, order, target_wid));
        }
        actions.push(BorderAction::Paint(wid, pixels(frame, hidpi)));
        assert(actions@ =~= border.first_actions(border_order));
        Some((border, actions))
    }

    /// The border's shape and place from its target's bounds.
    pub fn calculate_frame(&self, border_width: i64) -> (r: (CGRect, CGPoint))
        ensures
            r.0 == border_shape(self.target_bounds, border_width),
            r.1 == outer_frame(self.target_bounds, border_width as int).origin,
    {
        frame_and_origin(self.target_bounds, border_width)
    }

    pub open spec fn hide_actions(self) -> Seq<BorderAction> {
        if self.wid == 0 {
            seq![]
        } else {
            seq![BorderAction::OrderInTransaction(self.wid, 0, self.target_wid)]
        }
    }

    pub open spec fn unhide_actions(self, border_order: i32) -> Seq<BorderAction> {
        if self.wid == 0 {
            seq![]
        } else {
            seq![BorderAction::OrderInTransaction(self.wid, border_order, self.target_wid)]
        }
    }

    /// The target's size is another one than the border was shaped for.
    pub open spec fn misshapen(self, bounds: CGRect, border_width: i64) -> bool {
        resized(border_shape(bounds, border_width), self.frame)
    }

    /// The border after a full update: it follows its target's place, and its size if
    /// that changed. A border without a window, or whose target is gone, stays as it
    /// is; one whose target is not shown only learns where the target is.
    pub open spec fn updated(self, facts: TargetFacts, border_width: i64) -> BorderWindow {
        if self.wid == 0 || facts.bounds is None {
            self
        } else {
            let bounds = facts.bounds->0;
            if !facts.shown {
                BorderWindow { target_bounds: bounds, ..self }
            } else {
                BorderWindow {
                    target_bounds: bounds,
                    frame: if self.misshapen(bounds, border_width) {
                        border_shape(bounds, border_width)
                    } else {
                        self.frame
                    },
                    origin: outer_frame(bounds, border_width as int).origin,
                    needs_redraw: false,
                    ..self
                }
            }
        }
    }

    /// What a full update does: it reshapes the border if its target's size changed,
    /// draws it if it was reshaped or asked for, moves it, and puts it above or below its
    /// target if it is to be shown; a border whose target is not shown is hidden.
    pub open spec fn update_actions(
        self,
        facts: TargetFacts,
        active_color: Color,
        inactive_color: Color,
        border_width: i64,
        radius: i64,
        border_order: Option<i32>,
    ) -> Seq<BorderAction> {
        if self.wid == 0 || facts.bounds is None {
            seq![]
        } else if !facts.shown {
            self.hide_actions()
        } else {
            let after = self.updated(facts, border_width);
            let reshaped = self.misshapen(facts.bounds->0, border_width);
            let color = if self.focused {
                active_color
            } else {
                inactive_color
            };
            (if reshaped {
                seq![BorderAction::Reshape(self.wid, after.frame)]
            } else {
                seq![]
            }) + (if reshaped || self.needs_redraw {
                seq![
                    BorderAction::Draw(
                        self.wid,
                        in_pixels(after.frame, self.hidpi),
                        color,
                        border_width,
                        radius,
                    ),
                ]
            } else {
                seq![]
            }) + seq![
                BorderAction::Move(self.wid, after.origin),
                BorderAction::SetLevel(self.wid, BORDER_LEVEL),
            ] + self.order_actions(border_order)
        }
    }

    /// Full update: take over the target's bounds, reshape if needed, redraw, move. The
    /// border is shown above or below its target, as `border_order` says; with `None` it
    /// is not brought onto the screen.
    pub fn update(
        &mut self,
        active_color: &Color,
        inactive_color: &Color,
        border_width: i64,
        radius: i64,
        border_order: Option<i32>,
        facts: TargetFacts,
    ) -> (actions: Vec<BorderAction>)
        ensures
            *final(self) == old(self).updated(facts, border_width),
            actions@ == old(self).update_actions(
                facts,
                *active_color,
                *inactive_color,
                border_width,
                radius,
                border_order,
            ),
    {
        let ghost before = *self;
        let mut actions: Vec<BorderAction> = Vec::new();
        if self.wid == 0 {
            return actions;
        }
        let bounds = match facts.bounds {
            Some(b) => b,
            None => {
                return actions;
            },
        };
        self.target_bounds = bounds;
        if !facts.shown {
            return self.hide_border();
        }
        let (frame, origin) = self.calculate_frame(border_width);
        if size_changed(frame, self.frame) {
            actions.push(BorderAction::Reshape(self.wid, frame));
            self.frame = frame;
            self.needs_redraw = true;
        }
        self.origin = origin;
        if self.needs_redraw {
            let color = if self.focused {
                *active_color
            } else {
                *inactive_color
            };
            let action = self.draw(&color, border_width, radius);
            actions.push(action);
        }
        actions.push(BorderAction::Move(self.wid, self.origin));
        actions.push(BorderAction::SetLevel(self.wid, BORDER_LEVEL));
        if let Some(order) = border_order {
            actions.push(BorderAction::Order(self.wid, order, self.target_wid));
        }
        assert(actions@ =~= before.update_actions(
            facts,
            *active_color,
            *inactive_color,
            border_width,
            radius,
            border_order,
        ));
        actions
    }

    /// Draws the border, which then needs no drawing, whether or not it succeeds.
    fn draw(&mut self, color: &Color, border_width: i64, radius: i64) -> (action: BorderAction)
        ensures
            *final(self) == (BorderWindow { needs_redraw: false, ..*old(self) }),
            action == BorderAction::Draw(
                old(self).wid,
                in_pixels(old(self).frame, old(self).hidpi),
                *color,
                border_width,
                radius,
            ),
    {
        self.needs_redraw = false;
        BorderAction::Draw(self.wid, pixels(self.frame, self.hidpi), *color, border_width, radius)
    }

    /// The border after its target moved.
    pub open spec fn repositioned(self, bounds: Option<CGRect>, border_width: i64) -> BorderWindow {
        if self.wid == 0 || bounds is None {
            self
        } else {
            BorderWindow {
                target_bounds: bounds->0,
                origin: outer_frame(bounds->0, border_width as int).origin,
                ..self
            }
        }
    }

    /// Move the border with its target (the fast path where nothing else changed).
    pub fn reposition_only(&mut self, border_width: i64, bounds: Option<CGRect>) -> (actions: Vec<
        BorderAction,
    >)
        ensures
            *final(self) == old(self).repositioned(bounds, border_width),
            actions@ == (if old(self).wid == 0 || bounds is None {
                seq![]
            } else {
                seq![BorderAction::Move(old(self).wid, final(self).origin)]
            }),
    {
        if self.wid == 0 {
            return Vec::new();
        }
        match bounds {
            None => Vec::new(),
            Some(b) => {
                self.target_bounds = b;
                let (_, origin) = self.calculate_frame(border_width);
                self.origin = origin;
                vec![BorderAction::Move(self.wid, self.origin)]
            },
        }
    }

    /// Takes the border off the screen.
    pub fn hide_border(&self) -> (actions: Vec<BorderAction>)
        ensures
            actions@ == self.hide_actions(),
    {
        if self.wid == 0 {
            Vec::new()
        } else {
            vec![BorderAction::OrderInTransaction(self.wid, 0, self.target_wid)]
        }
    }

    /// Puts the border back on the screen, above or below its target.
    pub fn unhide(&self, border_order: i32) -> (actions: Vec<BorderAction>)
        ensures
            actions@ == self.unhide_actions(border_order),
    {
        if self.wid == 0 {
            Vec::new()
        } else {
            vec![BorderAction::OrderInTransaction(self.wid, border_order, self.target_wid)]
        }
    }

    pub open spec fn close_actions(self) -> Seq<BorderAction> {
        if self.wid == 0 {
            seq![]
        } else {
            seq![BorderAction::Release(self.wid)]
        }
    }

    /// Gives the border's window back.
    pub fn close(self) -> (actions: Vec<BorderAction>)
        ensures
            actions@ == self.close_actions(),
    {
        if self.wid == 0 {
            Vec::new()
        } else {
            vec![BorderAction::Release(self.wid)]
        }
    }
}

/// A full update with nothing changed draws and reshapes nothing: it only moves the
/// border to where it is and orders it as it is.
pub proof fn law_updating_again_draws_nothing(
    border: BorderWindow,
    facts: TargetFacts,
    active_color: Color,
    inactive_color: Color,
    border_width: i64,
    radius: i64,
    border_order: Option<i32>,
)
    requires
        border.wid != 0,
        facts.bounds is Some,
        facts.shown,
    ensures
        ({
            let once = border.updated(facts, border_width);
            &&& once.updated(facts, border_width) == once
            &&& once.update_actions(
                facts,
                active_color,
                inactive_color,
                border_width,
                radius,
                border_order,
            ) == seq![
                BorderAction::Move(once.wid, once.origin),
                BorderAction::SetLevel(once.wid, BORDER_LEVEL),
            ] + once.order_actions(border_order)
        }),
{
    let once = border.updated(facts, border_width);
    assert(!once.misshapen(facts.bounds->0, border_width));
    assert(once.update_actions(
        facts,
        active_color,
        inactive_color,
        border_width,
        radius,
        border_order,
    ) =~= seq![
        BorderAction::Move(once.wid, once.origin),
        BorderAction::SetLevel(once.wid, BORDER_LEVEL),
    ] + once.order_actions(border_order));
}

/// The window that an action brings onto the screen, if it does.
pub open spec fn shown_by(action: BorderAction) -> Option<u32> {
    match action {
        BorderAction::Order(wid, order, _) => if order != 0 {
            Some(wid)
        } else {
            None
        },
        BorderAction::OrderInTransaction(wid, order, _) => if order != 0 {
            Some(wid)
        } else {
            None
        },
        _ => None,
    }
}

/// A border that is not to be shown is not brought onto the screen, neither when it is
/// made nor when it is updated; and no other window is, in any case.
pub proof fn law_borders_show_as_asked(
    border: BorderWindow,
    facts: TargetFacts,
    active_color: Color,
    inactive_color: Color,
    border_width: i64,
    radius: i64,
    border_order: Option<i32>,
)
    ensures
        forall|i: int|
            0 <= i < border.first_actions(border_order).len() && shown_by(
                #[trigger] border.first_actions(border_order)[i],
            ) is Some ==> border_order is Some && shown_by(border.first_actions(border_order)[i])
                == Some(border.wid),
        ({
            let actions = border.update_actions(
                facts,
                active_color,
                inactive_color,
                border_width,
                radius,
                border_order,
            );
            forall|i: int|
                0 <= i < actions.len() && shown_by(#[trigger] actions[i]) is Some ==> border_order
                    is Some && shown_by(actions[i]) == Some(border.wid)
        }),
{
}

/// The sums for a border around these bounds are in range.
pub open spec fn in_range(bounds: CGRect, border_width: i64) -> bool {
    &&& i64::MIN <= bounds.origin.x - border_width <= i64::MAX
    &&& i64::MIN <= bounds.origin.y - border_width <= i64::MAX
    &&& i64::MIN <= bounds.size.width + 2 * border_width <= i64::MAX
    &&& i64::MIN <= bounds.size.height + 2 * border_width <= i64::MAX
}

/// The shape has a corner in the origin and leaves room for the border on both sides.
pub open spec fn fits_around(shape: CGRect, bounds: CGRect, border_width: i64) -> bool {
    &&& shape.origin.x == 0
    &&& shape.origin.y == 0
    &&& shape.size.width - border_width == bounds.size.width + border_width
    &&& shape.size.height - border_width == bounds.size.height + border_width
}

/// A size is no further than half a point from that of a shape that fits.
pub open spec fn nearly_fits(shape: CGRect, bounds: CGRect, border_width: i64) -> bool {
    let point = crate::geometry::POINT;
    &&& -point <= 2 * (shape.size.width - bounds.size.width - 2 * border_width) <= point
    &&& -point <= 2 * (shape.size.height - bounds.size.height - 2 * border_width) <= point
}

/// The place is outside the bounds by the border's width, to the left and to the top.
pub open spec fn starts_outside(origin: CGPoint, bounds: CGRect, border_width: i64) -> bool {
    origin.x + border_width == bounds.origin.x && origin.y + border_width == bounds.origin.y
}

/// A border that was just made fits around its target, is not focused and needs no
/// drawing, and knows the windows it is of and for.
pub proof fn law_fresh_borders_fit(
    cid: i32,
    wid: u32,
    target_wid: u32,
    hidpi: bool,
    border_width: i64,
    bounds: CGRect,
)
    requires
        in_range(bounds, border_width),
    ensures
        ({
            let b = BorderWindow::fresh(cid, wid, target_wid, hidpi, border_width, bounds);
            &&& fits_around(b.frame, bounds, border_width)
            &&& starts_outside(b.origin, bounds, border_width)
            &&& b.target_bounds == bounds
            &&& b.cid == cid && b.wid == wid && b.target_wid == target_wid && b.hidpi == hidpi
            &&& !b.focused && !b.needs_redraw
        }),
{
}

/// What a border that was just made is told: its resolution, that it is not opaque, its
/// level, where it goes if it is to be shown, and to be painted all over.
pub proof fn law_first_actions(b: BorderWindow, order: i32)
    ensures
        b.first_actions(Some(order)) == seq![
            BorderAction::SetResolution(b.wid, b.hidpi),
            BorderAction::SetOpacity(b.wid, false),
            BorderAction::SetLevel(b.wid, 25),
            BorderAction::Order(b.wid, order, b.target_wid),
            BorderAction::Paint(b.wid, in_pixels(b.frame, b.hidpi)),
        ],
        b.first_actions(None) == seq![
            BorderAction::SetResolution(b.wid, b.hidpi),
            BorderAction::SetOpacity(b.wid, false),
            BorderAction::SetLevel(b.wid, 25),
            BorderAction::Paint(b.wid, in_pixels(b.frame, b.hidpi)),
        ],
{
    assert(b.first_actions(Some(order)) =~= seq![
        BorderAction::SetResolution(b.wid, b.hidpi),
        BorderAction::SetOpacity(b.wid, false),
        BorderAction::SetLevel(b.wid, 25),
        BorderAction::Order(b.wid, order, b.target_wid),
        BorderAction::Paint(b.wid, in_pixels(b.frame, b.hidpi)),
    ]);
    assert(b.first_actions(None) =~= seq![
        BorderAction::SetResolution(b.wid, b.hidpi),
        BorderAction::SetOpacity(b.wid, false),
        BorderAction::SetLevel(b.wid, 25),
        BorderAction::Paint(b.wid, in_pixels(b.frame, b.hidpi)),
    ]);
}

/// A border has two pixels to a point on a dense display and one on another, from the
/// origin on.
pub proof fn law_pixels_of_a_border(frame: CGRect)
    requires
        i64::MIN <= 2 * frame.size.width <= i64::MAX,
        i64::MIN <= 2 * frame.size.height <= i64::MAX,
    ensures
        in_pixels(frame, true).size.width == 2 * frame.size.width,
        in_pixels(frame, true).size.height == 2 * frame.size.height,
        in_pixels(frame, false).size == frame.size,
        in_pixels(frame, true).origin.x == 0 && in_pixels(frame, true).origin.y == 0,
        in_pixels(frame, false).origin.x == 0 && in_pixels(frame, false).origin.y == 0,
{
}

/// A full update of a border whose target is shown puts it around the target: its place
/// exactly, and its size to within half a point, or exactly if it was further off. Then
/// nothing is left to be drawn, and the rest of it is what it was.
pub proof fn law_updates_follow_the_target(b: BorderWindow, bounds: CGRect, border_width: i64)
    requires
        b.wid != 0,
        in_range(bounds, border_width),
    ensures
        ({
            let after = b.updated(TargetFacts { bounds: Some(bounds), shown: true }, border_width);
            &&& starts_outside(after.origin, bounds, border_width)
            &&& nearly_fits(after.frame, bounds, border_width)
            &&& nearly_fits(b.frame, bounds, border_width) ==> after.frame == b.frame
            &&& !nearly_fits(b.frame, bounds, border_width) ==> fits_around(
                after.frame,
                bounds,
                border_width,
            )
            &&& after.target_bounds == bounds
            &&& !after.needs_redraw
            &&& after.cid == b.cid && after.wid == b.wid && after.target_wid == b.target_wid
            &&& after.focused == b.focused && after.hidpi == b.hidpi
        }),
{
    crate::surface::law_half_a_point_is_no_change(border_shape(bounds, border_width), b.frame);
}

/// A border whose target is there but not shown only learns where that is, and one whose
/// target is gone, or that has no window, stays as it is. A move takes over the place
/// alone.
pub proof fn law_other_updates(b: BorderWindow, bounds: CGRect, border_width: i64)
    ensures
        b.wid != 0 ==> b.updated(
            TargetFacts { bounds: Some(bounds), shown: false },
            border_width,
        ) == (BorderWindow { target_bounds: bounds, ..b }),
        b.updated(TargetFacts { bounds: None, shown: true }, border_width) == b,
        b.updated(TargetFacts { bounds: None, shown: false }, border_width) == b,
        b.wid == 0 ==> b.updated(
            TargetFacts { bounds: Some(bounds), shown: true },
            border_width,
        ) == b,
        b.repositioned(None, border_width) == b,
        b.wid == 0 ==> b.repositioned(Some(bounds), border_width) == b,
        b.wid != 0 && in_range(bounds, border_width) ==> {
            let after = b.repositioned(Some(bounds), border_width);
            &&& starts_outside(after.origin, bounds, border_width)
            &&& after == (BorderWindow { target_bounds: bounds, origin: after.origin, ..b })
        },
{
}

/// What a full update does on the screen. The border is drawn exactly if its size was
/// wrong or it was asked for, in the active color if it is focused and otherwise in the
/// inactive one, and always moved.
pub proof fn law_update_actions(
    b: BorderWindow,
    bounds: CGRect,
    active_color: Color,
    inactive_color: Color,
    border_width: i64,
    radius: i64,
    order: Option<i32>,
)
    requires
        b.wid != 0,
        in_range(bounds, border_width),
    ensures
        ({
            let facts = TargetFacts { bounds: Some(bounds), shown: true };
            let after = b.updated(facts, border_width);
            let all = b.update_actions(
                facts,
                active_color,
                inactive_color,
                border_width,
                radius,
                order,
            );
            let fits = nearly_fits(b.frame, bounds, border_width);
            let drawn = BorderAction::Draw(
                b.wid,
                in_pixels(after.frame, b.hidpi),
                if b.focused {
                    active_color
                } else {
                    inactive_color
                },
                border_width,
                radius,
            );
            let moved = BorderAction::Move(b.wid, after.origin);
            let level = BorderAction::SetLevel(b.wid, 25);
            let shaped = BorderAction::Reshape(b.wid, after.frame);
            let shown = match order {
                Some(o) => seq![BorderAction::Order(b.wid, o, b.target_wid)],
                None => seq![],
            };
            &&& fits && !b.needs_redraw ==> all == seq![moved, level] + shown
            &&& fits && b.needs_redraw ==> all == seq![drawn, moved, level] + shown
            &&& !fits ==> all == seq![shaped, drawn, moved, level] + shown
        }),
{
    let facts = TargetFacts { bounds: Some(bounds), shown: true };
    crate::surface::law_half_a_point_is_no_change(border_shape(bounds, border_width), b.frame);
    let after = b.updated(facts, border_width);
    let all = b.update_actions(facts, active_color, inactive_color, border_width, radius, order);
    let drawn = BorderAction::Draw(
        b.wid,
        in_pixels(after.frame, b.hidpi),
        if b.focused {
            active_color
        } else {
            inactive_color
        },
        border_width,
        radius,
    );
    let moved = BorderAction::Move(b.wid, after.origin);
    let level = BorderAction::SetLevel(b.wid, 25);
    let shaped = BorderAction::Reshape(b.wid, after.frame);
    let shown = b.order_actions(order);
    if nearly_fits(b.frame, bounds, border_width) {
        if b.needs_redraw {
            assert(all =~= seq![drawn, moved, level] + shown);
        } else {
            assert(all =~= seq![moved, level] + shown);
        }
    } else {
        assert(all =~= seq![shaped, drawn, moved, level] + shown);
    }
}

/// A border is hidden by taking its window off the screen, shown by putting it where it
/// is to go, and closed by giving its window back; a border without a window needs none
/// of that. One whose target is not shown is hidden by an update.
pub proof fn law_hiding_showing_closing(
    b: BorderWindow,
    order: i32,
    bounds: CGRect,
    color: Color,
    border_width: i64,
    radius: i64,
    shown: Option<i32>,
)
    ensures
        b.wid != 0 ==> b.hide_actions() == seq![
            BorderAction::OrderInTransaction(b.wid, 0, b.target_wid),
        ],
        b.wid != 0 ==> b.unhide_actions(order) == seq![
            BorderAction::OrderInTransaction(b.wid, order, b.target_wid),
        ],
        b.wid != 0 ==> b.close_actions() == seq![BorderAction::Release(b.wid)],
        b.wid == 0 ==> b.hide_actions().len() == 0 && b.unhide_actions(order).len() == 0
            && b.close_actions().len() == 0,
        b.update_actions(
            TargetFacts { bounds: Some(bounds), shown: false },
            color,
            color,
            border_width,
            radius,
            shown,
        ) == b.hide_actions(),
        b.update_actions(
            TargetFacts { bounds: None, shown: true },
            color,
            color,
            border_width,
            radius,
            shown,
        ).len() == 0,
{
}

}
