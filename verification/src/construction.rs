//! Building an overlay out of the window server's own windows, step by step, so that
//! nothing is left behind where a step fails.

use crate::color::Color;
use crate::display::Scale;
use crate::geometry::{rect, CGPoint, CGRect, CGSize};
use crate::overlay::{border_stroke, draw_border, frame_around, outer_frame, BorderStroke};
use crate::surface::{is_trackable_window, trackable};
use vstd::prelude::*;

verus! {

/// The tags of an overlay: click-through, and left out of screenshots.
pub const OVERLAY_TAGS: u64 = 0x202;

/// The options of an overlay: a documentation window, left out of window cycling.
pub const OVERLAY_OPTIONS: i32 = 0x4_000d;

/// The sharing state of a window that nobody may capture.
pub const SHARING_NONE: u32 = 0;

/// What is to be built.
#[derive(Clone, Copy, Debug, PartialEq, Eq, Structural)]
pub struct Blueprint {
    pub target_wid: u32,
    /// The target's bounds.
    pub bounds: CGRect,
    /// The overlay's frame.
    pub frame: CGRect,
    pub stroke: BorderStroke,
    pub color: Color,
    pub scale: Scale,
}

/// What is made on the way.
#[derive(Clone, Copy, Debug, PartialEq, Eq, Structural)]
pub enum Part {
    /// The shape of the overlay.
    Region,
    /// An empty shape for what takes clicks.
    EmptyRegion,
    Window,
    /// What the border is drawn into.
    Context,
}

/// Something to be done, in the order in which it is given.
#[derive(Clone, Copy, Debug, PartialEq, Eq, Structural)]
pub enum Step {
    /// Make a region of this shape; it is to be reported whether there is one.
    MakeRegion(CGRect),
    /// Make the empty region; it is to be reported whether there is one.
    MakeEmptyRegion(CGRect),
    /// Make the window at this place, with these options and tags; its number is to be
    /// reported.
    MakeWindow(CGPoint, i32, u64),
    /// Make the window's drawing context; it is to be reported whether there is one.
    MakeContext(u32),
    Release(Part),
    SetSharing(u32, u32),
    SetResolution(u32, Scale),
    SetOpacity(u32, bool),
    SetLevel(u32, i32),
    /// Put the first window above (1) the second.
    Order(u32, i32, u32),
    Draw(BorderStroke, Color),
    Flush(u32),
    SetTags(u32, u64),
    ClearTags(u32, u64),
}

#[derive(Clone, Copy, Debug, PartialEq, Eq, Structural)]
pub enum Stage {
    /// Waiting for that part.
    Making(Part),
    /// The overlay with this window number is there.
    Built(u32),
    Failed,
}

#[derive(Clone, Copy, Debug, PartialEq, Eq, Structural)]
pub struct Build {
    pub blueprint: Blueprint,
    pub stage: Stage,
    /// The window number, once there is a window.
    pub wid: u32,
}

/// The blueprint of an overlay; `None` if the target is gone or too small.
pub open spec fn drafted(
    target_wid: u32,
    bounds: Option<CGRect>,
    border_width: i64,
    radius: i64,
    color: Color,
    scale: Scale,
) -> Option<Blueprint> {
    match bounds {
        None => None,
        Some(b) => if trackable(b, border_width) {
            let frame = outer_frame(b, border_width as int);
            Some(
                Blueprint {
                    target_wid,
                    bounds: b,
                    frame,
                    stroke: border_stroke(
                        frame.size.width,
                        frame.size.height,
                        border_width,
                        radius,
                    ),
                    color,
                    scale,
                },
            )
        } else {
            None
        },
    }
}

/// The shape of a frame of that size.
pub open spec fn shape(size: CGSize) -> CGRect {
    rect(0, 0, size.width, size.height)
}

/// Starts to build the overlay of a target, of which the server says `bounds`. Returns
/// `None` if the target is gone or too small.
pub fn create_overlay(
    target_wid: u32,
    bounds: Option<CGRect>,
    border_width: i64,
    radius: i64,
    color: Color,
    scale: Scale,
) -> (r: Option<(Build, Step)>)
    ensures
        match drafted(target_wid, bounds, border_width, radius, color, scale) {
            None => r is None,
            Some(blueprint) => r == Some(
                (
                    Build { blueprint, stage: Stage::Making(Part::Region), wid: 0 },
                    Step::MakeRegion(shape(blueprint.frame.size)),
                ),
            ),
        },
{
    let bounds = match bounds {
        Some(b) => b,
        None => {
            return None;
        },
    };
    if !is_trackable_window(bounds, border_width) {
        return None;
    }
    let frame = frame_around(bounds, border_width);
    let blueprint = Blueprint {
        target_wid,
        bounds,
        frame,
        stroke: draw_border(frame.size.width, frame.size.height, border_width, radius),
        color,
        scale,
    };
    Some(
        (
            Build { blueprint, stage: Stage::Making(Part::Region), wid: 0 },
            Step::MakeRegion(CGRect::new(0, 0, frame.size.width, frame.size.height)),
        ),
    )
}

impl Build {
    pub open spec fn at(self, stage: Stage) -> Build {
        Build { stage, ..self }
    }

    /// The build after the part that it waits for was reported: 0 if it could not be
    /// made, the window number for a window, any other number for another part.
    pub open spec fn advanced(self, made: u32) -> (Build, Seq<Step>) {
        let b = self.blueprint;
        match self.stage {
            Stage::Making(Part::Region) => if made == 0 {
                (self.at(Stage::Failed), seq![])
            } else {
                (
                    self.at(Stage::Making(Part::EmptyRegion)),
                    seq![Step::MakeEmptyRegion(rect(0, 0, 0, 0))],
                )
            },
            Stage::Making(Part::EmptyRegion) => if made == 0 {
                (self.at(Stage::Failed), seq![Step::Release(Part::Region)])
            } else {
                (
                    self.at(Stage::Making(Part::Window)),
                    seq![Step::MakeWindow(b.frame.origin, OVERLAY_OPTIONS, OVERLAY_TAGS)],
                )
            },
            Stage::Making(Part::Window) => if made == 0 {
                (
                    self.at(Stage::Failed),
                    seq![Step::Release(Part::Region), Step::Release(Part::EmptyRegion)],
                )
            } else {
                (
                    Build { stage: Stage::Making(Part::Context), wid: made, ..self },
                    seq![
                        Step::Release(Part::Region),
                        Step::Release(Part::EmptyRegion),
                        Step::SetSharing(made, SHARING_NONE),
                        Step::SetResolution(made, b.scale),
                        Step::SetOpacity(made, false),
                        Step::SetLevel(made, 0),
                        Step::Order(made, 1, b.target_wid),
                        Step::MakeContext(made),
                    ],
                )
            },
            Stage::Making(Part::Context) => if made == 0 {
                (self.at(Stage::Failed), seq![Step::Release(Part::Window)])
            } else {
                (
                    self.at(Stage::Built(self.wid)),
                    seq![
                        Step::Draw(b.stroke, b.color),
                        Step::Flush(self.wid),
                        Step::Release(Part::Context),
                        Step::SetTags(self.wid, OVERLAY_TAGS),
                        Step::ClearTags(self.wid, 0),
                    ],
                )
            },
            _ => (self, seq![]),
        }
    }

    pub fn advance(&mut self, made: u32) -> (steps: Vec<Step>)
        ensures
            (*final(self), steps@) == old(self).advanced(made),
    {
        let ghost before = *self;
        let b = self.blueprint;
        let wid = self.wid;
        let steps: Vec<Step> = match self.stage {
            Stage::Making(Part::Region) => if made == 0 {
                self.stage = Stage::Failed;
                vec![]
            } else {
                self.stage = Stage::Making(Part::EmptyRegion);
                vec![Step::MakeEmptyRegion(CGRect::new(0, 0, 0, 0))]
            },
            Stage::Making(Part::EmptyRegion) => if made == 0 {
                self.stage = Stage::Failed;
                vec![Step::Release(Part::Region)]
            } else {
                self.stage = Stage::Making(Part::Window);
                vec![Step::MakeWindow(b.frame.origin, OVERLAY_OPTIONS, OVERLAY_TAGS)]
            },
            Stage::Making(Part::Window) => if made == 0 {
                self.stage = Stage::Failed;
                vec![Step::Release(Part::Region), Step::Release(Part::EmptyRegion)]
            } else {
                self.stage = Stage::Making(Part::Context);
                self.wid = made;
                vec![
                    Step::Release(Part::Region),
                    Step::Release(Part::EmptyRegion),
                    Step::SetSharing(made, SHARING_NONE),
                    Step::SetResolution(made, b.scale),
                    Step::SetOpacity(made, false),
                    Step::SetLevel(made, 0),
                    Step::Order(made, 1, b.target_wid),
                    Step::MakeContext(made),
                ]
            },
            Stage::Making(Part::Context) => if made == 0 {
                self.stage = Stage::Failed;
                vec![Step::Release(Part::Window)]
            } else {
                self.stage = Stage::Built(wid);
                vec![
                    Step::Draw(b.stroke, b.color),
                    Step::Flush(wid),
                    Step::Release(Part::Context),
                    Step::SetTags(wid, OVERLAY_TAGS),
                    Step::ClearTags(wid, 0),
                ]
            },
            _ => vec![],
        };
        assert(steps@ =~= before.advanced(made).1);
        steps
    }
}

/// The parts that there are after some steps.
pub open spec fn left_after(parts: Set<Part>, steps: Seq<Step>) -> Set<Part>
    decreases steps.len(),
{
    if steps.len() == 0 {
        parts
    } else {
        match steps[0] {
            Step::Release(part) => left_after(parts.remove(part), steps.skip(1)),
            _ => left_after(parts, steps.skip(1)),
        }
    }
}

/// The parts that there are at a stage.
pub open spec fn parts_at(stage: Stage) -> Set<Part> {
    match stage {
        Stage::Making(Part::Region) => set![],
        Stage::Making(Part::EmptyRegion) => set![Part::Region],
        Stage::Making(Part::Window) => set![Part::Region, Part::EmptyRegion],
        Stage::Making(Part::Context) => set![Part::Window],
        Stage::Built(_) => set![Part::Window],
        Stage::Failed => set![],
    }
}

/// The parts that there are once a part was reported.
pub open spec fn with_made(parts: Set<Part>, stage: Stage, made: u32) -> Set<Part> {
    match stage {
        Stage::Making(part) => if made == 0 {
            parts
        } else {
            parts.insert(part)
        },
        _ => parts,
    }
}

/// Whatever fails on the way, nothing is left behind: a build that failed holds no
/// part, and one that is done holds the window alone.
pub proof fn law_nothing_is_left_behind(build: Build, made: u32)
    ensures
        ({
            let (after, steps) = build.advanced(made);
            left_after(with_made(parts_at(build.stage), build.stage, made), steps) == parts_at(
                after.stage,
            )
        }),
{
    let (after, steps) = build.advanced(made);
    let parts = with_made(parts_at(build.stage), build.stage, made);
    reveal_with_fuel(left_after, 9);
    assert(left_after(parts, steps) =~= parts_at(after.stage));
}

/// An overlay is built exactly if its target is there and no side of it is shorter than
/// the border or four points. It has the border's width more than the target on each
/// side, a stroke for that size, and the color and the scale that were asked for.
pub proof fn law_blueprints(
    target_wid: u32,
    bounds: CGRect,
    border_width: i64,
    radius: i64,
    color: Color,
    scale: Scale,
)
    requires
        i64::MIN <= bounds.origin.x - border_width <= i64::MAX,
        i64::MIN <= bounds.origin.y - border_width <= i64::MAX,
        i64::MIN <= bounds.size.width + 2 * border_width <= i64::MAX,
        i64::MIN <= bounds.size.height + 2 * border_width <= i64::MAX,
    ensures
        ({
            let d = drafted(target_wid, Some(bounds), border_width, radius, color, scale);
            let four = 4 * crate::geometry::POINT;
            let (w, h) = (bounds.size.width, bounds.size.height);
            &&& d is Some <==> w >= border_width && h >= border_width && w >= four && h >= four
            &&& drafted(target_wid, None, border_width, radius, color, scale) is None
            &&& d matches Some(b) ==> {
                &&& b.target_wid == target_wid
                &&& b.bounds == bounds
                &&& b.frame.origin.x + border_width == bounds.origin.x
                &&& b.frame.origin.y + border_width == bounds.origin.y
                &&& b.frame.size.width == w + 2 * border_width
                &&& b.frame.size.height == h + 2 * border_width
                &&& b.stroke == border_stroke(
                    (w + 2 * border_width) as i64,
                    (h + 2 * border_width) as i64,
                    border_width,
                    radius,
                )
                &&& b.color == color
                &&& b.scale == scale
                &&& shape(b.frame.size).size == b.frame.size
                &&& shape(b.frame.size).origin.x == 0 && shape(b.frame.size).origin.y == 0
            }
        }),
{
    crate::surface::law_trackable_sizes(bounds, border_width);
}

/// What is made one after the other, where everything can be made: an empty region for
/// clicks, the window at the frame's place with the overlay's options and tags, which is
/// kept out of captures, scaled, see-through, put above its target and drawn into, and
/// what was only needed on the way is released.
pub proof fn law_course_of_building(build: Build, region: u32, empty: u32, wid: u32, context: u32)
    requires
        build.stage == Stage::Making(Part::Region),
        region != 0,
        empty != 0,
        wid != 0,
        context != 0,
    ensures
        ({
            let b = build.blueprint;
            let (b1, s1) = build.advanced(region);
            let (b2, s2) = b1.advanced(empty);
            let (b3, s3) = b2.advanced(wid);
            let (b4, s4) = b3.advanced(context);
            &&& s1 == seq![Step::MakeEmptyRegion(rect(0, 0, 0, 0))]
            &&& s2 == seq![Step::MakeWindow(b.frame.origin, 0x4_000d, 0x202)]
            &&& s3 == seq![
                Step::Release(Part::Region),
                Step::Release(Part::EmptyRegion),
                Step::SetSharing(wid, 0),
                Step::SetResolution(wid, b.scale),
                Step::SetOpacity(wid, false),
                Step::SetLevel(wid, 0),
                Step::Order(wid, 1, b.target_wid),
                Step::MakeContext(wid),
            ]
            &&& s4 == seq![
                Step::Draw(b.stroke, b.color),
                Step::Flush(wid),
                Step::Release(Part::Context),
                Step::SetTags(wid, 0x202),
                Step::ClearTags(wid, 0),
            ]
            &&& b4.stage == Stage::Built(wid)
            &&& b4.blueprint == b
        }),
{
}

/// Where something cannot be made, the build has failed, and nothing more is done after
/// it is over.
pub proof fn law_failed_and_finished_builds(build: Build, made: u32)
    ensures
        build.stage is Making ==> build.advanced(0).0.stage is Failed,
        !(build.stage is Making) ==> build.advanced(made).0 == build && build.advanced(
            made,
        ).1.len() == 0,
        build.stage is Making && made != 0 ==> !(build.advanced(made).0.stage is Failed),
{
}

}
