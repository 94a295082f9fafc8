//! The edge of the play field: bodies that wrap around it and bodies that
//! are removed when they leave it.

use vstd::prelude::*;
use crate::collision::Bounding;
use crate::geometry::{Vector, REACH};

verus! {

/// The height of the window.
pub const SCREEN_HEIGHT: i64 = 512;

/// The width of the window.
pub const SCREEN_WIDTH: i64 = 1024;

/// The width of the play field inside the window.
pub const GAME_FRAME_WIDTH: i64 = 776;

/// The height of the play field inside the window.
pub const GAME_FRAME_HEIGHT: i64 = 512;

/// The width of the border that is drawn around the play field.
pub const GAME_BORDER_OFFSET: i64 = 8;

/// How far the play field stands left of the middle of the window: half of
/// what the window is wider than the field.
pub const FRAME_X_OFFSET: i64 = 124;

/// The lower edge of the play field: half the height of the window below
/// the middle, less 4.
pub const FRAME_START_Y: i64 = -252;

/// The upper edge of the play field.
pub const FRAME_END_Y: i64 = 252;

/// The left edge of the play field: half the width of the field left of its
/// middle, which is `FRAME_X_OFFSET` left of the middle of the window.
pub const FRAME_START_X: i64 = -512;

/// The right edge of the play field.
pub const FRAME_END_X: i64 = 264;

/// The rectangle of the play field.
#[derive(Clone, Copy, Debug, PartialEq, Eq, Structural)]
pub struct Frame {
    pub start_x: i64,
    pub end_x: i64,
    pub start_y: i64,
    pub end_y: i64,
}

/// A body as the boundary sees it: a circle.
#[derive(Clone, Copy, Debug, PartialEq, Eq, Structural)]
pub struct Circle {
    pub pos: Vector,
    pub bound: Bounding,
}

impl Circle {
    /// The centre is within `REACH` and the radius is positive and at most
    /// `REACH`.
    pub open spec fn wf(self) -> bool {
        self.pos.in_reach() && self.bound.wf()
    }

    /// Tells whether the circle is well formed.
    pub fn is_valid(&self) -> (r: bool)
        ensures
            r == self.wf(),
    {
        self.pos.within_reach() && self.bound.is_valid()
    }
}

impl Frame {
    /// The edges are in order and within `REACH`.
    pub open spec fn wf(self) -> bool {
        &&& -REACH <= self.start_x <= self.end_x <= REACH
        &&& -REACH <= self.start_y <= self.end_y <= REACH
    }

    /// Builds a frame, refusing edges that are out of order or beyond
    /// `REACH`.
    pub fn new(start_x: i64, end_x: i64, start_y: i64, end_y: i64) -> (r: Option<Frame>)
        ensures
            r == (if (Frame { start_x, end_x, start_y, end_y }).wf() {
                Some(Frame { start_x, end_x, start_y, end_y })
            } else {
                None
            }),
    {
        if -REACH <= start_x && start_x <= end_x && end_x <= REACH && -REACH <= start_y && start_y
            <= end_y && end_y <= REACH {
            Some(Frame { start_x, end_x, start_y, end_y })
        } else {
            None
        }
    }

    /// The play field of the game.
    pub fn game() -> (f: Frame)
        ensures
            f.wf(),
            f == (Frame {
                start_x: FRAME_START_X,
                end_x: FRAME_END_X,
                start_y: FRAME_START_Y,
                end_y: FRAME_END_Y,
            }),
    {
        Frame {
            start_x: FRAME_START_X,
            end_x: FRAME_END_X,
            start_y: FRAME_START_Y,
            end_y: FRAME_END_Y,
        }
    }

    /// The body has left the play field: its centre is beyond an edge by
    /// more than its radius.
    pub open spec fn left_by(self, pos: Vector, radius: Bounding) -> bool {
        ||| pos.x > self.end_x + radius.0
        ||| pos.x < self.start_x - radius.0
        ||| pos.y > self.end_y + radius.0
        ||| pos.y < self.start_y - radius.0
    }

    /// Where a wrapping body stands: a coordinate beyond an edge by more
    /// than the radius moves to the opposite edge, the radius outside it;
    /// any other coordinate stays.
    pub open spec fn wrapped(self, pos: Vector, radius: Bounding) -> Vector {
        Vector {
            x: wrapped_coordinate(pos.x, self.start_x, self.end_x, radius.0),
            y: wrapped_coordinate(pos.y, self.start_y, self.end_y, radius.0),
        }
    }

    /// Tells whether the body has left the play field.
    pub fn has_left(&self, pos: &Vector, radius: &Bounding) -> (r: bool)
        requires
            self.wf(),
            0 <= radius.0 <= REACH,
        ensures
            r == self.left_by(*pos, *radius),
    {
        let r = radius.0;
        pos.x > self.end_x + r || pos.x < self.start_x - r || pos.y > self.end_y + r || pos.y
            < self.start_y - r
    }

    /// Wraps the position of a body around the play field.
    pub fn wrap(&self, pos: &Vector, radius: &Bounding) -> (r: Vector)
        requires
            self.wf(),
            0 <= radius.0 <= REACH,
        ensures
            r == self.wrapped(*pos, *radius),
    {
        let r = radius.0;
        let x = if pos.x > self.end_x + r {
            self.start_x - r
        } else if pos.x < self.start_x - r {
            self.end_x + r
        } else {
            pos.x
        };
        let y = if pos.y > self.end_y + r {
            self.start_y - r
        } else if pos.y < self.start_y - r {
            self.end_y + r
        } else {
            pos.y
        };
        Vector { x, y }
    }
}

/// One coordinate of a wrapping body on an axis from `start` to `end`.
pub open spec fn wrapped_coordinate(v: i64, start: i64, end: i64, radius: i64) -> i64 {
    if v > end + radius {
        (start - radius) as i64
    } else if v < start - radius {
        (end + radius) as i64
    } else {
        v
    }
}

/// Every body has a radius from zero to `REACH`.
pub open spec fn circles_ok(bodies: Seq<Circle>) -> bool {
    forall|i: int| 0 <= i < bodies.len() ==> 0 <= (#[trigger] bodies[i]).bound.0 <= REACH
}

/// Tells for each body whether it has left the play field and is to be
/// removed.
pub fn boundary_removal_system(bodies: &Vec<Circle>, frame: &Frame) -> (gone: Vec<bool>)
    requires
        frame.wf(),
        circles_ok(bodies@),
    ensures
        gone.len() == bodies.len(),
        forall|i: int|
            0 <= i < bodies.len() ==> #[trigger] gone[i] == frame.left_by(
                bodies[i].pos,
                bodies[i].bound,
            ),
{
    let mut gone: Vec<bool> = Vec::new();
    let mut i: usize = 0;
    while i < bodies.len()
        invariant
            0 <= i <= bodies.len(),
            frame.wf(),
            circles_ok(bodies@),
            gone.len() == i,
            forall|k: int|
                0 <= k < i ==> #[trigger] gone[k] == frame.left_by(bodies[k].pos, bodies[k].bound),
        decreases bodies.len() - i,
    {
        assert(0 <= bodies[i as int].bound.0 <= REACH);
        let left = frame.has_left(&bodies[i].pos, &bodies[i].bound);
        gone.push(left);
        i = i + 1;
    }
    gone
}

/// Wraps every body around the play field.
pub fn boundary_wrapping_system(bodies: &mut Vec<Circle>, frame: &Frame)
    requires
        frame.wf(),
        circles_ok(old(bodies)@),
    ensures
        final(bodies).len() == old(bodies).len(),
        forall|i: int|
            0 <= i < old(bodies).len() ==> #[trigger] final(bodies)[i] == (Circle {
                pos: frame.wrapped(old(bodies)[i].pos, old(bodies)[i].bound),
                bound: old(bodies)[i].bound,
            }),
{
    let ghost before = bodies@;
    let mut i: usize = 0;
    while i < bodies.len()
        invariant
            0 <= i <= bodies.len(),
            bodies.len() == before.len(),
            frame.wf(),
            circles_ok(before),
            forall|k: int| i <= k < before.len() ==> #[trigger] bodies[k] == before[k],
            forall|k: int|
                0 <= k < i ==> #[trigger] bodies[k] == (Circle {
                    pos: frame.wrapped(before[k].pos, before[k].bound),
                    bound: before[k].bound,
                }),
        decreases bodies.len() - i,
    {
        let body = bodies[i];
        assert(body == before[i as int]);
        assert(0 <= before[i as int].bound.0 <= REACH);
        let pos = frame.wrap(&body.pos, &body.bound);
        bodies.set(i, Circle { pos, bound: body.bound });
        i = i + 1;
    }
}

/// Wrapping twice is wrapping once: a body that has just been wrapped is
/// not wrapped again.
pub proof fn lemma_wrap_idempotent(frame: Frame, pos: Vector, radius: Bounding)
    requires
        frame.wf(),
        0 <= radius.0 <= REACH,
    ensures
        frame.wrapped(frame.wrapped(pos, radius), radius) == frame.wrapped(pos, radius),
        !frame.left_by(frame.wrapped(pos, radius), radius),
{
}

/// A body beyond an edge by more than its radius lands exactly on the
/// opposite edge, its radius outside it. A body that is beyond an edge by
/// exactly its radius has not left, and stays where it is.
pub proof fn lemma_wrap_lands_on_opposite_edge(frame: Frame, pos: Vector, radius: Bounding)
    requires
        frame.wf(),
        0 <= radius.0 <= REACH,
    ensures
        pos.x > frame.end_x + radius.0 ==> frame.wrapped(pos, radius).x == frame.start_x
            - radius.0,
        pos.x < frame.start_x - radius.0 ==> frame.wrapped(pos, radius).x == frame.end_x
            + radius.0,
        pos.y > frame.end_y + radius.0 ==> frame.wrapped(pos, radius).y == frame.start_y
            - radius.0,
        pos.y < frame.start_y - radius.0 ==> frame.wrapped(pos, radius).y == frame.end_y
            + radius.0,
        pos.x == frame.end_x + radius.0 || pos.x == frame.start_x - radius.0 ==> frame.wrapped(
            pos,
            radius,
        ).x == pos.x,
        pos.y == frame.end_y + radius.0 || pos.y == frame.start_y - radius.0 ==> frame.wrapped(
            pos,
            radius,
        ).y == pos.y,
{
}

} // verus!
