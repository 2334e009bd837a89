use vstd::prelude::*;

verus! {

/// A point or a displacement in the plane, in fixed-point units.
#[derive(Clone, Copy, Debug, PartialEq, Eq, Structural)]
pub struct Vec2 {
    pub x: i64,
    pub y: i64,
}

/// The turtle's exact state at one instant: one keyframe of a timeline.
#[derive(Clone, Copy, Debug, PartialEq, Eq, Structural)]
pub struct TurtleState {
    /// In ticks.
    pub time: u64,
    /// In fixed-point units.
    pub pos: Vec2,
    /// Heading in degrees, accumulated without wrapping.
    pub rot: i64,
    pub is_drawing: bool,
}

/// The mathematical value of a keyframe.
pub struct Pose {
    pub time: int,
    pub x: int,
    pub y: int,
    pub rot: int,
    pub pen: bool,
}

impl Vec2 {
    pub fn new(x: i64, y: i64) -> (r: Vec2)
        ensures
            r.x == x,
            r.y == y,
    {
        Vec2 { x, y }
    }

    pub fn zero() -> (r: Vec2)
        ensures
            r.x == 0,
            r.y == 0,
    {
        Vec2 { x: 0, y: 0 }
    }
}

impl TurtleState {
    pub open spec fn view(self) -> Pose {
        Pose {
            time: self.time as int,
            x: self.pos.x as int,
            y: self.pos.y as int,
            rot: self.rot as int,
            pen: self.is_drawing,
        }
    }

    /// The pose every timeline starts from: at the origin, facing heading 0,
    /// pen down, at time 0.
    pub fn initial() -> (r: TurtleState)
        ensures
            r@ == initial_pose(),
    {
        TurtleState { time: 0, pos: Vec2::zero(), rot: 0, is_drawing: true }
    }
}

pub open spec fn initial_pose() -> Pose {
    Pose { time: 0, x: 0, y: 0, rot: 0, pen: true }
}

/// Whether a pose can be held by a `TurtleState`.
pub open spec fn fits(p: Pose) -> bool {
    &&& 0 <= p.time <= u64::MAX
    &&& i64::MIN <= p.x <= i64::MAX
    &&& i64::MIN <= p.y <= i64::MAX
    &&& i64::MIN <= p.rot <= i64::MAX
}

} // verus!
