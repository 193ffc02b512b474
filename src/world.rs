//! The entity store: the ball, the static colliders (blocks and the
//! paddle) and the match counters, with the bounds that keep every frame's
//! arithmetic exact.
use vstd::prelude::*;
use crate::geometry::{Vec2, SCALE};

verus! {

/// Half the playfield's width, in steps.
pub const HALF_WIDTH: i64 = 269_000;

/// Half the playfield's height, in steps.
pub const HALF_HEIGHT: i64 = 360_000;

/// Height of the score band at the top of the playfield.
pub const HUD_HEIGHT: i64 = 50_000;

/// The ball's speed at the start of a life, in steps per second.
pub const BASE_SPEED: i64 = 200_000;

/// Speed gained by the ball on each paddle hit.
pub const SPEED_STEP: i64 = 10_000;

/// Lives at the start of a match.
pub const START_HEALTH: usize = 3;

/// Bound on positions (2^32 steps); motion saturates at it.
pub const POS_LIMIT: i64 = 4_294_967_296;

/// Bound on collider extents.
pub const SIZE_LIMIT: i64 = 4_294_967_296;

/// Bound on each direction component, in thousandths.
pub const DIR_LIMIT: i64 = 1_048_576;

/// Bound on the ball's speed; paddle hits saturate at it.
pub const MAX_SPEED: i64 = 16_777_216;

/// Bound on a frame's length, in microseconds.
pub const MAX_FRAME_US: i64 = 1_048_576;

/// A full turn, in thousandths of a degree.
pub const FULL_TURN: i64 = 360_000;

/// Extent of an axis-aligned box centred on the entity, in steps.
#[derive(Clone, Copy, Debug)]
pub struct Collider(pub Vec2);

/// Heading, in thousandths per axis; its magnitude need not be one.
#[derive(Clone, Copy, Debug)]
pub struct Velocity(pub Vec2);

/// Travel rate, in steps per second.
#[derive(Clone, Copy, Debug)]
pub struct Speed(pub i64);

/// Marks the player's collider.
#[derive(Clone, Copy, Debug)]
pub struct Paddle;

/// Points: awarded by a block on its removal, or summed for the match.
#[derive(Clone, Copy, Debug)]
pub struct Score(pub usize);

/// Hits a block takes before it goes, or the lives left in the match.
#[derive(Clone, Copy, Debug)]
pub struct Health(pub usize);

/// Hits a block has taken.
#[derive(Clone, Copy, Debug)]
pub struct Damage(pub usize);

/// The single moving ball.
#[derive(Clone, Copy, Debug)]
pub struct Ball {
    pub position: Vec2,
    pub collider: Collider,
    pub velocity: Velocity,
    pub speed: Speed,
}

/// A static collider: a block (with health, damage and score) or the
/// paddle. `tilt` is a cosmetic rotation in thousandths of a degree that
/// the collision test ignores.
#[derive(Clone, Copy, Debug)]
pub struct Body {
    pub position: Vec2,
    pub collider: Collider,
    pub damage: Option<Damage>,
    pub health: Option<Health>,
    pub score: Option<Score>,
    pub paddle: Option<Paddle>,
    pub tilt: i64,
}

/// The match counters: points so far and lives left.
#[derive(Clone, Copy, Debug)]
pub struct MatchState {
    pub score: Score,
    pub health: Health,
}

pub struct World {
    pub ball: Ball,
    pub bodies: Vec<Body>,
    pub state: MatchState,
}

pub open spec fn pos_ok(p: Vec2) -> bool {
    -POS_LIMIT <= p.x <= POS_LIMIT && -POS_LIMIT <= p.y <= POS_LIMIT
}

pub open spec fn size_ok(s: Vec2) -> bool {
    0 < s.x <= SIZE_LIMIT && 0 < s.y <= SIZE_LIMIT
}

impl Ball {
    /// Bounds of a ball; it is narrower than the playfield.
    pub open spec fn wf(&self) -> bool {
        &&& pos_ok(self.position)
        &&& size_ok(self.collider.0)
        &&& self.collider.0.x <= 2 * HALF_WIDTH
        &&& -DIR_LIMIT <= self.velocity.0.x <= DIR_LIMIT
        &&& -DIR_LIMIT <= self.velocity.0.y <= DIR_LIMIT
        &&& 0 <= self.speed.0 <= MAX_SPEED
    }
}

impl Body {
    pub open spec fn wf(&self) -> bool {
        pos_ok(self.position) && size_ok(self.collider.0) && 0 <= self.tilt < FULL_TURN
    }
}

impl World {
    pub open spec fn wf(&self) -> bool {
        &&& self.ball.wf()
        &&& forall|i: int| 0 <= i < self.bodies@.len() ==> (#[trigger] self.bodies@[i]).wf()
    }
}

/// Lower corner of the box of extent `size` centred on `pos`.
pub open spec fn box_min(pos: Vec2, size: Vec2) -> Vec2 {
    Vec2 { x: (pos.x - size.x / 2) as i64, y: (pos.y - size.y / 2) as i64 }
}

/// Upper corner: the lower corner plus the extent.
pub open spec fn box_max(pos: Vec2, size: Vec2) -> Vec2 {
    Vec2 { x: (pos.x - size.x / 2 + size.x) as i64, y: (pos.y - size.y / 2 + size.y) as i64 }
}

pub open spec fn clamp_spec(x: int, lo: int, hi: int) -> int {
    if x < lo {
        lo
    } else if x > hi {
        hi
    } else {
        x
    }
}

/// Distance covered in a frame of `dt` microseconds along one axis, by a
/// heading component `v` (thousandths) at `speed` steps per second,
/// rounded down to a step.
pub open spec fn travel(v: int, speed: int, dt: int) -> int {
    v * speed * dt / (SCALE * 1_000_000)
}

pub fn clamp(x: i64, lo: i64, hi: i64) -> (r: i64)
    requires
        lo <= hi,
    ensures
        r == clamp_spec(x as int, lo as int, hi as int),
{
    if x < lo {
        lo
    } else if x > hi {
        hi
    } else {
        x
    }
}

/// The corners of the box of extent `size` centred on `pos`.
pub fn box_of(pos: Vec2, size: Vec2) -> (r: (Vec2, Vec2))
    requires
        -64 * POS_LIMIT <= pos.x <= 64 * POS_LIMIT,
        -64 * POS_LIMIT <= pos.y <= 64 * POS_LIMIT,
        size_ok(size),
    ensures
        r == (box_min(pos, size), box_max(pos, size)),
{
    let lo = Vec2 { x: pos.x - size.x / 2, y: pos.y - size.y / 2 };
    (lo, Vec2 { x: lo.x + size.x, y: lo.y + size.y })
}

} // verus!
