//! One tick of the simulation: its four stages in their fixed order.
use vstd::prelude::*;
use crate::lifecycle::{damage_handled, handle_damage, TILT_MAX, TILT_MIN};
use crate::motion::{advanced, apply_velocity, move_paddle, next_target, paddle_moved, pointer_ok};
use crate::resolver::{resolve_collisions, resolved};
use crate::world::{World, MAX_FRAME_US};

verus! {

/// Runs a frame of `dt` microseconds: the paddle follows the pointer, the
/// ball's contacts are resolved against its intended displacement, the ball
/// moves, and the body hit, if any, is handled for its damage. Returns the
/// index the hit body had.
pub fn step(world: &mut World, target: &mut Option<i64>, cursor: Option<i64>, dt: i64) -> (r: Option<usize>)
    requires
        old(world).wf(),
        0 <= dt <= MAX_FRAME_US,
        *old(target) matches Some(t) ==> pointer_ok(t),
        cursor matches Some(c) ==> pointer_ok(c),
    ensures
        final(world).wf(),
        *final(target) == Some(next_target(*old(target), cursor)),
        exists|moved: World, hit: World, travelled: World, delta: int|
            #![trigger paddle_moved(*old(world), moved, next_target(*old(target), cursor) as int, dt as int), resolved(moved, hit, dt as int, r), advanced(hit, travelled, dt as int), damage_handled(travelled, *final(world), r, delta)]
            paddle_moved(*old(world), moved, next_target(*old(target), cursor) as int, dt as int)
                && resolved(moved, hit, dt as int, r)
                && advanced(hit, travelled, dt as int)
                && (TILT_MIN <= delta <= TILT_MAX || -TILT_MAX <= delta <= -TILT_MIN)
                && damage_handled(travelled, *final(world), r, delta),
{
    move_paddle(world, target, cursor, dt);
    let ghost moved = *world;
    let r = resolve_collisions(world, dt);
    let ghost hit = *world;
    apply_velocity(world, dt);
    let ghost travelled = *world;
    handle_damage(world, r);
    r
}

} // verus!
