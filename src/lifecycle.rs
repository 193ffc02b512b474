//! What follows a change of a block's damage: a cosmetic tilt while the
//! block holds, its score and its removal once it is exhausted.
use vstd::prelude::*;
use rand::Rng;
use crate::world::{Body, MatchState, Score, World, FULL_TURN};

verus! {

/// Smallest and largest tilt a damaged block takes, in thousandths of a
/// degree.
pub const TILT_MIN: i64 = 2_000;
pub const TILT_MAX: i64 = 5_000;

/// The body counts damage, health and score: it is a block.
pub open spec fn is_block(b: Body) -> bool {
    b.damage is Some && b.health is Some && b.score is Some
}

/// A block that has taken damage and still holds.
pub open spec fn wobbles(b: Body) -> bool {
    is_block(b) && 0 < b.damage.unwrap().0 < b.health.unwrap().0
}

/// A block whose damage has reached its health.
pub open spec fn exhausted(b: Body) -> bool {
    is_block(b) && b.damage.unwrap().0 > 0 && b.damage.unwrap().0 >= b.health.unwrap().0
}

/// An angle brought back into one turn after a small rotation.
pub open spec fn wrap_turn(a: int) -> int {
    if a < 0 {
        a + FULL_TURN
    } else if a >= FULL_TURN {
        a - FULL_TURN
    } else {
        a
    }
}

pub open spec fn tilted(b: Body, delta: int) -> Body {
    Body { tilt: wrap_turn(b.tilt + delta) as i64, ..b }
}

pub open spec fn saturating_sum(a: usize, b: usize) -> usize {
    if a + b <= usize::MAX { (a + b) as usize } else { usize::MAX }
}

/// The world `after` is `before` once the body at `changed` is handled with
/// a tilt of `delta`: a block that holds is tilted; an exhausted one is
/// removed and its score added to the match; otherwise nothing changes.
pub open spec fn damage_handled(before: World, after: World, changed: Option<usize>, delta: int) -> bool {
    &&& after.ball == before.ball
    &&& match changed {
        Some(i) if i < before.bodies@.len() && wobbles(before.bodies@[i as int]) => {
            &&& after.bodies@ == before.bodies@.update(i as int, tilted(before.bodies@[i as int], delta))
            &&& after.state == before.state
        },
        Some(i) if i < before.bodies@.len() && exhausted(before.bodies@[i as int]) => {
            &&& after.bodies@ == before.bodies@.remove(i as int)
            &&& after.state.health == before.state.health
            &&& after.state.score.0 == saturating_sum(before.state.score.0, before.bodies@[i as int].score.unwrap().0)
        },
        _ => {
            &&& after.bodies@ == before.bodies@
            &&& after.state == before.state
        },
    }
}

/// Handles the body at `changed`, whose damage changed this frame, with a
/// tilt of `delta` thousandths of a degree: a block that holds is rotated
/// by it; an exhausted block adds its score to the match and is removed.
/// Nothing else changes.
pub fn apply_damage(world: &mut World, changed: Option<usize>, delta: i64)
    requires
        old(world).wf(),
        -TILT_MAX <= delta <= TILT_MAX,
    ensures
        final(world).wf(),
        damage_handled(*old(world), *final(world), changed, delta as int),
{
    let i = match changed {
        Some(i) => i,
        None => { return; },
    };
    if i >= world.bodies.len() {
        return;
    }
    let b = world.bodies[i];
    let (d, h, s) = match (b.damage, b.health, b.score) {
        (Some(d), Some(h), Some(s)) => (d.0, h.0, s.0),
        _ => { return; },
    };
    if d == 0 {
        return;
    }
    if h > d {
        assert(world.bodies@[i as int].wf());
        let a = b.tilt + delta;
        let t = if a < 0 {
            a + FULL_TURN
        } else if a >= FULL_TURN {
            a - FULL_TURN
        } else {
            a
        };
        let nb = Body { tilt: t, ..b };
        world.bodies.set(i, nb);
        proof {
            assert forall|j: int| 0 <= j < world.bodies@.len() implies (#[trigger] world.bodies@[j]).wf() by {
                if j != i {
                    assert(old(world).bodies@[j].wf());
                }
            }
        }
        return;
    }
    let total = if world.state.score.0 <= usize::MAX - s {
        world.state.score.0 + s
    } else {
        usize::MAX
    };
    world.state = MatchState { score: Score(total), health: world.state.health };
    world.bodies.remove(i);
    proof {
        assert forall|j: int| 0 <= j < world.bodies@.len() implies (#[trigger] world.bodies@[j]).wf() by {
            if j < i {
                assert(old(world).bodies@[j].wf());
            } else {
                assert(old(world).bodies@[j + 1].wf());
            }
        }
    }
}

/// Relies on `rand::Rng::gen_range` on an inclusive range of `i64`, drawn
/// from the thread-local generator: the draw lies in the range.
#[verifier::external_body]
fn random_in(lo: i64, hi: i64) -> (r: i64)
    requires
        lo <= hi,
    ensures
        lo <= r <= hi,
{
    rand::thread_rng().gen_range(lo..=hi)
}

/// Relies on `rand::random::<bool>`: a coin toss, of which nothing is
/// promised.
#[verifier::external_body]
fn coin() -> bool {
    rand::random::<bool>()
}

/// Handles the body at `changed` as `apply_damage` does, with a tilt drawn
/// at random: between `TILT_MIN` and `TILT_MAX`, of either sign.
pub fn handle_damage(world: &mut World, changed: Option<usize>)
    requires
        old(world).wf(),
    ensures
        final(world).wf(),
        exists|delta: int|
            (TILT_MIN <= delta <= TILT_MAX || -TILT_MAX <= delta <= -TILT_MIN)
                && #[trigger] damage_handled(*old(world), *final(world), changed, delta),
{
    let magnitude = random_in(TILT_MIN, TILT_MAX);
    let delta = if coin() { -magnitude } else { magnitude };
    apply_damage(world, changed, delta);
}

} // verus!
