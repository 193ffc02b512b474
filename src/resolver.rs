//! One frame of collision handling for the ball: the first static collider
//! that its intended end box overlaps decides the bounce; without one, the
//! playfield's walls, ceiling and floor do.
use vstd::prelude::*;
use crate::geometry::{
    aabb, div_floor, lerp, lerp_spec, overlaps, shifted, sweep, swept_aabb, time_bounded, Time,
    Vec2, GEO_LIMIT, SCALE,
};
use crate::world::{
    box_max, box_min, box_of, clamp, clamp_spec, travel, Ball, Body, Damage, Health, MatchState,
    Score, Speed, Velocity, World, BASE_SPEED, DIR_LIMIT, HALF_HEIGHT, HALF_WIDTH, HUD_HEIGHT,
    MAX_FRAME_US, MAX_SPEED, POS_LIMIT, SPEED_STEP, START_HEALTH,
};

verus! {

/// Largest outgoing sideways heading after a paddle hit, in thousandths.
pub const DEFLECT: i64 = 750;

/// The ball's displacement over a frame of `dt` microseconds.
pub open spec fn frame_travel(ball: Ball, dt: int) -> Vec2 {
    Vec2 {
        x: travel(ball.velocity.0.x as int, ball.speed.0 as int, dt) as i64,
        y: travel(ball.velocity.0.y as int, ball.speed.0 as int, dt) as i64,
    }
}

/// Where the ball would be at the end of the frame.
pub open spec fn end_position(ball: Ball, dt: int) -> Vec2 {
    shifted(ball.position, frame_travel(ball, dt))
}

pub open spec fn end_min(ball: Ball, dt: int) -> Vec2 {
    box_min(end_position(ball, dt), ball.collider.0)
}

pub open spec fn end_max(ball: Ball, dt: int) -> Vec2 {
    box_max(end_position(ball, dt), ball.collider.0)
}

/// The ball's end box overlaps the body's box.
pub open spec fn hits(ball: Ball, dt: int, b: Body) -> bool {
    overlaps(
        end_min(ball, dt),
        end_max(ball, dt),
        box_min(b.position, b.collider.0),
        box_max(b.position, b.collider.0),
    )
}

/// How far the ball is pulled back, in steps, for an entry time: entry
/// times under one frame in size are noise and pull nothing, and so does a
/// ball that does not move at all.
pub open spec fn pullback(t: Time) -> int {
    match t {
        Time::At(f) => if -f.den < f.num < f.den {
            0
        } else {
            f.num * SCALE / (f.den as int)
        },
        _ => 0,
    }
}

/// Sideways heading after a paddle hit whose contact point `centre` lies
/// across the paddle from its left edge `lo` over its `width`: from
/// `-DEFLECT` at the left edge to `DEFLECT` at the right edge.
pub open spec fn deflection(centre: int, lo: int, width: int) -> int {
    clamp_spec(lerp_spec(-DEFLECT as int, DEFLECT as int, (centre - lo) * SCALE / width), -DIR_LIMIT as int, DIR_LIMIT as int)
}

pub open spec fn damaged(b: Body) -> Body {
    Body {
        damage: match b.damage {
            Some(d) => Some(Damage(if d.0 < usize::MAX { (d.0 + 1) as usize } else { d.0 })),
            None => None,
        },
        ..b
    }
}

/// The ball after bouncing off body `b`.
pub open spec fn bounce(ball: Ball, dt: int, b: Body) -> Ball {
    let pos = ball.position;
    let v = ball.velocity.0;
    let size = ball.collider.0;
    let b_min = box_min(b.position, b.collider.0);
    let (axis, t) = sweep(
        box_min(pos, size),
        box_max(pos, size),
        b_min,
        box_max(b.position, b.collider.0),
        frame_travel(ball, dt),
    );
    let pull = pullback(t);
    if axis == 1 {
        Ball {
            position: Vec2 { x: clamp_spec(pos.x - pull, -POS_LIMIT as int, POS_LIMIT as int) as i64, y: pos.y },
            velocity: Velocity(Vec2 { x: -v.x as i64, y: v.y }),
            ..ball
        }
    } else {
        let centre = end_min(ball, dt).x + size.x / 2;
        let vx = if b.paddle is Some {
            deflection(centre, b_min.x as int, b.collider.0.x as int) as i64
        } else {
            v.x
        };
        let speed = if b.paddle is Some {
            if ball.speed.0 + SPEED_STEP <= MAX_SPEED { (ball.speed.0 + SPEED_STEP) as i64 } else { MAX_SPEED }
        } else {
            ball.speed.0
        };
        Ball {
            position: Vec2 { x: pos.x, y: clamp_spec(pos.y - pull, -POS_LIMIT as int, POS_LIMIT as int) as i64 },
            velocity: Velocity(Vec2 { x: vx, y: -v.y as i64 }),
            speed: Speed(speed),
            ..ball
        }
    }
}

/// The end box crosses the left or right wall.
pub open spec fn at_wall(ball: Ball, dt: int) -> bool {
    end_min(ball, dt).x <= -HALF_WIDTH || end_max(ball, dt).x >= HALF_WIDTH
}

/// The end box reaches the ceiling, below the score band.
pub open spec fn at_ceiling(ball: Ball, dt: int) -> bool {
    end_max(ball, dt).y >= HALF_HEIGHT - HUD_HEIGHT
}

/// The end box reaches the floor.
pub open spec fn at_floor(ball: Ball, dt: int) -> bool {
    end_min(ball, dt).y <= -HALF_HEIGHT
}

/// The ball after the wall, ceiling and floor tests, in that order.
pub open spec fn boundary_ball(ball: Ball, dt: int) -> Ball {
    let size = ball.collider.0;
    let b1 = if at_wall(ball, dt) {
        Ball {
            position: Vec2 {
                x: clamp_spec(ball.position.x as int, -HALF_WIDTH + size.x / 2, HALF_WIDTH - size.x / 2) as i64,
                y: ball.position.y,
            },
            velocity: Velocity(Vec2 { x: -ball.velocity.0.x as i64, y: ball.velocity.0.y }),
            ..ball
        }
    } else {
        ball
    };
    let b2 = if at_ceiling(ball, dt) {
        Ball {
            position: Vec2 { x: b1.position.x, y: (HALF_HEIGHT - HUD_HEIGHT - size.y / 2) as i64 },
            velocity: Velocity(Vec2 { x: b1.velocity.0.x, y: -b1.velocity.0.y as i64 }),
            ..b1
        }
    } else {
        b1
    };
    if at_floor(ball, dt) {
        Ball {
            position: Vec2 { x: b2.position.x, y: (-HALF_HEIGHT + size.y / 2) as i64 },
            velocity: Velocity(Vec2 { x: b2.velocity.0.x, y: -b2.velocity.0.y as i64 }),
            speed: Speed(BASE_SPEED),
            ..b2
        }
    } else {
        b2
    }
}

/// The match counters after a frame without a collider hit: a floor
/// contact costs a life, or restarts the match when none is left.
pub open spec fn boundary_state(ball: Ball, dt: int, state: MatchState) -> MatchState {
    if at_floor(ball, dt) {
        if state.health.0 == 0 {
            MatchState { score: Score(0), health: Health(START_HEALTH) }
        } else {
            MatchState { score: state.score, health: Health((state.health.0 - 1) as usize) }
        }
    } else {
        state
    }
}

/// Index `i` is the first body in scan order that the ball hits.
pub open spec fn first_hit(ball: Ball, dt: int, bodies: Seq<Body>, i: int) -> bool {
    &&& 0 <= i < bodies.len()
    &&& hits(ball, dt, bodies[i])
    &&& forall|j: int| 0 <= j < i ==> !hits(ball, dt, #[trigger] bodies[j])
}

proof fn lemma_travel_bounded(v: int, speed: int, dt: int)
    requires
        -DIR_LIMIT <= v <= DIR_LIMIT,
        0 <= speed <= MAX_SPEED,
        0 <= dt <= MAX_FRAME_US,
    ensures
        -34_359_738_368 <= travel(v, speed, dt) <= 34_359_738_368,
        -0x8000_0000_0000_0000_0000 <= v * speed * dt <= 0x8000_0000_0000_0000_0000,
{
    assert(0 <= speed * dt <= MAX_SPEED * MAX_FRAME_US) by (nonlinear_arith)
        requires
            0 <= speed <= MAX_SPEED,
            0 <= dt <= MAX_FRAME_US,
    ;
    crate::geometry::lemma_mul_bound(v, speed * dt, DIR_LIMIT as int, MAX_SPEED * MAX_FRAME_US);
    assert(v * (speed * dt) == v * speed * dt) by (nonlinear_arith);
    vstd::arithmetic::div_mod::lemma_div_is_ordered(v * speed * dt, 0x1_0000_0000_0000_0000, 1_000_000_000);
    vstd::arithmetic::div_mod::lemma_div_is_ordered(-0x1_0000_0000_0000_0000, v * speed * dt, 1_000_000_000);
}

fn travel_of(v: i64, speed: i64, dt: i64) -> (r: i64)
    requires
        -DIR_LIMIT <= v <= DIR_LIMIT,
        0 <= speed <= MAX_SPEED,
        0 <= dt <= MAX_FRAME_US,
    ensures
        r == travel(v as int, speed as int, dt as int),
        -34_359_738_368 <= r <= 34_359_738_368,
{
    proof {
        lemma_travel_bounded(v as int, speed as int, dt as int);
        assert(0 <= speed * dt <= MAX_SPEED * MAX_FRAME_US) by (nonlinear_arith)
            requires
                0 <= speed <= MAX_SPEED,
                0 <= dt <= MAX_FRAME_US,
        ;
        assert((v as int) * (speed as int) * (dt as int) == (v as int) * ((speed as int) * (dt as int))) by (nonlinear_arith);
    }
    let p: i128 = (v as i128) * ((speed as i128) * (dt as i128));
    div_floor(p, 1_000_000_000) as i64
}

fn pullback_of(t: Time) -> (r: i64)
    requires
        time_bounded(t),
    ensures
        r == pullback(t),
        -2 * GEO_LIMIT * SCALE <= r <= 2 * GEO_LIMIT * SCALE,
{
    match t {
        Time::At(f) => {
            if -f.den < f.num && f.num < f.den {
                0
            } else {
                let r = div_floor((f.num * SCALE) as i128, f.den as i128);
                proof {
                    let n = f.num * SCALE;
                    crate::geometry::lemma_div_bound(n as int, f.den as int, 2 * GEO_LIMIT * SCALE);
                }
                r as i64
            }
        },
        _ => 0,
    }
}

fn deflect(centre: i64, lo: i64, width: i64) -> (r: i64)
    requires
        -0x80_0000_0000 <= centre <= 0x80_0000_0000,
        -0x80_0000_0000 <= lo <= 0x80_0000_0000,
        0 < width <= crate::world::SIZE_LIMIT,
    ensures
        r == deflection(centre as int, lo as int, width as int),
        -DIR_LIMIT <= r <= DIR_LIMIT,
{
    let n: i64 = (centre - lo) * SCALE;
    let impact = div_floor(n as i128, width as i128);
    proof {
        crate::geometry::lemma_div_bound(n as int, width as int, 0x4_0000_0000_0000);
    }
    let impact = impact as i64;
    proof {
        crate::geometry::lemma_mul_bound(2 * DEFLECT as int, impact as int, 2 * DEFLECT as int, 0x4_0000_0000_0000);
    }
    let v = lerp(-DEFLECT, DEFLECT, impact);
    clamp(v, -DIR_LIMIT, DIR_LIMIT)
}

/// The ball's displacement over the frame.
fn travel_vec(ball: &Ball, dt: i64) -> (r: Vec2)
    requires
        ball.wf(),
        0 <= dt <= MAX_FRAME_US,
    ensures
        r == frame_travel(*ball, dt as int),
        -34_359_738_368 <= r.x <= 34_359_738_368,
        -34_359_738_368 <= r.y <= 34_359_738_368,
{
    Vec2 {
        x: travel_of(ball.velocity.0.x, ball.speed.0, dt),
        y: travel_of(ball.velocity.0.y, ball.speed.0, dt),
    }
}

fn bounce_off(ball: &Ball, dt: i64, b: &Body) -> (r: Ball)
    requires
        ball.wf(),
        b.wf(),
        0 <= dt <= MAX_FRAME_US,
    ensures
        r == bounce(*ball, dt as int, *b),
        r.wf(),
{
    let pos = ball.position;
    let v = ball.velocity.0;
    let size = ball.collider.0;
    let d = travel_vec(ball, dt);
    let (s_lo, s_hi) = box_of(pos, size);
    let (e_lo, _e_hi) = box_of(Vec2 { x: pos.x + d.x, y: pos.y + d.y }, size);
    let (b_lo, b_hi) = box_of(b.position, b.collider.0);
    let (axis, t) = swept_aabb(s_lo, s_hi, b_lo, b_hi, d);
    let pull = pullback_of(t);
    if axis == 1 {
        Ball {
            position: Vec2 { x: clamp(pos.x - pull, -POS_LIMIT, POS_LIMIT), y: pos.y },
            velocity: Velocity(Vec2 { x: -v.x, y: v.y }),
            ..*ball
        }
    } else {
        let centre = e_lo.x + size.x / 2;
        let mut vx = v.x;
        let mut speed = ball.speed.0;
        if b.paddle.is_some() {
            vx = deflect(centre, b_lo.x, b.collider.0.x);
            speed = if speed + SPEED_STEP <= MAX_SPEED { speed + SPEED_STEP } else { MAX_SPEED };
        }
        Ball {
            position: Vec2 { x: pos.x, y: clamp(pos.y - pull, -POS_LIMIT, POS_LIMIT) },
            velocity: Velocity(Vec2 { x: vx, y: -v.y }),
            speed: Speed(speed),
            ..*ball
        }
    }
}

fn meet_boundary(ball: &Ball, dt: i64, state: &MatchState) -> (r: (Ball, MatchState))
    requires
        ball.wf(),
        0 <= dt <= MAX_FRAME_US,
    ensures
        r == (boundary_ball(*ball, dt as int), boundary_state(*ball, dt as int, *state)),
        r.0.wf(),
{
    let size = ball.collider.0;
    let d = travel_vec(ball, dt);
    let (lo, hi) = box_of(Vec2 { x: ball.position.x + d.x, y: ball.position.y + d.y }, size);
    let mut out = *ball;
    let mut st = *state;
    if lo.x <= -HALF_WIDTH || hi.x >= HALF_WIDTH {
        out.velocity.0.x = -out.velocity.0.x;
        out.position.x = clamp(out.position.x, -HALF_WIDTH + size.x / 2, HALF_WIDTH - size.x / 2);
    }
    if hi.y >= HALF_HEIGHT - HUD_HEIGHT {
        out.velocity.0.y = -out.velocity.0.y;
        out.position.y = HALF_HEIGHT - HUD_HEIGHT - size.y / 2;
    }
    if lo.y <= -HALF_HEIGHT {
        out.velocity.0.y = -out.velocity.0.y;
        out.position.y = -HALF_HEIGHT + size.y / 2;
        out.speed = Speed(BASE_SPEED);
        if st.health.0 == 0 {
            st.score = Score(0);
            st.health = Health(START_HEALTH);
        } else {
            st.health = Health(st.health.0 - 1);
        }
    }
    (out, st)
}

/// `after` is `before` once the frame's contacts are resolved, `r` naming
/// the body that was hit, if any.
pub open spec fn resolved(before: World, after: World, dt: int, r: Option<usize>) -> bool {
    match r {
        Some(i) => {
            &&& first_hit(before.ball, dt, before.bodies@, i as int)
            &&& after.bodies@ == before.bodies@.update(i as int, damaged(before.bodies@[i as int]))
            &&& after.ball == bounce(before.ball, dt, before.bodies@[i as int])
            &&& after.state == before.state
        },
        None => {
            &&& forall|j: int| 0 <= j < before.bodies@.len() ==> !hits(before.ball, dt, #[trigger] before.bodies@[j])
            &&& after.bodies@ == before.bodies@
            &&& after.ball == boundary_ball(before.ball, dt)
            &&& after.state == boundary_state(before.ball, dt, before.state)
        },
    }
}

/// Resolves the ball's contacts for a frame of `dt` microseconds. The
/// first body in scan order that the ball's intended end box overlaps takes
/// a damage point (where it counts damage) and bounces the ball, and its
/// index is returned; with no such body the walls, ceiling and floor act,
/// and `None` is returned.
pub fn resolve_collisions(world: &mut World, dt: i64) -> (r: Option<usize>)
    requires
        old(world).wf(),
        0 <= dt <= MAX_FRAME_US,
    ensures
        final(world).wf(),
        resolved(*old(world), *final(world), dt as int, r),
{
    let ball = world.ball;
    let d = travel_vec(&ball, dt);
    let (e_lo, e_hi) = box_of(Vec2 { x: ball.position.x + d.x, y: ball.position.y + d.y }, ball.collider.0);
    let n = world.bodies.len();
    let mut i: usize = 0;
    while i < n
        invariant
            *world == *old(world),
            world.wf(),
            ball == world.ball,
            n == world.bodies@.len(),
            0 <= dt <= MAX_FRAME_US,
            e_lo == end_min(ball, dt as int),
            e_hi == end_max(ball, dt as int),
            i <= n,
            forall|j: int| 0 <= j < i ==> !hits(ball, dt as int, #[trigger] world.bodies@[j]),
        decreases n - i,
    {
        let b = world.bodies[i];
        assert(world.bodies@[i as int].wf());
        let (b_lo, b_hi) = box_of(b.position, b.collider.0);
        if aabb(e_lo, e_hi, b_lo, b_hi) {
            let mut nb = b;
            if let Some(dmg) = b.damage {
                nb.damage = Some(Damage(if dmg.0 < usize::MAX { dmg.0 + 1 } else { dmg.0 }));
            }
            world.bodies.set(i, nb);
            world.ball = bounce_off(&ball, dt, &b);
            proof {
                assert forall|j: int| 0 <= j < world.bodies@.len() implies (#[trigger] world.bodies@[j]).wf() by {
                    if j != i {
                        assert(old(world).bodies@[j].wf());
                    }
                }
            }
            return Some(i);
        }
        i += 1;
    }
    let (nb, ns) = meet_boundary(&ball, dt, &world.state);
    world.ball = nb;
    world.state = ns;
    None
}

/// The axis along which the ball first touches body `b` in the frame.
pub open spec fn contact_axis(ball: Ball, dt: int, b: Body) -> usize {
    sweep(
        box_min(ball.position, ball.collider.0),
        box_max(ball.position, ball.collider.0),
        box_min(b.position, b.collider.0),
        box_max(b.position, b.collider.0),
        frame_travel(ball, dt),
    ).0
}

/// The frame's contact is with a side: a side wall when no body was hit,
/// else the side of the body hit.
pub open spec fn side_contact(w: World, dt: int, r: Option<usize>) -> bool {
    match r {
        None => at_wall(w.ball, dt),
        Some(i) => contact_axis(w.ball, dt, w.bodies@[i as int]) == 1,
    }
}

/// Away from the paddle, the sideways heading changes sign exactly when the
/// ball meets a side, and then once: a resolved frame never flips it twice.
pub proof fn lemma_side_flips_once(before: World, after: World, dt: int, r: Option<usize>)
    requires
        before.wf(),
        0 <= dt <= MAX_FRAME_US,
        resolved(before, after, dt, r),
        r matches Some(i) ==> before.bodies@[i as int].paddle is None,
    ensures
        after.ball.velocity.0.x == if side_contact(before, dt, r) {
            -before.ball.velocity.0.x
        } else {
            before.ball.velocity.0.x as int
        },
        r is None && at_wall(before.ball, dt) ==> after.ball.position.x == clamp_spec(
            before.ball.position.x as int,
            -HALF_WIDTH + before.ball.collider.0.x / 2,
            HALF_WIDTH - before.ball.collider.0.x / 2,
        ),
{
}

/// A paddle hit at the paddle's left edge sends the ball out at
/// `-DEFLECT`, one at its right edge at `DEFLECT`, and one at its centre
/// (for an even width) straight up.
pub proof fn lemma_paddle_deflection(lo: int, width: int)
    requires
        0 < width,
    ensures
        deflection(lo, lo, width) == -DEFLECT,
        deflection(lo + width, lo, width) == DEFLECT,
        width % 2 == 0 ==> deflection(lo + width / 2, lo, width) == 0,
{
    vstd::arithmetic::div_mod::lemma_div_multiples_vanish(1000, width);
    assert((lo + width - lo) * SCALE == width * 1000);
    if width % 2 == 0 {
        vstd::arithmetic::div_mod::lemma_div_multiples_vanish(500, width);
        assert((lo + width / 2 - lo) * SCALE == width * 500);
    }
}

/// A floor contact with lives left costs exactly one life, resets the speed
/// to its base value, keeps the score and sets the ball on the floor line;
/// without a ceiling contact in the same frame (only a ball taller than the
/// playfield has both) the vertical heading is inverted.
pub proof fn lemma_floor_costs_a_life(ball: Ball, dt: int, state: MatchState)
    requires
        ball.wf(),
        0 <= dt <= MAX_FRAME_US,
        at_floor(ball, dt),
        state.health.0 > 0,
    ensures
        boundary_state(ball, dt, state).health.0 == state.health.0 - 1,
        boundary_state(ball, dt, state).score == state.score,
        boundary_ball(ball, dt).speed.0 == BASE_SPEED,
        !at_ceiling(ball, dt) ==> boundary_ball(ball, dt).velocity.0.y == -ball.velocity.0.y,
        boundary_ball(ball, dt).position.y == -HALF_HEIGHT + ball.collider.0.y / 2,
{
}

/// A floor contact with no life left restarts the match: the score goes
/// back to zero and the lives to their starting number.
pub proof fn lemma_floor_restarts_match(ball: Ball, dt: int, state: MatchState)
    requires
        ball.wf(),
        0 <= dt <= MAX_FRAME_US,
        at_floor(ball, dt),
        state.health.0 == 0,
    ensures
        boundary_state(ball, dt, state).score.0 == 0,
        boundary_state(ball, dt, state).health.0 == START_HEALTH,
        boundary_ball(ball, dt).speed.0 == BASE_SPEED,
{
}

} // verus!
