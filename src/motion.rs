//! The paddle controller, which eases the paddle towards the pointer, and
//! the motion integrator, which advances the ball along its heading.
use vstd::prelude::*;
use vstd::math::abs;
use crate::geometry::{lerp, lerp_spec, lemma_mul_bound, Vec2};
use crate::world::{clamp, clamp_spec, Body, World, DIR_LIMIT, HALF_WIDTH, MAX_FRAME_US, MAX_SPEED, POS_LIMIT};

verus! {

/// Half the paddle's width plus the gap it keeps to a wall.
pub const PADDLE_MARGIN: i64 = 64_000;

/// Rate of the paddle's easing: the share of the way to its goal that it
/// covers per second.
pub const EASE_RATE: i64 = 20;

/// The pointer position to steer by, in window coordinates (zero at the
/// left edge): the pointer when it is in the window, else the one held,
/// else the playfield's right edge.
pub open spec fn next_target(target: Option<i64>, cursor: Option<i64>) -> i64 {
    match cursor {
        Some(c) => c,
        None => match target {
            Some(t) => t,
            None => (2 * HALF_WIDTH) as i64,
        },
    }
}

/// Where the paddle heads: the target in world coordinates, kept clear of
/// the walls.
pub open spec fn paddle_goal(target: int) -> int {
    clamp_spec(target - HALF_WIDTH, -HALF_WIDTH + PADDLE_MARGIN, HALF_WIDTH - PADDLE_MARGIN)
}

/// Share of the way to the goal covered in `dt` microseconds, in
/// thousandths: never more than the whole way, so the paddle does not
/// overshoot its goal on a long frame.
pub open spec fn ease(dt: int) -> int {
    if dt * EASE_RATE / 1000 <= 1000 {
        dt * EASE_RATE / 1000
    } else {
        1000
    }
}

/// The span of positions that keeps the paddle clear of the walls.
pub open spec fn in_lane(x: int) -> bool {
    -HALF_WIDTH + PADDLE_MARGIN <= x <= HALF_WIDTH - PADDLE_MARGIN
}

/// The paddle's next horizontal position.
pub open spec fn eased_x(x: int, target: int, dt: int) -> int {
    clamp_spec(lerp_spec(x, paddle_goal(target), ease(dt)), -POS_LIMIT as int, POS_LIMIT as int)
}

/// Index `i` holds the first body that carries the paddle tag.
pub open spec fn first_paddle(bodies: Seq<Body>, i: int) -> bool {
    &&& 0 <= i < bodies.len()
    &&& bodies[i].paddle is Some
    &&& forall|j: int| 0 <= j < i ==> (#[trigger] bodies[j]).paddle is None
}

pub open spec fn pointer_ok(p: i64) -> bool {
    -POS_LIMIT <= p <= POS_LIMIT
}

/// `after` is `before` with the first paddle eased towards `target` over
/// `dt` microseconds; with no paddle, nothing changes.
pub open spec fn paddle_moved(before: World, after: World, target: int, dt: int) -> bool {
    &&& after.ball == before.ball
    &&& after.state == before.state
    &&& (exists|i: int| #[trigger] first_paddle(before.bodies@, i) && {
        let b = before.bodies@[i];
        after.bodies@ == before.bodies@.update(
            i,
            Body { position: Vec2 { x: eased_x(b.position.x as int, target, dt) as i64, y: b.position.y }, ..b },
        )
    }) || ((forall|j: int| 0 <= j < before.bodies@.len() ==> (#[trigger] before.bodies@[j]).paddle is None)
        && after.bodies@ == before.bodies@)
}

/// Easing by a share `t` of at most the whole way lands between the start
/// and the goal.
proof fn lemma_ease_stays_between(x: int, g: int, t: int)
    requires
        0 <= t <= 1000,
    ensures
        x <= g ==> x <= lerp_spec(x, g, t) <= g,
        g <= x ==> g <= lerp_spec(x, g, t) <= x,
{
    if x <= g {
        assert(0 <= (g - x) * t <= (g - x) * 1000) by (nonlinear_arith)
            requires
                x <= g,
                0 <= t <= 1000,
        ;
        vstd::arithmetic::div_mod::lemma_div_is_ordered(0, (g - x) * t, 1000);
        vstd::arithmetic::div_mod::lemma_div_is_ordered((g - x) * t, (g - x) * 1000, 1000);
        vstd::arithmetic::div_mod::lemma_div_multiples_vanish(g - x, 1000);
    } else {
        assert((g - x) * 1000 <= (g - x) * t <= 0) by (nonlinear_arith)
            requires
                g < x,
                0 <= t <= 1000,
        ;
        vstd::arithmetic::div_mod::lemma_div_is_ordered((g - x) * t, 0, 1000);
        vstd::arithmetic::div_mod::lemma_div_is_ordered((g - x) * 1000, (g - x) * t, 1000);
        vstd::arithmetic::div_mod::lemma_div_multiples_vanish(g - x, 1000);
    }
}

/// A paddle inside its lane stays inside it, whatever the pointer and the
/// frame's length.
pub proof fn lemma_paddle_stays_in_lane(x: int, target: int, dt: int)
    requires
        in_lane(x),
        0 <= dt,
    ensures
        in_lane(eased_x(x, target, dt)),
{
    lemma_ease_stays_between(x, paddle_goal(target), ease(dt));
}

/// Eases the paddle for a frame of `dt` microseconds towards the pointer
/// (`cursor`, absent when it is outside the window), holding the last
/// pointer position in `target`.
pub fn move_paddle(world: &mut World, target: &mut Option<i64>, cursor: Option<i64>, dt: i64)
    requires
        old(world).wf(),
        0 <= dt <= MAX_FRAME_US,
        *old(target) matches Some(t) ==> pointer_ok(t),
        cursor matches Some(c) ==> pointer_ok(c),
    ensures
        final(world).wf(),
        *final(target) == Some(next_target(*old(target), cursor)),
        paddle_moved(*old(world), *final(world), next_target(*old(target), cursor) as int, dt as int),
        final(world).bodies@.len() == old(world).bodies@.len(),
        forall|i: int|
            0 <= i < old(world).bodies@.len() && in_lane(old(world).bodies@[i].position.x as int)
                ==> in_lane(#[trigger] final(world).bodies@[i].position.x as int),
{
    if target.is_none() {
        *target = Some(2 * HALF_WIDTH);
    }
    if let Some(c) = cursor {
        *target = Some(c);
    }
    let goal_at = match *target {
        Some(t) => t,
        None => 2 * HALF_WIDTH,
    };
    let n = world.bodies.len();
    let mut i: usize = 0;
    while i < n
        invariant
            *world == *old(world),
            world.wf(),
            0 <= dt <= MAX_FRAME_US,
            pointer_ok(goal_at),
            goal_at == next_target(*old(target), cursor),
            *target == Some(goal_at),
            n == world.bodies@.len(),
            i <= n,
            forall|j: int| 0 <= j < i ==> (#[trigger] world.bodies@[j]).paddle is None,
        decreases n - i,
    {
        if world.bodies[i].paddle.is_some() {
            let b = world.bodies[i];
            assert(world.bodies@[i as int].wf());
            let goal = clamp(goal_at - HALF_WIDTH, -HALF_WIDTH + PADDLE_MARGIN, HALF_WIDTH - PADDLE_MARGIN);
            let share = dt * EASE_RATE / 1000;
            let t = if share <= 1000 { share } else { 1000 };
            proof {
                lemma_mul_bound((goal - b.position.x) as int, t as int, 2 * POS_LIMIT as int, 32_768);
                lemma_ease_stays_between(b.position.x as int, goal as int, t as int);
            }
            let x = clamp(lerp(b.position.x, goal, t), -POS_LIMIT, POS_LIMIT);
            let nb = Body { position: Vec2 { x, y: b.position.y }, ..b };
            world.bodies.set(i, nb);
            proof {
                assert forall|j: int| 0 <= j < world.bodies@.len() implies (#[trigger] world.bodies@[j]).wf() by {
                    if j != i {
                        assert(old(world).bodies@[j].wf());
                    }
                }
                assert(first_paddle(old(world).bodies@, i as int));
                if in_lane(b.position.x as int) {
                    lemma_paddle_stays_in_lane(b.position.x as int, goal_at as int, dt as int);
                }
            }
            return;
        }
        i += 1;
    }
}

/// `r` is the square root of `n`, rounded down.
pub open spec fn is_root(r: int, n: int) -> bool {
    0 <= r && r * r <= n < (r + 1) * (r + 1)
}

/// Squared length of a heading, in millionths.
pub open spec fn heading_sq(v: Vec2) -> int {
    v.x * v.x + v.y * v.y
}

/// Length of a heading in units of 10^-9, rounded down: the heading's own
/// unit (a thousandth) refined a millionfold, so that short headings are
/// measured as finely as long ones.
pub open spec fn heading_len(v: Vec2) -> int {
    choose|r: int| #[trigger] is_root(r, heading_sq(v) * 1_000_000_000_000)
}

/// Distance covered in `dt` microseconds at `speed` along the component
/// `v` of a heading of fine length `len`: the heading is taken as a unit
/// vector, so that the speed alone sets the rate, and the result is
/// rounded towards zero. A heading of length zero moves nothing.
pub open spec fn unit_travel(v: int, len: int, speed: int, dt: int) -> int {
    if len == 0 {
        0
    } else if v >= 0 {
        v * (speed * dt) / len
    } else {
        -((-v) * (speed * dt) / len)
    }
}

proof fn lemma_root_unique(r1: int, r2: int, n: int)
    requires
        is_root(r1, n),
        is_root(r2, n),
    ensures
        r1 == r2,
{
    if r1 < r2 {
        assert((r1 + 1) * (r1 + 1) <= r2 * r2) by (nonlinear_arith)
            requires
                0 <= r1 < r2,
        ;
    } else if r2 < r1 {
        assert((r2 + 1) * (r2 + 1) <= r1 * r1) by (nonlinear_arith)
            requires
                0 <= r2 < r1,
        ;
    }
}

/// Square root rounded down, by bisection.
fn isqrt(n: u128) -> (r: u128)
    requires
        n < 0x4_0000_0000_0000_0000_0000,
    ensures
        is_root(r as int, n as int),
        r < 0x200_0000_0000,
{
    let mut lo: u128 = 0;
    let mut hi: u128 = 0x200_0000_0000;
    while lo + 1 < hi
        invariant
            lo < hi <= 0x200_0000_0000,
            lo * lo <= n,
            n < hi * hi,
        decreases hi - lo,
    {
        let mid = lo + (hi - lo) / 2;
        proof {
            lemma_mul_bound(mid as int, mid as int, 0x200_0000_0000, 0x200_0000_0000);
        }
        if mid * mid <= n {
            lo = mid;
        } else {
            hi = mid;
        }
    }
    lo
}

/// A nonzero heading has a fine length of at least a million.
proof fn lemma_len_large(n: int, len: int)
    requires
        n >= 1,
        is_root(len, n * 1_000_000_000_000),
    ensures
        len >= 1_000_000,
{
    if len < 1_000_000 {
        assert((len + 1) * (len + 1) <= 1_000_000_000_000) by (nonlinear_arith)
            requires
                0 <= len < 1_000_000,
        ;
        assert(n * 1_000_000_000_000 >= 1_000_000_000_000) by (nonlinear_arith)
            requires
                n >= 1,
        ;
    }
}

fn unit_travel_of(v: i64, len: u128, speed: i64, dt: i64) -> (r: i64)
    requires
        -DIR_LIMIT <= v <= DIR_LIMIT,
        len == 0 || len >= 1_000_000,
        0 <= speed <= MAX_SPEED,
        0 <= dt <= MAX_FRAME_US,
    ensures
        r == unit_travel(v as int, len as int, speed as int, dt as int),
        -0x8000_0000_0000 <= r <= 0x8000_0000_0000,
{
    if len == 0 {
        return 0;
    }
    let a: i64 = if v >= 0 { v } else { -v };
    proof {
        assert(0 <= speed * dt <= MAX_SPEED * MAX_FRAME_US) by (nonlinear_arith)
            requires
                0 <= speed <= MAX_SPEED,
                0 <= dt <= MAX_FRAME_US,
        ;
        lemma_mul_bound(a as int, speed * dt, DIR_LIMIT as int, MAX_SPEED * MAX_FRAME_US);
        assert(0 <= a * (speed * dt)) by (nonlinear_arith)
            requires
                0 <= a,
                0 <= speed * dt,
        ;
    }
    let p: u128 = (a as u128) * ((speed as u128) * (dt as u128));
    let q: u128 = p / len;
    proof {
        vstd::arithmetic::div_mod::lemma_div_is_ordered_by_denominator(p as int, 1_000_000, len as int);
        vstd::arithmetic::div_mod::lemma_div_is_ordered(p as int, 0x1_0000_0000_0000_0000, 1_000_000);
    }
    if v >= 0 {
        q as i64
    } else {
        -(q as i64)
    }
}

/// `after` is `before` with the ball advanced for `dt` microseconds along
/// its heading taken as a unit vector, its position saturating at the
/// world's bound.
pub open spec fn advanced(before: World, after: World, dt: int) -> bool {
    let b = before.ball;
    let len = heading_len(b.velocity.0);
    &&& after.bodies@ == before.bodies@
    &&& after.state == before.state
    &&& after.ball == crate::world::Ball {
        position: Vec2 {
            x: clamp_spec(b.position.x + unit_travel(b.velocity.0.x as int, len, b.speed.0 as int, dt), -POS_LIMIT as int, POS_LIMIT as int) as i64,
            y: clamp_spec(b.position.y + unit_travel(b.velocity.0.y as int, len, b.speed.0 as int, dt), -POS_LIMIT as int, POS_LIMIT as int) as i64,
        },
        ..b
    }
}

/// How close the travel comes to the exact one. For a nonzero heading `v`,
/// the exact travel along the component `c` of `v` is
/// `|c| * speed * dt / (10^6 * |v|)` steps. With `d` the size of the
/// computed travel, `k = speed * dt` and `n = |v|^2`, written without the
/// square root:
/// - `d` falls short of the exact travel by less than one step;
/// - `d` exceeds it by at most a millionth of itself.
/// So the rate is set by the speed alone, whatever the heading's size.
pub proof fn lemma_travel_error(v: Vec2, c: int, speed: int, dt: int)
    requires
        v.x != 0 || v.y != 0,
        c == v.x || c == v.y,
        -DIR_LIMIT <= v.x <= DIR_LIMIT,
        -DIR_LIMIT <= v.y <= DIR_LIMIT,
        0 <= speed,
        0 <= dt,
    ensures
        ({
            let d = abs(unit_travel(c, heading_len(v), speed, dt));
            let k = speed * dt;
            let n = heading_sq(v);
            &&& c * c * k * k < (d + 1) * (d + 1) * 1_000_000_000_000 * n
            &&& d * d * 1_000_000_000_000_000_000_000_000 * n <= c * c * k * k * 1_000_001 * 1_000_001
        }),
{
    let n = heading_sq(v);
    let k = speed * dt;
    let big = n * 1_000_000_000_000;
    assert(n >= 1 && c * c <= n) by (nonlinear_arith)
        requires
            v.x != 0 || v.y != 0,
            c == v.x || c == v.y,
            n == v.x * v.x + v.y * v.y,
    ;
    assert(0 <= big < 0x4_0000_0000_0000_0000_0000) by (nonlinear_arith)
        requires
            big == n * 1_000_000_000_000,
            n == v.x * v.x + v.y * v.y,
            -DIR_LIMIT <= v.x <= DIR_LIMIT,
            -DIR_LIMIT <= v.y <= DIR_LIMIT,
    ;
    let _witness = lemma_root_exists(big);
    let len = heading_len(v);
    assert(is_root(len, big));
    lemma_len_large(n, len);
    let a = abs(c);
    assert(a * a == c * c) by (nonlinear_arith)
        requires
            a == c || a == -c,
    ;
    assert(0 <= k) by (nonlinear_arith)
        requires
            0 <= speed,
            0 <= dt,
            k == speed * dt,
    ;
    assert(0 <= a * k) by (nonlinear_arith)
        requires
            0 <= a,
            0 <= k,
    ;
    let d = (a * k) / len;
    assert(abs(unit_travel(c, len, speed, dt)) == d);
    vstd::arithmetic::div_mod::lemma_fundamental_div_mod(a * k, len);
    assert(d * len <= a * k < (d + 1) * len) by (nonlinear_arith)
        requires
            a * k == len * d + (a * k) % len,
            0 <= (a * k) % len < len,
    ;
    vstd::arithmetic::div_mod::lemma_div_is_ordered(0, a * k, len);
    assert(0 <= d);
    assert(a * a * k * k == (a * k) * (a * k)) by (nonlinear_arith);
    // Short by less than a step.
    assert(a * a * k * k < (d + 1) * (d + 1) * big) by (nonlinear_arith)
        requires
            0 <= a * k < (d + 1) * len,
            len * len <= big,
            a * a * k * k == (a * k) * (a * k),
    ;
    // Over by at most a millionth.
    assert(d * d * big * 1_000_000_000_000 <= a * a * k * k * 1_000_001 * 1_000_001) by (nonlinear_arith)
        requires
            0 <= d,
            0 <= d * len <= a * k,
            big < (len + 1) * (len + 1),
            len >= 1_000_000,
            a * a * k * k == (a * k) * (a * k),
    ;
    assert(c * c * k * k < (d + 1) * (d + 1) * 1_000_000_000_000 * n
        && d * d * 1_000_000_000_000_000_000_000_000 * n <= c * c * k * k * 1_000_001 * 1_000_001) by (nonlinear_arith)
        requires
            a * a == c * c,
            big == n * 1_000_000_000_000,
            a * a * k * k < (d + 1) * (d + 1) * big,
            d * d * big * 1_000_000_000_000 <= a * a * k * k * 1_000_001 * 1_000_001,
    ;
}

/// Every natural number below the bound has a square root.
proof fn lemma_root_exists(n: int) -> (r: int)
    requires
        0 <= n < 0x4_0000_0000_0000_0000_0000,
    ensures
        is_root(r, n),
{
    lemma_root_search(n, 0, 0x200_0000_0000)
}

proof fn lemma_root_search(n: int, lo: int, hi: int) -> (r: int)
    requires
        0 <= lo < hi,
        lo * lo <= n < hi * hi,
    ensures
        is_root(r, n),
    decreases hi - lo,
{
    if lo + 1 >= hi {
        lo
    } else {
        let mid = lo + (hi - lo) / 2;
        if mid * mid <= n {
            lemma_root_search(n, mid, hi)
        } else {
            lemma_root_search(n, lo, mid)
        }
    }
}

/// Advances the ball for a frame of `dt` microseconds along its heading,
/// taken as a unit vector, at its speed; the position saturates at the
/// world's bound.
pub fn apply_velocity(world: &mut World, dt: i64)
    requires
        old(world).wf(),
        0 <= dt <= MAX_FRAME_US,
    ensures
        final(world).wf(),
        advanced(*old(world), *final(world), dt as int),
{
    let b = world.ball;
    let v = b.velocity.0;
    proof {
        lemma_mul_bound(v.x as int, v.x as int, DIR_LIMIT as int, DIR_LIMIT as int);
        lemma_mul_bound(v.y as int, v.y as int, DIR_LIMIT as int, DIR_LIMIT as int);
        assert(v.x * v.x >= 0 && v.y * v.y >= 0) by (nonlinear_arith);
    }
    let n = (v.x * v.x + v.y * v.y) as u128;
    let len = isqrt(n * 1_000_000_000_000);
    proof {
        assert(is_root(len as int, heading_sq(v) * 1_000_000_000_000));
        let r = heading_len(v);
        lemma_root_unique(r, len as int, heading_sq(v) * 1_000_000_000_000);
        if n >= 1 {
            lemma_len_large(n as int, len as int);
        } else {
            if len > 0 {
                assert(len * len >= 1) by (nonlinear_arith)
                    requires
                        len > 0,
                ;
            }
        }
    }
    let dx = unit_travel_of(v.x, len, b.speed.0, dt);
    let dy = unit_travel_of(v.y, len, b.speed.0, dt);
    world.ball.position = Vec2 {
        x: clamp(b.position.x + dx, -POS_LIMIT, POS_LIMIT),
        y: clamp(b.position.y + dy, -POS_LIMIT, POS_LIMIT),
    };
}

} // verus!
