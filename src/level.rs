//! The opening layout: eight rows of eight blocks, the paddle and the ball.
use vstd::prelude::*;
use crate::geometry::Vec2;
use crate::world::{
    Ball, Body, Collider, Damage, Health, MatchState, Paddle, Score, Speed, Velocity, World,
    BASE_SPEED, HALF_HEIGHT, HALF_WIDTH, HUD_HEIGHT, START_HEALTH,
};

verus! {

/// Rows and columns of blocks.
pub const ROWS: usize = 8;
pub const COLUMNS: usize = 8;

/// Points a block gives per unit of its health.
pub const POINTS_PER_HEALTH: usize = 5;

/// Tier of a row: the top two rows take four hits, the next two three, and
/// so on down to one.
pub open spec fn tier(row: int) -> int {
    4 - row / 2
}

/// The block of the layout at `row` (from the top) and `col` (from the
/// left).
pub open spec fn level_block(row: int, col: int) -> Body {
    Body {
        position: Vec2 {
            x: (-HALF_WIDTH + 38_000 + 66_000 * col) as i64,
            y: (HALF_HEIGHT - HUD_HEIGHT - 22_000 - 34_000 * row) as i64,
        },
        collider: Collider(Vec2 { x: 64_000, y: 32_000 }),
        damage: Some(Damage(0)),
        health: Some(Health(tier(row) as usize)),
        score: Some(Score((POINTS_PER_HEALTH * tier(row)) as usize)),
        paddle: None,
        tilt: 0,
    }
}

pub open spec fn level_paddle() -> Body {
    Body {
        position: Vec2 { x: 0, y: (-HALF_HEIGHT + 30_000) as i64 },
        collider: Collider(Vec2 { x: 104_000, y: 24_000 }),
        damage: None,
        health: None,
        score: None,
        paddle: Some(Paddle),
        tilt: 0,
    }
}

pub open spec fn level_ball() -> Ball {
    Ball {
        position: Vec2 { x: 0, y: (-HALF_HEIGHT + 64_000) as i64 },
        collider: Collider(Vec2 { x: 22_000, y: 22_000 }),
        velocity: Velocity(Vec2 { x: 0, y: 1000 }),
        speed: Speed(BASE_SPEED),
    }
}

/// The world at the start of a match: the blocks row by row, then the
/// paddle; no points and all lives.
pub fn setup_level() -> (w: World)
    ensures
        w.wf(),
        w.bodies@.len() == ROWS * COLUMNS + 1,
        forall|i: int| 0 <= i < ROWS * COLUMNS ==> #[trigger] w.bodies@[i] == level_block(i / 8, i % 8),
        w.bodies@[ROWS * COLUMNS as int] == level_paddle(),
        w.ball == level_ball(),
        w.state.score.0 == 0,
        w.state.health.0 == START_HEALTH,
{
    let mut bodies: Vec<Body> = Vec::new();
    let mut row: usize = 0;
    while row < ROWS
        invariant
            row <= ROWS,
            bodies@.len() == row * 8,
            forall|i: int| 0 <= i < bodies@.len() ==> #[trigger] bodies@[i] == level_block(i / 8, i % 8),
        decreases ROWS - row,
    {
        let group: usize = 4 - row / 2;
        let mut col: usize = 0;
        while col < COLUMNS
            invariant
                row < ROWS,
                col <= COLUMNS,
                group == tier(row as int),
                bodies@.len() == row * 8 + col,
                forall|i: int| 0 <= i < bodies@.len() ==> #[trigger] bodies@[i] == level_block(i / 8, i % 8),
            decreases COLUMNS - col,
        {
            let b = Body {
                position: Vec2 {
                    x: -HALF_WIDTH + 38_000 + 66_000 * (col as i64),
                    y: HALF_HEIGHT - HUD_HEIGHT - 22_000 - 34_000 * (row as i64),
                },
                collider: Collider(Vec2 { x: 64_000, y: 32_000 }),
                damage: Some(Damage(0)),
                health: Some(Health(group)),
                score: Some(Score(POINTS_PER_HEALTH * group)),
                paddle: None,
                tilt: 0,
            };
            proof {
                let k = (row * 8 + col) as int;
                assert(k / 8 == row as int && k % 8 == col as int);
            }
            bodies.push(b);
            col += 1;
        }
        row += 1;
    }
    bodies.push(Body {
        position: Vec2 { x: 0, y: -HALF_HEIGHT + 30_000 },
        collider: Collider(Vec2 { x: 104_000, y: 24_000 }),
        damage: None,
        health: None,
        score: None,
        paddle: Some(Paddle),
        tilt: 0,
    });
    let w = World {
        ball: Ball {
            position: Vec2 { x: 0, y: -HALF_HEIGHT + 64_000 },
            collider: Collider(Vec2 { x: 22_000, y: 22_000 }),
            velocity: Velocity(Vec2 { x: 0, y: 1000 }),
            speed: Speed(BASE_SPEED),
        },
        bodies,
        state: MatchState { score: Score(0), health: Health(START_HEALTH) },
    };
    proof {
        assert forall|i: int| 0 <= i < w.bodies@.len() implies (#[trigger] w.bodies@[i]).wf() by {
            if i < 64 {
                assert(w.bodies@[i] == level_block(i / 8, i % 8));
            }
        }
    }
    w
}

} // verus!
