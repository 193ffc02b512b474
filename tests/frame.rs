use breakout::frame::step;
use breakout::geometry::Vec2;
use breakout::lifecycle::{apply_damage, handle_damage};
use breakout::motion::{apply_velocity, move_paddle};
use breakout::resolver::resolve_collisions;
use breakout::world::{
    Ball, Body, Collider, Damage, Health, MatchState, Paddle, Score, Speed, Velocity, World,
};

fn ball(x: i64, y: i64, vx: i64, vy: i64) -> Ball {
    Ball {
        position: Vec2::new(x, y),
        collider: Collider(Vec2::new(22_000, 22_000)),
        velocity: Velocity(Vec2::new(vx, vy)),
        speed: Speed(200_000),
    }
}

fn block(x: i64, y: i64, health: usize, score: usize) -> Body {
    Body {
        position: Vec2::new(x, y),
        collider: Collider(Vec2::new(64_000, 32_000)),
        damage: Some(Damage(0)),
        health: Some(Health(health)),
        score: Some(Score(score)),
        paddle: None,
        tilt: 0,
    }
}

fn paddle(x: i64) -> Body {
    Body {
        position: Vec2::new(x, -330_000),
        collider: Collider(Vec2::new(104_000, 24_000)),
        damage: None,
        health: None,
        score: None,
        paddle: Some(Paddle),
        tilt: 0,
    }
}

fn world(ball: Ball, bodies: Vec<Body>, score: usize, health: usize) -> World {
    World { ball, bodies, state: MatchState { score: Score(score), health: Health(health) } }
}

#[test]
fn ball_hits_block_from_above() {
    // Displacement (0, -5) units: 200 units/s for 25 ms.
    let mut w = world(ball(0, 100_000, 0, -1000), vec![block(0, 80_000, 1, 5)], 0, 3);
    let r = resolve_collisions(&mut w, 25_000);
    assert_eq!(r, Some(0));
    assert_eq!(w.ball.position.y, 101_400);
    assert_eq!(w.ball.position.x, 0);
    assert_eq!(w.ball.velocity.0.y, 1000);
    assert_eq!(w.ball.velocity.0.x, 0);
    assert_eq!(w.bodies[0].damage.unwrap().0, 1);
    assert_eq!(w.state.score.0, 0);
}

#[test]
fn frame_stages_run_in_order() {
    let mut w = world(ball(0, 100_000, 0, -1000), vec![block(0, 80_000, 1, 5)], 0, 3);
    let mut target = None;
    let r = step(&mut w, &mut target, None, 25_000);
    assert_eq!(r, Some(0));
    // Pulled back to 101.4, then moved up by 5 with the inverted heading.
    assert_eq!(w.ball.position.y, 106_400);
    assert!(w.bodies.is_empty());
    assert_eq!(w.state.score.0, 5);
    assert_eq!(target, Some(538_000));
}

#[test]
fn side_wall_flips_once() {
    let mut w = world(ball(260_000, 0, 1000, 0), vec![], 0, 3);
    let r = resolve_collisions(&mut w, 25_000);
    assert_eq!(r, None);
    assert_eq!(w.ball.velocity.0.x, -1000);
    assert_eq!(w.ball.position.x, 258_000);
    let mut w = world(ball(-262_000, 0, -1000, 0), vec![], 0, 3);
    resolve_collisions(&mut w, 25_000);
    assert_eq!(w.ball.velocity.0.x, 1000);
    assert_eq!(w.ball.position.x, -258_000);
    let mut w = world(ball(0, 0, 1000, 0), vec![], 0, 3);
    resolve_collisions(&mut w, 25_000);
    assert_eq!(w.ball.velocity.0.x, 1000);
    assert_eq!(w.ball.position.x, 0);
}

#[test]
fn ceiling_bounces_below_band() {
    let mut w = world(ball(0, 300_000, 0, 1000), vec![], 7, 3);
    resolve_collisions(&mut w, 25_000);
    assert_eq!(w.ball.velocity.0.y, -1000);
    assert_eq!(w.ball.position.y, 299_000);
    assert_eq!(w.state.score.0, 7);
}

#[test]
fn floor_costs_a_life() {
    let mut b = ball(0, -355_000, 0, -1000);
    b.speed = Speed(300_000);
    let mut w = world(b, vec![], 40, 2);
    resolve_collisions(&mut w, 25_000);
    assert_eq!(w.state.health.0, 1);
    assert_eq!(w.state.score.0, 40);
    assert_eq!(w.ball.speed.0, 200_000);
    assert_eq!(w.ball.velocity.0.y, 1000);
    assert_eq!(w.ball.position.y, -349_000);
}

#[test]
fn floor_without_lives_restarts() {
    let mut w = world(ball(0, -355_000, 0, -1000), vec![], 40, 0);
    resolve_collisions(&mut w, 25_000);
    assert_eq!(w.state.score.0, 0);
    assert_eq!(w.state.health.0, 3);
    assert_eq!(w.ball.speed.0, 200_000);
}

fn paddle_hit(centre_x: i64) -> Ball {
    // Falls 10 units in 50 ms onto the paddle, its end centre at `centre_x`.
    let mut w = world(ball(centre_x, -300_000, 0, -1000), vec![paddle(0)], 0, 3);
    let r = resolve_collisions(&mut w, 50_000);
    assert_eq!(r, Some(0));
    assert_eq!(w.ball.velocity.0.y, 1000);
    assert_eq!(w.ball.speed.0, 210_000);
    assert_eq!(w.ball.position.y, -300_000);
    w.ball
}

#[test]
fn paddle_deflection_left_edge() {
    assert_eq!(paddle_hit(-52_000).velocity.0.x, -750);
}

#[test]
fn paddle_deflection_right_edge() {
    assert_eq!(paddle_hit(52_000).velocity.0.x, 750);
}

#[test]
fn paddle_deflection_centre() {
    assert_eq!(paddle_hit(0).velocity.0.x, 0);
    assert_eq!(paddle_hit(26_000).velocity.0.x, 375);
}

#[test]
fn side_hit_on_block() {
    // Moving right into the block's left side.
    let mut w = world(ball(-45_000, 80_000, 1000, 0), vec![block(0, 80_000, 3, 15)], 0, 3);
    let r = resolve_collisions(&mut w, 25_000);
    assert_eq!(r, Some(0));
    assert_eq!(w.ball.velocity.0.x, -1000);
    assert_eq!(w.ball.velocity.0.y, 0);
    assert_eq!(w.bodies[0].damage.unwrap().0, 1);
}

#[test]
fn first_block_in_scan_order_wins() {
    let blocks = vec![block(300_000, 0, 1, 5), block(0, 80_000, 1, 5), block(10_000, 80_000, 1, 5)];
    let mut w = world(ball(0, 100_000, 0, -1000), blocks, 0, 3);
    let r = resolve_collisions(&mut w, 25_000);
    assert_eq!(r, Some(1));
    assert_eq!(w.bodies[1].damage.unwrap().0, 1);
    assert_eq!(w.bodies[2].damage.unwrap().0, 0);
}

#[test]
fn block_goes_on_second_hit() {
    let mut w = world(ball(0, 100_000, 0, -1000), vec![block(0, 80_000, 2, 10)], 0, 3);
    let r = resolve_collisions(&mut w, 25_000);
    apply_damage(&mut w, r, 3_000);
    assert_eq!(w.bodies.len(), 1);
    assert_eq!(w.bodies[0].damage.unwrap().0, 1);
    assert_eq!(w.bodies[0].tilt, 3_000);
    assert_eq!(w.state.score.0, 0);

    w.ball = ball(0, 100_000, 0, -1000);
    let r = resolve_collisions(&mut w, 25_000);
    handle_damage(&mut w, r);
    assert!(w.bodies.is_empty());
    assert_eq!(w.state.score.0, 10);

    // Nothing further is added.
    handle_damage(&mut w, r);
    assert_eq!(w.state.score.0, 10);
}

#[test]
fn damaged_block_tilts_within_range() {
    let mut b = block(0, 0, 3, 15);
    b.damage = Some(Damage(1));
    let mut w = world(ball(0, 0, 0, 1000), vec![b], 0, 3);
    handle_damage(&mut w, Some(0));
    assert_eq!(w.bodies.len(), 1);
    let t = w.bodies[0].tilt;
    assert!((2_000..=5_000).contains(&t) || (355_000..=358_000).contains(&t));
}

#[test]
fn tilt_wraps_around_a_turn() {
    let mut b = block(0, 0, 3, 15);
    b.damage = Some(Damage(1));
    b.tilt = 1_000;
    let mut w = world(ball(0, 0, 0, 1000), vec![b], 0, 3);
    apply_damage(&mut w, Some(0), -3_000);
    assert_eq!(w.bodies[0].tilt, 358_000);
}

#[test]
fn undamaged_block_is_left_alone() {
    let mut w = world(ball(0, 0, 0, 1000), vec![block(0, 0, 1, 5)], 0, 3);
    apply_damage(&mut w, Some(0), 3_000);
    assert_eq!(w.bodies[0].tilt, 0);
    apply_damage(&mut w, None, 3_000);
    apply_damage(&mut w, Some(4), 3_000);
    assert_eq!(w.bodies.len(), 1);
    assert_eq!(w.state.score.0, 0);
}

#[test]
fn ball_moves_at_its_speed() {
    let mut b = ball(0, 0, 3000, 4000);
    b.speed = Speed(200_000);
    let mut w = world(b, vec![], 0, 3);
    apply_velocity(&mut w, 1_000_000);
    assert_eq!(w.ball.position.x, 120_000);
    assert_eq!(w.ball.position.y, 160_000);
    let mut w = world(ball(5, 5, 0, 0), vec![], 0, 3);
    apply_velocity(&mut w, 1_000_000);
    assert_eq!(w.ball.position.x, 5);
    assert_eq!(w.ball.position.y, 5);
}

#[test]
fn paddle_eases_towards_pointer() {
    let mut w = world(ball(0, 0, 0, 1000), vec![block(0, 0, 1, 5), paddle(0)], 0, 3);
    let mut target = None;
    move_paddle(&mut w, &mut target, Some(369_000), 16_000);
    assert_eq!(target, Some(369_000));
    assert_eq!(w.bodies[1].position.x, 32_000);
    assert_eq!(w.bodies[0].position.x, 0);
    // The pointer leaves: the held target stays. A long frame brings the
    // paddle to its goal and no further.
    move_paddle(&mut w, &mut target, None, 1_000_000);
    assert_eq!(target, Some(369_000));
    assert_eq!(w.bodies[1].position.x, 100_000);
}

#[test]
fn paddle_starts_towards_right_edge_and_stays_clear_of_walls() {
    let mut w = world(ball(0, 0, 0, 1000), vec![paddle(0)], 0, 3);
    let mut target = None;
    move_paddle(&mut w, &mut target, None, 50_000);
    assert_eq!(target, Some(538_000));
    assert_eq!(w.bodies[0].position.x, 205_000);
    move_paddle(&mut w, &mut target, Some(-1_000_000), 50_000);
    assert_eq!(w.bodies[0].position.x, -205_000);
}

#[test]
fn motion_saturates_at_world_bound() {
    let mut w = world(ball(4_294_967_290, 0, 1000, 0), vec![], 0, 3);
    apply_velocity(&mut w, 1_000_000);
    assert_eq!(w.ball.position.x, 4_294_967_296);
    assert_eq!(w.ball.position.y, 0);
}

#[test]
fn paddle_speed_gain_saturates() {
    let mut b = ball(0, -300_000, 0, -1000);
    b.speed = Speed(16_772_216);
    let mut w = world(b, vec![paddle(0)], 0, 3);
    let r = resolve_collisions(&mut w, 596);
    assert_eq!(r, Some(0));
    assert_eq!(w.ball.speed.0, 16_777_216);
    assert_eq!(w.ball.velocity.0.y, 1000);
}

#[test]
fn paddle_never_overshoots_its_lane() {
    // From the left end of its lane, towards the right edge, over 100 ms.
    let mut w = world(ball(0, 0, 0, 1000), vec![paddle(-205_000)], 0, 3);
    let mut target = None;
    move_paddle(&mut w, &mut target, Some(538_000), 100_000);
    assert_eq!(w.bodies[0].position.x, 205_000);
    move_paddle(&mut w, &mut target, Some(0), 60_000);
    assert_eq!(w.bodies[0].position.x, -205_000);
}

#[test]
fn travel_does_not_depend_on_heading_size() {
    for (vx, vy) in [(1, 1), (1000, 1000), (70_000, 70_000)] {
        let mut w = world(ball(0, 0, vx, vy), vec![], 0, 3);
        apply_velocity(&mut w, 1_000_000);
        assert_eq!(w.ball.position.x, 141_421);
        assert_eq!(w.ball.position.y, 141_421);
    }
    let mut w = world(ball(0, 0, -1, -1), vec![], 0, 3);
    apply_velocity(&mut w, 1_000_000);
    assert_eq!(w.ball.position.x, -141_421);
    assert_eq!(w.ball.position.y, -141_421);
    let mut w = world(ball(0, 0, 0, -7), vec![], 0, 3);
    apply_velocity(&mut w, 1_000_000);
    assert_eq!(w.ball.position.x, 0);
    assert_eq!(w.ball.position.y, -200_000);
}
