use breakout::level::setup_level;

#[test]
fn opening_layout() {
    let w = setup_level();
    assert_eq!(w.bodies.len(), 65);
    let first = w.bodies[0];
    assert_eq!((first.position.x, first.position.y), (-231_000, 288_000));
    assert_eq!(first.health.unwrap().0, 4);
    assert_eq!(first.score.unwrap().0, 20);
    assert_eq!(first.damage.unwrap().0, 0);
    let last = w.bodies[63];
    assert_eq!((last.position.x, last.position.y), (231_000, 50_000));
    assert_eq!(last.health.unwrap().0, 1);
    assert_eq!(last.score.unwrap().0, 5);
    let third_row = w.bodies[16];
    assert_eq!(third_row.health.unwrap().0, 3);
    assert_eq!(third_row.score.unwrap().0, 15);
    let paddle = w.bodies[64];
    assert!(paddle.paddle.is_some());
    assert!(paddle.damage.is_none());
    assert_eq!((paddle.position.x, paddle.position.y), (0, -330_000));
    assert_eq!(paddle.collider.0.x, 104_000);
    assert_eq!((w.ball.position.x, w.ball.position.y), (0, -296_000));
    assert_eq!(w.ball.speed.0, 200_000);
    assert_eq!((w.ball.velocity.0.x, w.ball.velocity.0.y), (0, 1000));
    assert_eq!(w.state.score.0, 0);
    assert_eq!(w.state.health.0, 3);
}
