use breakout::geometry::{aabb, div_floor, lerp, swept_aabb, Frac, Time, Vec2};

fn v(x: i64, y: i64) -> Vec2 {
    Vec2::new(x, y)
}

#[test]
fn overlap_is_symmetric() {
    let cases = [
        (v(0, 0), v(10, 10), v(5, 5), v(15, 15)),
        (v(0, 0), v(10, 10), v(10, 0), v(20, 10)),
        (v(-5, -5), v(5, 5), v(-1, -100), v(1, 100)),
        (v(0, 0), v(1, 1), v(2, 2), v(3, 3)),
    ];
    for (a_min, a_max, b_min, b_max) in cases {
        assert_eq!(aabb(a_min, a_max, b_min, b_max), aabb(b_min, b_max, a_min, a_max));
    }
    assert!(aabb(v(0, 0), v(10, 10), v(5, 5), v(15, 15)));
}

#[test]
fn touching_edges_do_not_overlap() {
    assert!(!aabb(v(0, 0), v(10, 10), v(10, 0), v(20, 10)));
    assert!(!aabb(v(0, 0), v(10, 10), v(0, 10), v(10, 20)));
    assert!(aabb(v(0, 0), v(10, 10), v(9, 9), v(20, 20)));
}

#[test]
fn sweep_reports_approaching_contact() {
    // Apart at the start, overlapping after moving 20 to the right.
    assert!(!aabb(v(0, 0), v(10, 10), v(25, 0), v(35, 10)));
    assert!(aabb(v(20, 0), v(30, 10), v(25, 0), v(35, 10)));
    let (axis, t) = swept_aabb(v(0, 0), v(10, 10), v(25, 0), v(35, 10), v(20, 0));
    assert_eq!(axis, 1);
    assert_eq!(t, Time::At(Frac { num: 15, den: 20 }));
}

#[test]
fn sweep_from_above_hits_top() {
    let (axis, t) = swept_aabb(v(0, 30), v(10, 40), v(-20, 0), v(20, 25), v(2, -10));
    // x stays inside, so y decides: entry at (30 - 25) / 10.
    assert_eq!(axis, 2);
    assert_eq!(t, Time::At(Frac { num: 5, den: 10 }));
}

#[test]
fn sweep_misses() {
    // Moving away: the test looks at the whole line of motion, so the
    // contact lies in the past, at a negative time.
    assert_eq!(
        swept_aabb(v(0, 0), v(10, 10), v(25, 0), v(35, 10), v(-20, 0)),
        (1, Time::At(Frac { num: -35, den: 20 }))
    );
    // Not moving on y and apart on y.
    assert_eq!(
        swept_aabb(v(0, 0), v(10, 10), v(25, 20), v(35, 30), v(20, 0)),
        (0, Time::At(Frac { num: 0, den: 1 }))
    );
    // Crossing x too late for y.
    assert_eq!(
        swept_aabb(v(0, 0), v(10, 10), v(100, 100), v(110, 110), v(95, 5)).0,
        0
    );
}

#[test]
fn sweep_without_motion_inside() {
    assert_eq!(
        swept_aabb(v(0, 0), v(10, 10), v(5, 5), v(15, 15), v(0, 0)),
        (2, Time::NegInf)
    );
}

#[test]
fn queries_are_repeatable() {
    let args = (v(-11000, 89000), v(11000, 111000), v(-32000, 64000), v(32000, 96000), v(0, -5000));
    let first = swept_aabb(args.0, args.1, args.2, args.3, args.4);
    for _ in 0..5 {
        assert_eq!(swept_aabb(args.0, args.1, args.2, args.3, args.4), first);
        assert_eq!(aabb(args.0, args.1, args.2, args.3), aabb(args.0, args.1, args.2, args.3));
    }
    assert_eq!(first, (2, Time::At(Frac { num: -7000, den: 5000 })));
}

#[test]
fn lerp_values() {
    assert_eq!(lerp(0, 1000, 500), 500);
    assert_eq!(lerp(-750, 750, 0), -750);
    assert_eq!(lerp(-750, 750, 1000), 750);
    assert_eq!(lerp(-750, 750, 500), 0);
    assert_eq!(lerp(10, 0, 333), 6);
    assert_eq!(lerp(0, 100, 2000), 200);
}

#[test]
fn floor_division() {
    assert_eq!(div_floor(-7, 2), -4);
    assert_eq!(div_floor(7, 2), 3);
    assert_eq!(div_floor(-8, 2), -4);
    assert_eq!(div_floor(0, 5), 0);
}
