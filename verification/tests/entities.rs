use danger_maze::confetti::Confetti;
use danger_maze::geom::{dist_between_points, Circle, Point, Point3, Rect};
use danger_maze::goal::Goal;
use danger_maze::hazard::{DangerBlock, DangerCircle};
use danger_maze::input::{is_key_pressed, KeyCode};
use danger_maze::player::Player;

#[test]
fn point_rect_circle_constructors() {
    let p = Point::new(3i64, 4i64);
    assert_eq!(p.x, 3);
    assert_eq!(p.y, 4);
    let r = Rect::new(1i64, 2i64, 30i64, 40i64);
    assert_eq!(r.loc.x, 1);
    assert_eq!(r.loc.y, 2);
    assert_eq!(r.width, 30);
    assert_eq!(r.height, 40);
    let c = Circle::new(5i64, 6i64, 7i64);
    assert_eq!(c.loc.x, 5);
    assert_eq!(c.loc.y, 6);
    assert_eq!(c.size, 7);
    let q = Point3::new(1i64, 2i64, 3i64);
    assert_eq!((q.x, q.y, q.z), (1, 2, 3));
}

#[test]
fn key_lookup_finds_first_entry() {
    let keys = vec![(KeyCode::KeyB, true), (KeyCode::KeyC, false), (KeyCode::KeyB, false)];
    assert!(is_key_pressed(&keys, &KeyCode::KeyB));
    assert!(!is_key_pressed(&keys, &KeyCode::KeyC));
    assert!(!is_key_pressed(&keys, &KeyCode::KeyQ));
}

#[test]
fn integer_distance_is_exact_on_pythagorean_triple() {
    let d = dist_between_points(Point::new(0i64, 0i64), Point::new(3000i64, 4000i64));
    assert_eq!(d, 5000);
    // rounding is downward
    let d2 = dist_between_points(Point::new(0i64, 0i64), Point::new(1i64, 1i64));
    assert_eq!(d2, 1);
}

#[test]
fn sample_points_are_exactly_eight_on_the_circumference() {
    let player = Player::new(100_000, 200_000);
    let pts = player.get_sample_points();
    assert_eq!(pts.len(), 8);
    for pt in pts.iter() {
        let dx = (pt.x - 100_000) as i128;
        let dy = (pt.y - 200_000) as i128;
        let d2 = dx * dx + dy * dy;
        let r2 = 20_000i128 * 20_000;
        assert!(d2 <= r2 && d2 >= r2 - 7672, "sample point off the circumference: {}", d2);
    }
    // all eight points are distinct (angles strictly increase below a full turn)
    for a in 0..8 {
        for b in (a + 1)..8 {
            assert!(pts[a].x != pts[b].x || pts[a].y != pts[b].y);
        }
    }
    // first point is at angle zero: straight down the y axis
    assert_eq!((pts[0].x, pts[0].y), (100_000, 220_000));
}

#[test]
fn player_reset_is_idempotent() {
    let mut player = Player::new(100_000, 100_000);
    player.set_moving();
    player.loc.x = 555_000;
    player.loc.y = 444_000;
    player.reset();
    let once = (player.start.x, player.start.y, player.loc.x, player.loc.y, player.is_moving);
    player.reset();
    let twice = (player.start.x, player.start.y, player.loc.x, player.loc.y, player.is_moving);
    assert_eq!(once, twice);
    assert_eq!((player.loc.x, player.loc.y), (100_000, 100_000));
    assert!(!player.is_moving);
}

#[test]
fn player_indicators_grow_and_expire() {
    let mut player = Player::new(0, 0);
    player.set_moving();
    assert_eq!(player.indicator.len(), 1);
    assert_eq!(player.indicator[0].size, 20_000);
    player.update(100);
    // 20000 + 100 * 60 = 26000, still below the 30000 limit
    assert_eq!(player.indicator[0].size, 26_000);
    player.update(100);
    // 32000 exceeds the limit: removed
    assert_eq!(player.indicator.len(), 0);
}

#[test]
fn block_containment_is_boundary_exclusive() {
    let b = DangerBlock::new(0, 0, 10_000, 10_000);
    assert!(b.point_inside(5_000, 5_000));
    assert!(!b.point_inside(0, 5_000));
    assert!(!b.point_inside(10_000, 5_000));
    assert!(!b.point_inside(5_000, 0));
    assert!(!b.point_inside(5_000, 10_000));
    assert!(!b.point_inside(-1, 5_000));
}

#[test]
fn inverted_block_contains_nothing() {
    let b = DangerBlock::new(10_000, 10_000, -5_000, -5_000);
    assert!(!b.point_inside(7_500, 7_500));
    assert!(!b.point_inside(10_000, 10_000));
    assert!(!b.point_inside(5_000, 5_000));
}

#[test]
fn disc_containment_is_boundary_exclusive() {
    let c = DangerCircle::new(0, 0, 10_000);
    assert!(c.point_inside(9_999, 0, 0));
    assert!(!c.point_inside(10_000, 0, 0));
    assert!(!c.point_inside(0, 10_000, 0));
    // tolerance folds the probe radius in
    assert!(c.point_inside(12_000, 0, 3_000));
    assert!(!c.point_inside(13_000, 0, 3_000));
}

#[test]
fn goal_radius_oscillates_within_the_band() {
    let mut goal = Goal::new(0, 0);
    assert_eq!(goal.circle.size, 40_000);
    // per-tick increment is 8 * 100 = 800 milli-units
    for _ in 0..1000 {
        goal.update(100, false);
        assert!(goal.circle.size >= 25_000 - 800, "radius fell out of band: {}", goal.circle.size);
        assert!(goal.circle.size <= 40_000 + 800, "radius rose out of band: {}", goal.circle.size);
    }
    // it actually shrinks at first
    let mut g2 = Goal::new(0, 0);
    g2.update(100, false);
    assert_eq!(g2.circle.size, 40_000 - 800);
}

#[test]
fn confetti_spawns_only_while_won_and_is_cleared_otherwise() {
    let mut goal = Goal::new(500_000, 400_000);
    // during the win state the cooldown runs down, then a burst appears
    goal.update(250, true);
    assert_eq!(goal.confetti.len(), 0);
    goal.update(10, true);
    let n = goal.confetti.len();
    assert!(1 <= n && n <= 4, "burst size out of range: {}", n);
    for c in goal.confetti.iter() {
        assert!(c.loc.x >= 500_000 - 40_000 && c.loc.x < 500_000 + 40_000);
        assert!(c.fall_rate >= 50 && c.fall_rate < 150);
        assert!(c.ttl > 0);
    }
    // leaving the win state clears the list at once
    goal.update(1, false);
    assert_eq!(goal.confetti.len(), 0);
}

#[test]
fn confetti_falls_and_expires() {
    let mut c = Confetti::new(1_000, 2_000, 100);
    assert_eq!(c.ttl, 3000);
    c.update(10);
    assert_eq!(c.loc.y, 3_000);
    assert_eq!(c.ttl, 2990);
    assert_eq!(c.loc.x, 1_000);
    c.update(3000);
    assert!(c.ttl <= 0);
    assert!(c.color.red < 85);
    assert!(c.color.green < 255);
    assert!(c.color.blue >= 155 && c.color.blue < 255);
}
