use ball_sim::Ball;

#[test]
fn new_sets_fields_verbatim() {
    let b = Ball::new(7, -8, 2, -3, 20, 0xFF00FF);
    assert_eq!(b.x, 7);
    assert_eq!(b.y, -8);
    assert_eq!(b.dx, 2);
    assert_eq!(b.dy, -3);
    assert_eq!(b.radius, 20);
    assert_eq!(b.color, 0xFF00FF);
}

#[test]
fn straight_line_motion_is_uniform() {
    let mut b = Ball::new(300, 400, 2, 3, 10, 0xFFFFFF);
    for step in 1..=5 {
        b.update_position(800, 600);
        assert_eq!(b.x, 300 + 2 * step);
        assert_eq!(b.y, 400 + 3 * step);
        assert_eq!(b.dx, 2);
        assert_eq!(b.dy, 3);
    }
}

#[test]
fn bounce_left_wall_flips_dx_once() {
    let mut b = Ball::new(12, 300, -5, 0, 10, 0xFFFFFF);
    b.update_position(800, 600);
    // post-move x = 7; 7 - 10 < 0, so dx flips; dy untouched
    assert_eq!(b.x, 7);
    assert_eq!(b.dx, 5);
    assert_eq!(b.dy, 0);
}

#[test]
fn bounce_right_wall_flips_dx_once() {
    let mut b = Ball::new(788, 300, 5, 0, 10, 0xFFFFFF);
    b.update_position(800, 600);
    // post-move x = 793; 793 + 10 > 800, so dx flips
    assert_eq!(b.x, 793);
    assert_eq!(b.dx, -5);
}

#[test]
fn bounce_top_wall_flips_dy_once() {
    let mut b = Ball::new(400, 12, 0, -5, 10, 0xFFFFFF);
    b.update_position(800, 600);
    assert_eq!(b.y, 7);
    assert_eq!(b.dy, 5);
}

#[test]
fn bounce_bottom_wall_flips_dy_once() {
    let mut b = Ball::new(400, 588, 0, 5, 10, 0xFFFFFF);
    b.update_position(800, 600);
    assert_eq!(b.y, 593);
    assert_eq!(b.dy, -5);
}

#[test]
fn corner_flips_both_components_in_one_call() {
    let mut b = Ball::new(12, 12, -5, -5, 10, 0xFFFFFF);
    b.update_position(800, 600);
    assert_eq!((b.x, b.y), (7, 7));
    assert_eq!((b.dx, b.dy), (5, 5));
}

#[test]
fn strictly_inside_never_alters_velocity() {
    let mut b = Ball::new(400, 300, 3, -2, 10, 0xFFFFFF);
    for _ in 0..20 {
        b.update_position(800, 600);
        assert_eq!(b.dx, 3);
        assert_eq!(b.dy, -2);
    }
}

#[test]
fn position_is_never_clamped_so_a_slow_ball_can_reflect_repeatedly() {
    // The wall test flips velocity but does not move the ball back inside:
    // a ball sitting past the wall oscillates, re-reflecting each call.
    let mut b = Ball::new(5, 300, 1, 0, 10, 0xFFFFFF);
    b.update_position(800, 600);
    assert_eq!(b.x, 6); // 6 - 10 < 0: crossing, dx flips to -1
    assert_eq!(b.dx, -1);
    b.update_position(800, 600);
    assert_eq!(b.x, 5); // still crossing, dx flips back to 1
    assert_eq!(b.dx, 1);
}

#[test]
fn collides_with_is_symmetric() {
    let a = Ball::new(0, 0, 1, 1, 3, 0xFFFFFF);
    let b = Ball::new(4, 3, -1, 0, 2, 0xFFFFFF);
    let c = Ball::new(100, 100, 0, 0, 2, 0xFFFFFF);
    assert_eq!(a.collides_with(&b), b.collides_with(&a));
    assert_eq!(a.collides_with(&c), c.collides_with(&a));
    assert!(a.collides_with(&b));
    assert!(!a.collides_with(&c));
}

#[test]
fn touching_exactly_radius_sum_apart_counts_as_colliding() {
    // centers 5 apart, radii 3 + 2: distance_squared == radius_sum^2
    let a = Ball::new(0, 0, 0, 0, 3, 0xFFFFFF);
    let b = Ball::new(3, 4, 0, 0, 2, 0xFFFFFF);
    assert!(a.collides_with(&b));
    assert!(b.collides_with(&a));
}

#[test]
fn just_past_radius_sum_does_not_collide() {
    let a = Ball::new(0, 0, 0, 0, 3, 0xFFFFFF);
    let b = Ball::new(5, 1, 0, 0, 2, 0xFFFFFF); // distance_squared 26 > 25
    assert!(!a.collides_with(&b));
}

#[test]
fn resolve_collision_exchanges_velocities_of_a_colliding_pair() {
    let mut a = Ball::new(0, 0, 7, -2, 3, 0xFFFFFF);
    let mut b = Ball::new(4, 0, -1, 5, 2, 0xFFFFFF);
    a.resolve_collision(&mut b);
    assert_eq!((a.dx, a.dy), (-1, 5));
    assert_eq!((b.dx, b.dy), (7, -2));
    // positions, radii and colors untouched
    assert_eq!((a.x, a.y, a.radius), (0, 0, 3));
    assert_eq!((b.x, b.y, b.radius), (4, 0, 2));
}

#[test]
fn resolve_collision_leaves_a_noncolliding_pair_unchanged() {
    let mut a = Ball::new(0, 0, 7, -2, 3, 0xFFFFFF);
    let mut b = Ball::new(50, 0, -1, 5, 2, 0xFFFFFF);
    a.resolve_collision(&mut b);
    assert_eq!((a.dx, a.dy), (7, -2));
    assert_eq!((b.dx, b.dy), (-1, 5));
}

#[test]
fn double_resolution_swaps_back_while_still_touching() {
    // Positions are unchanged by resolution, so the collision test is stable
    // within one pass: resolving the same touching pair twice swaps back.
    let mut a = Ball::new(0, 0, 7, -2, 3, 0xFFFFFF);
    let mut b = Ball::new(4, 0, -1, 5, 2, 0xFFFFFF);
    a.resolve_collision(&mut b);
    a.resolve_collision(&mut b);
    assert_eq!((a.dx, a.dy), (7, -2));
    assert_eq!((b.dx, b.dy), (-1, 5));
}
