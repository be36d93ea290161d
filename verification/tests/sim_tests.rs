use ball_sim::Ball;
use ball_sim::BallSimulation;

#[test]
fn two_balls_swap_velocities_then_move_by_the_new_velocity() {
    // Two bodies of radius 20, centers 39 apart (39^2 = 1521 < 40^2 = 1600):
    // one update swaps the velocities, then moves each by its new velocity.
    let a = Ball::new(230, 300, 1, 0, 20, 0xFFFFFF);
    let b = Ball::new(269, 300, -1, 0, 20, 0xFFFFFF);
    let mut sim = BallSimulation { balls: vec![a, b], width: 800, height: 600 };
    assert!(sim.can_step());
    sim.update();
    assert_eq!((sim.balls[0].dx, sim.balls[0].dy), (-1, 0));
    assert_eq!((sim.balls[1].dx, sim.balls[1].dy), (1, 0));
    assert_eq!((sim.balls[0].x, sim.balls[0].y), (229, 300));
    assert_eq!((sim.balls[1].x, sim.balls[1].y), (270, 300));
}

#[test]
fn update_resolves_every_unordered_pair_exactly_once_in_row_order() {
    // Chain: (0,1) touch, (1,2) touch, (0,2) do not. The pass resolves
    // (0,1) then (0,2) then (1,2), so the velocities rotate:
    // after (0,1): [2,1,3]; (0,2) misses; after (1,2): [2,3,1].
    let b0 = Ball::new(500, 300, 1, 0, 20, 0xFFFFFF);
    let b1 = Ball::new(530, 300, 2, 0, 20, 0xFFFFFF);
    let b2 = Ball::new(560, 300, 3, 0, 20, 0xFFFFFF);
    let mut sim = BallSimulation { balls: vec![b0, b1, b2], width: 1000, height: 600 };
    assert!(sim.can_step());
    sim.update();
    assert_eq!(sim.balls[0].dx, 2);
    assert_eq!(sim.balls[1].dx, 3);
    assert_eq!(sim.balls[2].dx, 1);
    // and only then does each move, by its post-resolution velocity
    assert_eq!(sim.balls[0].x, 502);
    assert_eq!(sim.balls[1].x, 533);
    assert_eq!(sim.balls[2].x, 561);
}

#[test]
fn collisions_are_detected_against_pre_move_positions() {
    // The pair is 41 apart (not touching) before the frame; the move brings
    // them to 39 apart. Within that same frame no swap happens: detection
    // uses the settled positions, never the partially moved ones.
    let a = Ball::new(230, 300, 1, 0, 20, 0xFFFFFF);
    let b = Ball::new(271, 300, -1, 0, 20, 0xFFFFFF);
    let mut sim = BallSimulation { balls: vec![a, b], width: 800, height: 600 };
    sim.update();
    assert_eq!(sim.balls[0].dx, 1);
    assert_eq!(sim.balls[1].dx, -1);
    assert_eq!(sim.balls[0].x, 231);
    assert_eq!(sim.balls[1].x, 270);
    // the next frame sees them 39 apart and swaps
    sim.update();
    assert_eq!(sim.balls[0].dx, -1);
    assert_eq!(sim.balls[1].dx, 1);
}

#[test]
fn stationary_lone_ball_stays_put_for_any_number_of_frames() {
    let b = Ball::new(50, 50, 0, 0, 10, 0xFFFFFF);
    let mut sim = BallSimulation { balls: vec![b], width: 100, height: 100 };
    for _ in 0..10 {
        assert!(sim.can_step());
        sim.update();
        assert_eq!((sim.balls[0].x, sim.balls[0].y), (50, 50));
        assert_eq!((sim.balls[0].dx, sim.balls[0].dy), (0, 0));
    }
}

#[test]
fn new_population_has_the_configured_count_and_ranges() {
    let sim = BallSimulation::new(50, 800, 600);
    assert_eq!(sim.balls.len(), 50);
    assert_eq!(sim.width, 800);
    assert_eq!(sim.height, 600);
    for b in &sim.balls {
        assert!(50 <= b.x && b.x < 750);
        assert!(50 <= b.y && b.y < 550);
        assert!(-3 <= b.dx && b.dx < 3);
        assert!(-3 <= b.dy && b.dy < 3);
        assert_eq!(b.radius, 20);
        assert_eq!(b.color, 0xFFFFFF);
    }
    assert!(sim.can_step());
    assert!(sim.is_well_formed());
}

#[test]
fn new_population_can_be_empty() {
    let sim = BallSimulation::new(0, 800, 600);
    assert_eq!(sim.balls.len(), 0);
    assert!(sim.can_step());
}

#[test]
fn can_step_rejects_an_oversized_velocity() {
    let b = Ball::new(400, 300, 2_000_000, 0, 10, 0xFFFFFF);
    let sim = BallSimulation { balls: vec![b], width: 800, height: 600 };
    assert!(!sim.can_step());
    assert!(sim.is_well_formed());
}

#[test]
fn can_step_rejects_a_nonpositive_radius() {
    let b = Ball::new(400, 300, 1, 1, 0, 0xFFFFFF);
    let sim = BallSimulation { balls: vec![b], width: 800, height: 600 };
    assert!(!sim.can_step());
    assert!(!sim.is_well_formed());
}
