use flocking::arrow::{Arrow, NeighborData, Obstacle};
use flocking::connection::{step, ConnectionAction, ConnectionEvent, ConnectionState};
use flocking::fixed::{floor_sqrt, fx_add, fx_div, fx_div_count, fx_mul, fx_sub, LIMIT, SCALE};
use flocking::game::{Game, OBSTACLE_RADIUS};
use flocking::messages::{ClientMessage, Color, FlockingParameters, ServerMessage};
use flocking::vector::Vec2;

const U: i64 = SCALE;

fn white() -> Color {
    Color::new(U, U, U, U)
}

/// Parameters with every strength zero but those given.
fn only(separation: i64, alignment: i64, cohesion: i64, avoidance: i64, max_speed: i64) -> FlockingParameters {
    FlockingParameters {
        max_speed,
        obstacle_avoidance_distance: 100 * U,
        obstacle_avoidance_strength: avoidance,
        separation_distance: 70 * U,
        alignment_distance: 120 * U,
        cohesion_distance: 200 * U,
        separation_strength: separation,
        alignment_strength: alignment,
        cohesion_strength: cohesion,
    }
}

fn still(x: i64, y: i64) -> Arrow {
    Arrow::new(Vec2::new(x, y), Vec2::new(0, 0), Vec2::new(0, 0), 40 * U, white())
}

fn seen(arrows: &[Arrow]) -> Vec<NeighborData> {
    arrows
        .iter()
        .map(|a| NeighborData { position: a.position(), velocity: a.velocity(), size: a.size() })
        .collect()
}

#[test]
fn fixed_point_operations() {
    assert_eq!(fx_add(2 * U, 3 * U), 5 * U);
    assert_eq!(fx_sub(2 * U, 3 * U), -U);
    assert_eq!(fx_mul(2_500_000, 2 * U), 5 * U);
    assert_eq!(fx_mul(-1_500_001, U / 2), -750_000);
    assert_eq!(fx_div(U, 3 * U), 333_333);
    assert_eq!(fx_div(-U, 3 * U), -333_333);
    assert_eq!(fx_div(U, -3 * U), -333_333);
    assert_eq!(fx_div(-5 * U, -2 * U), 2_500_000);
    assert_eq!(fx_div_count(-7, 2), -3);
    assert_eq!(fx_add(LIMIT, 1), LIMIT);
    assert_eq!(fx_sub(-LIMIT, 1), -LIMIT);
    assert_eq!(fx_mul(LIMIT, 2 * U), LIMIT);
}

#[test]
fn square_roots() {
    assert_eq!(floor_sqrt(0), 0);
    assert_eq!(floor_sqrt(15), 3);
    assert_eq!(floor_sqrt(16), 4);
    assert_eq!(floor_sqrt(2_000_000_000_000_000_000_000_000_000_000_000_000), 1_414_213_562_373_095_048);
}

#[test]
fn length_and_normalize() {
    let v = Vec2::new(3 * U, 4 * U);
    assert_eq!(v.length(), 5 * U);
    assert_eq!(v.normalize(), Vec2::new(600_000, 800_000));
    assert_eq!(v.normalize_or_zero(), Vec2::new(600_000, 800_000));
    assert_eq!(Vec2::new(1_001, 0).normalize(), Vec2::new(U, 0));
}

#[test]
fn normalize_zero_below_epsilon() {
    assert_eq!(Vec2::new(1_000, 0).normalize(), Vec2::new(0, 0));
    assert_eq!(Vec2::new(600, 800).normalize(), Vec2::new(0, 0));
    assert_eq!(Vec2::new(3, 4).normalize(), Vec2::new(0, 0));
    assert_eq!(Vec2::new(0, 0).normalize(), Vec2::new(0, 0));
}

#[test]
fn normalize_unit_length_above_epsilon() {
    for v in [
        Vec2::new(1_234_567, -7_654_321),
        Vec2::new(-2_000, 1),
        Vec2::new(5 * U, 5 * U),
        Vec2::new(1_001, 1_001),
        Vec2::new(LIMIT, LIMIT),
    ] {
        let n = v.normalize();
        let len = n.length();
        assert!(U - 3 <= len && len <= U, "{:?} has length {}", n, len);
    }
}

#[test]
fn normalize_just_above_epsilon() {
    assert_eq!(Vec2::new(1_001, 1_001).normalize(), Vec2::new(707_106, 707_106));
    assert_eq!(Vec2::new(LIMIT, LIMIT).normalize(), Vec2::new(707_106, 707_106));
    assert_eq!(Vec2::new(1_000, 1).normalize(), Vec2::new(999_999, 999));
    assert!(Vec2::new(1_000, 1).longer_than(1_000));
    assert!(!Vec2::new(1_000, 0).longer_than(1_000));
}

#[test]
fn vector_arithmetic() {
    let a = Vec2::new(U, 2 * U);
    let b = Vec2::new(3 * U, -U);
    assert_eq!(a.add(b), Vec2::new(4 * U, U));
    assert_eq!(a.sub(b), Vec2::new(-2 * U, 3 * U));
    assert_eq!(a.mul(U / 2), Vec2::new(U / 2, U));
    let mut c = a;
    c.add_assign(b);
    assert_eq!(c, Vec2::new(4 * U, U));
}

#[test]
fn new_arrow_heading() {
    let a = Arrow::new(Vec2::new(0, 0), Vec2::new(0, 3 * U), Vec2::new(0, 0), 10 * U, white());
    assert_eq!(a.angle(), Vec2::new(0, 3 * U));
    let b = Arrow::new(Vec2::new(0, 0), Vec2::new(500, 0), Vec2::new(0, 0), 10 * U, white());
    assert_eq!(b.angle(), Vec2::new(0, 0));
    assert_eq!(b.color(), white());
    assert_eq!(b.size(), 10 * U);
}

#[test]
fn wrap_past_right_edge_goes_to_minus_size() {
    let mut a = still(801 * U, 100 * U);
    a.update(800 * U, 600 * U, &[], &[], &FlockingParameters::default());
    assert_eq!(a.position(), Vec2::new(-40 * U, 100 * U));
}

#[test]
fn wrap_below_minus_size_goes_to_bound() {
    let mut a = still(100 * U, -41 * U);
    a.update(800 * U, 600 * U, &[], &[], &FlockingParameters::default());
    assert_eq!(a.position(), Vec2::new(100 * U, 600 * U));
    let mut b = still(-40 * U, 100 * U);
    b.update(800 * U, 600 * U, &[], &[], &FlockingParameters::default());
    assert_eq!(b.position(), Vec2::new(-40 * U, 100 * U));
}

#[test]
fn speed_clamp_rescales_to_max_speed() {
    let mut a = Arrow::new(Vec2::new(100 * U, 100 * U), Vec2::new(30 * U, 40 * U), Vec2::new(0, 0), 40 * U, white());
    a.update(800 * U, 600 * U, &[], &[], &only(0, 0, 0, 0, 5 * U));
    assert_eq!(a.velocity(), Vec2::new(3 * U, 4 * U));
    assert_eq!(a.velocity().length(), 5 * U);
    assert_eq!(a.position(), Vec2::new(103 * U, 104 * U));
    assert_eq!(a.angle(), Vec2::new(3 * U, 4 * U));
}

#[test]
fn heading_kept_when_stopped() {
    let mut a = Arrow::new(Vec2::new(100 * U, 100 * U), Vec2::new(0, U), Vec2::new(0, -U), 40 * U, white());
    a.update(800 * U, 600 * U, &[], &[], &only(0, 0, 0, 0, 5 * U));
    assert_eq!(a.velocity(), Vec2::new(0, 0));
    assert_eq!(a.angle(), Vec2::new(0, U));
}

#[test]
fn separation_pushes_away_from_neighbor() {
    let arrows = [still(30 * U, 0), still(0, 0)];
    let nbs = seen(&arrows);
    let mut a = arrows[0];
    a.update(800 * U, 600 * U, &[], &nbs, &only(U, 0, 0, 0, 1000 * U));
    // 1 - 30/70, pointing from the neighbour toward the arrow.
    assert_eq!(a.velocity(), Vec2::new(571_429, 0));
}

#[test]
fn cohesion_pull_grows_with_distance() {
    let near = [still(0, 0), still(20 * U, 0)];
    let mut a = near[0];
    a.update(800 * U, 600 * U, &[], &seen(&near), &only(0, 0, U, 0, 1000 * U));
    assert_eq!(a.velocity(), Vec2::new(550_000, 0));
    let far = [still(0, 0), still(199 * U, 0)];
    let mut b = far[0];
    b.update(800 * U, 600 * U, &[], &seen(&far), &only(0, 0, U, 0, 1000 * U));
    assert_eq!(b.velocity(), Vec2::new(997_500, 0));
}

#[test]
fn separation_near_epsilon() {
    let tiny = |x: i64, y: i64| Arrow::new(Vec2::new(x, y), Vec2::new(0, 0), Vec2::new(0, 0), 2, white());
    let arrows = [tiny(1_001, 1_001), tiny(0, 0)];
    let mut a = arrows[0];
    a.update(800 * U, 600 * U, &[], &seen(&arrows), &only(U, 0, 0, 0, 1000 * U));
    assert_eq!(a.velocity(), Vec2::new(707_091, 707_091));
    // 1 - 0.001415 / 70, about 0.99998.
    assert_eq!(a.velocity().length(), 999_977);
}

#[test]
fn cohesion_near_epsilon_grows_with_distance() {
    let tiny = |x: i64, y: i64| Arrow::new(Vec2::new(x, y), Vec2::new(0, 0), Vec2::new(0, 0), 2, white());
    let mut lengths = Vec::new();
    for (x, y) in [(1_001, 1_001), (1_420, 0), (2_000, 0)] {
        let arrows = [tiny(0, 0), tiny(x, y)];
        let mut a = arrows[0];
        a.update(800 * U, 600 * U, &[], &seen(&arrows), &only(0, 0, U, 0, 1000 * U));
        lengths.push(a.velocity().length());
    }
    assert_eq!(lengths, vec![500_002, 500_003, 500_005]);
}

#[test]
fn alignment_is_direction_only() {
    let arrows = [still(0, 0), Arrow::new(Vec2::new(100 * U, 0), Vec2::new(0, 3 * U), Vec2::new(0, 0), 40 * U, white())];
    let mut a = arrows[0];
    a.update(800 * U, 600 * U, &[], &seen(&arrows), &only(0, U, 0, 0, 1000 * U));
    assert_eq!(a.velocity(), Vec2::new(0, U));
}

#[test]
fn obstacle_pushes_linearly() {
    let mut a = still(80 * U, 80 * U);
    let obstacles = [Obstacle { position: Vec2::new(150 * U, 100 * U), radius: 40 * U }];
    a.update(800 * U, 600 * U, &obstacles, &[], &only(0, 0, 0, U / 2, 1000 * U));
    // (1 - (50 - 40) / 100) * 0.5 away from the obstacle.
    assert_eq!(a.velocity(), Vec2::new(-450_000, 0));
    assert_eq!(a.position(), Vec2::new(79_550_000, 80 * U));
}

#[test]
fn negative_avoidance_distance() {
    let mut a = still(80 * U, 80 * U);
    let obstacles = [Obstacle { position: Vec2::new(150 * U, 100 * U), radius: 100 * U }];
    let mut p = only(0, 0, 0, U / 2, 1000 * U);
    p.obstacle_avoidance_distance = -30 * U;
    a.update(800 * U, 600 * U, &obstacles, &[], &p);
    // (1 - (50 - 100) / -30) * 0.5 = -1/3, so the push turns toward the obstacle.
    assert_eq!(a.velocity(), Vec2::new(333_333, 0));
    assert_eq!(a.position(), Vec2::new(80_333_333, 80 * U));
}

#[test]
fn empty_neighbors_give_no_flocking() {
    let mut a = still(10 * U, 10 * U);
    a.update(800 * U, 600 * U, &[], &[], &only(U, U, U, U, 1000 * U));
    assert_eq!(a.velocity(), Vec2::new(0, 0));
}

#[test]
fn default_parameters() {
    let p = FlockingParameters::default();
    assert_eq!(p.max_speed, 5 * U);
    assert_eq!(p.obstacle_avoidance_distance, 100 * U);
    assert_eq!(p.obstacle_avoidance_strength, U / 2);
    assert_eq!(p.separation_distance, 70 * U);
    assert_eq!(p.alignment_distance, 120 * U);
    assert_eq!(p.cohesion_distance, 200 * U);
    assert_eq!(p.separation_strength, 300_000);
    assert_eq!(p.alignment_strength, 250_000);
    assert_eq!(p.cohesion_strength, 300_000);
    assert!(p.is_valid());
}

#[test]
fn one_tick_of_the_initial_world() {
    let mut g = Game::new(800 * U, 600 * U);
    let before: Vec<Vec2> = g.arrows.iter().map(|a| a.position()).collect();
    g.update();
    let expected = [
        (4_999_545, 50_067_445),
        (4_927_175, 120_850_240),
        (4_918_030, 199_098_360),
        (4_986_550, 280_366_480),
        (4_803_580, 358_612_345),
    ];
    for (i, a) in g.arrows.iter().enumerate() {
        assert_eq!(a.position(), Vec2::new(expected[i].0, expected[i].1));
        assert_eq!(a.position(), before[i].add(a.velocity()));
        assert!(a.velocity().length() <= 5 * U);
        assert!(a.velocity().length() >= 5 * U - 10);
        assert_eq!(a.angle(), a.velocity());
    }
}

#[test]
fn clear_obstacles_twice() {
    let mut g = Game::new(800 * U, 600 * U);
    g.clear_obstacles();
    assert_eq!(g.obstacles.len(), 0);
    g.clear_obstacles();
    assert_eq!(g.obstacles.len(), 0);
}

#[test]
fn creates_then_clear_leave_nothing() {
    let mut g = Game::new(800 * U, 600 * U);
    for i in 0..3 {
        assert!(g.apply(ClientMessage::CreateObstacle { x: i * U, y: -5000 * U }));
    }
    assert_eq!(g.obstacles.len(), 3);
    assert_eq!(g.obstacles[2].radius, OBSTACLE_RADIUS);
    assert_eq!(g.obstacles[2].position, Vec2::new(2 * U, -5000 * U));
    assert!(g.apply(ClientMessage::ClearObstacles));
    assert_eq!(g.obstacles.len(), 0);
}

#[test]
fn out_of_range_commands_are_dropped() {
    let mut g = Game::new(800 * U, 600 * U);
    assert!(!g.apply(ClientMessage::CreateObstacle { x: i64::MAX, y: 0 }));
    assert_eq!(g.obstacles.len(), 0);
    let mut p = FlockingParameters::default();
    p.obstacle_avoidance_distance = 0;
    assert!(!p.is_valid());
    assert!(!g.apply(ClientMessage::UpdateParameters { parameters: p }));
    assert_eq!(g.parameters, FlockingParameters::default());
    p.obstacle_avoidance_distance = 10 * U;
    assert!(g.apply(ClientMessage::UpdateParameters { parameters: p }));
    assert_eq!(g.parameters, p);
    p.obstacle_avoidance_distance = -30 * U;
    assert!(p.is_valid());
    assert!(g.apply(ClientMessage::UpdateParameters { parameters: p }));
    assert_eq!(g.parameters, p);
}

#[test]
fn snapshot_is_not_changed_by_later_commands() {
    let mut g = Game::new(800 * U, 600 * U);
    g.add_obstacle(10 * U, 20 * U);
    let (arrows, obstacles, parameters) = g.get_state();
    g.add_obstacle(30 * U, 40 * U);
    g.update_parameters(only(0, 0, 0, 0, U));
    g.update();
    assert_eq!(obstacles.len(), 1);
    assert_eq!(obstacles[0].position, Vec2::new(10 * U, 20 * U));
    assert_eq!(obstacles[0].radius, 40 * U);
    assert_eq!(parameters, FlockingParameters::default());
    assert_eq!(arrows[0].position, Vec2::new(0, 50 * U));
    assert_eq!(arrows[0].angle, Vec2::new(20 * U, 0));
    assert_eq!(arrows[4].color, Color::new(U, 0, U, U));
    assert_eq!(g.obstacles.len(), 2);
}

#[test]
fn state_message_shows_the_world() {
    let g = Game::new(800 * U, 600 * U);
    match g.state_message() {
        ServerMessage::GameState { arrows, obstacles, screen_width, screen_height, parameters } => {
            assert_eq!(arrows.len(), 5);
            assert_eq!(arrows[1].size, 50 * U);
            assert_eq!(obstacles.len(), 0);
            assert_eq!(screen_width, 800 * U);
            assert_eq!(screen_height, 600 * U);
            assert_eq!(parameters, FlockingParameters::default());
        }
    }
}

#[test]
fn connection_life() {
    let (s, a) = step(ConnectionState::Connected, ConnectionEvent::Opened);
    assert_eq!((s, a), (ConnectionState::Streaming, ConnectionAction::SendSnapshot));
    assert_eq!(step(s, ConnectionEvent::PushTick), (ConnectionState::Streaming, ConnectionAction::SendSnapshot));
    let m = ClientMessage::ClearObstacles;
    assert_eq!(step(s, ConnectionEvent::Received(m)), (ConnectionState::Streaming, ConnectionAction::Apply(m)));
    assert_eq!(step(s, ConnectionEvent::Malformed), (ConnectionState::Streaming, ConnectionAction::Nothing));
    let (c, a) = step(s, ConnectionEvent::SendFailed);
    assert_eq!((c, a), (ConnectionState::Closed, ConnectionAction::TearDown));
    assert_eq!(step(s, ConnectionEvent::ReceiveEnded), (ConnectionState::Closed, ConnectionAction::TearDown));
    assert_eq!(step(c, ConnectionEvent::PushTick), (ConnectionState::Closed, ConnectionAction::Nothing));
}
