use podracer::geometry::Vector2;
use podracer::guidance::{early_turn, lead_offset, normal_accel};
use podracer::pod::{Action, Pod, Role, HEADING_SCALE};
use podracer::targeting::prioritize_opponent;
use podracer::track::Track;

fn triangle() -> Track {
    Track::new(
        vec![Vector2::new(0, 0), Vector2::new(1000, 0), Vector2::new(500, 1000)],
        3,
    )
}

fn east() -> Vector2 {
    Vector2::new(HEADING_SCALE, 0)
}

fn opponent_at(x: i64, y: i64, vx: i64, vy: i64) -> Pod {
    Pod::new(x, y, vx, vy, east(), 0, Role::Racer)
}

/// Thrust curve of the command sink: `tanh(16 c^4) * 100`, with `c` the
/// cosine between heading and steering direction.
fn thrust_for(heading: Vector2, offset: Vector2) -> u8 {
    let hn = ((heading.x * heading.x + heading.y * heading.y) as f64).sqrt();
    let on = ((offset.x * offset.x + offset.y * offset.y) as f64).sqrt();
    let c = if hn == 0.0 || on == 0.0 {
        0.0
    } else {
        (heading.x as f64 * offset.x as f64 + heading.y as f64 * offset.y as f64) / (hn * on)
    };
    ((16.0 * c.powi(4)).tanh() * 100.0).round() as u8
}

#[test]
fn pod_update_counts_every_waypoint_change() {
    let mut pod = Pod::racer();
    let mut laps = Vec::new();
    for idx in [0usize, 0, 1, 1, 2] {
        pod.update(10, 20, 3, 4, east(), idx);
        laps.push(pod.lap);
    }
    assert_eq!(laps, vec![0, 0, 1, 1, 2]);
    assert_eq!(pod.pos, Vector2::new(10, 20));
    assert_eq!(pod.vel, Vector2::new(3, 4));
    assert_eq!(pod.checkpoint_idx, 2);
    assert_eq!(pod.accel, 100);
    assert_eq!(pod.role, Role::Racer);
}

#[test]
fn update_takes_the_new_heading() {
    let mut pod = Pod::attacker();
    pod.update(0, 0, 0, 0, Vector2::new(0, HEADING_SCALE), 0);
    assert_eq!(pod.heading, Vector2::new(0, HEADING_SCALE));
    assert_eq!(pod.lap, 0);
    assert_eq!(pod.role, Role::Attacker);
}

#[test]
fn prioritizer_prefers_lap_then_waypoint() {
    let wps: Vec<Vector2> = (0..10).map(|i| Vector2::new(1000 * i, 0)).collect();
    let track = Track::new(wps, 3);
    let mut opponents = Vec::new();
    for (lap, idx, x) in [(2u32, 3usize, 3000i64), (2, 5, 0), (1, 9, 9000)] {
        let mut p = opponent_at(x, 0, 0, 0);
        p.lap = lap;
        p.checkpoint_idx = idx;
        opponents.push(p);
    }
    assert_eq!(prioritize_opponent(&opponents, &track), 1);
}

#[test]
fn prioritizer_breaks_ties_by_distance_then_order() {
    let track = triangle();
    let near = opponent_at(900, 0, 0, 0);
    let far = opponent_at(0, 0, 0, 0);
    let mut a = near;
    let mut b = far;
    a.checkpoint_idx = 1;
    b.checkpoint_idx = 1;
    assert_eq!(prioritize_opponent(&vec![b, a], &track), 1);
    assert_eq!(prioritize_opponent(&vec![a, b], &track), 0);
    assert_eq!(prioritize_opponent(&vec![a, a], &track), 0);
}

#[test]
fn shield_at_the_safety_boundary() {
    let pod = Pod::racer();
    assert!(pod.shield_needed(&vec![opponent_at(880, 0, 0, 0)]));
    assert!(!pod.shield_needed(&vec![opponent_at(881, 0, 0, 0)]));
    assert!(pod.shield_needed(&vec![opponent_at(528, 704, 0, 0)]));
    assert!(!pod.shield_needed(&vec![opponent_at(528, 705, 0, 0)]));
}

#[test]
fn shield_only_for_opponents_ahead() {
    let pod = Pod::racer();
    assert!(!pod.shield_needed(&vec![opponent_at(-100, 0, 0, 0)]));
    assert!(!pod.shield_needed(&vec![opponent_at(0, 300, 0, 0)]));
    assert!(pod.shield_needed(&vec![opponent_at(-100, 0, 200, 0)]));
    assert!(!pod.shield_needed(&vec![]));
}

#[test]
fn shield_uses_predicted_positions() {
    let mut pod = Pod::racer();
    pod.update(0, 0, 500, 0, east(), 0);
    assert!(pod.shield_needed(&vec![opponent_at(1300, 0, 0, 0)]));
    assert!(!pod.shield_needed(&vec![opponent_at(1400, 0, 0, 0)]));
}

#[test]
fn command_records_thrust_and_may_shield() {
    let mut pod = Pod::racer();
    assert_eq!(pod.command(&vec![opponent_at(5000, 0, 0, 0)], 37), Action::Thrust(37));
    assert_eq!(pod.accel, 37);
    assert_eq!(pod.command(&vec![opponent_at(500, 0, 0, 0)], 80), Action::Shield);
    assert_eq!(pod.accel, 80);
}

#[test]
fn racer_scenario_boost_then_thrust() {
    let track = triangle();
    let mut pod = Pod::racer();
    let opponents = vec![opponent_at(5000, 5000, 0, 0)];
    let (target, action) = pod.opening(&track);
    assert_eq!(action, Action::Boost);
    assert_eq!(target, Vector2::new(400, 0));

    pod.update(0, 0, 0, 0, east(), 0);
    let steer = pod.steer_point(&track, &opponents);
    assert_eq!(steer, Vector2::new(100, 0));
    let thrust = thrust_for(pod.heading, steer.sub(pod.pos));
    let action = pod.command(&opponents, thrust);
    assert_eq!(action, Action::Thrust(100));
    assert!(steer.x > 0 && steer.y == 0);
}

#[test]
fn racer_close_and_fast_aims_at_next_waypoint() {
    let track = triangle();
    let mut pod = Pod::racer();
    pod.update(300, 0, 500, 0, east(), 0);
    assert_eq!(pod.steer_point(&track, &vec![]), Vector2::new(1000, 0));
}

#[test]
fn racer_target_on_a_single_waypoint_track() {
    let track = Track::new(vec![Vector2::new(700, -300)], 1);
    let pod = Pod::racer();
    assert_eq!(pod.racing_target(&track), Vector2::new(700, -300));
    assert_eq!(track.segment(0), Vector2::new(0, 0));
}

#[test]
fn attacker_ambushes_the_leg_when_opponent_is_ahead() {
    let track = triangle();
    let mut pod = Pod::attacker();
    pod.update(0, 0, 100, 0, east(), 0);
    let mut opp = opponent_at(2000, 10, 0, 0);
    opp.checkpoint_idx = 1;
    assert_eq!(pod.attack_target(&opp, &track), Vector2::new(750, 500));
    let (target, rel) = pod.acquire_target(&track, &vec![opp]);
    assert_eq!(target, Vector2::new(750, 500));
    assert_eq!(rel, Vector2::new(-100, 0));
}

#[test]
fn attacker_cuts_in_front_when_opponent_is_aside() {
    let track = triangle();
    let mut pod = Pod::attacker();
    pod.update(0, 0, 100, 0, east(), 0);
    let mut opp = opponent_at(0, 2000, 50, -50);
    opp.checkpoint_idx = 0;
    assert_eq!(pod.attack_target(&opp, &track), Vector2::new(50, 1550));
}

#[test]
fn racer_relative_velocity_is_own_velocity_reversed() {
    let track = triangle();
    let mut pod = Pod::racer();
    pod.update(0, 500, 30, -40, east(), 1);
    let (target, rel) = pod.acquire_target(&track, &vec![]);
    assert_eq!(target, Vector2::new(1000 - 178, 357));
    assert_eq!(rel, Vector2::new(-30, 40));
}

#[test]
fn normal_acceleration_exact_values() {
    assert_eq!(normal_accel(Vector2::new(7, 0), Vector2::new(10, 3)), Vector2::new(1, -4));
    assert_eq!(normal_accel(Vector2::new(100, 0), Vector2::new(0, 50)), Vector2::new(25, 0));
    assert_eq!(normal_accel(Vector2::new(0, 0), Vector2::new(10, 3)), Vector2::new(0, 0));
}

#[test]
fn lead_offset_spends_the_rest_of_the_thrust_along_the_range() {
    assert_eq!(lead_offset(Vector2::new(100, 0), Vector2::new(0, 50)), Vector2::new(121, 0));
    assert_eq!(lead_offset(Vector2::new(400, 0), Vector2::new(0, 0)), Vector2::new(100, 0));
    assert_eq!(lead_offset(Vector2::new(0, 0), Vector2::new(0, 0)), Vector2::new(0, 0));
}

#[test]
fn lead_offset_saturates_on_the_correction() {
    assert_eq!(lead_offset(Vector2::new(1, 0), Vector2::new(0, 200)), Vector2::new(100, 0));
}

#[test]
fn early_turn_follows_the_flight_time_estimate() {
    assert!(early_turn(10000, 250000, 100));
    assert!(!early_turn(10000, 0, 100));
    assert!(!early_turn(160000, 0, 100));
    // 9 * 1000 + 85 * 1 = 9085 against 51 * 178 = 9078 and 51 * 179 = 9129
    assert!(!early_turn(1000000, 178 * 178, 1));
    assert!(early_turn(1000000, 179 * 179, 1));
}
