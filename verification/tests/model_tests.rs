//! Unit tests of the geometry, the decision policy, the agent-level
//! movement, and the roll source.

use tactix_ai::agent::{Agent, AgentAction, AgentState};
use tactix_ai::perception::PerceptionData;
use tactix_ai::rng::SeededRng;
use tactix_ai::vec2::{isqrt, Vec2};
use tactix_ai::weapon::WeaponStats;

fn scout(health: i64) -> Agent {
    Agent {
        id: 1,
        team: 1,
        position: Vec2 { x: 0, y: 0 },
        health,
        morale: 1_000,
        weapon: WeaponStats { range: 30_000, accuracy: 900, damage: 15_000, fire_rate: 1_000 },
        state: AgentState::Idle,
    }
}

#[test]
fn test_isqrt_exact_values() {
    assert_eq!(isqrt(0), 0);
    assert_eq!(isqrt(1), 1);
    assert_eq!(isqrt(3), 1);
    assert_eq!(isqrt(4), 2);
    assert_eq!(isqrt(99), 9);
    assert_eq!(isqrt(100), 10);
    assert_eq!(isqrt(25_000_000), 5_000);
    assert_eq!(isqrt(9_223_372_036_854_775_807), 3_037_000_499);
}

#[test]
fn test_vec2_length_and_distance() {
    let v = Vec2 { x: 3_000, y: 4_000 };
    assert_eq!(v.length(), 5_000);
    let a = Vec2 { x: 1_000, y: 2_000 };
    let b = Vec2 { x: 4_000, y: 6_000 };
    assert_eq!(a.distance(b), 5_000);
    assert_eq!(a.dist_sq(b), 25_000_000);
    assert_eq!(b.sub(a), Vec2 { x: 3_000, y: 4_000 });
    assert_eq!(a.add(b), Vec2 { x: 5_000, y: 8_000 });
}

#[test]
fn test_vec2_normalized() {
    let v = Vec2 { x: 3_000, y: 4_000 };
    assert_eq!(v.normalized(), Vec2 { x: 600, y: 800 });
    let zero = Vec2 { x: 0, y: 0 };
    assert_eq!(zero.normalized(), Vec2 { x: 0, y: 0 });
    let neg = Vec2 { x: -3_000, y: 4_000 };
    assert_eq!(neg.normalized(), Vec2 { x: -600, y: 800 });
}

#[test]
fn test_decide_seeks_cover_when_critical() {
    // Health 20 (below the 25 threshold), cover 10 units away, nothing
    // visible: the policy moves to cover, not idle and not attack.
    let a = scout(20_000);
    let p = PerceptionData {
        visible_enemies: vec![],
        nearest_cover: Some(Vec2 { x: 10_000, y: 0 }),
        is_under_fire: false,
    };
    assert_eq!(a.decide(&p), AgentAction::MoveTo(Vec2 { x: 10_000, y: 0 }));
}

#[test]
fn test_decide_critical_beats_engagement() {
    let a = scout(20_000);
    let p = PerceptionData {
        visible_enemies: vec![5],
        nearest_cover: Some(Vec2 { x: 10_000, y: 0 }),
        is_under_fire: true,
    };
    assert_eq!(a.decide(&p), AgentAction::MoveTo(Vec2 { x: 10_000, y: 0 }));
}

#[test]
fn test_decide_no_noop_move_onto_near_cover() {
    // Cover half a unit away: the survival rules refuse the no-op move
    // and the policy falls through to the next rule.
    let a = scout(20_000);
    let p = PerceptionData {
        visible_enemies: vec![],
        nearest_cover: Some(Vec2 { x: 500, y: 0 }),
        is_under_fire: true,
    };
    assert_eq!(a.decide(&p), AgentAction::Idle);
    let p2 = PerceptionData {
        visible_enemies: vec![9],
        nearest_cover: Some(Vec2 { x: 500, y: 0 }),
        is_under_fire: false,
    };
    assert_eq!(a.decide(&p2), AgentAction::Attack(9));
}

#[test]
fn test_decide_attacks_first_visible_enemy() {
    let a = scout(90_000);
    let p = PerceptionData {
        visible_enemies: vec![4, 2, 8],
        nearest_cover: None,
        is_under_fire: false,
    };
    assert_eq!(a.decide(&p), AgentAction::Attack(4));
}

#[test]
fn test_decide_is_deterministic() {
    let a = scout(90_000);
    let p = PerceptionData {
        visible_enemies: vec![4, 2],
        nearest_cover: Some(Vec2 { x: 9_000, y: 0 }),
        is_under_fire: true,
    };
    let first = a.decide(&p);
    let second = a.decide(&p);
    assert_eq!(first, second);
}

#[test]
fn test_is_alive_by_state() {
    let mut a = scout(50_000);
    assert!(a.is_alive());
    a.state = AgentState::Downed;
    assert!(!a.is_alive());
    a.state = AgentState::Dead;
    assert!(!a.is_alive());
    a.state = AgentState::Suppressing(2);
    assert!(a.is_alive());
}

#[test]
fn test_move_towards_steps_one_unit() {
    let mut a = scout(50_000);
    a.move_towards(Vec2 { x: 10_000, y: 0 });
    assert_eq!(a.position, Vec2 { x: 1_000, y: 0 });
    a.move_towards(Vec2 { x: 10_000, y: 0 });
    assert_eq!(a.position, Vec2 { x: 2_000, y: 0 });
}

#[test]
fn test_move_towards_snaps_when_close() {
    let mut a = scout(50_000);
    a.position = Vec2 { x: 9_995, y: 0 };
    a.move_towards(Vec2 { x: 10_000, y: 0 });
    assert_eq!(a.position, Vec2 { x: 10_000, y: 0 });
}

#[test]
fn test_apply_action_only_moves() {
    let mut a = scout(50_000);
    a.apply_action(AgentAction::Attack(2));
    assert_eq!(a.position, Vec2 { x: 0, y: 0 });
    assert_eq!(a.health, 50_000);
    a.apply_action(AgentAction::Idle);
    assert_eq!(a.position, Vec2 { x: 0, y: 0 });
    a.apply_action(AgentAction::MoveTo(Vec2 { x: 10_000, y: 0 }));
    assert_eq!(a.position, Vec2 { x: 1_000, y: 0 });
}

#[test]
fn test_describe_state_texts() {
    assert_eq!(Agent::describe_state(&AgentState::Idle), "Holding Position");
    assert_eq!(Agent::describe_state(&AgentState::Moving(Vec2 { x: 1, y: 2 })), "Moving");
    assert_eq!(Agent::describe_state(&AgentState::Attacking(4)), "Firing");
    assert_eq!(Agent::describe_state(&AgentState::Suppressing(4)), "Suppressing");
    assert_eq!(Agent::describe_state(&AgentState::Downed), "DOWNED - Bleeding Out");
    assert_eq!(Agent::describe_state(&AgentState::Dead), "KIA");
}

#[test]
fn test_rng_roll_stays_in_range() {
    let mut rng = SeededRng::new(7);
    for _ in 0..200 {
        let r = rng.roll();
        assert!((0..1_000).contains(&r));
    }
}

#[test]
fn test_rng_range_stays_in_bounds() {
    let mut rng = SeededRng::new(11);
    for _ in 0..200 {
        let r = rng.range(5_000, 10_000);
        assert!((5_000..=10_000).contains(&r));
    }
    assert_eq!(rng.range(3, 3), 3);
}

#[test]
fn test_rng_same_seed_same_stream() {
    let mut a = SeededRng::new(1234);
    let mut b = SeededRng::new(1234);
    for _ in 0..50 {
        assert_eq!(a.roll(), b.roll());
    }
}

#[test]
fn test_vec2_scale() {
    let v = Vec2 { x: 3_000, y: -4_000 };
    assert_eq!(v.scale(500), Vec2 { x: 1_500, y: -2_000 });
    assert_eq!(v.scale(1_000), v);
    assert_eq!(v.scale(0), Vec2 { x: 0, y: 0 });
    assert_eq!(v.scale(-1_000), Vec2 { x: -3_000, y: 4_000 });
    let w = Vec2 { x: 1, y: -1 };
    assert_eq!(w.scale(500), Vec2 { x: 0, y: 0 });
}
