//! End-to-end simulation tests: scenarios run through the tick pipeline.

use tactix_ai::agent::{Agent, AgentAction, AgentState};
use tactix_ai::cover::CoverNode;
use tactix_ai::vec2::Vec2;
use tactix_ai::weapon::WeaponStats;
use tactix_ai::world::{is_battle_over, Scenario, SimulationConfig, World};

fn rifle(damage: i64) -> WeaponStats {
    WeaponStats { range: 50_000, accuracy: 800, damage, fire_rate: 1_000 }
}

fn soldier(id: u32, team: u8, x: i64, y: i64, health: i64, damage: i64) -> Agent {
    Agent {
        id,
        team,
        position: Vec2 { x, y },
        health,
        morale: 1_000,
        weapon: rifle(damage),
        state: AgentState::Idle,
    }
}

fn world_of(agents: Vec<Agent>, cover_nodes: Vec<CoverNode>) -> World {
    let scenario = Scenario {
        agents,
        cover_nodes,
        config: SimulationConfig { rng_seed: 42, tick_rate: 2_000 },
        tick: 0,
    };
    World::from_scenario(scenario).expect("scenario should be well-formed")
}

#[test]
fn test_mutual_attack_both_down() {
    // Two agents of opposing teams, equal health 40, damage 20, in range,
    // no cover: two ticks of mutual fire drop both to zero and end the
    // battle.
    let a = soldier(1, 1, 0, 0, 40_000, 20_000);
    let b = soldier(2, 2, 5_000, 0, 40_000, 20_000);
    let mut w = world_of(vec![a, b], vec![]);

    assert!(!is_battle_over(&w));
    w.tick();
    assert_eq!(w.tick, 1);
    assert_eq!(w.agents[0].health, 20_000);
    assert_eq!(w.agents[1].health, 20_000);
    assert!(matches!(w.agents[0].state, AgentState::Attacking(2)));
    assert!(matches!(w.agents[1].state, AgentState::Attacking(1)));
    assert!(!is_battle_over(&w));

    w.tick();
    assert_eq!(w.tick, 2);
    assert_eq!(w.agents[0].health, 0);
    assert_eq!(w.agents[1].health, 0);
    assert!(matches!(w.agents[0].state, AgentState::Dead));
    assert!(matches!(w.agents[1].state, AgentState::Dead));
    assert!(is_battle_over(&w));
}

#[test]
fn test_mutual_attack_uneven() {
    // Health 100 versus 40, damage 20 each: the weaker side falls at tick
    // two and the battle ends with one team standing.
    let a = soldier(1, 1, 0, 0, 100_000, 20_000);
    let b = soldier(2, 2, 5_000, 0, 40_000, 20_000);
    let mut w = world_of(vec![a, b], vec![]);

    w.tick();
    assert_eq!(w.agents[0].health, 80_000);
    assert_eq!(w.agents[1].health, 20_000);
    assert!(!is_battle_over(&w));

    w.tick();
    assert_eq!(w.agents[0].health, 60_000);
    assert_eq!(w.agents[1].health, 0);
    assert!(matches!(w.agents[1].state, AgentState::Dead));
    assert!(!matches!(w.agents[0].state, AgentState::Dead));
    assert!(is_battle_over(&w));
    assert_eq!(w.tick, 2);
}

#[test]
fn test_resolver_moves_before_combat() {
    // One MoveTo and one Attack on the mover, the attack FIRST in the
    // input: movement still resolves first, so the mover ends on its
    // target and the attack still lands on the moved agent.
    let m = soldier(1, 1, 0, 0, 90_000, 20_000);
    let s = soldier(2, 2, 5_000, 0, 90_000, 20_000);
    let mut w = world_of(vec![m, s], vec![]);

    let actions = vec![
        (2u32, AgentAction::Attack(1)),
        (1u32, AgentAction::MoveTo(Vec2 { x: 100_000, y: 0 })),
    ];
    w.resolve_actions(&actions);

    assert_eq!(w.agents[0].position, Vec2 { x: 100_000, y: 0 });
    assert_eq!(w.agents[0].health, 70_000);
    assert!(matches!(w.agents[0].state, AgentState::Moving(_)));
    assert!(matches!(w.agents[1].state, AgentState::Attacking(1)));
}

#[test]
fn test_under_fire_agent_runs_to_cover() {
    // An agent already under fire, healthy, with distant cover: it moves
    // to cover instead of returning fire, and its morale decays.
    let mut shooter = soldier(1, 1, 0, 0, 90_000, 10_000);
    shooter.state = AgentState::Attacking(2);
    let runner = soldier(2, 2, 5_000, 0, 90_000, 10_000);
    let cover = CoverNode { id: 1, position: Vec2 { x: 5_000, y: 8_000 }, protection: 700 };
    let mut w = world_of(vec![shooter, runner], vec![cover]);

    w.tick();
    assert_eq!(w.agents[1].position, Vec2 { x: 5_000, y: 8_000 });
    assert!(matches!(w.agents[1].state, AgentState::Moving(_)));
    assert_eq!(w.agents[1].morale, 950);
    // the shooter was not under fire (the runner fled) and loses nothing
    assert_eq!(w.agents[0].morale, 1_000);
}

#[test]
fn test_dead_agent_is_invisible_and_inert() {
    // A dead enemy in range is neither seen nor shot, and never acts.
    let a = soldier(1, 1, 0, 0, 90_000, 20_000);
    let mut corpse = soldier(2, 2, 3_000, 0, 0, 20_000);
    corpse.state = AgentState::Dead;
    let mut w = world_of(vec![a, corpse], vec![]);

    let percs = w.gather_perceptions();
    assert_eq!(percs.len(), 2);
    assert!(percs[0].visible_enemies.is_empty());

    w.tick();
    assert_eq!(w.agents[0].health, 90_000);
    assert_eq!(w.agents[1].health, 0);
    assert!(matches!(w.agents[0].state, AgentState::Idle));
}

#[test]
fn test_attack_on_missing_target_is_a_miss() {
    let a = soldier(1, 1, 0, 0, 90_000, 20_000);
    let b = soldier(2, 2, 5_000, 0, 90_000, 20_000);
    let mut w = world_of(vec![a, b], vec![]);

    let actions = vec![(1u32, AgentAction::Attack(99))];
    w.resolve_actions(&actions);
    assert!(matches!(w.agents[0].state, AgentState::Attacking(99)));
    assert_eq!(w.agents[0].health, 90_000);
    assert_eq!(w.agents[1].health, 90_000);
}

#[test]
fn test_unknown_attacker_drops_attack() {
    let b = soldier(2, 2, 5_000, 0, 90_000, 20_000);
    let mut w = world_of(vec![b], vec![]);

    let actions = vec![(1u32, AgentAction::Attack(2))];
    w.resolve_actions(&actions);
    assert!(matches!(w.agents[0].state, AgentState::Idle));
    assert_eq!(w.agents[0].health, 90_000);
}

#[test]
fn test_unknown_mover_is_a_no_op() {
    let a = soldier(1, 1, 0, 0, 90_000, 20_000);
    let mut w = world_of(vec![a], vec![]);
    let actions = vec![(42u32, AgentAction::MoveTo(Vec2 { x: 7, y: 7 }))];
    w.resolve_actions(&actions);
    assert_eq!(w.agents[0].position, Vec2 { x: 0, y: 0 });
}

#[test]
fn test_tick_leaves_layout_and_config_alone() {
    let a = soldier(1, 1, 0, 0, 90_000, 20_000);
    let cover = CoverNode { id: 9, position: Vec2 { x: 1_000, y: 1_000 }, protection: 500 };
    let mut w = world_of(vec![a], vec![cover]);
    w.tick();
    w.tick();
    assert_eq!(w.tick, 2);
    assert_eq!(w.cover_nodes.len(), 1);
    assert_eq!(w.cover_nodes[0].id, 9);
    assert_eq!(w.config.rng_seed, 42);
}

#[test]
fn test_battle_over_cases() {
    assert!(is_battle_over(&world_of(vec![], vec![])));
    let lone = soldier(1, 1, 0, 0, 50_000, 10_000);
    assert!(is_battle_over(&world_of(vec![lone], vec![])));
    let a = soldier(1, 1, 0, 0, 50_000, 10_000);
    let b = soldier(2, 2, 9_000, 0, 50_000, 10_000);
    assert!(!is_battle_over(&world_of(vec![a, b], vec![])));
    let c = soldier(1, 1, 0, 0, 50_000, 10_000);
    let mut d = soldier(2, 2, 9_000, 0, 0, 10_000);
    d.state = AgentState::Dead;
    assert!(is_battle_over(&world_of(vec![c, d], vec![])));
}

#[test]
fn test_snapshot_reports_roster() {
    let a = soldier(1, 1, 2_000, 3_000, 90_000, 20_000);
    let mut corpse = soldier(2, 2, 0, 0, 0, 20_000);
    corpse.state = AgentState::Dead;
    let w = world_of(vec![a, corpse], vec![]);
    let snap = w.snapshot();
    assert_eq!(snap.tick, 0);
    assert_eq!(snap.agents.len(), 2);
    assert_eq!(snap.agents[0].id, 1);
    assert_eq!(snap.agents[0].team, 1);
    assert_eq!(snap.agents[0].position, Vec2 { x: 2_000, y: 3_000 });
    assert_eq!(snap.agents[0].health, 90_000);
    assert_eq!(snap.agents[0].morale, 1_000);
    assert_eq!(snap.agents[0].state_text, "Holding Position");
    assert_eq!(snap.agents[1].state_text, "KIA");
}

#[test]
fn test_scenario_round_trip() {
    // Writing a ticked world out and loading it back reproduces the
    // roster identically.
    let a = soldier(1, 1, 0, 0, 100_000, 20_000);
    let b = soldier(2, 2, 5_000, 0, 40_000, 20_000);
    let cover = CoverNode { id: 3, position: Vec2 { x: -4_000, y: 2_000 }, protection: 900 };
    let mut w = world_of(vec![a, b], vec![cover]);
    w.tick();

    let reloaded = World::from_scenario(w.to_scenario()).expect("snapshot should reload");
    assert_eq!(reloaded.agents, w.agents);
    assert_eq!(reloaded.cover_nodes, w.cover_nodes);
    assert_eq!(reloaded.config, w.config);
    assert_eq!(reloaded.tick, w.tick);
}

#[test]
fn test_from_scenario_rejects_duplicate_ids() {
    let a = soldier(7, 1, 0, 0, 50_000, 10_000);
    let b = soldier(7, 2, 9_000, 0, 50_000, 10_000);
    let scenario = Scenario {
        agents: vec![a, b],
        cover_nodes: vec![],
        config: SimulationConfig { rng_seed: 0, tick_rate: 1_000 },
        tick: 0,
    };
    assert!(World::from_scenario(scenario).is_err());
}

#[test]
fn test_from_scenario_rejects_out_of_range_fields() {
    let mut a = soldier(1, 1, 0, 0, 50_000, 10_000);
    a.morale = 2_000;
    let scenario = Scenario {
        agents: vec![a],
        cover_nodes: vec![],
        config: SimulationConfig { rng_seed: 0, tick_rate: 1_000 },
        tick: 0,
    };
    assert!(World::from_scenario(scenario).is_err());
}

#[test]
fn test_nearest_cover_tie_breaks_by_lowest_id() {
    let a = soldier(1, 1, 0, 0, 20_000, 10_000);
    let far = CoverNode { id: 7, position: Vec2 { x: 10_000, y: 0 }, protection: 500 };
    let near_tie = CoverNode { id: 3, position: Vec2 { x: -10_000, y: 0 }, protection: 500 };
    let w = world_of(vec![a], vec![far, near_tie]);
    let percs = w.gather_perceptions();
    assert_eq!(percs[0].nearest_cover, Some(Vec2 { x: -10_000, y: 0 }));
}
