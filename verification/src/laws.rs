//! The library's stated laws, proved once and for all.

use vstd::prelude::*;
use crate::DMG_CAP;
use crate::FP_ONE;
use crate::agent::Agent;
use crate::agent::AgentAction;
use crate::decision::spec_decide;
use crate::perception::PerceptionData;
use crate::perception::spec_visible_enemies;
use crate::resolve::action_target_ok;
use crate::resolve::spec_combat_pass;
use crate::resolve::spec_move_pass;
use crate::resolve::spec_resolve;
use crate::tick::id_of_living_enemy;
use crate::tick::lemma_combat_pass_preserves;
use crate::tick::lemma_move_pass_preserves;
use crate::tick::lemma_visible_enemies_alive;
use crate::tick::lemma_world_decisions_props;
use crate::tick::spec_world_decisions;
use crate::world::Scenario;
use crate::world::World;
use crate::world::ids_unique;
use crate::world::roster_wf;

verus! {

/// An agent out of health at the start of a tick is invisible: its id
/// never appears in any agent's list of visible enemies.
pub proof fn law_dead_are_invisible(w: World, d: int, i: int)
    requires
        w.wf(),
        0 <= d < w.agents@.len(),
        w.agents@[d].health <= 0,
        0 <= i < w.agents@.len(),
    ensures
        !spec_visible_enemies(w.agents@, w.agents@[i]).contains(w.agents@[d].id),
{
    let a = w.agents@[i];
    let vis = spec_visible_enemies(w.agents@, a);
    lemma_visible_enemies_alive(w.agents@, a);
    if vis.contains(w.agents@[d].id) {
        let k = choose|k: int| 0 <= k < vis.len() && vis[k] == w.agents@[d].id;
        assert(id_of_living_enemy(w.agents@, a, vis[k]));
        let j = choose|j: int|
            0 <= j < w.agents@.len() && (#[trigger] w.agents@[j]).id == vis[k]
                && w.agents@[j].health > 0 && w.agents@[j].team != a.team && w.agents@[j].id
                != a.id;
        assert(j != d);
        assert(ids_unique(w.agents@));
        if j < d {
            assert(w.agents@[j].id != w.agents@[d].id);
        } else {
            assert(w.agents@[d].id != w.agents@[j].id);
        }
    }
}

/// An agent out of health at the start of a tick is never decided for:
/// no entry of the tick's decisions carries its id.
pub proof fn law_dead_are_never_decided(w: World, d: int)
    requires
        w.wf(),
        0 <= d < w.agents@.len(),
        w.agents@[d].health <= 0,
    ensures
        forall|k: int|
            0 <= k < spec_world_decisions(w).len() ==> (#[trigger] spec_world_decisions(w)[k]).0
                != w.agents@[d].id,
{
    lemma_world_decisions_props(w, w.agents@.len() as int);
    let ds = spec_world_decisions(w);
    assert forall|k: int|
        0 <= k < ds.len() implies (#[trigger] ds[k]).0 != w.agents@[d].id by {
        let j = choose|j: int|
            0 <= j < w.agents@.len() && (#[trigger] w.agents@[j]).id == ds[k].0
                && w.agents@[j].health > 0;
        assert(j != d);
        assert(ids_unique(w.agents@));
        if j < d {
            assert(w.agents@[j].id != w.agents@[d].id);
        } else {
            assert(w.agents@[d].id != w.agents@[j].id);
        }
    }
}

/// The decision policy is a pure function: two calls on equal agents and
/// equal perception facts reach the identical action.
pub proof fn law_decide_is_pure(a1: Agent, p1: PerceptionData, a2: Agent, p2: PerceptionData)
    requires
        a1 == a2,
        p1.visible_enemies@ == p2.visible_enemies@,
        p1.nearest_cover == p2.nearest_cover,
        p1.is_under_fire == p2.is_under_fire,
    ensures
        spec_decide(a1, p1) == spec_decide(a2, p2),
{
}

/// The survival rules never issue a no-op move: whenever the policy
/// decides to move, the target is more than one unit away.
pub proof fn law_no_noop_move(a: Agent, p: PerceptionData)
    ensures
        forall|c: crate::vec2::Vec2|
            spec_decide(a, p) == AgentAction::MoveTo(c) ==> a.position.spec_dist_sq(c) > FP_ONE
                * FP_ONE,
{
}

/// The resolver's sub-order is fixed: combat never touches a position,
/// and movement never touches health. So every attack of a tick is
/// evaluated against post-movement positions, and movement is blind to
/// the tick's combat, whatever order the batch mixes the actions in.
pub proof fn law_resolver_suborder(agents: Seq<Agent>, actions: Seq<(u32, AgentAction)>)
    requires
        forall|j: int| 0 <= j < agents.len() ==> (#[trigger] agents[j]).wf(),
        forall|k: int| 0 <= k < actions.len() ==> action_target_ok(#[trigger] actions[k]),
        actions.len() <= 4096,
    ensures
        spec_resolve(agents, actions).len() == agents.len(),
        forall|j: int|
            0 <= j < agents.len() ==> (#[trigger] spec_resolve(agents, actions)[j]).position
                == spec_move_pass(agents, actions)[j].position,
        forall|j: int|
            0 <= j < agents.len() ==> (#[trigger] spec_move_pass(agents, actions)[j]).health
                == agents[j].health,
{
    lemma_move_pass_preserves(agents, actions);
    let mid = spec_move_pass(agents, actions);
    assert forall|j: int|
        0 <= j < mid.len() implies (#[trigger] mid[j]).weapon.wf() && mid[j].health - (actions.len()
        + 1) * DMG_CAP >= i64::MIN by {
        assert(agents[j].wf());
        assert((actions.len() + 1) * DMG_CAP <= 4097 * DMG_CAP);
    }
    lemma_combat_pass_preserves(mid, actions);
    assert(spec_resolve(agents, actions) == spec_combat_pass(mid, actions));
}

/// Writing a world out as a scenario yields a scenario that loads: it is
/// well-formed, so `World::from_scenario` accepts it and, by its
/// contract, reproduces the roster, layout, configuration and tick
/// counter identically.
pub proof fn law_scenario_round_trip(w: World, s: Scenario)
    requires
        w.wf(),
        s.agents@ == w.agents@,
        s.cover_nodes@ == w.cover_nodes@,
        s.config == w.config,
        s.tick == w.tick,
    ensures
        roster_wf(s.agents@, s.cover_nodes@),
{
}

} // verus!
