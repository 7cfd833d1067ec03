//! The tick orchestrator: perceive, decide, resolve, update passive
//! stats, advance the counter — wholly synchronous, one tick at a time.

use vstd::prelude::*;
use crate::DMG_CAP;
use crate::FP_ONE;
use crate::HP_CAP;
use crate::HP_FLOOR;
use crate::agent::Agent;
use crate::agent::AgentAction;
use crate::agent::AgentState;
use crate::cover::CoverNode;
use crate::decision::spec_decide_facts;
use crate::decision::spec_decisions;
use crate::perception::PerceptionData;
use crate::perception::perception_matches;
use crate::perception::spec_nearest_cover;
use crate::perception::spec_nearest_cover_pos;
use crate::perception::spec_sees;
use crate::perception::spec_under_fire;
use crate::perception::spec_visible_enemies;
use crate::resolve::action_target_ok;
use crate::resolve::spec_apply_attack;
use crate::resolve::spec_apply_move;
use crate::resolve::spec_combat_pass;
use crate::resolve::spec_move_pass;
use crate::resolve::spec_passive_pass;
use crate::resolve::spec_resolve;
use crate::resolve::lemma_find_agent;
use crate::world::World;
use crate::world::ids_unique;
use crate::world::roster_wf;

verus! {

/// The decision the world's pipeline reaches for the agent at index `i`:
/// its id, paired with the cascade evaluated on that agent's perception
/// facts.
pub open spec fn spec_world_decision_at(w: World, i: int) -> (u32, AgentAction) {
    let a = w.agents@[i];
    (
        a.id,
        spec_decide_facts(
            a,
            spec_visible_enemies(w.agents@, a),
            spec_nearest_cover_pos(w.cover_nodes@, a.position),
            spec_under_fire(w.agents@, a),
        ),
    )
}

/// The decisions of the first `n` agents, living ones only, in order.
pub open spec fn spec_world_decisions_up_to(w: World, n: int) -> Seq<(u32, AgentAction)>
    decreases n,
{
    if n <= 0 {
        Seq::empty()
    } else {
        let rest = spec_world_decisions_up_to(w, n - 1);
        if w.agents@[n - 1].health > 0 {
            rest.push(spec_world_decision_at(w, n - 1))
        } else {
            rest
        }
    }
}

/// Every living agent's decision for one tick of this world, in roster
/// order.
pub open spec fn spec_world_decisions(w: World) -> Seq<(u32, AgentAction)> {
    spec_world_decisions_up_to(w, w.agents@.len() as int)
}

/// Which agents start the tick under fire, in roster order.
pub open spec fn spec_world_under_fire(w: World) -> Seq<bool> {
    Seq::new(w.agents@.len(), |i: int| spec_under_fire(w.agents@, w.agents@[i]))
}

/// Everything one tick does to the roster: resolve every living agent's
/// decision (movement first, then combat), then apply the passive-stats
/// step with the tick's own under-fire facts.
pub open spec fn spec_tick_agents(w: World) -> Seq<Agent> {
    spec_passive_pass(
        spec_resolve(w.agents@, spec_world_decisions(w)),
        spec_world_under_fire(w),
    )
}

/// Decisions computed from faithful perception rows are the world's
/// decisions.
proof fn lemma_decisions_match(w: World, percs: Seq<PerceptionData>, n: int)
    requires
        percs.len() == w.agents@.len(),
        0 <= n <= w.agents@.len(),
        forall|i: int| 0 <= i < percs.len() ==> perception_matches(w, i, #[trigger] percs[i]),
    ensures
        spec_decisions(w.agents@.take(n), percs.take(n)) == spec_world_decisions_up_to(w, n),
    decreases n,
{
    if n > 0 {
        lemma_decisions_match(w, percs, n - 1);
        assert(w.agents@.take(n).drop_last() =~= w.agents@.take(n - 1));
        assert(percs.take(n).drop_last() =~= percs.take(n - 1));
        assert(w.agents@.take(n).last() == w.agents@[n - 1]);
        assert(percs.take(n).last() == percs[n - 1]);
    }
}

/// The nearest cover node, when there is one, is a well-formed node of
/// the layout.
proof fn lemma_nearest_cover_wf(covers: Seq<CoverNode>, pos: crate::vec2::Vec2)
    requires
        forall|i: int| 0 <= i < covers.len() ==> (#[trigger] covers[i]).wf(),
    ensures
        match spec_nearest_cover(covers, pos) {
            Some(c) => c.wf(),
            None => true,
        },
    decreases covers.len(),
{
    if covers.len() > 0 {
        assert(forall|i: int|
            0 <= i < covers.drop_last().len() ==> #[trigger] covers.drop_last()[i] == covers[i]);
        lemma_nearest_cover_wf(covers.drop_last(), pos);
    }
}

/// Some living agent of a team other than `a`'s, and other than `a`
/// itself, carries the id `e`.
pub open spec fn id_of_living_enemy(agents: Seq<Agent>, a: Agent, e: u32) -> bool {
    exists|j: int|
        0 <= j < agents.len() && (#[trigger] agents[j]).id == e && agents[j].health > 0
            && agents[j].team != a.team && agents[j].id != a.id
}

/// Every id a perception row lists belongs to a living agent of another
/// team — never the perceiver itself.
pub proof fn lemma_visible_enemies_alive(agents: Seq<Agent>, a: Agent)
    ensures
        forall|k: int|
            0 <= k < spec_visible_enemies(agents, a).len() ==> id_of_living_enemy(
                agents,
                a,
                #[trigger] spec_visible_enemies(agents, a)[k],
            ),
    decreases agents.len(),
{
    if agents.len() > 0 {
        let rest = agents.drop_last();
        lemma_visible_enemies_alive(rest, a);
        assert(forall|i: int| 0 <= i < rest.len() ==> #[trigger] rest[i] == agents[i]);
        let vis = spec_visible_enemies(agents, a);
        let vis0 = spec_visible_enemies(rest, a);
        assert forall|k: int|
            0 <= k < vis.len() implies id_of_living_enemy(agents, a, #[trigger] vis[k]) by {
            if k < vis0.len() {
                assert(vis[k] == vis0[k]);
                assert(id_of_living_enemy(rest, a, vis0[k]));
                let j = choose|j: int|
                    0 <= j < rest.len() && (#[trigger] rest[j]).id == vis0[k] && rest[j].health > 0
                        && rest[j].team != a.team && rest[j].id != a.id;
                assert(agents[j] == rest[j]);
            } else {
                assert(spec_sees(a, agents.last()));
                assert(vis[k] == agents.last().id);
                assert(agents[agents.len() - 1] == agents.last());
            }
        }
    }
}

/// What the pipeline's decisions guarantee: no more of them than agents,
/// every movement target bounded, every decider and every attack target a
/// living agent.
pub proof fn lemma_world_decisions_props(w: World, n: int)
    requires
        w.wf(),
        0 <= n <= w.agents@.len(),
    ensures
        spec_world_decisions_up_to(w, n).len() <= n,
        forall|k: int|
            0 <= k < spec_world_decisions_up_to(w, n).len() ==> action_target_ok(
                #[trigger] spec_world_decisions_up_to(w, n)[k],
            ),
        forall|k: int|
            0 <= k < spec_world_decisions_up_to(w, n).len() ==> (match (
            #[trigger] spec_world_decisions_up_to(w, n)[k]).1 {
                AgentAction::Attack(t) => exists|j: int|
                    0 <= j < w.agents@.len() && (#[trigger] w.agents@[j]).id == t
                        && w.agents@[j].health > 0,
                _ => true,
            }),
        forall|k: int|
            0 <= k < spec_world_decisions_up_to(w, n).len() ==> exists|j: int|
                0 <= j < w.agents@.len() && (#[trigger] w.agents@[j]).id
                    == (#[trigger] spec_world_decisions_up_to(w, n)[k]).0 && w.agents@[j].health
                    > 0,
    decreases n,
{
    if n > 0 {
        lemma_world_decisions_props(w, n - 1);
        let d = spec_world_decisions_up_to(w, n);
        let rest = spec_world_decisions_up_to(w, n - 1);
        if w.agents@[n - 1].health > 0 {
            let a = w.agents@[n - 1];
            lemma_nearest_cover_wf(w.cover_nodes@, a.position);
            lemma_visible_enemies_alive(w.agents@, a);
            let entry = spec_world_decision_at(w, n - 1);
            assert(exists|j: int|
                0 <= j < w.agents@.len() && (#[trigger] w.agents@[j]).id == entry.0
                    && w.agents@[j].health > 0) by {
                assert(w.agents@[n - 1].id == entry.0 && w.agents@[n - 1].health > 0);
            }
            match entry.1 {
                AgentAction::Attack(t) => {
                    let vis = spec_visible_enemies(w.agents@, a);
                    assert(t == vis[0]);
                    assert(id_of_living_enemy(w.agents@, a, vis[0]));
                    let j = choose|j: int|
                        0 <= j < w.agents@.len() && (#[trigger] w.agents@[j]).id == t
                            && w.agents@[j].health > 0 && w.agents@[j].team != a.team
                            && w.agents@[j].id != a.id;
                    assert(w.agents@[j].id == t && w.agents@[j].health > 0);
                },
                _ => {},
            }
            assert(forall|k: int| 0 <= k < rest.len() ==> #[trigger] d[k] == rest[k]);
            assert(d[d.len() - 1] == entry);
        }
    }
}

/// The movement pass leaves everything but positions and movement states
/// alone, and keeps every agent well-formed when the targets are bounded.
pub proof fn lemma_move_pass_preserves(agents: Seq<Agent>, actions: Seq<(u32, AgentAction)>)
    requires
        forall|j: int| 0 <= j < agents.len() ==> (#[trigger] agents[j]).wf(),
        forall|k: int| 0 <= k < actions.len() ==> action_target_ok(#[trigger] actions[k]),
    ensures
        spec_move_pass(agents, actions).len() == agents.len(),
        forall|j: int|
            0 <= j < agents.len() ==> {
                let r = #[trigger] spec_move_pass(agents, actions)[j];
                &&& r.wf()
                &&& r.id == agents[j].id
                &&& r.team == agents[j].team
                &&& r.health == agents[j].health
                &&& r.morale == agents[j].morale
                &&& r.weapon == agents[j].weapon
            },
    decreases actions.len(),
{
    if actions.len() > 0 {
        let mid = spec_apply_move(agents, actions[0]);
        match actions[0].1 {
            AgentAction::MoveTo(target) => {
                lemma_find_agent(agents, actions[0].0);
            },
            _ => {},
        }
        assert(forall|j: int| 0 <= j < mid.len() ==> (#[trigger] mid[j]).wf());
        assert(forall|k: int|
            0 <= k < actions.drop_first().len() ==> #[trigger] actions.drop_first()[k] == actions[k
                + 1]);
        lemma_move_pass_preserves(mid, actions.drop_first());
    }
}

/// The combat pass leaves identity, position, morale and weapons alone;
/// health only drops, by at most one maximal weapon per action, and only
/// on agents some action targets; states change only to `Attacking`.
pub proof fn lemma_combat_pass_preserves(agents: Seq<Agent>, actions: Seq<(u32, AgentAction)>)
    requires
        forall|j: int| 0 <= j < agents.len() ==> (#[trigger] agents[j]).weapon.wf(),
        forall|j: int|
            0 <= j < agents.len() ==> (#[trigger] agents[j]).health - (actions.len() + 1)
                * DMG_CAP >= i64::MIN,
    ensures
        spec_combat_pass(agents, actions).len() == agents.len(),
        forall|j: int|
            0 <= j < agents.len() ==> {
                let r = #[trigger] spec_combat_pass(agents, actions)[j];
                &&& r.id == agents[j].id
                &&& r.team == agents[j].team
                &&& r.position == agents[j].position
                &&& r.weapon == agents[j].weapon
                &&& r.morale == agents[j].morale
                &&& (r.state == agents[j].state || r.state is Attacking)
                &&& agents[j].health - actions.len() * DMG_CAP <= r.health <= agents[j].health
                &&& (r.health != agents[j].health ==> exists|k: int|
                    0 <= k < actions.len() && (#[trigger] actions[k]).1 == AgentAction::Attack(
                        agents[j].id,
                    ))
            },
    decreases actions.len(),
{
    if actions.len() > 0 {
        let entry = actions[0];
        let mid = spec_apply_attack(agents, entry);
        match entry.1 {
            AgentAction::Attack(target_id) => {
                lemma_find_agent(agents, entry.0);
                match crate::resolve::spec_find_agent(agents, entry.0) {
                    Some(ai) => {
                        let firing = agents.update(
                            ai,
                            Agent { state: AgentState::Attacking(target_id), ..agents[ai] },
                        );
                        lemma_find_agent(firing, target_id);
                    },
                    None => {},
                }
            },
            _ => {},
        }
        assert(mid.len() == agents.len());
        assert(forall|j: int|
            0 <= j < agents.len() ==> agents[j].health - DMG_CAP <= (#[trigger] mid[j]).health
                <= agents[j].health);
        assert(forall|k: int|
            0 <= k < actions.drop_first().len() ==> #[trigger] actions.drop_first()[k] == actions[k
                + 1]);
        lemma_combat_pass_preserves(mid, actions.drop_first());
        let res = spec_combat_pass(agents, actions);
        assert(res == spec_combat_pass(mid, actions.drop_first()));
        assert forall|j: int| 0 <= j < agents.len() implies {
            let r = #[trigger] res[j];
            &&& (r.health != agents[j].health ==> exists|k: int|
                0 <= k < actions.len() && (#[trigger] actions[k]).1 == AgentAction::Attack(
                    agents[j].id,
                ))
        } by {
            let r = res[j];
            if r.health != agents[j].health {
                if r.health != mid[j].health {
                    let k = choose|k: int|
                        0 <= k < actions.drop_first().len() && (#[trigger] actions.drop_first()[k]).1
                            == AgentAction::Attack(mid[j].id);
                    assert(actions[k + 1].1 == AgentAction::Attack(agents[j].id));
                } else {
                    assert(mid[j].health != agents[j].health);
                    assert(entry.1 == AgentAction::Attack(agents[j].id) && 0 < actions.len());
                }
            }
        }
    }
}

impl World {
    /// Run one full tick: gather perceptions, collect every living
    /// agent's decision, resolve all actions (movement before combat),
    /// apply the passive-stats step, and advance the tick counter by one.
    ///
    /// The world stays well-formed, the layout and configuration are
    /// untouched, and the new roster is exactly `spec_tick_agents` of the
    /// old world: the whole pipeline is a function of the prior state.
    pub fn tick(&mut self)
        requires
            old(self).wf(),
            old(self).tick < u64::MAX,
        ensures
            final(self).wf(),
            final(self).tick == old(self).tick + 1,
            final(self).cover_nodes@ == old(self).cover_nodes@,
            final(self).config == old(self).config,
            final(self).agents@ == spec_tick_agents(*old(self)),
    {
        let ghost w0 = *old(self);
        let n: usize = self.agents.len();

        let percs: Vec<PerceptionData> = self.gather_perceptions();
        let actions: Vec<(u32, AgentAction)> = self.calculate_decisions(&percs);
        proof {
            lemma_decisions_match(w0, percs@, n as int);
            assert(w0.agents@.take(n as int) =~= w0.agents@);
            assert(percs@.take(n as int) =~= percs@);
            assert(actions@ == spec_world_decisions(w0));
            lemma_world_decisions_props(w0, n as int);
        }

        let mut flags: Vec<bool> = Vec::new();
        let mut i: usize = 0;
        while i < n
            invariant
                0 <= i <= n,
                n == percs@.len(),
                n == w0.agents@.len(),
                flags@.len() == i,
                forall|j: int| 0 <= j < percs@.len() ==> perception_matches(w0, j, #[trigger] percs@[j]),
                forall|j: int| 0 <= j < i ==> #[trigger] flags@[j] == spec_under_fire(
                    w0.agents@,
                    w0.agents@[j],
                ),
            decreases n - i,
        {
            let uf: bool = percs[i].is_under_fire;
            flags.push(uf);
            i += 1;
        }
        proof {
            assert(flags@ =~= spec_world_under_fire(w0));
        }

        self.resolve_actions(&actions);

        proof {
            let acts = actions@;
            let mid = spec_move_pass(w0.agents@, acts);
            let res = spec_resolve(w0.agents@, acts);
            lemma_move_pass_preserves(w0.agents@, acts);
            assert forall|j: int|
                0 <= j < mid.len() implies (#[trigger] mid[j]).weapon.wf() && mid[j].health - (
            acts.len() + 1) * DMG_CAP >= i64::MIN by {
                assert(w0.agents@[j].wf());
                assert(acts.len() <= 4096);
                assert((acts.len() + 1) * DMG_CAP <= 4097 * DMG_CAP);
            }
            lemma_combat_pass_preserves(mid, acts);
            assert(self.agents@ == res);
            assert forall|j: int|
                0 <= j < self.agents@.len() implies (#[trigger] self.agents@[j]).morale >= 0 by {
                assert(w0.agents@[j].wf());
            }
        }

        self.update_passive_stats(&flags);
        self.tick = self.tick + 1;

        proof {
            let acts = actions@;
            let mid = spec_move_pass(w0.agents@, acts);
            let res = spec_resolve(w0.agents@, acts);
            let fin = self.agents@;
            assert(fin == spec_passive_pass(res, flags@));
            assert(fin == spec_tick_agents(w0));
            assert forall|j: int| 0 <= j < fin.len() implies (#[trigger] fin[j]).wf() by {
                assert(w0.agents@[j].wf());
                assert(fin[j] == crate::resolve::spec_passive_one(res[j], flags@[j]));
                assert(res[j].position == mid[j].position && mid[j].wf());
                assert(res[j].weapon == mid[j].weapon);
                assert(res[j].morale == mid[j].morale == w0.agents@[j].morale);
                assert(res[j].state == mid[j].state || res[j].state is Attacking);
                if res[j].health != w0.agents@[j].health {
                    assert(res[j].health != mid[j].health);
                    let k = choose|k: int|
                        0 <= k < acts.len() && (#[trigger] acts[k]).1 == AgentAction::Attack(
                            mid[j].id,
                        );
                    let t = w0.agents@[j].id;
                    let j2 = choose|j2: int|
                        0 <= j2 < w0.agents@.len() && (#[trigger] w0.agents@[j2]).id == t
                            && w0.agents@[j2].health > 0;
                    assert(j2 == j) by {
                        if j2 != j {
                            assert(ids_unique(w0.agents@));
                            if j2 < j {
                                assert(w0.agents@[j2].id != w0.agents@[j].id);
                            } else {
                                assert(w0.agents@[j].id != w0.agents@[j2].id);
                            }
                        }
                    }
                    assert(w0.agents@[j].health >= 1);
                    assert(res[j].health >= 1 - acts.len() * DMG_CAP);
                    assert(acts.len() * DMG_CAP <= 4096 * DMG_CAP);
                    assert(res[j].health >= HP_FLOOR);
                } else {
                    assert(res[j].health >= HP_FLOOR);
                }
                assert(res[j].health <= mid[j].health == w0.agents@[j].health);
                assert(HP_FLOOR <= fin[j].health <= HP_CAP);
                assert(0 <= fin[j].morale <= FP_ONE);
                assert(fin[j].position.in_bounds());
                assert(fin[j].state.wf());
            }
            assert(ids_unique(fin)) by {
                assert forall|p: int, q: int|
                    0 <= p < q < fin.len() implies #[trigger] fin[p].id != #[trigger] fin[q].id by {
                    assert(fin[p].id == res[p].id == mid[p].id == w0.agents@[p].id);
                    assert(fin[q].id == res[q].id == mid[q].id == w0.agents@[q].id);
                    assert(ids_unique(w0.agents@));
                }
            }
            assert(roster_wf(fin, self.cover_nodes@));
        }
    }
}

} // verus!
