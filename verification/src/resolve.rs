//! The action resolver and the tick pipeline.
//!
//! Actions are applied in two deterministic passes: every movement first,
//! then every attack, each pass in input order. An action whose agent id
//! is unknown is a no-op; an attack on a missing target is a miss. The
//! exchange within a tick is simultaneous: every agent that was alive
//! when it decided gets its shot off, even if it falls first.

use vstd::prelude::*;
use crate::DMG_CAP;
use crate::HP_FLOOR;
use crate::MORALE_DECAY;
use crate::agent::Agent;
use crate::agent::AgentAction;
use crate::agent::AgentState;
use crate::vec2::Vec2;
use crate::world::World;

verus! {

/// The lowest health the resolver can reach mid-pass: a full roster of
/// maximal attacks below the loaded floor.
pub const COMBAT_FLOOR: i64 = HP_FLOOR - 4096 * DMG_CAP;

/// Index of the first agent with the given id, scanning in roster order.
pub open spec fn spec_find_agent(agents: Seq<Agent>, id: u32) -> Option<int>
    decreases agents.len(),
{
    if agents.len() == 0 {
        None
    } else if agents[0].id == id {
        Some(0int)
    } else {
        match spec_find_agent(agents.drop_first(), id) {
            Some(i) => Some(i + 1),
            None => None,
        }
    }
}

/// What `spec_find_agent` finding (or not finding) an id means.
pub proof fn lemma_find_agent(agents: Seq<Agent>, id: u32)
    ensures
        match spec_find_agent(agents, id) {
            None => forall|k: int| 0 <= k < agents.len() ==> (#[trigger] agents[k]).id != id,
            Some(i) => 0 <= i < agents.len() && agents[i].id == id && (forall|k: int|
                0 <= k < i ==> (#[trigger] agents[k]).id != id),
        },
    decreases agents.len(),
{
    if agents.len() > 0 && agents[0].id != id {
        let rest = agents.drop_first();
        lemma_find_agent(rest, id);
        assert(forall|k: int| 0 <= k < rest.len() ==> #[trigger] rest[k] == agents[k + 1]);
        match spec_find_agent(rest, id) {
            Some(i) => {
                assert(agents[i + 1] == rest[i]);
                assert forall|k: int| 0 <= k < i + 1 implies (#[trigger] agents[k]).id != id by {
                    if k > 0 {
                        assert(agents[k] == rest[k - 1]);
                    }
                }
            },
            None => {
                assert forall|k: int|
                    0 <= k < agents.len() implies (#[trigger] agents[k]).id != id by {
                    if k > 0 {
                        assert(agents[k] == rest[k - 1]);
                    }
                }
            },
        }
    }
}

/// A first match in the scan order is what `spec_find_agent` returns.
pub proof fn lemma_find_agent_at(agents: Seq<Agent>, id: u32, i: int)
    requires
        0 <= i < agents.len(),
        agents[i].id == id,
        forall|k: int| 0 <= k < i ==> (#[trigger] agents[k]).id != id,
    ensures
        spec_find_agent(agents, id) == Some(i),
    decreases i,
{
    if i == 0 {
    } else {
        assert(agents[0].id != id);
        assert(forall|k: int|
            0 <= k < agents.drop_first().len() ==> #[trigger] agents.drop_first()[k] == agents[k
                + 1]);
        lemma_find_agent_at(agents.drop_first(), id, i - 1);
    }
}

/// Find an agent by id: a linear scan of the roster.
fn find_agent_index(agents: &Vec<Agent>, id: u32) -> (r: Option<usize>)
    ensures
        match r {
            Some(i) => spec_find_agent(agents@, id) == Some(i as int),
            None => spec_find_agent(agents@, id) is None,
        },
{
    let mut i: usize = 0;
    while i < agents.len()
        invariant
            0 <= i <= agents@.len(),
            forall|k: int| 0 <= k < i ==> (#[trigger] agents@[k]).id != id,
        decreases agents@.len() - i,
    {
        if agents[i].id == id {
            proof {
                lemma_find_agent_at(agents@, id, i as int);
            }
            return Some(i);
        }
        i += 1;
    }
    proof {
        lemma_find_agent(agents@, id);
    }
    None
}

/// What one entry does in the movement pass: a `MoveTo` teleports its
/// agent onto the target and records the intent in its state; anything
/// else, or an unknown id, changes nothing.
pub open spec fn spec_apply_move(agents: Seq<Agent>, entry: (u32, AgentAction)) -> Seq<Agent> {
    match entry.1 {
        AgentAction::MoveTo(target) => match spec_find_agent(agents, entry.0) {
            Some(i) => agents.update(
                i,
                Agent { position: target, state: AgentState::Moving(target), ..agents[i] },
            ),
            None => agents,
        },
        _ => agents,
    }
}

/// The movement pass: every `MoveTo` applied in input order.
pub open spec fn spec_move_pass(agents: Seq<Agent>, actions: Seq<(u32, AgentAction)>) -> Seq<Agent>
    decreases actions.len(),
{
    if actions.len() == 0 {
        agents
    } else {
        spec_move_pass(spec_apply_move(agents, actions[0]), actions.drop_first())
    }
}

/// What one entry does in the combat pass: the attacker turns to
/// `Attacking` its target and the target, if present, loses the
/// attacker's weapon damage. An unknown attacker drops the attack; an
/// unknown target is a miss that still leaves the attacker firing.
///
/// The exchange is simultaneous within a tick: an attacker brought to
/// zero health earlier in the same pass still fires, since it was alive
/// when it decided. A dead agent never reaches the resolver at all: the
/// decision phase skips it.
pub open spec fn spec_apply_attack(agents: Seq<Agent>, entry: (u32, AgentAction)) -> Seq<Agent> {
    match entry.1 {
        AgentAction::Attack(target_id) => match spec_find_agent(agents, entry.0) {
            Some(ai) => {
                let dmg = agents[ai].weapon.damage;
                let firing = agents.update(
                    ai,
                    Agent { state: AgentState::Attacking(target_id), ..agents[ai] },
                );
                match spec_find_agent(firing, target_id) {
                    Some(ti) => firing.update(
                        ti,
                        Agent { health: (firing[ti].health - dmg) as i64, ..firing[ti] },
                    ),
                    None => firing,
                }
            },
            None => agents,
        },
        _ => agents,
    }
}

/// The combat pass: every `Attack` applied in input order.
pub open spec fn spec_combat_pass(agents: Seq<Agent>, actions: Seq<(u32, AgentAction)>) -> Seq<
    Agent,
>
    decreases actions.len(),
{
    if actions.len() == 0 {
        agents
    } else {
        spec_combat_pass(spec_apply_attack(agents, actions[0]), actions.drop_first())
    }
}

/// The whole resolution: the movement pass, then the combat pass.
pub open spec fn spec_resolve(agents: Seq<Agent>, actions: Seq<(u32, AgentAction)>) -> Seq<Agent> {
    spec_combat_pass(spec_move_pass(agents, actions), actions)
}

/// A movement target carried by an action is bounded.
pub open spec fn action_target_ok(entry: (u32, AgentAction)) -> bool {
    match entry.1 {
        AgentAction::MoveTo(target) => target.in_bounds(),
        _ => true,
    }
}

impl World {
    /// Teleport the agent with the given id onto `target`; an unknown id
    /// is a no-op. One entry of the movement pass.
    pub fn move_agent(&mut self, agent_id: u32, target: Vec2)
        ensures
            final(self).agents@ == spec_apply_move(
                old(self).agents@,
                (agent_id, AgentAction::MoveTo(target)),
            ),
            final(self).cover_nodes@ == old(self).cover_nodes@,
            final(self).config == old(self).config,
            final(self).tick == old(self).tick,
    {
        match find_agent_index(&self.agents, agent_id) {
            Some(i) => {
                proof {
                    lemma_find_agent(self.agents@, agent_id);
                }
                let a: Agent = self.agents[i];
                self.agents[i] = Agent { position: target, state: AgentState::Moving(target), ..a };
            },
            None => {},
        }
    }

    /// Resolve one attack: the attacker turns to `Attacking` and the
    /// target, if still present, loses the attacker's weapon damage. An
    /// unknown attacker drops the attack silently; an unknown target is
    /// a miss. One entry of the combat pass. Within a tick the exchange
    /// is simultaneous: dying earlier in the pass does not still a shot
    /// already decided.
    pub fn resolve_combat(&mut self, attacker_id: u32, target_id: u32)
        requires
            forall|j: int|
                0 <= j < old(self).agents@.len() ==> (#[trigger] old(self).agents@[j]).weapon.wf()
                    && old(self).agents@[j].health >= COMBAT_FLOOR - DMG_CAP,
        ensures
            final(self).agents@ == spec_apply_attack(
                old(self).agents@,
                (attacker_id, AgentAction::Attack(target_id)),
            ),
            final(self).cover_nodes@ == old(self).cover_nodes@,
            final(self).config == old(self).config,
            final(self).tick == old(self).tick,
    {
        match find_agent_index(&self.agents, attacker_id) {
            Some(ai) => {
                proof {
                    lemma_find_agent(self.agents@, attacker_id);
                }
                let attacker: Agent = self.agents[ai];
                let dmg: i64 = attacker.weapon.damage;
                self.agents[ai] = Agent { state: AgentState::Attacking(target_id), ..attacker };
                match find_agent_index(&self.agents, target_id) {
                    Some(ti) => {
                        proof {
                            lemma_find_agent(self.agents@, target_id);
                        }
                        let t: Agent = self.agents[ti];
                        self.agents[ti] = Agent { health: t.health - dmg, ..t };
                    },
                    None => {},
                }
            },
            None => {},
        }
    }

    /// Apply a batch of intended actions: all movement first, then all
    /// combat, each pass in input order, whatever order the batch mixes
    /// them in. World state may have changed since the actions were
    /// decided; stale references are absorbed, never an error.
    pub fn resolve_actions(&mut self, actions: &Vec<(u32, AgentAction)>)
        requires
            old(self).wf(),
            actions@.len() <= old(self).agents@.len(),
            forall|k: int| 0 <= k < actions@.len() ==> action_target_ok(#[trigger] actions@[k]),
        ensures
            final(self).agents@ == spec_resolve(old(self).agents@, actions@),
            final(self).cover_nodes@ == old(self).cover_nodes@,
            final(self).config == old(self).config,
            final(self).tick == old(self).tick,
    {
        let ghost entry_agents = self.agents@;
        proof {
            assert(actions@.skip(0) =~= actions@);
        }
        let n: usize = actions.len();
        let mut idx: usize = 0;
        while idx < n
            invariant
                0 <= idx <= n,
                n == actions@.len(),
                n <= entry_agents.len(),
                entry_agents.len() <= 4096,
                self.agents@.len() == entry_agents.len(),
                spec_move_pass(entry_agents, actions@) == spec_move_pass(
                    self.agents@,
                    actions@.skip(idx as int),
                ),
                forall|j: int|
                    0 <= j < entry_agents.len() ==> (#[trigger] self.agents@[j]).health
                        == entry_agents[j].health && self.agents@[j].weapon
                        == entry_agents[j].weapon && self.agents@[j].id == entry_agents[j].id,
                self.cover_nodes@ == old(self).cover_nodes@,
                self.config == old(self).config,
                self.tick == old(self).tick,
            decreases n - idx,
        {
            let entry: (u32, AgentAction) = actions[idx];
            let ghost before = self.agents@;
            match entry.1 {
                AgentAction::MoveTo(target) => {
                    self.move_agent(entry.0, target);
                },
                _ => {},
            }
            proof {
                lemma_find_agent(before, entry.0);
                assert(self.agents@ == spec_apply_move(before, actions@[idx as int]));
                assert(actions@.skip(idx as int).drop_first() =~= actions@.skip(idx + 1));
                assert(actions@.skip(idx as int)[0] == actions@[idx as int]);
            }
            idx += 1;
        }
        proof {
            assert(actions@.skip(n as int) =~= Seq::<(u32, AgentAction)>::empty());
            assert(spec_move_pass(self.agents@, actions@.skip(n as int)) == self.agents@);
            assert(self.agents@ == spec_move_pass(entry_agents, actions@));
        }

        let ghost mid_agents = self.agents@;
        proof {
            assert(actions@.skip(0) =~= actions@);
        }
        let mut idx2: usize = 0;
        while idx2 < n
            invariant
                0 <= idx2 <= n,
                n == actions@.len(),
                n <= entry_agents.len(),
                entry_agents.len() <= 4096,
                self.agents@.len() == mid_agents.len(),
                mid_agents.len() == entry_agents.len(),
                forall|j: int|
                    0 <= j < entry_agents.len() ==> (#[trigger] mid_agents[j]).health
                        == entry_agents[j].health && mid_agents[j].weapon
                        == entry_agents[j].weapon,
                forall|j: int|
                    0 <= j < entry_agents.len() ==> (#[trigger] entry_agents[j]).wf(),
                spec_combat_pass(mid_agents, actions@) == spec_combat_pass(
                    self.agents@,
                    actions@.skip(idx2 as int),
                ),
                forall|j: int|
                    0 <= j < mid_agents.len() ==> (#[trigger] self.agents@[j]).weapon
                        == mid_agents[j].weapon && mid_agents[j].health - idx2 * DMG_CAP
                        <= self.agents@[j].health <= mid_agents[j].health,
                self.cover_nodes@ == old(self).cover_nodes@,
                self.config == old(self).config,
                self.tick == old(self).tick,
            decreases n - idx2,
        {
            let entry: (u32, AgentAction) = actions[idx2];
            let ghost before = self.agents@;
            proof {
                assert forall|j: int| 0 <= j < self.agents@.len() implies (
                #[trigger] self.agents@[j]).weapon.wf() && self.agents@[j].health >= COMBAT_FLOOR
                    - DMG_CAP by {
                    assert(mid_agents[j].health == entry_agents[j].health);
                    assert(entry_agents[j].wf());
                    assert(self.agents@[j].health >= mid_agents[j].health - idx2 * DMG_CAP);
                    assert(idx2 * DMG_CAP <= 4096 * DMG_CAP);
                }
            }
            match entry.1 {
                AgentAction::Attack(target_id) => {
                    self.resolve_combat(entry.0, target_id);
                    proof {
                        lemma_apply_attack_frame(before, (entry.0, AgentAction::Attack(target_id)));
                    }
                },
                _ => {},
            }
            proof {
                assert(self.agents@ == spec_apply_attack(before, actions@[idx2 as int]));
                assert(actions@.skip(idx2 as int).drop_first() =~= actions@.skip(idx2 + 1));
                assert(actions@.skip(idx2 as int)[0] == actions@[idx2 as int]);
            }
            idx2 += 1;
        }
        proof {
            assert(actions@.skip(n as int) =~= Seq::<(u32, AgentAction)>::empty());
            assert(spec_combat_pass(self.agents@, actions@.skip(n as int)) == self.agents@);
            assert(self.agents@ == spec_combat_pass(mid_agents, actions@));
            assert(self.agents@ == spec_resolve(entry_agents, actions@));
        }
    }
}

/// One attack's footprint: everything but the attacker's state and the
/// target's health is left alone, and health only drops, by at most one
/// maximal weapon's damage, and only on the agent the entry targets.
pub proof fn lemma_apply_attack_frame(agents: Seq<Agent>, entry: (u32, AgentAction))
    requires
        forall|j: int|
            0 <= j < agents.len() ==> (#[trigger] agents[j]).weapon.wf() && agents[j].health
                >= COMBAT_FLOOR - DMG_CAP,
    ensures
        spec_apply_attack(agents, entry).len() == agents.len(),
        forall|j: int|
            0 <= j < agents.len() ==> {
                let r = #[trigger] spec_apply_attack(agents, entry)[j];
                &&& r.id == agents[j].id
                &&& r.team == agents[j].team
                &&& r.position == agents[j].position
                &&& r.weapon == agents[j].weapon
                &&& r.morale == agents[j].morale
                &&& (r.state == agents[j].state || (entry.1 matches AgentAction::Attack(t)
                    && r.state == AgentState::Attacking(t)))
                &&& agents[j].health - DMG_CAP <= r.health <= agents[j].health
                &&& (r.health != agents[j].health ==> (match entry.1 {
                    AgentAction::Attack(t) => agents[j].id == t,
                    _ => false,
                }))
            },
{
    match entry.1 {
        AgentAction::Attack(target_id) => {
            lemma_find_agent(agents, entry.0);
            match spec_find_agent(agents, entry.0) {
                Some(ai) => {
                    let firing = agents.update(
                        ai,
                        Agent { state: AgentState::Attacking(target_id), ..agents[ai] },
                    );
                    lemma_find_agent(firing, target_id);
                },
                None => {},
            }
        },
        _ => {},
    }
}

/// What the passive-stats step leaves of one agent: morale decays (never
/// below zero) while alive and under fire, and an agent out of health is
/// finalized as `Dead` (a `Downed` one stays `Downed`).
pub open spec fn spec_passive_one(a: Agent, under_fire: bool) -> Agent {
    let m: i64 = if under_fire && a.health > 0 {
        if a.morale >= MORALE_DECAY {
            (a.morale - MORALE_DECAY) as i64
        } else {
            0
        }
    } else {
        a.morale
    };
    let s: AgentState = if a.health <= 0 {
        match a.state {
            AgentState::Downed => AgentState::Downed,
            _ => AgentState::Dead,
        }
    } else {
        a.state
    };
    Agent { morale: m, state: s, ..a }
}

/// The passive-stats step over the whole roster, elementwise.
pub open spec fn spec_passive_pass(agents: Seq<Agent>, under_fire: Seq<bool>) -> Seq<Agent> {
    Seq::new(agents.len(), |i: int| spec_passive_one(agents[i], under_fire[i]))
}

impl World {
    /// The passive-stats step: decay morale of living agents under fire
    /// and finalize agents out of health as `Dead` (`Downed` stays).
    /// After this step no agent with health at or below zero is in an
    /// active state, so it is never decided for again.
    pub fn update_passive_stats(&mut self, under_fire: &Vec<bool>)
        requires
            under_fire@.len() == old(self).agents@.len(),
            forall|j: int| 0 <= j < old(self).agents@.len() ==> (#[trigger] old(
                self,
            ).agents@[j]).morale >= 0,
        ensures
            final(self).agents@ == spec_passive_pass(old(self).agents@, under_fire@),
            final(self).cover_nodes@ == old(self).cover_nodes@,
            final(self).config == old(self).config,
            final(self).tick == old(self).tick,
    {
        let ghost orig = self.agents@;
        let n: usize = self.agents.len();
        let mut i: usize = 0;
        while i < n
            invariant
                0 <= i <= n,
                n == self.agents@.len(),
                orig.len() == n,
                under_fire@.len() == n,
                forall|j: int| 0 <= j < n ==> (#[trigger] orig[j]).morale >= 0,
                forall|j: int|
                    0 <= j < i ==> #[trigger] self.agents@[j] == spec_passive_one(
                        orig[j],
                        under_fire@[j],
                    ),
                forall|j: int| i <= j < n ==> #[trigger] self.agents@[j] == orig[j],
                self.cover_nodes@ == old(self).cover_nodes@,
                self.config == old(self).config,
                self.tick == old(self).tick,
            decreases n - i,
        {
            let a: Agent = self.agents[i];
            let uf: bool = under_fire[i];
            let new_morale: i64 = if uf && a.health > 0 {
                if a.morale >= MORALE_DECAY {
                    a.morale - MORALE_DECAY
                } else {
                    0
                }
            } else {
                a.morale
            };
            let new_state: AgentState = if a.health <= 0 {
                match a.state {
                    AgentState::Downed => AgentState::Downed,
                    _ => AgentState::Dead,
                }
            } else {
                a.state
            };
            self.agents[i] = Agent { morale: new_morale, state: new_state, ..a };
            i += 1;
        }
        proof {
            assert(self.agents@ =~= spec_passive_pass(orig, under_fire@));
        }
    }
}

} // verus!
