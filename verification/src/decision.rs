//! The decision policy: one agent, one perception, one intended action.
//!
//! A pure function evaluated independently per agent, through a fixed
//! priority cascade; the first matching rule wins.

use vstd::prelude::*;
use crate::FP_ONE;
use crate::HEALTH_CRITICAL;
use crate::agent::Agent;
use crate::agent::AgentAction;
use crate::perception::PerceptionData;
use crate::vec2::Vec2;
use crate::world::World;

verus! {

/// The cover position worth moving to: the nearest cover, unless the
/// agent already stands within one unit of it.
pub open spec fn spec_cover_target(a: Agent, nearest: Option<Vec2>) -> Option<Vec2> {
    match nearest {
        Some(c) => if a.position.spec_dist_sq(c) > FP_ONE * FP_ONE {
            Some(c)
        } else {
            None
        },
        None => None,
    }
}

/// The engagement fallback: attack the first visible enemy, else idle.
pub open spec fn spec_engage_ids(visible: Seq<u32>) -> AgentAction {
    if visible.len() > 0 {
        AgentAction::Attack(visible[0])
    } else {
        AgentAction::Idle
    }
}

/// The full cascade over the three perception facts: critical survival,
/// then self-preservation, then engagement, then idle.
pub open spec fn spec_decide_facts(
    a: Agent,
    visible: Seq<u32>,
    nearest: Option<Vec2>,
    under_fire: bool,
) -> AgentAction {
    match spec_cover_target(a, nearest) {
        Some(c) => if a.health < HEALTH_CRITICAL {
            AgentAction::MoveTo(c)
        } else if under_fire {
            AgentAction::MoveTo(c)
        } else {
            spec_engage_ids(visible)
        },
        None => spec_engage_ids(visible),
    }
}

/// The engagement fallback, over a perception row.
pub open spec fn spec_engage(p: PerceptionData) -> AgentAction {
    spec_engage_ids(p.visible_enemies@)
}

/// The full cascade, over a perception row. A function of the agent and
/// perception alone.
pub open spec fn spec_decide(a: Agent, p: PerceptionData) -> AgentAction {
    spec_decide_facts(a, p.visible_enemies@, p.nearest_cover, p.is_under_fire)
}

impl Agent {
    /// Choose this tick's action from the agent's own state and its
    /// perception: run to cover when close to death or under fire (but
    /// never onto a cover less than one unit away), else attack the first
    /// visible enemy, else hold.
    ///
    /// Pure and deterministic: the result is `spec_decide` of the
    /// arguments, so identical inputs always yield the identical action.
    /// Callers filter dead and downed agents out before asking.
    pub fn decide(&self, perception: &PerceptionData) -> (r: AgentAction)
        requires
            self.position.in_bounds(),
            perception.wf(),
        ensures
            r == spec_decide(*self, *perception),
    {
        let cover_move: Option<Vec2> = match perception.nearest_cover {
            Some(c) => {
                if self.position.dist_sq(c) > FP_ONE * FP_ONE {
                    Some(c)
                } else {
                    None
                }
            },
            None => None,
        };
        match cover_move {
            Some(c) => {
                if self.health < HEALTH_CRITICAL {
                    return AgentAction::MoveTo(c);
                }
                if perception.is_under_fire {
                    return AgentAction::MoveTo(c);
                }
                self.engage(perception)
            },
            None => self.engage(perception),
        }
    }

    /// The engagement fallback of the cascade.
    fn engage(&self, perception: &PerceptionData) -> (r: AgentAction)
        ensures
            r == spec_engage(*perception),
    {
        if perception.visible_enemies.len() > 0 {
            AgentAction::Attack(perception.visible_enemies[0])
        } else {
            AgentAction::Idle
        }
    }
}

/// The decisions of every living agent, in roster order: the id paired
/// with `spec_decide` of the agent and its perception row. Dead agents
/// (health at or below zero) contribute nothing.
pub open spec fn spec_decisions(agents: Seq<Agent>, percs: Seq<PerceptionData>) -> Seq<
    (u32, AgentAction),
>
    decreases agents.len(),
{
    if agents.len() == 0 {
        Seq::empty()
    } else {
        let rest = spec_decisions(agents.drop_last(), percs.drop_last());
        let a = agents.last();
        if a.health > 0 {
            rest.push((a.id, spec_decide(a, percs.last())))
        } else {
            rest
        }
    }
}

impl World {
    /// Ask every living agent for its intended action; a pure read.
    ///
    /// `perceptions` is one row per agent in roster order, as
    /// [`World::gather_perceptions`] returns it. Dead agents are skipped:
    /// `decide` is never invoked on an agent with health at or below zero.
    pub fn calculate_decisions(&self, perceptions: &Vec<PerceptionData>) -> (r: Vec<
        (u32, AgentAction),
    >)
        requires
            self.wf(),
            perceptions@.len() == self.agents@.len(),
            forall|i: int| 0 <= i < perceptions@.len() ==> (#[trigger] perceptions@[i]).wf(),
        ensures
            r@ == spec_decisions(self.agents@, perceptions@),
    {
        let n: usize = self.agents.len();
        let mut out: Vec<(u32, AgentAction)> = Vec::new();
        let mut i: usize = 0;
        while i < n
            invariant
                0 <= i <= n,
                n == self.agents@.len(),
                self.wf(),
                perceptions@.len() == self.agents@.len(),
                forall|p: int| 0 <= p < perceptions@.len() ==> (#[trigger] perceptions@[p]).wf(),
                out@ == spec_decisions(self.agents@.take(i as int), perceptions@.take(i as int)),
            decreases n - i,
        {
            let a: Agent = self.agents[i];
            if a.health > 0 {
                let action: AgentAction = a.decide(&perceptions[i]);
                out.push((a.id, action));
            }
            proof {
                assert(self.agents@.take(i + 1).drop_last() =~= self.agents@.take(i as int));
                assert(perceptions@.take(i + 1).drop_last() =~= perceptions@.take(i as int));
                assert(self.agents@.take(i + 1).last() == self.agents@[i as int]);
                assert(perceptions@.take(i + 1).last() == perceptions@[i as int]);
            }
            i += 1;
        }
        proof {
            assert(self.agents@.take(n as int) =~= self.agents@);
            assert(perceptions@.take(n as int) =~= perceptions@);
        }
        out
    }
}

} // verus!
