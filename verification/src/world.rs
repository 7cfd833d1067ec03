//! The world: agent roster, cover layout, configuration and tick counter.

use vstd::prelude::*;
use crate::ROSTER_CAP;
use crate::agent::Agent;
use crate::agent::AgentState;
use crate::agent::spec_state_text;
use crate::cover::CoverNode;
use crate::vec2::Vec2;

verus! {

/// Simulation configuration. `rng_seed` feeds the deterministic roll
/// source; `tick_rate` (milli-units) is a presentation hint.
#[derive(Clone, Copy, Debug, PartialEq, Eq, Structural)]
pub struct SimulationConfig {
    pub rng_seed: u64,
    pub tick_rate: i64,
}

/// An already-parsed scenario description: the plain values a world is
/// built from. File reading and decoding are a caller's concern.
#[derive(Clone, Debug)]
pub struct Scenario {
    pub agents: Vec<Agent>,
    pub cover_nodes: Vec<CoverNode>,
    pub config: SimulationConfig,
    pub tick: u64,
}

/// The scenario was malformed: a field out of range, a duplicate agent
/// id, or a roster too large. Fatal at load time.
#[derive(Clone, Copy, Debug, PartialEq, Eq, Structural)]
pub struct LoadFailure;

/// The full simulation state: roster (in load order, the tie-break order
/// for everything), cover layout, configuration, and tick counter.
#[derive(Clone, Debug)]
pub struct World {
    pub agents: Vec<Agent>,
    pub cover_nodes: Vec<CoverNode>,
    pub config: SimulationConfig,
    pub tick: u64,
}

/// One agent's row of a per-tick snapshot.
#[derive(Clone, Debug)]
pub struct AgentReport {
    pub id: u32,
    pub team: u8,
    pub position: Vec2,
    pub health: i64,
    pub morale: i64,
    pub state: AgentState,
    pub state_text: String,
}

/// A structured per-tick snapshot for logging and presentation.
#[derive(Clone, Debug)]
pub struct Snapshot {
    pub tick: u64,
    pub agents: Vec<AgentReport>,
}

/// No two agents share an id.
pub open spec fn ids_unique(agents: Seq<Agent>) -> bool {
    forall|i: int, j: int|
        0 <= i < j < agents.len() ==> #[trigger] agents[i].id != #[trigger] agents[j].id
}

/// The well-formedness every operation of the simulation preserves.
pub open spec fn roster_wf(agents: Seq<Agent>, covers: Seq<CoverNode>) -> bool {
    &&& agents.len() <= ROSTER_CAP
    &&& (forall|i: int| 0 <= i < agents.len() ==> (#[trigger] agents[i]).wf())
    &&& ids_unique(agents)
    &&& (forall|i: int| 0 <= i < covers.len() ==> (#[trigger] covers[i]).wf())
}

/// Fewer than two teams still have a living member.
pub open spec fn spec_battle_over(agents: Seq<Agent>) -> bool {
    !(exists|i: int, j: int|
        0 <= i < agents.len() && 0 <= j < agents.len() && (#[trigger] agents[i]).health > 0 && (
        #[trigger] agents[j]).health > 0 && agents[i].team != agents[j].team)
}

impl World {
    /// The world's invariant: every loaded operation keeps it.
    pub open spec fn wf(self) -> bool {
        roster_wf(self.agents@, self.cover_nodes@)
    }

    /// Runtime check of [`World::wf`] over a candidate roster and layout.
    fn roster_check(agents: &Vec<Agent>, covers: &Vec<CoverNode>) -> (b: bool)
        ensures
            b == roster_wf(agents@, covers@),
    {
        if agents.len() > ROSTER_CAP {
            return false;
        }
        let mut i: usize = 0;
        while i < agents.len()
            invariant
                0 <= i <= agents@.len(),
                forall|p: int| 0 <= p < i ==> (#[trigger] agents@[p]).wf(),
                forall|p: int, q: int|
                    0 <= p < q < i ==> #[trigger] agents@[p].id != #[trigger] agents@[q].id,
            decreases agents@.len() - i,
        {
            if !agents[i].check_wf() {
                return false;
            }
            let mut j: usize = 0;
            while j < i
                invariant
                    0 <= j <= i < agents@.len(),
                    forall|p: int| 0 <= p < j ==> #[trigger] agents@[p].id != agents@[i as int].id,
                decreases i - j,
            {
                if agents[j].id == agents[i].id {
                    return false;
                }
                j += 1;
            }
            i += 1;
        }
        let mut k: usize = 0;
        while k < covers.len()
            invariant
                0 <= k <= covers@.len(),
                forall|p: int| 0 <= p < k ==> (#[trigger] covers@[p]).wf(),
            decreases covers@.len() - k,
        {
            if !covers[k].check_wf() {
                return false;
            }
            k += 1;
        }
        true
    }

    /// Build a world from an already-parsed scenario.
    ///
    /// Succeeds exactly on well-formed scenarios; a malformed one is
    /// rejected with [`LoadFailure`] and nothing is built.
    pub fn from_scenario(scenario: Scenario) -> (r: Result<World, LoadFailure>)
        ensures
            r is Ok <==> roster_wf(scenario.agents@, scenario.cover_nodes@),
            r matches Ok(w) ==> {
                &&& w.agents@ == scenario.agents@
                &&& w.cover_nodes@ == scenario.cover_nodes@
                &&& w.config == scenario.config
                &&& w.tick == scenario.tick
                &&& w.wf()
            },
    {
        if World::roster_check(&scenario.agents, &scenario.cover_nodes) {
            Ok(
                World {
                    agents: scenario.agents,
                    cover_nodes: scenario.cover_nodes,
                    config: scenario.config,
                    tick: scenario.tick,
                },
            )
        } else {
            Err(LoadFailure)
        }
    }

    /// Runtime check of the world invariant, for callers that obtained a
    /// world from outside the library's own operations.
    pub fn check_wf(&self) -> (b: bool)
        ensures
            b == self.wf(),
    {
        World::roster_check(&self.agents, &self.cover_nodes)
    }

    /// Write the world back out as a scenario: loading the result
    /// reproduces an identical roster, layout and configuration.
    pub fn to_scenario(&self) -> (r: Scenario)
        ensures
            r.agents@ == self.agents@,
            r.cover_nodes@ == self.cover_nodes@,
            r.config == self.config,
            r.tick == self.tick,
    {
        let mut agents: Vec<Agent> = Vec::new();
        let mut i: usize = 0;
        while i < self.agents.len()
            invariant
                0 <= i <= self.agents@.len(),
                agents@ == self.agents@.take(i as int),
            decreases self.agents@.len() - i,
        {
            agents.push(self.agents[i]);
            proof {
                assert(agents@ =~= self.agents@.take(i + 1));
            }
            i += 1;
        }
        let mut covers: Vec<CoverNode> = Vec::new();
        let mut k: usize = 0;
        while k < self.cover_nodes.len()
            invariant
                0 <= k <= self.cover_nodes@.len(),
                covers@ == self.cover_nodes@.take(k as int),
            decreases self.cover_nodes@.len() - k,
        {
            covers.push(self.cover_nodes[k]);
            proof {
                assert(covers@ =~= self.cover_nodes@.take(k + 1));
            }
            k += 1;
        }
        proof {
            assert(agents@ =~= self.agents@);
            assert(covers@ =~= self.cover_nodes@);
        }
        Scenario { agents, cover_nodes: covers, config: self.config, tick: self.tick }
    }

    /// A structured snapshot of the current tick: tick number and one row
    /// per agent, in roster order.
    pub fn snapshot(&self) -> (r: Snapshot)
        ensures
            r.tick == self.tick,
            r.agents@.len() == self.agents@.len(),
            forall|i: int|
                0 <= i < self.agents@.len() ==> report_matches(
                    #[trigger] r.agents@[i],
                    self.agents@[i],
                ),
    {
        let mut rows: Vec<AgentReport> = Vec::new();
        let mut i: usize = 0;
        while i < self.agents.len()
            invariant
                0 <= i <= self.agents@.len(),
                rows@.len() == i,
                forall|p: int|
                    0 <= p < i ==> report_matches(#[trigger] rows@[p], self.agents@[p]),
            decreases self.agents@.len() - i,
        {
            let a = self.agents[i];
            rows.push(
                AgentReport {
                    id: a.id,
                    team: a.team,
                    position: a.position,
                    health: a.health,
                    morale: a.morale,
                    state: a.state,
                    state_text: Agent::describe_state(&a.state),
                },
            );
            i += 1;
        }
        Snapshot { tick: self.tick, agents: rows }
    }
}

/// A snapshot row faithfully reports its agent.
pub open spec fn report_matches(rep: AgentReport, a: Agent) -> bool {
    &&& rep.id == a.id
    &&& rep.team == a.team
    &&& rep.position == a.position
    &&& rep.health == a.health
    &&& rep.morale == a.morale
    &&& rep.state == a.state
    &&& rep.state_text@ == spec_state_text(a.state)
}

/// The external termination check: the battle is over when fewer than two
/// teams still have a living member.
pub fn is_battle_over(world: &World) -> (r: bool)
    ensures
        r == spec_battle_over(world.agents@),
{
    let n: usize = world.agents.len();
    let mut first_team: Option<u8> = None;
    let mut i: usize = 0;
    while i < n
        invariant
            0 <= i <= n,
            n == world.agents@.len(),
            match first_team {
                None => forall|p: int| 0 <= p < i ==> (#[trigger] world.agents@[p]).health <= 0,
                Some(t) => {
                    &&& exists|p: int|
                        0 <= p < i && (#[trigger] world.agents@[p]).health > 0
                            && world.agents@[p].team == t
                    &&& forall|p: int|
                        0 <= p < i && (#[trigger] world.agents@[p]).health > 0
                            ==> world.agents@[p].team == t
                },
            },
        decreases n - i,
    {
        let a = world.agents[i];
        if a.health > 0 {
            match first_team {
                None => {
                    first_team = Some(a.team);
                },
                Some(t) => {
                    if a.team != t {
                        proof {
                            let p = choose|p: int|
                                0 <= p < i && (#[trigger] world.agents@[p]).health > 0
                                    && world.agents@[p].team == t;
                            assert(world.agents@[p].team != world.agents@[i as int].team);
                        }
                        return false;
                    }
                },
            }
        }
        i += 1;
    }
    proof {
        assert forall|p: int, q: int|
            0 <= p < world.agents@.len() && 0 <= q < world.agents@.len() && (
            #[trigger] world.agents@[p]).health > 0 && (#[trigger] world.agents@[q]).health > 0
            implies world.agents@[p].team == world.agents@[q].team by {
            match first_team {
                None => {},
                Some(t) => {},
            }
        }
    }
    true
}

} // verus!
