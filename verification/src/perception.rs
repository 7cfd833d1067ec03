//! Perception: what each agent knows of the battlefield this tick.
//!
//! A pure read of the world, recomputed every tick. The mapping is total:
//! dead agents get a perception row too, and callers filter them out.

use vstd::prelude::*;
use crate::agent::Agent;
use crate::agent::AgentState;
use crate::cover::CoverNode;
use crate::vec2::Vec2;
use crate::world::World;

verus! {

/// One agent's per-tick view of the world: enemies it can engage (in
/// roster order), the nearest cover position, and whether it is under
/// fire.
#[derive(Clone, Debug)]
pub struct PerceptionData {
    pub visible_enemies: Vec<u32>,
    pub nearest_cover: Option<Vec2>,
    pub is_under_fire: bool,
}

impl PerceptionData {
    /// A reported cover position is bounded.
    pub open spec fn wf(self) -> bool {
        match self.nearest_cover {
            Some(c) => c.in_bounds(),
            None => true,
        }
    }
}

/// `a` can engage `b`: a living agent of an opposing team, not itself,
/// within `a`'s weapon range.
pub open spec fn spec_sees(a: Agent, b: Agent) -> bool {
    &&& b.id != a.id
    &&& b.team != a.team
    &&& b.health > 0
    &&& a.position.spec_dist_sq(b.position) <= a.weapon.range * a.weapon.range
}

/// The ids of the agents `a` can engage, in roster order.
pub open spec fn spec_visible_enemies(agents: Seq<Agent>, a: Agent) -> Seq<u32>
    decreases agents.len(),
{
    if agents.len() == 0 {
        Seq::empty()
    } else {
        let rest = spec_visible_enemies(agents.drop_last(), a);
        if spec_sees(a, agents.last()) {
            rest.push(agents.last().id)
        } else {
            rest
        }
    }
}

/// `c` beats `b` as cover seen from `pos`: strictly closer, or as close
/// with a lower id.
pub open spec fn spec_cover_beats(pos: Vec2, c: CoverNode, b: CoverNode) -> bool {
    ||| pos.spec_dist_sq(c.position) < pos.spec_dist_sq(b.position)
    ||| (pos.spec_dist_sq(c.position) == pos.spec_dist_sq(b.position) && c.id < b.id)
}

/// The cover node nearest to `pos` (ties broken by lowest id; among equal
/// ids at equal distance, the earliest in load order).
pub open spec fn spec_nearest_cover(covers: Seq<CoverNode>, pos: Vec2) -> Option<CoverNode>
    decreases covers.len(),
{
    if covers.len() == 0 {
        None
    } else {
        let rest = spec_nearest_cover(covers.drop_last(), pos);
        let c = covers.last();
        match rest {
            None => Some(c),
            Some(b) => if spec_cover_beats(pos, c, b) {
                Some(c)
            } else {
                Some(b)
            },
        }
    }
}

/// The position of the nearest cover node, if any.
pub open spec fn spec_nearest_cover_pos(covers: Seq<CoverNode>, pos: Vec2) -> Option<Vec2> {
    match spec_nearest_cover(covers, pos) {
        Some(c) => Some(c.position),
        None => None,
    }
}

/// Some living enemy is currently attacking `a`.
pub open spec fn spec_under_fire(agents: Seq<Agent>, a: Agent) -> bool {
    exists|j: int|
        0 <= j < agents.len() && (#[trigger] agents[j]).health > 0 && agents[j].team != a.team
            && agents[j].state == AgentState::Attacking(a.id)
}

/// All three perception facts for the agent at roster index `i`.
pub open spec fn perception_matches(w: World, i: int, p: PerceptionData) -> bool {
    &&& p.visible_enemies@ == spec_visible_enemies(w.agents@, w.agents@[i])
    &&& p.nearest_cover == spec_nearest_cover_pos(w.cover_nodes@, w.agents@[i].position)
    &&& p.is_under_fire == spec_under_fire(w.agents@, w.agents@[i])
}

/// Scanning one more agent extends the under-fire check by exactly that
/// agent's contribution.
proof fn lemma_under_fire_step(agents: Seq<Agent>, a: Agent, t: int)
    requires
        0 <= t < agents.len(),
    ensures
        spec_under_fire(agents.take(t + 1), a) == (spec_under_fire(agents.take(t), a) || (
        agents[t].health > 0 && agents[t].team != a.team && agents[t].state
            == AgentState::Attacking(a.id))),
{
    let s0 = agents.take(t);
    let s1 = agents.take(t + 1);
    if spec_under_fire(s0, a) {
        let w = choose|j: int|
            0 <= j < s0.len() && (#[trigger] s0[j]).health > 0 && s0[j].team != a.team
                && s0[j].state == AgentState::Attacking(a.id);
        assert(s1[w] == s0[w]);
        assert(spec_under_fire(s1, a));
    }
    if agents[t].health > 0 && agents[t].team != a.team && agents[t].state
        == AgentState::Attacking(a.id) {
        assert(s1[t] == agents[t]);
        assert(spec_under_fire(s1, a));
    }
    if spec_under_fire(s1, a) {
        let w = choose|j: int|
            0 <= j < s1.len() && (#[trigger] s1[j]).health > 0 && s1[j].team != a.team
                && s1[j].state == AgentState::Attacking(a.id);
        if w < t {
            assert(s0[w] == s1[w]);
            assert(spec_under_fire(s0, a));
        } else {
            assert(s1[w] == agents[t]);
        }
    }
}

impl World {
    /// Compute one perception row for each agent, dead ones included, in
    /// roster order; a pure read of the world.
    pub fn gather_perceptions(&self) -> (r: Vec<PerceptionData>)
        requires
            self.wf(),
        ensures
            r@.len() == self.agents@.len(),
            forall|i: int| 0 <= i < r@.len() ==> perception_matches(*self, i, #[trigger] r@[i]),
            forall|i: int| 0 <= i < r@.len() ==> (#[trigger] r@[i]).wf(),
    {
        let n: usize = self.agents.len();
        let mut out: Vec<PerceptionData> = Vec::new();
        let mut i: usize = 0;
        while i < n
            invariant
                0 <= i <= n,
                n == self.agents@.len(),
                self.wf(),
                out@.len() == i,
                forall|p: int| 0 <= p < i ==> perception_matches(*self, p, #[trigger] out@[p]),
                forall|p: int| 0 <= p < i ==> (#[trigger] out@[p]).wf(),
            decreases n - i,
        {
            let a: Agent = self.agents[i];
            let row = self.perceive_one(a);
            out.push(row);
            i += 1;
        }
        out
    }

    /// One agent's perception row.
    fn perceive_one(&self, a: Agent) -> (r: PerceptionData)
        requires
            self.wf(),
            a.wf(),
        ensures
            r.visible_enemies@ == spec_visible_enemies(self.agents@, a),
            r.nearest_cover == spec_nearest_cover_pos(self.cover_nodes@, a.position),
            r.is_under_fire == spec_under_fire(self.agents@, a),
            r.wf(),
    {
        let n: usize = self.agents.len();
        proof {
            assert((a.weapon.range as int) * (a.weapon.range as int)
                <= 1_000_000_000_000_000_000) by (nonlinear_arith)
                requires
                    0 <= a.weapon.range <= 1_000_000_000,
            ;
        }
        let range_sq: i64 = a.weapon.range * a.weapon.range;
        let mut visible: Vec<u32> = Vec::new();
        let mut j: usize = 0;
        while j < n
            invariant
                0 <= j <= n,
                n == self.agents@.len(),
                self.wf(),
                a.wf(),
                range_sq == (a.weapon.range as int) * (a.weapon.range as int),
                visible@ == spec_visible_enemies(self.agents@.take(j as int), a),
            decreases n - j,
        {
            let b: Agent = self.agents[j];
            if b.id != a.id && b.team != a.team && b.health > 0 && a.position.dist_sq(b.position)
                <= range_sq {
                visible.push(b.id);
            }
            proof {
                assert(self.agents@.take(j + 1).drop_last() =~= self.agents@.take(j as int));
                assert(self.agents@.take(j + 1).last() == self.agents@[j as int]);
            }
            j += 1;
        }
        proof {
            assert(self.agents@.take(n as int) =~= self.agents@);
        }

        let mut best: Option<CoverNode> = None;
        let m: usize = self.cover_nodes.len();
        let mut k: usize = 0;
        while k < m
            invariant
                0 <= k <= m,
                m == self.cover_nodes@.len(),
                self.wf(),
                a.wf(),
                best == spec_nearest_cover(self.cover_nodes@.take(k as int), a.position),
                match best {
                    Some(c) => c.wf(),
                    None => true,
                },
            decreases m - k,
        {
            let c: CoverNode = self.cover_nodes[k];
            let new_best: Option<CoverNode> = match best {
                None => Some(c),
                Some(b) => {
                    let dc: i64 = a.position.dist_sq(c.position);
                    let db: i64 = a.position.dist_sq(b.position);
                    if dc < db || (dc == db && c.id < b.id) {
                        Some(c)
                    } else {
                        Some(b)
                    }
                },
            };
            best = new_best;
            proof {
                assert(self.cover_nodes@.take(k + 1).drop_last() =~= self.cover_nodes@.take(
                    k as int,
                ));
                assert(self.cover_nodes@.take(k + 1).last() == self.cover_nodes@[k as int]);
            }
            k += 1;
        }
        proof {
            assert(self.cover_nodes@.take(m as int) =~= self.cover_nodes@);
        }
        let nearest: Option<Vec2> = match best {
            Some(c) => Some(c.position),
            None => None,
        };

        let mut under_fire: bool = false;
        let mut t: usize = 0;
        while t < n
            invariant
                0 <= t <= n,
                n == self.agents@.len(),
                self.wf(),
                under_fire == spec_under_fire(self.agents@.take(t as int), a),
            decreases n - t,
        {
            let b: Agent = self.agents[t];
            let hit: bool = b.health > 0 && b.team != a.team && (match b.state {
                AgentState::Attacking(target) => target == a.id,
                _ => false,
            });
            proof {
                lemma_under_fire_step(self.agents@, a, t as int);
            }
            if hit {
                under_fire = true;
            }
            t += 1;
        }
        proof {
            assert(self.agents@.take(n as int) =~= self.agents@);
        }

        PerceptionData { visible_enemies: visible, nearest_cover: nearest, is_under_fire: under_fire }
    }
}

} // verus!
