//! Agents: the actors of the simulation.

use vstd::prelude::*;
use crate::FP_ONE;
use crate::HP_CAP;
use crate::HP_FLOOR;
use crate::MOVE_SNAP_SQ;
use crate::vec2::Vec2;
use crate::weapon::WeaponStats;

verus! {

/// What an agent is currently doing; a closed sum, matched exhaustively.
#[derive(Clone, Copy, Debug, PartialEq, Eq, Structural)]
pub enum AgentState {
    Idle,
    Moving(Vec2),
    Attacking(u32),
    Suppressing(u32),
    Downed,
    Dead,
}

/// One agent's intended action for a tick; produced by the decision
/// policy, consumed once by the resolver.
#[derive(Clone, Copy, Debug, PartialEq, Eq, Structural)]
pub enum AgentAction {
    MoveTo(Vec2),
    Attack(u32),
    Idle,
}

/// An actor of the simulation. `id` is unique within a world and stable
/// for the world's lifetime.
#[derive(Clone, Copy, Debug, PartialEq, Eq, Structural)]
pub struct Agent {
    pub id: u32,
    pub team: u8,
    pub position: Vec2,
    pub health: i64,
    pub morale: i64,
    pub weapon: WeaponStats,
    pub state: AgentState,
}

impl AgentState {
    /// A movement target carried by the state is bounded.
    pub open spec fn wf(self) -> bool {
        match self {
            AgentState::Moving(target) => target.in_bounds(),
            _ => true,
        }
    }
}

impl Agent {
    /// Every field lies in the range the simulation preserves.
    pub open spec fn wf(self) -> bool {
        &&& self.position.in_bounds()
        &&& HP_FLOOR <= self.health <= HP_CAP
        &&& 0 <= self.morale <= FP_ONE
        &&& self.weapon.wf()
        &&& self.state.wf()
    }

    /// Neither dead nor downed.
    pub open spec fn spec_is_alive(self) -> bool {
        !(self.state == AgentState::Dead || self.state == AgentState::Downed)
    }

    /// Runtime check of [`Agent::wf`].
    pub fn check_wf(&self) -> (b: bool)
        ensures
            b == self.wf(),
    {
        let pos_ok: bool = self.position.x >= -crate::COORD_LIMIT && self.position.x
            <= crate::COORD_LIMIT && self.position.y >= -crate::COORD_LIMIT && self.position.y
            <= crate::COORD_LIMIT;
        let state_ok: bool = match self.state {
            AgentState::Moving(target) => target.x >= -crate::COORD_LIMIT && target.x
                <= crate::COORD_LIMIT && target.y >= -crate::COORD_LIMIT && target.y
                <= crate::COORD_LIMIT,
            _ => true,
        };
        pos_ok && state_ok && HP_FLOOR <= self.health && self.health <= HP_CAP && 0 <= self.morale
            && self.morale <= FP_ONE && self.weapon.check_wf()
    }

    /// Whether the agent still takes part in the simulation: it is neither
    /// `Dead` nor `Downed`.
    pub fn is_alive(&self) -> (r: bool)
        ensures
            r == self.spec_is_alive(),
    {
        !(matches!(self.state, AgentState::Dead | AgentState::Downed))
    }

    /// Where one step of [`Agent::move_towards`] puts a walker standing at
    /// `pos`: onto `target` once within snapping range, else one unit along
    /// the straight line toward it.
    pub open spec fn spec_step_position(pos: Vec2, target: Vec2) -> Vec2 {
        if pos.spec_dist_sq(target) < MOVE_SNAP_SQ {
            target
        } else {
            let step = (Vec2 {
                x: (target.x - pos.x) as i64,
                y: (target.y - pos.y) as i64,
            }).spec_normalized();
            Vec2 { x: (pos.x + step.x) as i64, y: (pos.y + step.y) as i64 }
        }
    }

    /// Walk one step toward `target`: snap onto it when closer than 0.01
    /// units, otherwise advance one unit along the straight line.
    ///
    /// This is the interpolating refinement of movement; the tick resolver
    /// itself uses teleport semantics.
    pub fn move_towards(&mut self, target: Vec2)
        requires
            old(self).position.in_bounds(),
            target.in_bounds(),
        ensures
            final(self).position == Agent::spec_step_position(old(self).position, target),
            *final(self) == (Agent { position: final(self).position, ..*old(self) }),
    {
        let dir: Vec2 = target.sub(self.position);
        let d: i64 = self.position.dist_sq(target);
        if d < MOVE_SNAP_SQ {
            self.position = target;
        } else {
            let step: Vec2 = dir.normalized();
            self.position = self.position.add(step);
        }
    }

    /// What [`Agent::apply_action`] leaves of the agent.
    pub open spec fn spec_apply_action(self, action: AgentAction) -> Agent {
        match action {
            AgentAction::MoveTo(target) => Agent {
                position: Agent::spec_step_position(self.position, target),
                ..self
            },
            _ => self,
        }
    }

    /// Apply a single action to this agent alone: movement walks one step,
    /// anything else leaves the agent unchanged (combat needs the whole
    /// world and is resolved there).
    pub fn apply_action(&mut self, action: AgentAction)
        requires
            old(self).position.in_bounds(),
            (action matches AgentAction::MoveTo(t) ==> t.in_bounds()),
        ensures
            *final(self) == old(self).spec_apply_action(action),
    {
        match action {
            AgentAction::MoveTo(target) => self.move_towards(target),
            AgentAction::Attack(_) => {},
            AgentAction::Idle => {},
        }
    }

    /// A short human-readable description of an agent state.
    pub fn describe_state(state: &AgentState) -> (r: String)
        ensures
            r@ == spec_state_text(*state),
    {
        match state {
            AgentState::Idle => "Holding Position".to_owned(),
            AgentState::Moving(_) => "Moving".to_owned(),
            AgentState::Attacking(_) => "Firing".to_owned(),
            AgentState::Suppressing(_) => "Suppressing".to_owned(),
            AgentState::Downed => "DOWNED - Bleeding Out".to_owned(),
            AgentState::Dead => "KIA".to_owned(),
        }
    }
}

/// The text [`Agent::describe_state`] returns for each state.
pub open spec fn spec_state_text(state: AgentState) -> Seq<char> {
    match state {
        AgentState::Idle => "Holding Position"@,
        AgentState::Moving(_) => "Moving"@,
        AgentState::Attacking(_) => "Firing"@,
        AgentState::Suppressing(_) => "Suppressing"@,
        AgentState::Downed => "DOWNED - Bleeding Out"@,
        AgentState::Dead => "KIA"@,
    }
}

} // verus!
