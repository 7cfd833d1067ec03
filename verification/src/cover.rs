//! Fixed map locations offering protection.

use vstd::prelude::*;
use crate::FP_ONE;
use crate::vec2::Vec2;

verus! {

/// A fixed map location offering damage mitigation; immutable after load.
///
/// `protection` is a fraction of one (`0..=FP_ONE`).
#[derive(Clone, Copy, Debug, PartialEq, Eq, Structural)]
pub struct CoverNode {
    pub id: u32,
    pub position: Vec2,
    pub protection: i64,
}

impl CoverNode {
    /// The node's position is bounded and its protection is a fraction.
    pub open spec fn wf(self) -> bool {
        &&& self.position.in_bounds()
        &&& 0 <= self.protection <= FP_ONE
    }

    pub fn new(id: u32, position: Vec2, protection: i64) -> (r: CoverNode)
        ensures
            r == (CoverNode { id, position, protection }),
    {
        CoverNode { id, position, protection }
    }

    /// Runtime check of [`CoverNode::wf`].
    pub fn check_wf(&self) -> (b: bool)
        ensures
            b == self.wf(),
    {
        self.position.x >= -crate::COORD_LIMIT && self.position.x <= crate::COORD_LIMIT
            && self.position.y >= -crate::COORD_LIMIT && self.position.y <= crate::COORD_LIMIT && 0
            <= self.protection && self.protection <= FP_ONE
    }
}

} // verus!
