//! Weapon statistics carried by each agent.

use vstd::prelude::*;
use crate::COORD_LIMIT;
use crate::DMG_CAP;
use crate::FP_ONE;

verus! {

/// Immutable weapon statistics, in fixed-point milli-units.
///
/// `accuracy` is a fraction of one (`0..=FP_ONE`); it is carried by the
/// data model as an extension point, combat applies damage unconditionally.
#[derive(Clone, Copy, Debug, PartialEq, Eq, Structural)]
pub struct WeaponStats {
    pub range: i64,
    pub accuracy: i64,
    pub damage: i64,
    pub fire_rate: i64,
}

impl WeaponStats {
    /// Every field lies in the range a loaded scenario may carry.
    pub open spec fn wf(self) -> bool {
        &&& 0 <= self.range <= COORD_LIMIT
        &&& 0 <= self.accuracy <= FP_ONE
        &&& 0 <= self.damage <= DMG_CAP
        &&& 0 <= self.fire_rate
    }

    pub fn new(range: i64, accuracy: i64, damage: i64, fire_rate: i64) -> (r: WeaponStats)
        ensures
            r == (WeaponStats { range, accuracy, damage, fire_rate }),
    {
        WeaponStats { range, accuracy, damage, fire_rate }
    }

    /// Runtime check of [`WeaponStats::wf`].
    pub fn check_wf(&self) -> (b: bool)
        ensures
            b == self.wf(),
    {
        0 <= self.range && self.range <= COORD_LIMIT && 0 <= self.accuracy && self.accuracy
            <= FP_ONE && 0 <= self.damage && self.damage <= DMG_CAP && 0 <= self.fire_rate
    }
}

} // verus!
