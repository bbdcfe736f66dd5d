//! A directional light source, treated as infinitely far away: parallel rays,
//! no falloff.

use vstd::prelude::*;
use crate::coordinates::{bounded3, Coordinates3D, UNIT_MAX};

verus! {

/// Bound on a light's intensity: 1024 in fixed point.
pub const LIGHT_MAX: i64 = 0x4000000;

pub struct DistantLight {
    /// The direction the light travels, unit length.
    pub direction: Coordinates3D,
    pub intensity: i64,
}

pub open spec fn light_wf(l: DistantLight) -> bool {
    &&& bounded3(l.direction@, UNIT_MAX as int)
    &&& 0 <= l.intensity <= LIGHT_MAX
}

} // verus!
