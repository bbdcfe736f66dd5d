//! The virtual camera: a position, a viewing direction and an up vector,
//! immutable for the duration of a render.

use vstd::prelude::*;
use crate::coordinates::{bounded3, Coordinates3D, CMAX, UNIT_MAX};

verus! {

pub struct Camera {
    /// The viewing direction, unit length.
    pub cam_orient: Coordinates3D,
    pub cam_pos: Coordinates3D,
    /// The up direction, unit length and orthogonal to the orientation.
    pub up_vec: Coordinates3D,
}

pub open spec fn camera_wf(c: Camera) -> bool {
    &&& bounded3(c.cam_orient@, UNIT_MAX as int)
    &&& bounded3(c.cam_pos@, CMAX as int)
    &&& bounded3(c.up_vec@, UNIT_MAX as int)
}

} // verus!
