//! A directed line: an origin and a unit direction, without the precomputed
//! slab-test fields a `Ray` carries.

use vstd::prelude::*;
use crate::coordinates::{bounded3, normalize_spec, vsub, Coordinates3D, Vec3i, OMAX, UNIT_MAX};

verus! {

/// The mathematical value of a `Line`.
pub ghost struct LineV {
    pub origin: Vec3i,
    pub unit_vec: Vec3i,
}

#[derive(Clone, Copy, Debug)]
pub struct Line {
    pub origin: Coordinates3D,
    pub unit_vec: Coordinates3D,
}

impl View for Line {
    type V = LineV;

    open spec fn view(&self) -> LineV {
        LineV { origin: self.origin@, unit_vec: self.unit_vec@ }
    }
}

/// The line through two points: direction `other - origin`, normalized.
pub open spec fn line_from_points_spec(o: Vec3i, p: Vec3i) -> Option<LineV> {
    match normalize_spec(vsub(p, o)) {
        None => None,
        Some(u) => Some(LineV { origin: o, unit_vec: u }),
    }
}

impl Line {
    /// Build the line from one point through another; nothing when the two
    /// points are too close to carry a direction.
    pub fn new_from_points(origin: &Coordinates3D, other: &Coordinates3D) -> (r: Option<Line>)
        requires
            bounded3(origin@, OMAX as int),
            bounded3(other@, OMAX as int),
        ensures
            (r is Some) == (line_from_points_spec(origin@, other@) is Some),
            r matches Some(line) ==> Some(line@) == line_from_points_spec(origin@, other@)
                && bounded3(line@.unit_vec, UNIT_MAX as int),
    {
        let d = other.sub(origin);
        match d.normalize() {
            None => None,
            Some(u) => Some(Line { origin: *origin, unit_vec: u }),
        }
    }
}

} // verus!
