//! The vertex layout of the point-light gizmo.

use vstd::prelude::*;
use crate::mesh::SimpleVertex;

verus! {

/// A vertex of the point-light gizmo: a homogeneous position in whole units,
/// with `w` fixed at one.
#[derive(Debug, Clone, Copy, PartialEq, Eq)]
pub struct PointLightVertex {
    pub position: [i8; 4],
}

impl SimpleVertex for PointLightVertex {
    open spec fn position(&self) -> (int, int, int) {
        (self.position@[0] as int, self.position@[1] as int, self.position@[2] as int)
    }

    fn create_from_position(x: i8, y: i8, z: i8) -> (v: Self)
        ensures
            v.position@[3] == 1,
    {
        PointLightVertex { position: [x, y, z, 1] }
    }
}

} // verus!
