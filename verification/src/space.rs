//! Compile-time tags for coordinate spaces.
//!
//! A transform or point tagged with one of these cannot be mixed up with one
//! that lives in another space; the tags carry no data.

use vstd::prelude::*;

verus! {

/// Normalised device coordinates: the canonical cube after projection.
#[derive(Debug, Clone, Copy, PartialEq, Eq)]
pub struct NDCSpace;

/// The camera-relative frame: right-handed, y up, looking down negative z.
#[derive(Debug, Clone, Copy, PartialEq, Eq)]
pub struct ViewSpace;

/// The global frame of the scene.
#[derive(Debug, Clone, Copy, PartialEq, Eq)]
pub struct WorldSpace;

/// The model frame of a loaded triangle mesh.
#[derive(Debug, Clone, Copy, PartialEq, Eq)]
pub struct TriangleSpace;

} // verus!
