//! Shape codes of the SDF primitives, as the shaders number them.

use vstd::prelude::*;

verus! {

/// Sphere.
pub const SPHERE: u32 = 0;

/// Box.
pub const BOX: u32 = 1;

/// Capsule.
pub const CAPSULE: u32 = 2;

/// Torus.
pub const TORUS: u32 = 3;

/// Cylinder.
pub const CYLINDER: u32 = 4;

} // verus!
