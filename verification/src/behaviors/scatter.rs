//! The record a scattering material produces: the continuation ray and the
//! fraction of each color channel it keeps.

use vstd::prelude::*;

verus! {

use crate::utils::vector::Vec3;
use crate::utils::ray::Ray;

#[derive(Clone, Copy, Debug, PartialEq, Eq, Structural)]
pub struct ScatterResult {
    pub ray: Ray,
    pub attenuation: Vec3,
}

} // verus!
