//! Materials: how a surface treats the light that reaches it.

use vstd::prelude::*;
use crate::texture::Color;

verus! {

/// A material of a scene. A material that takes its colour from a texture names the texture
/// by its place in the scene's list of textures.
#[derive(Clone, Copy, Debug, PartialEq, Eq, Structural)]
pub enum Material {
    /// A matt surface: scatters every ray, tinted by the texture.
    Lambertian { tex: usize },
    /// A mirror with colour `albedo`, blurred by `fuzz` (in thousandths).
    Metal { albedo: Color, fuzz: i64 },
    /// Clear glass with the given index of refraction (in thousandths).
    Dielectric { refraction_index: i64 },
    /// A lamp: scatters nothing and gives off the colour of the texture.
    DiffuseLight { tex: usize },
}

impl Material {
    /// Whether the texture that `self` names, if any, stands before place `limit`.
    pub open spec fn refers_below(self, limit: int) -> bool {
        match self {
            Material::Lambertian { tex } => tex < limit,
            Material::DiffuseLight { tex } => tex < limit,
            _ => true,
        }
    }

    /// Whether the material gives off light of its own. Only a lamp does.
    pub fn emits(&self) -> (e: bool)
        ensures
            e == (*self is DiffuseLight),
    {
        match self {
            Material::DiffuseLight { .. } => true,
            _ => false,
        }
    }

    /// Whether the material can send a ray on. A lamp never does; glass and matt surfaces
    /// always do; a mirror does unless the blurred reflection points into the surface.
    pub fn may_scatter(&self) -> (s: bool)
        ensures
            s == !(*self is DiffuseLight),
    {
        match self {
            Material::DiffuseLight { .. } => false,
            _ => true,
        }
    }
}

} // verus!
