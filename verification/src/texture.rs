//! Textures: what colour a surface has at a point.

use vstd::prelude::*;
use crate::vec3::Vec3;

verus! {

/// A colour: red, green and blue in thousandths.
pub type Color = Vec3;

/// A texture of a scene. A texture that is made of other textures names them by their place
/// in the scene's list of textures.
#[derive(Clone, Copy, Debug, PartialEq, Eq, Structural)]
pub enum Texture {
    /// The same colour everywhere.
    SolidColor { albedo: Color },
    /// A grid of cubes with side `scale`, in thousandths, that alternate between two
    /// textures.
    Checker { scale: i64, even: usize, odd: usize },
    /// Marbled noise with the given frequency, in thousandths.
    Noise { scale: i64 },
}

impl Texture {
    /// Whether every texture that `self` names stands before place `limit`.
    pub open spec fn refers_below(self, limit: int) -> bool {
        match self {
            Texture::Checker { scale, even, odd } => even < limit && odd < limit,
            _ => true,
        }
    }
}

/// Whether the cube of a checker grid with the lattice coordinates `(x, y, z)` shows the
/// first of the two textures: it does where the sum of the coordinates is even.
pub open spec fn checker_even(x: int, y: int, z: int) -> bool {
    (x + y + z) % 2 == 0
}

/// Which texture a checker shows in the cube `(x, y, z)` of its grid: `true` for the first
/// ("even"), `false` for the second ("odd").
pub fn checker_is_even(x: i32, y: i32, z: i32) -> (even: bool)
    ensures
        even == checker_even(x as int, y as int, z as int),
{
    let sum: i64 = x as i64 + y as i64 + z as i64;
    let r: i64 = sum % 2;
    proof {
        assert(r == 0 <==> (sum as int) % 2 == 0) by {
            if sum >= 0 {
                assert(r == (sum as int) % 2);
            } else {
                assert(r == -((-(sum as int)) % 2));
                assert(((-(sum as int)) % 2 == 0) <==> ((sum as int) % 2 == 0)) by {
                    vstd::arithmetic::div_mod::lemma_fundamental_div_mod(sum as int, 2);
                    vstd::arithmetic::div_mod::lemma_fundamental_div_mod(-(sum as int), 2);
                }
            }
        }
    }
    r == 0
}

/// Neighbouring cubes of the grid differ, along every axis.
pub proof fn lemma_checker_alternates(x: int, y: int, z: int)
    ensures
        checker_even(x + 1, y, z) == !checker_even(x, y, z),
        checker_even(x, y + 1, z) == !checker_even(x, y, z),
        checker_even(x, y, z + 1) == !checker_even(x, y, z),
        checker_even(0, 0, 0),
{
}

} // verus!
