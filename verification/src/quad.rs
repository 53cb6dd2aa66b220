//! Flat four-sided patches.

use vstd::prelude::*;
use crate::aabb::AABB;
use crate::interval::Interval;
use crate::vec3::Vec3;

verus! {

/// The parallelogram with one corner at `q` and the sides `u` and `v` from there. Lengths
/// are in thousandths.
#[derive(Clone, Copy, Debug, PartialEq, Eq, Structural)]
pub struct Quad {
    pub q: Vec3,
    pub u: Vec3,
    pub v: Vec3,
    /// The place of the patch's material in the scene's list of materials.
    pub mat: usize,
}

impl Quad {
    /// The box around the four corners, with its thin sides widened.
    pub open spec fn bounds(self) -> AABB {
        AABB::hull(
            AABB::spanning(self.q, self.q.plus(self.u).plus(self.v)),
            AABB::spanning(self.q.plus(self.u), self.q.plus(self.v)),
        ).padded()
    }

    pub fn new(q: Vec3, u: Vec3, v: Vec3, mat: usize) -> (quad: Self)
        ensures
            quad == (Quad { q, u, v, mat }),
    {
        Quad { q, u, v, mat }
    }

    /// The box around the two diagonals of the patch. A patch that lies in a plane across
    /// an axis would have a side of length zero there: such sides are widened.
    pub fn bounding_box(&self) -> (bbox: AABB)
        ensures
            bbox == self.bounds(),
    {
        let diag1 = AABB::from_corners(self.q, self.q.add(self.u).add(self.v));
        let diag2 = AABB::from_corners(self.q.add(self.u), self.q.add(self.v));
        AABB::union(diag1, diag2).pad_to_minimums()
    }
}

/// Whether the point with the plane coordinates `a` and `b` lies on a patch: both
/// coordinates lie in `unit`, the range from zero to one, ends included.
pub fn is_interior(a: i64, b: i64, unit: Interval) -> (inside: bool)
    ensures
        inside == (unit.has(a) && unit.has(b)),
{
    unit.contains(a) && unit.contains(b)
}

/// The six sides of the box that has `a` and `b` as opposite corners, whichever comes first:
/// front, right, back, left, top and bottom, all of the material `mat`.
pub open spec fn box_sides(a: Vec3, b: Vec3, mat: usize) -> Seq<Quad> {
    let span = AABB::spanning(a, b);
    let mn = Vec3 { x: span.x.min, y: span.y.min, z: span.z.min };
    let mx = Vec3 { x: span.x.max, y: span.y.max, z: span.z.max };
    let dx = Vec3 { x: crate::interval::saturate(mx.x - mn.x), y: 0, z: 0 };
    let dy = Vec3 { x: 0, y: crate::interval::saturate(mx.y - mn.y), z: 0 };
    let dz = Vec3 { x: 0, y: 0, z: crate::interval::saturate(mx.z - mn.z) };
    seq![
        Quad { q: Vec3 { x: mn.x, y: mn.y, z: mx.z }, u: dx, v: dy, mat },
        Quad { q: Vec3 { x: mx.x, y: mn.y, z: mx.z }, u: dz.negated(), v: dy, mat },
        Quad { q: Vec3 { x: mx.x, y: mn.y, z: mn.z }, u: dx.negated(), v: dy, mat },
        Quad { q: Vec3 { x: mn.x, y: mn.y, z: mn.z }, u: dz, v: dy, mat },
        Quad { q: Vec3 { x: mn.x, y: mx.y, z: mx.z }, u: dx, v: dz.negated(), mat },
        Quad { q: Vec3 { x: mn.x, y: mn.y, z: mn.z }, u: dx, v: dz, mat },
    ]
}

/// The six sides of the box with the opposite corners `a` and `b`, see [`box_sides`].
#[allow(non_snake_case)]
pub fn MakeBox(a: Vec3, b: Vec3, mat: usize) -> (sides: Vec<Quad>)
    ensures
        sides@ == box_sides(a, b, mat),
{
    let span = AABB::from_corners(a, b);
    let mn = Vec3::new(span.x.min, span.y.min, span.z.min);
    let mx = Vec3::new(span.x.max, span.y.max, span.z.max);
    let dx = Vec3::new(span.x.size(), 0, 0);
    let dy = Vec3::new(0, span.y.size(), 0);
    let dz = Vec3::new(0, 0, span.z.size());
    let mut sides: Vec<Quad> = Vec::new();
    sides.push(Quad::new(Vec3::new(mn.x, mn.y, mx.z), dx, dy, mat));
    sides.push(Quad::new(Vec3::new(mx.x, mn.y, mx.z), dz.neg(), dy, mat));
    sides.push(Quad::new(Vec3::new(mx.x, mn.y, mn.z), dx.neg(), dy, mat));
    sides.push(Quad::new(Vec3::new(mn.x, mn.y, mn.z), dz, dy, mat));
    sides.push(Quad::new(Vec3::new(mn.x, mx.y, mx.z), dx, dz.neg(), mat));
    sides.push(Quad::new(Vec3::new(mn.x, mn.y, mn.z), dx, dz, mat));
    proof {
        assert(sides@ =~= box_sides(a, b, mat));
    }
    sides
}

/// Every corner of every side of a box lies in the box, as long as the box is small enough
/// for its sides to be measured without saturation.
pub proof fn lemma_box_sides_lie_in_box(a: Vec3, b: Vec3, mat: usize, i: int)
    requires
        0 <= i < 6,
        -0x2000_0000_0000_0000 < a.x < 0x2000_0000_0000_0000,
        -0x2000_0000_0000_0000 < a.y < 0x2000_0000_0000_0000,
        -0x2000_0000_0000_0000 < a.z < 0x2000_0000_0000_0000,
        -0x2000_0000_0000_0000 < b.x < 0x2000_0000_0000_0000,
        -0x2000_0000_0000_0000 < b.y < 0x2000_0000_0000_0000,
        -0x2000_0000_0000_0000 < b.z < 0x2000_0000_0000_0000,
    ensures
        box_sides(a, b, mat).len() == 6,
        box_sides(a, b, mat)[i].mat == mat,
        AABB::spanning(a, b).holds(box_sides(a, b, mat)[i].q),
        AABB::spanning(a, b).holds(box_sides(a, b, mat)[i].q.plus(box_sides(a, b, mat)[i].u)),
        AABB::spanning(a, b).holds(box_sides(a, b, mat)[i].q.plus(box_sides(a, b, mat)[i].v)),
        AABB::spanning(a, b).holds(
            box_sides(a, b, mat)[i].q.plus(box_sides(a, b, mat)[i].u).plus(
                box_sides(a, b, mat)[i].v,
            ),
        ),
{
}

/// The box of a patch holds its four corners, and where the first corner is finite it has
/// no side of length zero.
pub proof fn lemma_quad_box_holds(quad: Quad)
    ensures
        quad.bounds().holds(quad.q),
        quad.bounds().holds(quad.q.plus(quad.u)),
        quad.bounds().holds(quad.q.plus(quad.v)),
        quad.bounds().holds(quad.q.plus(quad.u).plus(quad.v)),
        quad.q.is_finite() ==> quad.bounds().x.length() > 0 && quad.bounds().y.length() > 0
            && quad.bounds().z.length() > 0,
{
    let inner = AABB::hull(
        AABB::spanning(quad.q, quad.q.plus(quad.u).plus(quad.v)),
        AABB::spanning(quad.q.plus(quad.u), quad.q.plus(quad.v)),
    );
    crate::aabb::lemma_padding_widens(inner, quad.q);
    crate::aabb::lemma_padding_widens(inner, quad.q.plus(quad.u));
    crate::aabb::lemma_padding_widens(inner, quad.q.plus(quad.v));
    crate::aabb::lemma_padding_widens(inner, quad.q.plus(quad.u).plus(quad.v));
}

} // verus!
