//! Spheres, at rest or moving.

use vstd::prelude::*;
use crate::aabb::AABB;
use crate::interval::Interval;
use crate::vec3::Vec3;

verus! {

/// A sphere whose centre moves in a straight line while the shutter is open: it is at
/// `center` at time 0 and has moved by `motion` at time 1. Lengths are in thousandths.
#[derive(Clone, Copy, Debug, PartialEq, Eq, Structural)]
pub struct Sphere {
    pub center: Vec3,
    pub motion: Vec3,
    pub radius: i64,
    /// The place of the sphere's material in the scene's list of materials.
    pub mat: usize,
}

impl Sphere {
    /// `radius` where it is positive, else zero.
    pub open spec fn clamped(radius: i64) -> i64 {
        if radius > 0 {
            radius
        } else {
            0
        }
    }

    /// The box around a ball of radius `radius` at `center`.
    pub open spec fn ball_box(center: Vec3, radius: i64) -> AABB {
        let reach = Vec3 { x: radius, y: radius, z: radius };
        AABB::spanning(center.minus(reach), center.plus(reach))
    }

    /// The box around the sphere at time 0 and at time 1.
    pub open spec fn bounds(self) -> AABB {
        AABB::hull(
            Self::ball_box(self.center, self.radius),
            Self::ball_box(self.center.plus(self.motion), self.radius),
        )
    }

    /// A sphere at rest. A negative radius counts as zero.
    pub fn new(center: Vec3, radius: i64, mat: usize) -> (s: Self)
        ensures
            s == (Sphere {
                center,
                motion: Vec3 { x: 0, y: 0, z: 0 },
                radius: Self::clamped(radius),
                mat,
            }),
    {
        Sphere {
            center,
            motion: Vec3::new(0, 0, 0),
            radius: if radius > 0 {
                radius
            } else {
                0
            },
            mat,
        }
    }

    /// A sphere that is at `center1` at time 0 and at `center2` at time 1. A negative radius
    /// counts as zero.
    pub fn new_moving(center1: Vec3, center2: Vec3, radius: i64, mat: usize) -> (s: Self)
        ensures
            s == (Sphere {
                center: center1,
                motion: center2.minus(center1),
                radius: Self::clamped(radius),
                mat,
            }),
    {
        Sphere {
            center: center1,
            motion: center2.sub(center1),
            radius: if radius > 0 {
                radius
            } else {
                0
            },
            mat,
        }
    }

    /// The box around the sphere at both ends of its motion.
    pub fn bounding_box(&self) -> (bbox: AABB)
        ensures
            bbox == self.bounds(),
    {
        let reach = Vec3::new(self.radius, self.radius, self.radius);
        let at_start = AABB::from_corners(self.center.sub(reach), self.center.add(reach));
        let end = self.center.add(self.motion);
        let at_end = AABB::from_corners(end.sub(reach), end.add(reach));
        AABB::union(at_start, at_end)
    }
}

/// The root that counts as the hit, of the two parameters at which a ray meets a sphere:
/// the smaller one where it lies strictly inside the range, else the larger one where that
/// does, else none.
pub open spec fn first_root_inside(ray_t: Interval, smaller: i64, larger: i64) -> Option<i64> {
    if ray_t.has_inside(smaller) {
        Some(smaller)
    } else if ray_t.has_inside(larger) {
        Some(larger)
    } else {
        None
    }
}

/// The root that counts as the hit, see [`first_root_inside`].
pub fn nearest_root(ray_t: Interval, smaller: i64, larger: i64) -> (root: Option<i64>)
    ensures
        root == first_root_inside(ray_t, smaller, larger),
{
    if ray_t.surrounds(smaller) {
        Some(smaller)
    } else if ray_t.surrounds(larger) {
        Some(larger)
    } else {
        None
    }
}

/// The root that counts is the nearest root of the range, and keeps counting when the
/// range ends earlier, as long as it still lies strictly inside: over a range that ends
/// behind it the same root counts, over one that ends at or before it none does.
pub proof fn lemma_nearest_root_is_nearest(ray_t: Interval, smaller: i64, larger: i64, upper: i64)
    requires
        smaller <= larger,
        upper <= ray_t.max,
    ensures
        first_root_inside(ray_t, smaller, larger) matches Some(root) ==> ray_t.has_inside(root)
            && (root == smaller || root == larger) && (ray_t.has_inside(smaller) ==> root
            == smaller),
        first_root_inside(ray_t, smaller, larger) is None ==> first_root_inside(
            Interval { min: ray_t.min, max: upper },
            smaller,
            larger,
        ) is None,
        first_root_inside(ray_t, smaller, larger) matches Some(root) ==> first_root_inside(
            Interval { min: ray_t.min, max: upper },
            smaller,
            larger,
        ) == if root < upper {
            Some(root)
        } else {
            None::<i64>
        },
{
}

/// The box of a sphere holds the centre at both ends of the motion, and every point that is
/// within the radius of the first centre along each axis.
pub proof fn lemma_sphere_box_holds(s: Sphere, p: Vec3)
    requires
        s.radius >= 0,
    ensures
        s.bounds().holds(s.center),
        s.bounds().holds(s.center.plus(s.motion)),
        s.center.x - s.radius <= p.x <= s.center.x + s.radius && s.center.y - s.radius <= p.y
            <= s.center.y + s.radius && s.center.z - s.radius <= p.z <= s.center.z + s.radius
            ==> s.bounds().holds(p),
{
}

} // verus!
