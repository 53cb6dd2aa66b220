//! Axis-aligned bounding boxes.

use vstd::prelude::*;
use crate::interval::Interval;
use crate::vec3::Vec3;

verus! {

/// The least length that [`AABB::pad_to_minimums`] leaves to a side, in lattice units.
pub const MIN_EXTENT: i64 = 2;

/// A box with its sides along the axes: one range for each axis. The box holds a point when
/// each range holds the point's coordinate; it holds nothing when one of its ranges does.
#[derive(Clone, Copy, Debug, PartialEq, Eq, Structural)]
pub struct AABB {
    pub x: Interval,
    pub y: Interval,
    pub z: Interval,
}

impl AABB {
    /// The box that holds nothing and is the identity of [`AABB::union`].
    pub open spec fn spec_empty() -> AABB {
        AABB { x: Interval::spec_empty(), y: Interval::spec_empty(), z: Interval::spec_empty() }
    }

    /// The box that holds every point.
    pub open spec fn spec_universe() -> AABB {
        AABB {
            x: Interval::spec_universe(),
            y: Interval::spec_universe(),
            z: Interval::spec_universe(),
        }
    }

    /// The range on axis `n`: `y` for 1, `z` for 2, `x` for any other `n`.
    pub open spec fn axis(self, n: int) -> Interval {
        if n == 1 {
            self.y
        } else if n == 2 {
            self.z
        } else {
            self.x
        }
    }

    /// Whether the box holds the point `p`.
    pub open spec fn holds(self, p: Vec3) -> bool {
        self.x.has(p.x) && self.y.has(p.y) && self.z.has(p.z)
    }

    /// Whether `self` encloses `other` on every axis.
    pub open spec fn encloses(self, other: AABB) -> bool {
        self.x.encloses(other.x) && self.y.encloses(other.y) && self.z.encloses(other.z)
    }

    /// The smallest box around `a` and `b`.
    pub open spec fn hull(a: AABB, b: AABB) -> AABB {
        AABB {
            x: Interval::hull(a.x, b.x),
            y: Interval::hull(a.y, b.y),
            z: Interval::hull(a.z, b.z),
        }
    }

    /// The box that has `a` and `b` as opposite corners.
    pub open spec fn spanning(a: Vec3, b: Vec3) -> AABB {
        AABB {
            x: Interval {
                min: crate::interval::lesser(a.x, b.x),
                max: crate::interval::greater(a.x, b.x),
            },
            y: Interval {
                min: crate::interval::lesser(a.y, b.y),
                max: crate::interval::greater(a.y, b.y),
            },
            z: Interval {
                min: crate::interval::lesser(a.z, b.z),
                max: crate::interval::greater(a.z, b.z),
            },
        }
    }

    /// The box moved by `offset`, axis by axis.
    pub open spec fn shifted(self, offset: Vec3) -> AABB {
        AABB {
            x: self.x.shifted(offset.x),
            y: self.y.shifted(offset.y),
            z: self.z.shifted(offset.z),
        }
    }

    /// `side` where it is at least [`MIN_EXTENT`] long, else `side` widened by that much.
    pub open spec fn thickened(side: Interval) -> Interval {
        if side.length() < MIN_EXTENT {
            side.widened(MIN_EXTENT)
        } else {
            side
        }
    }

    /// The box with every side that is shorter than [`MIN_EXTENT`] widened by that much.
    pub open spec fn padded(self) -> AABB {
        AABB {
            x: Self::thickened(self.x),
            y: Self::thickened(self.y),
            z: Self::thickened(self.z),
        }
    }

    /// The eight corners of the box: the corner at place `4 * i + 2 * j + k` has the upper
    /// end of the `x` range where `i` is 1 and the lower end where it is 0, and so with `j`
    /// for `y` and `k` for `z`.
    pub open spec fn corner_points(self) -> Seq<Vec3> {
        seq![
            Vec3 { x: self.x.min, y: self.y.min, z: self.z.min },
            Vec3 { x: self.x.min, y: self.y.min, z: self.z.max },
            Vec3 { x: self.x.min, y: self.y.max, z: self.z.min },
            Vec3 { x: self.x.min, y: self.y.max, z: self.z.max },
            Vec3 { x: self.x.max, y: self.y.min, z: self.z.min },
            Vec3 { x: self.x.max, y: self.y.min, z: self.z.max },
            Vec3 { x: self.x.max, y: self.y.max, z: self.z.min },
            Vec3 { x: self.x.max, y: self.y.max, z: self.z.max },
        ]
    }

    /// The smallest box that holds all `points`; the empty box where there are none.
    pub open spec fn hull_of_points(points: Seq<Vec3>) -> AABB
        decreases points.len(),
    {
        if points.len() == 0 {
            AABB::spec_empty()
        } else {
            AABB::hull(
                Self::hull_of_points(points.drop_last()),
                AABB::spanning(points.last(), points.last()),
            )
        }
    }

    /// The parameter at which a ray has entered the first `axes` slabs and the range
    /// `ray_t`: the largest of the lower end of the range and the nearer crossing of each
    /// of these slabs. A crossing is a pair of parameters, in either order.
    pub open spec fn entry_after(crossings: [(i64, i64); 3], ray_t: Interval, axes: int) -> i64
        decreases axes,
    {
        if axes <= 0 {
            ray_t.min
        } else {
            crate::interval::greater(
                Self::entry_after(crossings, ray_t, axes - 1),
                crate::interval::lesser(crossings[axes - 1].0, crossings[axes - 1].1),
            )
        }
    }

    /// The parameter at which a ray leaves the first of the first `axes` slabs or the range
    /// `ray_t`: the smallest of the upper end of the range and the farther crossing of each
    /// of these slabs.
    pub open spec fn exit_after(crossings: [(i64, i64); 3], ray_t: Interval, axes: int) -> i64
        decreases axes,
    {
        if axes <= 0 {
            ray_t.max
        } else {
            crate::interval::lesser(
                Self::exit_after(crossings, ray_t, axes - 1),
                crate::interval::greater(crossings[axes - 1].0, crossings[axes - 1].1),
            )
        }
    }

    /// The parameter at which a ray has entered all three slabs and the range `ray_t`.
    pub open spec fn entry(crossings: [(i64, i64); 3], ray_t: Interval) -> i64 {
        Self::entry_after(crossings, ray_t, 3)
    }

    /// The parameter at which a ray leaves the first of the three slabs or the range.
    pub open spec fn exit(crossings: [(i64, i64); 3], ray_t: Interval) -> i64 {
        Self::exit_after(crossings, ray_t, 3)
    }

    /// The axis on which the box is longest. `x` wins only when strictly longer than both
    /// others, `y` only when strictly longer than `z`; every tie goes to the later axis.
    pub open spec fn longest(self) -> int {
        let sx = self.x.length();
        let sy = self.y.length();
        let sz = self.z.length();
        if sx > sy {
            if sx > sz {
                0
            } else {
                2
            }
        } else {
            if sy > sz {
                1
            } else {
                2
            }
        }
    }

    pub fn new(x: Interval, y: Interval, z: Interval) -> (b: Self)
        ensures
            b == (AABB { x, y, z }),
    {
        AABB { x, y, z }
    }

    #[verifier::when_used_as_spec(spec_empty)]
    pub fn empty() -> (b: Self)
        ensures
            b == Self::spec_empty(),
    {
        AABB { x: Interval::empty(), y: Interval::empty(), z: Interval::empty() }
    }

    #[verifier::when_used_as_spec(spec_universe)]
    pub fn universe() -> (b: Self)
        ensures
            b == Self::spec_universe(),
    {
        AABB { x: Interval::universe(), y: Interval::universe(), z: Interval::universe() }
    }

    pub fn axis_interval(&self, n: usize) -> (r: Interval)
        ensures
            r == self.axis(n as int),
    {
        if n == 1 {
            self.y
        } else if n == 2 {
            self.z
        } else {
            self.x
        }
    }

    pub fn longest_axis(&self) -> (n: usize)
        ensures
            n == self.longest(),
            n < 3,
    {
        if self.x.size() > self.y.size() {
            if self.x.size() > self.z.size() {
                0
            } else {
                2
            }
        } else {
            if self.y.size() > self.z.size() {
                1
            } else {
                2
            }
        }
    }

    /// The box that has `a` and `b` as opposite corners, whichever comes first.
    pub fn from_corners(a: Vec3, b: Vec3) -> (r: Self)
        ensures
            r == Self::spanning(a, b),
            r.holds(a),
            r.holds(b),
    {
        AABB {
            x: if a.x <= b.x {
                Interval::new(a.x, b.x)
            } else {
                Interval::new(b.x, a.x)
            },
            y: if a.y <= b.y {
                Interval::new(a.y, b.y)
            } else {
                Interval::new(b.y, a.y)
            },
            z: if a.z <= b.z {
                Interval::new(a.z, b.z)
            } else {
                Interval::new(b.z, a.z)
            },
        }
    }

    /// The smallest box around `a` and `b`.
    pub fn union(a: AABB, b: AABB) -> (r: Self)
        ensures
            r == Self::hull(a, b),
            r.encloses(a),
            r.encloses(b),
    {
        AABB {
            x: Interval::enclosing(a.x, b.x),
            y: Interval::enclosing(a.y, b.y),
            z: Interval::enclosing(a.z, b.z),
        }
    }

    /// The box with its thin sides widened, so that no side of a flat thing has length zero.
    pub fn pad_to_minimums(&self) -> (r: Self)
        ensures
            r == self.padded(),
    {
        AABB {
            x: if self.x.size() < MIN_EXTENT {
                self.x.expand(MIN_EXTENT)
            } else {
                self.x
            },
            y: if self.y.size() < MIN_EXTENT {
                self.y.expand(MIN_EXTENT)
            } else {
                self.y
            },
            z: if self.z.size() < MIN_EXTENT {
                self.z.expand(MIN_EXTENT)
            } else {
                self.z
            },
        }
    }

    /// The eight corners of the box, see [`AABB::corner_points`].
    pub fn corners(&self) -> (points: Vec<Vec3>)
        ensures
            points@ == self.corner_points(),
    {
        let mut points: Vec<Vec3> = Vec::new();
        points.push(Vec3::new(self.x.min, self.y.min, self.z.min));
        points.push(Vec3::new(self.x.min, self.y.min, self.z.max));
        points.push(Vec3::new(self.x.min, self.y.max, self.z.min));
        points.push(Vec3::new(self.x.min, self.y.max, self.z.max));
        points.push(Vec3::new(self.x.max, self.y.min, self.z.min));
        points.push(Vec3::new(self.x.max, self.y.min, self.z.max));
        points.push(Vec3::new(self.x.max, self.y.max, self.z.min));
        points.push(Vec3::new(self.x.max, self.y.max, self.z.max));
        proof {
            assert(points@ =~= self.corner_points());
        }
        points
    }

    /// The smallest box that holds all `points`, see [`AABB::hull_of_points`].
    pub fn around(points: &Vec<Vec3>) -> (bbox: Self)
        ensures
            bbox == Self::hull_of_points(points@),
    {
        let mut bbox = AABB::empty();
        let mut i: usize = 0;
        proof {
            assert(points@.take(0) =~= Seq::<Vec3>::empty());
        }
        while i < points.len()
            invariant
                i <= points@.len(),
                bbox == Self::hull_of_points(points@.take(i as int)),
            decreases points@.len() - i,
        {
            proof {
                assert(points@.take(i + 1).drop_last() =~= points@.take(i as int));
            }
            bbox = AABB::union(bbox, AABB::from_corners(points[i], points[i]));
            i = i + 1;
        }
        proof {
            assert(points@.take(points@.len() as int) =~= points@);
        }
        bbox
    }

    /// Whether a ray passes through a box within the range `ray_t`, given the two
    /// parameters at which it crosses the planes of each pair of sides.
    ///
    /// The range is cut down slab by slab: on each axis its lower end rises to the nearer
    /// crossing and its upper end falls to the farther one, and the ray misses as soon as
    /// nothing is left between them. So the ray passes exactly where it enters all slabs
    /// before it leaves any.
    pub fn hit(crossings: &[(i64, i64); 3], ray_t: Interval) -> (crossed: bool)
        ensures
            crossed == (Self::entry(*crossings, ray_t) < Self::exit(*crossings, ray_t)),
    {
        let mut running = ray_t;
        let mut axis: usize = 0;
        while axis < 3
            invariant
                axis <= 3,
                running.min < running.max || axis == 0,
                running.min == Self::entry_after(*crossings, ray_t, axis as int),
                running.max == Self::exit_after(*crossings, ray_t, axis as int),
            decreases 3 - axis,
        {
            let t0: i64 = crossings[axis].0;
            let t1: i64 = crossings[axis].1;
            if t0 < t1 {
                if t0 > running.min {
                    running.min = t0;
                }
                if t1 < running.max {
                    running.max = t1;
                }
            } else {
                if t1 > running.min {
                    running.min = t1;
                }
                if t0 < running.max {
                    running.max = t0;
                }
            }
            if running.max <= running.min {
                proof {
                    Self::lemma_slabs_only_narrow(*crossings, ray_t, axis + 1, 3);
                }
                return false;
            }
            axis = axis + 1;
        }
        true
    }

    /// Each further slab can only narrow what is left of the range.
    pub proof fn lemma_slabs_only_narrow(
        crossings: [(i64, i64); 3],
        ray_t: Interval,
        fewer: int,
        more: int,
    )
        requires
            0 <= fewer <= more,
        ensures
            Self::entry_after(crossings, ray_t, fewer) <= Self::entry_after(crossings, ray_t, more),
            Self::exit_after(crossings, ray_t, more) <= Self::exit_after(crossings, ray_t, fewer),
        decreases more - fewer,
    {
        if fewer < more {
            Self::lemma_slabs_only_narrow(crossings, ray_t, fewer, more - 1);
        }
    }

    /// A ray that passes within slabs passes within wider ones: where each crossing of
    /// `wider` begins no later and ends no earlier than that of `crossings`, entry can only
    /// come earlier and exit later.
    pub proof fn lemma_wider_slabs_still_cross(
        crossings: [(i64, i64); 3],
        wider: [(i64, i64); 3],
        ray_t: Interval,
    )
        requires
            forall|n: int|
                0 <= n < 3 ==> crate::interval::lesser(wider[n].0, wider[n].1)
                    <= crate::interval::lesser(#[trigger] crossings[n].0, crossings[n].1)
                    && crate::interval::greater(crossings[n].0, crossings[n].1)
                    <= crate::interval::greater(wider[n].0, wider[n].1),
        ensures
            Self::entry(wider, ray_t) <= Self::entry(crossings, ray_t),
            Self::exit(crossings, ray_t) <= Self::exit(wider, ray_t),
            Self::entry(crossings, ray_t) < Self::exit(crossings, ray_t) ==> Self::entry(
                wider,
                ray_t,
            ) < Self::exit(wider, ray_t),
    {
        reveal_with_fuel(AABB::entry_after, 4);
        reveal_with_fuel(AABB::exit_after, 4);
        assert(crossings[0].0 == crossings[0].0);
        assert(crossings[1].0 == crossings[1].0);
        assert(crossings[2].0 == crossings[2].0);
    }

    /// The box moved by `offset`.
    pub fn translated(&self, offset: Vec3) -> (r: Self)
        ensures
            r == self.shifted(offset),
    {
        AABB {
            x: self.x.displaced_by(offset.x),
            y: self.y.displaced_by(offset.y),
            z: self.z.displaced_by(offset.z),
        }
    }
}

impl From<(Vec3, Vec3)> for AABB {
    /// The box that has the two points as opposite corners, see [`AABB::from_corners`].
    fn from(v: (Vec3, Vec3)) -> (r: Self) {
        AABB::from_corners(v.0, v.1)
    }
}

impl vstd::std_specs::convert::FromSpecImpl<(Vec3, Vec3)> for AABB {
    open spec fn obeys_from_spec() -> bool {
        true
    }

    open spec fn from_spec(v: (Vec3, Vec3)) -> Self {
        AABB::spanning(v.0, v.1)
    }
}

impl From<(AABB, AABB)> for AABB {
    /// The smallest box around the two boxes, see [`AABB::union`].
    fn from(v: (AABB, AABB)) -> (r: Self) {
        AABB::union(v.0, v.1)
    }
}

impl vstd::std_specs::convert::FromSpecImpl<(AABB, AABB)> for AABB {
    open spec fn obeys_from_spec() -> bool {
        true
    }

    open spec fn from_spec(v: (AABB, AABB)) -> Self {
        AABB::hull(v.0, v.1)
    }
}

impl Default for AABB {
    fn default() -> (b: Self)
        ensures
            b == AABB::empty(),
    {
        AABB::empty()
    }
}

/// A box made from two corners gives those corners back: on every axis its range runs from
/// the smaller to the larger of the two coordinates, and the order of the corners is
/// immaterial.
pub proof fn lemma_corners_round_trip(a: Vec3, b: Vec3, n: int)
    ensures
        AABB::spanning(a, b).axis(n).min == crate::interval::lesser(a.axis(n), b.axis(n)),
        AABB::spanning(a, b).axis(n).max == crate::interval::greater(a.axis(n), b.axis(n)),
        AABB::spanning(a, b) == AABB::spanning(b, a),
        AABB::spanning(
            Vec3 {
                x: AABB::spanning(a, b).x.min,
                y: AABB::spanning(a, b).y.min,
                z: AABB::spanning(a, b).z.min,
            },
            Vec3 {
                x: AABB::spanning(a, b).x.max,
                y: AABB::spanning(a, b).y.max,
                z: AABB::spanning(a, b).z.max,
            },
        ) == AABB::spanning(a, b),
{
}

/// Padding only widens: the padded box encloses the box, and where the box holds a point
/// whose coordinates are finite, no side of length zero is left.
pub proof fn lemma_padding_widens(b: AABB, p: Vec3)
    ensures
        b.padded().encloses(b),
        b.holds(p) ==> b.padded().holds(p),
        b.holds(p) && p.is_finite() ==> b.padded().x.length() > 0 && b.padded().y.length() > 0
            && b.padded().z.length() > 0,
{
}

/// The box around some points holds each of them.
pub proof fn lemma_hull_holds_points(points: Seq<Vec3>, i: int)
    requires
        0 <= i < points.len(),
    ensures
        AABB::hull_of_points(points).holds(points[i]),
    decreases points.len(),
{
    if i < points.len() - 1 {
        lemma_hull_holds_points(points.drop_last(), i);
        assert(points.drop_last()[i] == points[i]);
    }
}

/// The box around the corners of a box is that box, as long as the box holds a point.
pub proof fn lemma_corners_span_the_box(b: AABB)
    requires
        b.x.min <= b.x.max,
        b.y.min <= b.y.max,
        b.z.min <= b.z.max,
    ensures
        AABB::hull_of_points(b.corner_points()) == b,
{
    reveal_with_fuel(AABB::hull_of_points, 9);
    let p = b.corner_points();
    assert(p.drop_last() =~= p.take(7));
    assert(p.take(7).drop_last() =~= p.take(6));
    assert(p.take(6).drop_last() =~= p.take(5));
    assert(p.take(5).drop_last() =~= p.take(4));
    assert(p.take(4).drop_last() =~= p.take(3));
    assert(p.take(3).drop_last() =~= p.take(2));
    assert(p.take(2).drop_last() =~= p.take(1));
    assert(p.take(1).drop_last() =~= p.take(0));
}

/// The union is idempotent, commutative and associative, the empty box is its identity, and
/// enclosing is transitive.
pub proof fn lemma_union_laws(a: AABB, b: AABB, c: AABB)
    ensures
        AABB::hull(a, a) == a,
        AABB::hull(a, b) == AABB::hull(b, a),
        AABB::hull(AABB::hull(a, b), c) == AABB::hull(a, AABB::hull(b, c)),
        AABB::hull(AABB::empty(), a) == a,
        AABB::hull(a, AABB::empty()) == a,
        a.encloses(b) && b.encloses(c) ==> a.encloses(c),
        a.encloses(b) ==> forall|p: Vec3| b.holds(p) ==> a.holds(p),
{
}

} // verus!
