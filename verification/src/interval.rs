//! Closed ranges on the integer lattice.
//!
//! Every coordinate of the scene, and every ray parameter, reaches this library as an `i64`
//! whose order is the order of the quantity it stands for. The two ends of the `i64` range
//! stand for minus and plus infinity: arithmetic saturates there, and an end that is already
//! infinite stays where it is.

use vstd::prelude::*;

verus! {

/// The integer that stands for plus infinity.
pub const POS_INFINITY: i64 = i64::MAX;

/// The integer that stands for minus infinity.
pub const NEG_INFINITY: i64 = i64::MIN;

/// `x` brought into the range of `i64`.
pub open spec fn saturate(x: int) -> i64 {
    if x > i64::MAX {
        i64::MAX
    } else if x < i64::MIN {
        i64::MIN
    } else {
        x as i64
    }
}

/// `a` moved by `b`: an infinite `a` does not move, a finite one saturates.
pub open spec fn displace(a: i64, b: i64) -> i64 {
    if a == i64::MAX || a == i64::MIN {
        a
    } else {
        saturate(a + b)
    }
}

/// The smaller of two integers.
pub open spec fn lesser(a: i64, b: i64) -> i64 {
    if a <= b {
        a
    } else {
        b
    }
}

/// The larger of two integers.
pub open spec fn greater(a: i64, b: i64) -> i64 {
    if a >= b {
        a
    } else {
        b
    }
}

/// `a - b`, saturated.
pub fn saturating_difference(a: i64, b: i64) -> (d: i64)
    ensures
        d == saturate(a - b),
{
    let wide: i128 = a as i128 - b as i128;
    if wide > i64::MAX as i128 {
        i64::MAX
    } else if wide < i64::MIN as i128 {
        i64::MIN
    } else {
        wide as i64
    }
}

/// `a + b`, saturated.
pub fn saturating_sum(a: i64, b: i64) -> (d: i64)
    ensures
        d == saturate(a + b),
{
    let wide: i128 = a as i128 + b as i128;
    if wide > i64::MAX as i128 {
        i64::MAX
    } else if wide < i64::MIN as i128 {
        i64::MIN
    } else {
        wide as i64
    }
}

/// `a` moved by `b`, see [`displace`].
pub fn displaced(a: i64, b: i64) -> (d: i64)
    ensures
        d == displace(a, b),
{
    if a == i64::MAX || a == i64::MIN {
        a
    } else {
        saturating_sum(a, b)
    }
}

/// The closed range `[min, max]`. A range with `min > max` holds nothing.
#[derive(Clone, Copy, Debug, PartialEq, Eq, Structural)]
pub struct Interval {
    pub min: i64,
    pub max: i64,
}

impl Interval {
    /// The range that holds nothing and is the identity of [`Interval::enclosing`].
    pub open spec fn spec_empty() -> Interval {
        Interval { min: POS_INFINITY, max: NEG_INFINITY }
    }

    /// The range that holds everything.
    pub open spec fn spec_universe() -> Interval {
        Interval { min: NEG_INFINITY, max: POS_INFINITY }
    }

    #[verifier::when_used_as_spec(spec_empty)]
    pub fn empty() -> (r: Self)
        ensures
            r == Self::spec_empty(),
    {
        Interval { min: POS_INFINITY, max: NEG_INFINITY }
    }

    #[verifier::when_used_as_spec(spec_universe)]
    pub fn universe() -> (r: Self)
        ensures
            r == Self::spec_universe(),
    {
        Interval { min: NEG_INFINITY, max: POS_INFINITY }
    }

    /// The length `max - min`, saturated.
    pub open spec fn length(self) -> i64 {
        saturate(self.max - self.min)
    }

    /// The range moved by `offset`: each end as [`displace`] moves it.
    pub open spec fn shifted(self, offset: i64) -> Interval {
        Interval { min: displace(self.min, offset), max: displace(self.max, offset) }
    }

    /// The range widened by `delta` in all: half of it, rounded toward zero, at each end.
    pub open spec fn widened(self, delta: i64) -> Interval {
        Interval {
            min: displace(self.min, saturate(-(Self::half(delta)))),
            max: displace(self.max, Self::half(delta)),
        }
    }

    /// Whether `x` lies in the range, ends included.
    pub open spec fn has(self, x: i64) -> bool {
        self.min <= x <= self.max
    }

    /// Whether `x` lies strictly between the two ends.
    pub open spec fn has_inside(self, x: i64) -> bool {
        self.min < x < self.max
    }

    /// Whether `self` reaches at least as far as `other` at both ends. Every point of `other`
    /// then lies in `self`.
    pub open spec fn encloses(self, other: Interval) -> bool {
        self.min <= other.min && other.max <= self.max
    }

    /// The smallest range that holds both `a` and `b`.
    pub open spec fn hull(a: Interval, b: Interval) -> Interval {
        Interval { min: lesser(a.min, b.min), max: greater(a.max, b.max) }
    }

    pub fn new(min: i64, max: i64) -> (r: Self)
        ensures
            r.min == min,
            r.max == max,
    {
        Interval { min, max }
    }

    /// The length `max - min`, saturated: the empty range has length minus infinity,
    /// the universe plus infinity.
    pub fn size(&self) -> (s: i64)
        ensures
            s == self.length(),
    {
        saturating_difference(self.max, self.min)
    }

    pub fn contains(&self, x: i64) -> (r: bool)
        ensures
            r == self.has(x),
    {
        self.min <= x && x <= self.max
    }

    pub fn surrounds(&self, x: i64) -> (r: bool)
        ensures
            r == self.has_inside(x),
    {
        self.min < x && x < self.max
    }

    /// `x` moved to the nearest end when it lies outside. The lower end is tried first, so on
    /// a range that holds nothing a point below `min` goes to `min`.
    pub fn clamp(&self, x: i64) -> (r: i64)
        ensures
            r == if x < self.min {
                self.min
            } else if x > self.max {
                self.max
            } else {
                x
            },
            self.min <= self.max ==> self.has(r),
    {
        if x < self.min {
            self.min
        } else if x > self.max {
            self.max
        } else {
            x
        }
    }

    /// The range widened by `delta` in all: half of it, rounded toward zero, at each end.
    pub fn expand(&self, delta: i64) -> (r: Self)
        ensures
            r == self.widened(delta),
    {
        let padding: i64 = delta / 2;
        proof {
            assert(padding == Self::half(delta));
        }
        let down: i64 = saturating_difference(0, padding);
        Interval { min: displaced(self.min, down), max: displaced(self.max, padding) }
    }

    /// Half of `delta`, rounded toward zero.
    pub open spec fn half(delta: i64) -> i64 {
        if delta >= 0 {
            (delta / 2) as i64
        } else {
            (-((-delta) / 2)) as i64
        }
    }

    /// The range that encloses both `i1` and `i2`.
    pub fn enclosing(i1: Interval, i2: Interval) -> (r: Self)
        ensures
            r == Self::hull(i1, i2),
            r.encloses(i1),
            r.encloses(i2),
    {
        Interval {
            min: if i1.min <= i2.min {
                i1.min
            } else {
                i2.min
            },
            max: if i1.max >= i2.max {
                i1.max
            } else {
                i2.max
            },
        }
    }

    /// The range moved by `offset`.
    pub fn displaced_by(&self, offset: i64) -> (r: Self)
        ensures
            r == self.shifted(offset),
    {
        Interval { min: displaced(self.min, offset), max: displaced(self.max, offset) }
    }
}

impl Default for Interval {
    fn default() -> (r: Self)
        ensures
            r == Interval::empty(),
    {
        Interval::empty()
    }
}

/// Enclosing is idempotent, commutative and associative, and the empty range is its identity.
pub proof fn lemma_enclosing_laws(a: Interval, b: Interval, c: Interval)
    ensures
        Interval::hull(a, a) == a,
        Interval::hull(a, b) == Interval::hull(b, a),
        Interval::hull(Interval::hull(a, b), c) == Interval::hull(a, Interval::hull(b, c)),
        Interval::hull(Interval::empty(), a) == a,
        Interval::hull(a, Interval::empty()) == a,
{
}

} // verus!
