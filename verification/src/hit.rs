//! What a ray can hit, and the plain list of such things.

use vstd::prelude::*;
use crate::aabb::AABB;
use crate::interval::Interval;

verus! {

/// Where a ray met a surface: the ray parameter `t` of the meeting, and what the surface
/// reports of it (point, normal, texture coordinates, material).
#[derive(Debug)]
pub struct HitRecord<S> {
    pub t: i64,
    pub surface: S,
}

/// The range of ray parameters that is left to search once `found` is known: the upper end
/// comes down to the parameter of the hit. The range only ever shrinks: a hit beyond its
/// upper end leaves it as it is.
pub open spec fn narrowed<S>(ray_t: Interval, found: Option<HitRecord<S>>) -> Interval {
    match found {
        Some(rec) => Interval { min: ray_t.min, max: crate::interval::lesser(ray_t.max, rec.t) },
        None => ray_t,
    }
}

/// Whether the hit `later` beats the hit `earlier`: only a strictly smaller parameter does,
/// so that of two hits at the same parameter the earlier one stays.
pub open spec fn beats<S>(later: HitRecord<S>, earlier: HitRecord<S>) -> bool {
    later.t < earlier.t
}

/// The better of two answers, the one that was found earlier and the one that was found
/// later: `later` where there is no earlier hit or where it beats the earlier hit, else
/// `earlier`.
pub open spec fn preferring<S>(later: Option<HitRecord<S>>, earlier: Option<HitRecord<S>>) -> Option<
    HitRecord<S>,
> {
    match (later, earlier) {
        (Some(found), Some(kept)) => if beats(found, kept) {
            later
        } else {
            earlier
        },
        (Some(found), None) => later,
        (None, _) => earlier,
    }
}

/// A thing that a ray can hit.
///
/// An implementation answers as a function of its arguments: `answer` and `bounds` name what
/// `hit` and `bounding_box` return, and `crosses` what the box test returns. Nothing else is
/// asked of it here; what the laws of this library need beyond that, they state as their
/// premises.
pub trait Hit {
    /// The rays that query this thing.
    type Ray;

    /// What a hit reports of the surface.
    type Surface;

    /// The hit of `r` on `self` with its parameter searched in `ray_t`, if there is one.
    spec fn answer(&self, r: &Self::Ray, ray_t: Interval) -> Option<HitRecord<Self::Surface>>;

    /// A box around `self`.
    spec fn bounds(&self) -> AABB;

    /// Whether `r` passes through `bbox` at a parameter in `ray_t`.
    spec fn crosses(r: &Self::Ray, bbox: AABB, ray_t: Interval) -> bool;

    fn hit(&self, r: &Self::Ray, ray_t: Interval) -> (rec: Option<HitRecord<Self::Surface>>)
        ensures
            rec == self.answer(r, ray_t),
    ;

    fn bounding_box(&self) -> (bbox: AABB)
        ensures
            bbox == self.bounds(),
    ;

    fn ray_crosses(r: &Self::Ray, bbox: &AABB, ray_t: Interval) -> (c: bool)
        ensures
            c == Self::crosses(r, *bbox, ray_t),
    ;
}

/// What probing `objects` one after the other returns: each is asked over the range that the
/// hits before it have left, and its hit is kept where it beats the best hit so far. So the
/// result is the first of the members whose hit no other hit beats.
pub open spec fn scan<T: Hit>(objects: Seq<T>, r: &T::Ray, ray_t: Interval) -> Option<
    HitRecord<T::Surface>,
>
    decreases objects.len(),
{
    if objects.len() == 0 {
        None
    } else {
        let earlier = scan(objects.drop_last(), r, ray_t);
        preferring(objects.last().answer(r, narrowed(ray_t, earlier)), earlier)
    }
}

/// The smallest box around the boxes of all `objects`.
pub open spec fn hull_of<T: Hit>(objects: Seq<T>) -> AABB
    decreases objects.len(),
{
    if objects.len() == 0 {
        AABB::spec_empty()
    } else {
        AABB::hull(hull_of(objects.drop_last()), objects.last().bounds())
    }
}

/// The box around one thing is the box of that thing.
pub proof fn lemma_hull_of_one<T: Hit>(object: T)
    ensures
        hull_of(seq![object]) == object.bounds(),
{
    assert(seq![object].drop_last() =~= Seq::<T>::empty());
    assert(hull_of(seq![object].drop_last()) == AABB::spec_empty());
}

/// An ordered list of things, with the box around all of them kept up to date.
pub struct Hittables<T: Hit> {
    objects: Vec<T>,
    bbox: AABB,
}

impl<T: Hit> Hittables<T> {
    #[verifier::type_invariant]
    spec fn box_is_up_to_date(self) -> bool {
        self.bbox == hull_of(self.objects@)
    }

    /// The members, in the order in which they were added.
    pub closed spec fn view(&self) -> Seq<T> {
        self.objects@
    }

    pub fn new() -> (list: Self)
        ensures
            list@ == Seq::<T>::empty(),
    {
        Hittables { objects: Vec::new(), bbox: AABB::empty() }
    }

    /// The list of the one member `object`. Its box is the box of `object`, as the box of
    /// every list is the box around its members.
    pub fn from(object: T) -> (list: Self)
        ensures
            list@ == seq![object],
    {
        let mut list = Hittables::new();
        list.add(object);
        proof {
            assert(list@ =~= seq![object]);
        }
        list
    }

    pub fn len(&self) -> (n: usize)
        ensures
            n == self@.len(),
    {
        self.objects.len()
    }

    /// The member at place `i`.
    pub fn get(&self, i: usize) -> (object: &T)
        requires
            i < self@.len(),
        ensures
            *object == self@[i as int],
    {
        &self.objects[i]
    }

    /// Removes every member.
    pub fn clear(&mut self)
        ensures
            final(self)@ == Seq::<T>::empty(),
    {
        *self = Hittables::new();
    }

    /// Appends `object` and widens the box by the box of `object`.
    pub fn add(&mut self, object: T)
        ensures
            final(self)@ == old(self)@.push(object),
    {
        let mut taken = Hittables::new();
        core::mem::swap(self, &mut taken);
        proof {
            use_type_invariant(&taken);
        }
        let Hittables { objects, bbox } = taken;
        let mut objects = objects;
        let bbox = AABB::union(bbox, object.bounding_box());
        objects.push(object);
        proof {
            assert(objects@.drop_last() == old(self).objects@);
        }
        *self = Hittables { objects, bbox };
    }

    /// The members, handed over.
    pub fn into_objects(self) -> (objects: Vec<T>)
        ensures
            objects@ == self@,
    {
        self.objects
    }
}

impl<T: Hit> Hit for Hittables<T> {
    type Ray = T::Ray;

    type Surface = T::Surface;

    /// What probing the members one after the other returns, see [`scan`].
    open spec fn answer(&self, r: &T::Ray, ray_t: Interval) -> Option<HitRecord<T::Surface>> {
        scan(self@, r, ray_t)
    }

    /// The smallest box around the boxes of all members.
    open spec fn bounds(&self) -> AABB {
        hull_of(self@)
    }

    open spec fn crosses(r: &T::Ray, bbox: AABB, ray_t: Interval) -> bool {
        T::crosses(r, bbox, ray_t)
    }

    /// The nearest hit among the members: each is asked over the range that the hits
    /// before it have left, and replaces the best hit so far only where its parameter is
    /// strictly smaller. A later member can beat an earlier hit, never take its place at
    /// the same parameter.
    fn hit(&self, r: &T::Ray, ray_t: Interval) -> (rec: Option<HitRecord<T::Surface>>) {
        let mut best: Option<HitRecord<T::Surface>> = None;
        let mut closest_so_far: i64 = ray_t.max;
        let n: usize = self.objects.len();
        let mut i: usize = 0;
        while i < n
            invariant
                i <= n,
                n == self.objects@.len(),
                best == scan(self.objects@.take(i as int), r, ray_t),
                narrowed(ray_t, best) == (Interval { min: ray_t.min, max: closest_so_far }),
            decreases n - i,
        {
            proof {
                assert(self.objects@.take(i + 1).drop_last() == self.objects@.take(i as int));
            }
            let found = self.objects[i].hit(r, Interval { min: ray_t.min, max: closest_so_far });
            if let Some(rec) = found {
                let better: bool = match &best {
                    Some(kept) => rec.t < kept.t,
                    None => true,
                };
                if better {
                    if rec.t < closest_so_far {
                        closest_so_far = rec.t;
                    }
                    best = Some(rec);
                }
            }
            i = i + 1;
        }
        proof {
            assert(self.objects@.take(n as int) == self.objects@);
        }
        best
    }

    fn bounding_box(&self) -> (bbox: AABB) {
        proof {
            use_type_invariant(self);
        }
        self.bbox
    }

    fn ray_crosses(r: &T::Ray, bbox: &AABB, ray_t: Interval) -> (c: bool) {
        T::ray_crosses(r, bbox, ray_t)
    }
}

} // verus!
