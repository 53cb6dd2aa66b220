//! The bounding volume hierarchy: a binary tree of boxes over the things of a scene, so that
//! a ray need not be tried against all of them.

use vstd::prelude::*;
use crate::aabb::AABB;
use crate::hit::{narrowed, preferring, Hit, HitRecord, Hittables};
use crate::interval::Interval;

verus! {

/// A thing as the hierarchy sees it: its box, and its place in the list of things.
#[derive(Clone, Copy, Debug, PartialEq, Eq, Structural)]
pub struct Bounded {
    pub bbox: AABB,
    pub id: usize,
}

/// One of the two children of a node: a thing, named by its place, or a node.
#[derive(Debug)]
pub enum BvhChild {
    Leaf(usize),
    Node(Box<BVHNode>),
}

/// A node of the hierarchy: two children, and the box around everything below it.
#[derive(Debug)]
pub struct BVHNode {
    pub left: BvhChild,
    pub right: BvhChild,
    pub bbox: AABB,
}

/// The smallest box around the boxes of all `items`.
pub open spec fn hull_of_boxes(items: Seq<Bounded>) -> AABB
    decreases items.len(),
{
    if items.len() == 0 {
        AABB::spec_empty()
    } else {
        AABB::hull(hull_of_boxes(items.drop_last()), items.last().bbox)
    }
}

/// The lower end of the box of `item` on axis `axis`: what the hierarchy sorts by.
pub open spec fn sort_key(item: Bounded, axis: int) -> i64 {
    item.bbox.axis(axis).min
}

/// Whether the keys of `items` never fall from one to the next.
pub open spec fn is_sorted(items: Seq<Bounded>, axis: int) -> bool {
    forall|i: int, j: int|
        0 <= i <= j < items.len() ==> sort_key(items[i], axis) <= sort_key(items[j], axis)
}

/// The place at which `x` enters the sorted `items`: behind every item whose key is not
/// larger than its own.
pub open spec fn entry_place(items: Seq<Bounded>, x: Bounded, axis: int) -> int
    decreases items.len(),
{
    if items.len() == 0 {
        0
    } else if sort_key(items.last(), axis) > sort_key(x, axis) {
        entry_place(items.drop_last(), x, axis)
    } else {
        items.len() as int
    }
}

/// `items` sorted by their keys on `axis`, items of equal key in the order in which they
/// came: each item in turn enters what is sorted of those before it.
pub open spec fn sorted_by_min(items: Seq<Bounded>, axis: int) -> Seq<Bounded>
    decreases items.len(),
{
    if items.len() == 0 {
        items
    } else {
        let before = sorted_by_min(items.drop_last(), axis);
        before.insert(entry_place(before, items.last(), axis), items.last())
    }
}

/// Sorting keeps the number of items.
pub proof fn lemma_sort_keeps_length(items: Seq<Bounded>, axis: int)
    ensures
        sorted_by_min(items, axis).len() == items.len(),
    decreases items.len(),
{
    if items.len() > 0 {
        lemma_sort_keeps_length(items.drop_last(), axis);
        lemma_entry_place_in_range(sorted_by_min(items.drop_last(), axis), items.last(), axis);
    }
}

/// An item enters at a place of the sequence, or at its end.
pub proof fn lemma_entry_place_in_range(items: Seq<Bounded>, x: Bounded, axis: int)
    ensures
        0 <= entry_place(items, x, axis) <= items.len(),
    decreases items.len(),
{
    if items.len() > 0 && sort_key(items.last(), axis) > sort_key(x, axis) {
        lemma_entry_place_in_range(items.drop_last(), x, axis);
    }
}

/// Sorts the items from place `start` up to, not including, place `end` by the lower end
/// of their boxes on `axis`. An item moves ahead of another only where its key is strictly
/// smaller, so items of equal key keep their order; the items outside the range stay.
pub fn sort_by_min(objects: &mut Vec<Bounded>, start: usize, end: usize, axis: usize)
    requires
        start <= end <= old(objects)@.len(),
    ensures
        final(objects)@.len() == old(objects)@.len(),
        final(objects)@.subrange(start as int, end as int) == sorted_by_min(
            old(objects)@.subrange(start as int, end as int),
            axis as int,
        ),
        forall|k: int|
            0 <= k < start || end <= k < old(objects)@.len() ==> final(objects)@[k] == old(
                objects,
            )@[k],
{
    let ghost at_entry = objects@;
    let mut i: usize = start;
    proof {
        assert(objects@.subrange(start as int, start as int) =~= sorted_by_min(
            at_entry.subrange(start as int, start as int),
            axis as int,
        ));
    }
    while i < end
        invariant
            start <= i <= end <= at_entry.len(),
            objects@.len() == at_entry.len(),
            objects@.subrange(start as int, i as int) == sorted_by_min(
                at_entry.subrange(start as int, i as int),
                axis as int,
            ),
            forall|k: int| 0 <= k < start || i <= k < at_entry.len() ==> objects@[k] == at_entry[k],
        decreases end - i,
    {
        let x: Bounded = objects[i];
        let key: i64 = x.bbox.axis_interval(axis).min;
        let ghost before = objects@.subrange(start as int, i as int);
        let ghost entering = objects@;
        let mut j: usize = i;
        proof {
            assert(before.take(i - start) =~= before);
        }
        while j > start && objects[j - 1].bbox.axis_interval(axis).min > key
            invariant
                start <= j <= i < end <= at_entry.len(),
                objects@.len() == at_entry.len(),
                before.len() == i - start,
                key == sort_key(x, axis as int),
                forall|k: int| 0 <= k < j - start ==> objects@[start + k] == before[k],
                forall|k: int| j - start <= k < i - start ==> objects@[start + k + 1] == before[k],
                entry_place(before, x, axis as int) == entry_place(
                    before.take(j - start),
                    x,
                    axis as int,
                ),
                forall|k: int|
                    0 <= k < start || i < k < at_entry.len() ==> objects@[k] == entering[k],
            decreases j,
        {
            proof {
                assert(before.take(j - start).last() == before[j - start - 1]);
                assert(before.take(j - start).drop_last() =~= before.take(j - start - 1));
            }
            objects[j] = objects[j - 1];
            j = j - 1;
        }
        objects[j] = x;
        proof {
            let place = j - start;
            if place > 0 {
                assert(before.take(place).last() == before[place - 1]);
            }
            assert(entry_place(before, x, axis as int) == place);
            assert(at_entry.subrange(start as int, i + 1).drop_last() =~= at_entry.subrange(
                start as int,
                i as int,
            ));
            assert(at_entry.subrange(start as int, i + 1).last() == x);
            assert(objects@.subrange(start as int, i + 1) =~= before.insert(place, x));
        }
        i = i + 1;
    }
}

impl BvhChild {
    /// The places of the things below this child, from left to right.
    pub open spec fn leaves(self) -> Seq<usize>
        decreases self,
    {
        match self {
            BvhChild::Leaf(id) => seq![id],
            BvhChild::Node(node) => node.leaves(),
        }
    }

    /// Whether every thing below this child has a place before `count`.
    pub open spec fn in_range(self, count: int) -> bool
        decreases self,
    {
        match self {
            BvhChild::Leaf(id) => id < count,
            BvhChild::Node(node) => node.in_range(count),
        }
    }

    /// What a query of `r` below this child returns, see [`BVHNode::answer_for`].
    pub open spec fn answer_for<T: Hit>(self, objects: Seq<T>, r: &T::Ray, ray_t: Interval) -> Option<
        HitRecord<T::Surface>,
    >
        decreases self,
    {
        match self {
            BvhChild::Leaf(id) => objects[id as int].answer(r, ray_t),
            BvhChild::Node(node) => node.answer_for(objects, r, ray_t),
        }
    }

    /// Queries what is below this child, see [`BVHNode::hit`].
    pub fn hit<T: Hit>(&self, objects: &Vec<T>, r: &T::Ray, ray_t: Interval) -> (rec: Option<
        HitRecord<T::Surface>,
    >)
        requires
            self.in_range(objects@.len() as int),
        ensures
            rec == self.answer_for(objects@, r, ray_t),
        decreases self,
    {
        match self {
            BvhChild::Leaf(id) => objects[*id].hit(r, ray_t),
            BvhChild::Node(node) => node.hit(objects, r, ray_t),
        }
    }
}

impl BVHNode {
    /// The places of the things below this node, from left to right. A thing that is both
    /// children of a node comes twice.
    pub open spec fn leaves(self) -> Seq<usize>
        decreases self,
    {
        self.left.leaves() + self.right.leaves()
    }

    /// Whether every thing below this node has a place before `count`.
    pub open spec fn in_range(self, count: int) -> bool
        decreases self,
    {
        self.left.in_range(count) && self.right.in_range(count)
    }

    /// What a query of `r` over the range `ray_t` returns from this node, the things being
    /// `objects`.
    ///
    /// Nothing, where the ray does not cross the node's box within the range. Else the left
    /// child is asked over the whole range and the right child over what the left child's
    /// hit has left of it; the right child's hit is returned where there is no left hit or
    /// where its parameter is strictly smaller, else the left child's.
    pub open spec fn answer_for<T: Hit>(self, objects: Seq<T>, r: &T::Ray, ray_t: Interval) -> Option<
        HitRecord<T::Surface>,
    >
        decreases self,
    {
        if !T::crosses(r, self.bbox, ray_t) {
            None
        } else {
            let hit_left = self.left.answer_for(objects, r, ray_t);
            let hit_right = self.right.answer_for(objects, r, narrowed(ray_t, hit_left));
            preferring(hit_right, hit_left)
        }
    }

    /// The hierarchy over `items`, which are not none.
    ///
    /// Its box is the box around all items. One item is both children; two items are one
    /// child each, in their order; more are sorted by the lower end of their boxes along the
    /// longest axis of the box, and the first half (rounded down) goes to the left child,
    /// the rest to the right one.
    pub open spec fn built(items: Seq<Bounded>) -> BVHNode
        recommends
            items.len() > 0,
        decreases items.len(),
    {
        let bbox = hull_of_boxes(items);
        if items.len() <= 1 {
            BVHNode { left: BvhChild::Leaf(items[0].id), right: BvhChild::Leaf(items[0].id), bbox }
        } else if items.len() == 2 {
            BVHNode { left: BvhChild::Leaf(items[0].id), right: BvhChild::Leaf(items[1].id), bbox }
        } else {
            let sorted = sorted_by_min(items, bbox.longest());
            let mid = items.len() as int / 2;
            proof {
                lemma_sort_keeps_length(items, bbox.longest());
            }
            BVHNode {
                left: BvhChild::Node(Box::new(Self::built(sorted.take(mid)))),
                right: BvhChild::Node(Box::new(Self::built(sorted.skip(mid)))),
                bbox,
            }
        }
    }

    /// The order in which building the hierarchy over `items` leaves them: the order of
    /// the leaves.
    pub open spec fn arranged(items: Seq<Bounded>) -> Seq<Bounded>
        decreases items.len(),
    {
        if items.len() <= 2 {
            items
        } else {
            let sorted = sorted_by_min(items, hull_of_boxes(items).longest());
            let mid = items.len() as int / 2;
            proof {
                lemma_sort_keeps_length(items, hull_of_boxes(items).longest());
            }
            Self::arranged(sorted.take(mid)) + Self::arranged(sorted.skip(mid))
        }
    }

    /// The nearest hit of `r` on the things below this node, its parameter searched in
    /// `ray_t`: see [`BVHNode::answer_for`].
    pub fn hit<T: Hit>(&self, objects: &Vec<T>, r: &T::Ray, ray_t: Interval) -> (rec: Option<
        HitRecord<T::Surface>,
    >)
        requires
            self.in_range(objects@.len() as int),
        ensures
            rec == self.answer_for(objects@, r, ray_t),
        decreases self,
    {
        if !T::ray_crosses(r, &self.bbox, ray_t) {
            return None;
        }
        let hit_left = self.left.hit(objects, r, ray_t);
        let upper: i64 = match &hit_left {
            Some(rec) => if rec.t < ray_t.max {
                rec.t
            } else {
                ray_t.max
            },
            None => ray_t.max,
        };
        let hit_right = self.right.hit(objects, r, Interval { min: ray_t.min, max: upper });
        match hit_right {
            None => hit_left,
            Some(later) => match hit_left {
                None => Some(later),
                Some(earlier) => if later.t < earlier.t {
                    Some(later)
                } else {
                    Some(earlier)
                },
            },
        }
    }

    /// The box around the items from place `start` up to, not including, place `end`.
    fn box_around(objects: &Vec<Bounded>, start: usize, end: usize) -> (bbox: AABB)
        requires
            start <= end <= objects@.len(),
        ensures
            bbox == hull_of_boxes(objects@.subrange(start as int, end as int)),
    {
        let mut bbox = AABB::empty();
        let mut i: usize = start;
        proof {
            assert(objects@.subrange(start as int, start as int) =~= Seq::<Bounded>::empty());
        }
        while i < end
            invariant
                start <= i <= end <= objects@.len(),
                bbox == hull_of_boxes(objects@.subrange(start as int, i as int)),
            decreases end - i,
        {
            proof {
                assert(objects@.subrange(start as int, i + 1).drop_last() =~= objects@.subrange(
                    start as int,
                    i as int,
                ));
            }
            bbox = AABB::union(bbox, objects[i].bbox);
            i = i + 1;
        }
        bbox
    }

    /// Builds the hierarchy over the items from place `start` up to, not including, place
    /// `end`, see [`BVHNode::built`]. The items of that range are left in the order of the
    /// leaves; the other items stay.
    pub fn new(objects: &mut Vec<Bounded>, start: usize, end: usize) -> (node: Self)
        requires
            start < end <= old(objects)@.len(),
        ensures
            node == Self::built(old(objects)@.subrange(start as int, end as int)),
            final(objects)@.len() == old(objects)@.len(),
            final(objects)@.subrange(start as int, end as int) == Self::arranged(
                old(objects)@.subrange(start as int, end as int),
            ),
            forall|k: int|
                0 <= k < start || end <= k < old(objects)@.len() ==> final(objects)@[k] == old(
                    objects,
                )@[k],
        decreases end - start,
    {
        let ghost items = objects@.subrange(start as int, end as int);
        let bbox = Self::box_around(objects, start, end);
        let axis = bbox.longest_axis();
        let object_span: usize = end - start;
        if object_span == 1 {
            BVHNode {
                left: BvhChild::Leaf(objects[start].id),
                right: BvhChild::Leaf(objects[start].id),
                bbox,
            }
        } else if object_span == 2 {
            BVHNode {
                left: BvhChild::Leaf(objects[start].id),
                right: BvhChild::Leaf(objects[start + 1].id),
                bbox,
            }
        } else {
            sort_by_min(objects, start, end, axis);
            let ghost sorted = objects@.subrange(start as int, end as int);
            let ghost after_sort = objects@;
            let mid: usize = start + object_span / 2;
            proof {
                assert(after_sort.subrange(start as int, mid as int) =~= sorted.take(
                    object_span as int / 2,
                ));
                assert(after_sort.subrange(mid as int, end as int) =~= sorted.skip(
                    object_span as int / 2,
                ));
            }
            let left = BVHNode::new(objects, start, mid);
            proof {
                assert(objects@.subrange(mid as int, end as int) =~= after_sort.subrange(
                    mid as int,
                    end as int,
                ));
            }
            let ghost after_left = objects@;
            let right = BVHNode::new(objects, mid, end);
            proof {
                assert(objects@.subrange(start as int, mid as int) =~= after_left.subrange(
                    start as int,
                    mid as int,
                ));
                assert(objects@.subrange(start as int, end as int) =~= objects@.subrange(
                    start as int,
                    mid as int,
                ) + objects@.subrange(mid as int, end as int));
            }
            BVHNode { left: BvhChild::Node(Box::new(left)), right: BvhChild::Node(Box::new(right)), bbox }
        }
    }
}

/// The items that stand for `objects`: each with its box and its place.
pub open spec fn entries_of<T: Hit>(objects: Seq<T>) -> Seq<Bounded> {
    Seq::new(objects.len(), |i: int| Bounded { bbox: objects[i].bounds(), id: i as usize })
}

/// A list of things together with the hierarchy over them.
pub struct Bvh<T: Hit> {
    root: Option<BVHNode>,
    objects: Vec<T>,
}

impl<T: Hit> Bvh<T> {
    #[verifier::type_invariant]
    spec fn is_built(self) -> bool {
        &&& self.root == Self::root_over(self.objects@)
        &&& self.root matches Some(node) ==> node.in_range(self.objects@.len() as int)
    }

    /// The topmost node of the hierarchy over `objects`; none where there are no things.
    pub open spec fn root_over(objects: Seq<T>) -> Option<BVHNode> {
        if objects.len() == 0 {
            None
        } else {
            Some(BVHNode::built(entries_of(objects)))
        }
    }

    /// The things, in the order of the list that the hierarchy was made from.
    pub closed spec fn view(&self) -> Seq<T> {
        self.objects@
    }

    /// The topmost node: that of the hierarchy over the things.
    pub open spec fn root(&self) -> Option<BVHNode> {
        Self::root_over(self@)
    }

    /// Builds the hierarchy over the members of `list`, see [`BVHNode::built`].
    pub fn new(list: Hittables<T>) -> (bvh: Self)
        ensures
            bvh@ == list@,
    {
        let objects = list.into_objects();
        let count: usize = objects.len();
        let mut entries: Vec<Bounded> = Vec::new();
        let mut i: usize = 0;
        while i < count
            invariant
                i <= count,
                count == objects@.len(),
                entries@ == entries_of(objects@).take(i as int),
            decreases count - i,
        {
            entries.push(Bounded { bbox: objects[i].bounding_box(), id: i });
            proof {
                assert(entries@ =~= entries_of(objects@).take(i + 1));
            }
            i = i + 1;
        }
        if count == 0 {
            Bvh { root: None, objects }
        } else {
            proof {
                assert(entries@ =~= entries_of(objects@));
                assert(entries@.subrange(0, count as int) =~= entries@);
                crate::bvh_laws::lemma_entries_match(objects@);
                crate::bvh_laws::lemma_built_covers(
                    entries_of(objects@),
                    crate::bvh_laws::boxes_of(objects@),
                );
                crate::bvh_laws::lemma_covers_in_range(
                    BVHNode::built(entries_of(objects@)),
                    crate::bvh_laws::boxes_of(objects@),
                );
            }
            let root = BVHNode::new(&mut entries, 0, count);
            Bvh { root: Some(root), objects }
        }
    }

    /// The number of things.
    pub fn len(&self) -> (n: usize)
        ensures
            n == self@.len(),
    {
        self.objects.len()
    }
}

impl<T: Hit> Hit for Bvh<T> {
    type Ray = T::Ray;

    type Surface = T::Surface;

    /// What a query of the topmost node returns, see [`BVHNode::answer_for`]; nothing
    /// where there are no things.
    open spec fn answer(&self, r: &T::Ray, ray_t: Interval) -> Option<HitRecord<T::Surface>> {
        match self.root() {
            Some(node) => node.answer_for(self@, r, ray_t),
            None => None,
        }
    }

    /// The box of the topmost node; the empty box where there are no things.
    open spec fn bounds(&self) -> AABB {
        match self.root() {
            Some(node) => node.bbox,
            None => AABB::spec_empty(),
        }
    }

    open spec fn crosses(r: &T::Ray, bbox: AABB, ray_t: Interval) -> bool {
        T::crosses(r, bbox, ray_t)
    }

    /// The nearest hit among the things, found through the hierarchy: see
    /// [`BVHNode::answer_for`].
    fn hit(&self, r: &T::Ray, ray_t: Interval) -> (rec: Option<HitRecord<T::Surface>>) {
        proof {
            use_type_invariant(self);
        }
        match &self.root {
            Some(node) => node.hit(&self.objects, r, ray_t),
            None => None,
        }
    }

    fn bounding_box(&self) -> (bbox: AABB) {
        proof {
            use_type_invariant(self);
        }
        match &self.root {
            Some(node) => node.bbox,
            None => AABB::empty(),
        }
    }

    fn ray_crosses(r: &T::Ray, bbox: &AABB, ray_t: Interval) -> (c: bool) {
        T::ray_crosses(r, bbox, ray_t)
    }
}

} // verus!
