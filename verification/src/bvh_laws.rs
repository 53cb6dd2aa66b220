//! What holds of every hierarchy that [`BVHNode::new`] builds, and of every query of it.

use vstd::prelude::*;
use crate::aabb::AABB;
use crate::bvh::{entry_place, hull_of_boxes, is_sorted, sort_key, sorted_by_min, Bounded, BVHNode, BvhChild};
use crate::hit::{narrowed, preferring, scan, Hit, HitRecord};
use crate::interval::Interval;

verus! {

/// Sorting keeps what the sequence holds.
pub proof fn lemma_sort_keeps_contents(items: Seq<Bounded>, axis: int)
    ensures
        sorted_by_min(items, axis).to_multiset() == items.to_multiset(),
        sorted_by_min(items, axis).len() == items.len(),
    decreases items.len(),
{
    crate::bvh::lemma_sort_keeps_length(items, axis);
    if items.len() > 0 {
        let before = sorted_by_min(items.drop_last(), axis);
        let place = entry_place(before, items.last(), axis);
        lemma_sort_keeps_contents(items.drop_last(), axis);
        crate::bvh::lemma_entry_place_in_range(before, items.last(), axis);
        vstd::seq_lib::to_multiset_insert(before, place, items.last());
        vstd::seq_lib::to_multiset_build(items.drop_last(), items.last());
        assert(items.drop_last().push(items.last()) =~= items);
    }
}

/// An item and its sorted sequence: every item before its place has a key that is not
/// larger, every item from its place on a key that is larger.
pub proof fn lemma_entry_place_divides(items: Seq<Bounded>, x: Bounded, axis: int)
    requires
        is_sorted(items, axis),
    ensures
        forall|k: int|
            0 <= k < entry_place(items, x, axis) ==> sort_key(#[trigger] items[k], axis) <= sort_key(
                x,
                axis,
            ),
        forall|k: int|
            entry_place(items, x, axis) <= k < items.len() ==> sort_key(#[trigger] items[k], axis)
                > sort_key(x, axis),
    decreases items.len(),
{
    if items.len() > 0 {
        if sort_key(items.last(), axis) > sort_key(x, axis) {
            assert(is_sorted(items.drop_last(), axis)) by {
                assert forall|i: int, j: int| 0 <= i <= j < items.drop_last().len() implies sort_key(
                    items.drop_last()[i],
                    axis,
                ) <= sort_key(items.drop_last()[j], axis) by {
                    assert(items.drop_last()[i] == items[i]);
                    assert(items.drop_last()[j] == items[j]);
                }
            }
            lemma_entry_place_divides(items.drop_last(), x, axis);
            crate::bvh::lemma_entry_place_in_range(items.drop_last(), x, axis);
            assert forall|k: int| 0 <= k < entry_place(items, x, axis) implies sort_key(
                #[trigger] items[k],
                axis,
            ) <= sort_key(x, axis) by {
                assert(items.drop_last()[k] == items[k]);
            }
            assert forall|k: int| entry_place(items, x, axis) <= k < items.len() implies sort_key(
                #[trigger] items[k],
                axis,
            ) > sort_key(x, axis) by {
                if k < items.len() - 1 {
                    assert(items.drop_last()[k] == items[k]);
                }
            }
        } else {
            assert forall|k: int| 0 <= k < items.len() implies sort_key(#[trigger] items[k], axis)
                <= sort_key(x, axis) by {
                assert(sort_key(items[k], axis) <= sort_key(items[items.len() - 1], axis));
            }
        }
    }
}

/// What is sorted is in order.
pub proof fn lemma_sort_is_sorted(items: Seq<Bounded>, axis: int)
    ensures
        is_sorted(sorted_by_min(items, axis), axis),
    decreases items.len(),
{
    if items.len() > 0 {
        let before = sorted_by_min(items.drop_last(), axis);
        let x = items.last();
        let place = entry_place(before, x, axis);
        lemma_sort_is_sorted(items.drop_last(), axis);
        lemma_entry_place_divides(before, x, axis);
        crate::bvh::lemma_entry_place_in_range(before, x, axis);
        let after = before.insert(place, x);
        assert forall|i: int, j: int| 0 <= i <= j < after.len() implies sort_key(after[i], axis)
            <= sort_key(after[j], axis) by {
            if i < place {
                assert(after[i] == before[i]);
            } else if i > place {
                assert(after[i] == before[i - 1]);
            }
            if j < place {
                assert(after[j] == before[j]);
            } else if j > place {
                assert(after[j] == before[j - 1]);
            }
        }
    }
}

/// The items of `items` whose key on `axis` is `k`, in their order.
pub open spec fn with_key(items: Seq<Bounded>, axis: int, k: i64) -> Seq<Bounded> {
    items.filter(|item: Bounded| sort_key(item, axis) == k)
}

/// Sorting is stable: the items of one key come out in the order in which they went in.
pub proof fn lemma_sort_is_stable(items: Seq<Bounded>, axis: int, k: i64)
    ensures
        with_key(sorted_by_min(items, axis), axis, k) == with_key(items, axis, k),
    decreases items.len(),
{
    let pred = |item: Bounded| sort_key(item, axis) == k;
    reveal_with_fuel(Seq::filter, 2);
    if items.len() > 0 {
        let before = sorted_by_min(items.drop_last(), axis);
        let x = items.last();
        let place = entry_place(before, x, axis);
        lemma_sort_is_stable(items.drop_last(), axis, k);
        lemma_sort_is_sorted(items.drop_last(), axis);
        lemma_entry_place_divides(before, x, axis);
        crate::bvh::lemma_entry_place_in_range(before, x, axis);
        let head = before.take(place);
        let tail = before.skip(place);
        let after = before.insert(place, x);
        assert(after =~= head + seq![x] + tail);
        assert(before =~= head + tail);
        Seq::filter_distributes_over_add(head, seq![x], pred);
        Seq::filter_distributes_over_add(head + seq![x], tail, pred);
        Seq::filter_distributes_over_add(head, tail, pred);
        assert(seq![x].drop_last() =~= Seq::<Bounded>::empty());
        assert(seq![x].last() == x);
        if pred(x) {
            assert(tail.all(|item: Bounded| !pred(item))) by {
                assert forall|i: int| 0 <= i < tail.len() implies !pred(#[trigger] tail[i]) by {
                    assert(tail[i] == before[place + i]);
                }
            }
            tail.lemma_all_neg_filter_empty(pred);
            assert(seq![x].filter(pred) =~= seq![x]);
            assert(after.filter(pred) =~= head.filter(pred).push(x));
            assert(before.filter(pred) =~= head.filter(pred));
        } else {
            assert(seq![x].filter(pred) =~= Seq::<Bounded>::empty());
            assert(after.filter(pred) =~= before.filter(pred));
        }
    }
}

/// The box around a sequence of items encloses the box of each of them.
pub proof fn lemma_hull_encloses_each(items: Seq<Bounded>, i: int)
    requires
        0 <= i < items.len(),
    ensures
        hull_of_boxes(items).encloses(items[i].bbox),
    decreases items.len(),
{
    if i < items.len() - 1 {
        lemma_hull_encloses_each(items.drop_last(), i);
        assert(items.drop_last()[i] == items[i]);
    }
}

/// Whether the hierarchy `node` fits the boxes `boxes`, the box of the thing at place `i`
/// being `boxes[i]`: every thing below a node has a place in `boxes`, and the node's box
/// encloses its box.
pub open spec fn node_covers(node: BVHNode, boxes: Seq<AABB>) -> bool
    decreases node,
{
    &&& forall|k: int|
        0 <= k < node.leaves().len() ==> (#[trigger] node.leaves()[k]) < boxes.len()
            && node.bbox.encloses(boxes[node.leaves()[k] as int])
    &&& child_covers(node.left, boxes)
    &&& child_covers(node.right, boxes)
}

/// Whether what is below `child` fits the boxes `boxes`, see [`node_covers`].
pub open spec fn child_covers(child: BvhChild, boxes: Seq<AABB>) -> bool
    decreases child,
{
    match child {
        BvhChild::Leaf(id) => id < boxes.len(),
        BvhChild::Node(node) => node_covers(*node, boxes),
    }
}

/// Whether each of `items` carries the place and the box of one of the things whose boxes
/// are `boxes`.
pub open spec fn items_match(items: Seq<Bounded>, boxes: Seq<AABB>) -> bool {
    forall|i: int|
        0 <= i < items.len() ==> (#[trigger] items[i]).id < boxes.len() && items[i].bbox
            == boxes[items[i].id as int]
}

/// A hierarchy that fits the boxes names only things that are there.
pub proof fn lemma_covers_in_range(node: BVHNode, boxes: Seq<AABB>)
    requires
        node_covers(node, boxes),
    ensures
        node.in_range(boxes.len() as int),
    decreases node,
{
    match node.left {
        BvhChild::Leaf(id) => {},
        BvhChild::Node(inner) => {
            lemma_covers_in_range(*inner, boxes);
        },
    }
    match node.right {
        BvhChild::Leaf(id) => {},
        BvhChild::Node(inner) => {
            lemma_covers_in_range(*inner, boxes);
        },
    }
}

/// The places that `items` carry, in their order.
pub open spec fn places_of(items: Seq<Bounded>) -> Seq<usize> {
    items.map_values(|item: Bounded| item.id)
}

/// The hierarchy that is built over items fits their boxes: the box of every node encloses
/// the box of every thing below the node. Every leaf is the place of an item, and the place
/// of every item is a leaf. (A leaf may come twice: a node over one item has it as both
/// children.)
pub proof fn lemma_built_covers(items: Seq<Bounded>, boxes: Seq<AABB>)
    requires
        items.len() > 0,
        items_match(items, boxes),
    ensures
        node_covers(BVHNode::built(items), boxes),
        BVHNode::built(items).bbox == hull_of_boxes(items),
        forall|k: int|
            0 <= k < BVHNode::built(items).leaves().len() ==> places_of(items).contains(
                #[trigger] BVHNode::built(items).leaves()[k],
            ),
        forall|i: int|
            0 <= i < items.len() ==> BVHNode::built(items).leaves().contains(
                (#[trigger] items[i]).id,
            ),
    decreases items.len(),
{
    let node = BVHNode::built(items);
    let leaves = node.leaves();
    if items.len() == 1 {
        assert(leaves =~= seq![items[0].id, items[0].id]);
        lemma_hull_encloses_each(items, 0);
        assert(places_of(items)[0] == items[0].id);
        assert(leaves[0] == items[0].id);
    } else if items.len() == 2 {
        assert(leaves =~= seq![items[0].id, items[1].id]);
        lemma_hull_encloses_each(items, 0);
        lemma_hull_encloses_each(items, 1);
        assert(places_of(items)[0] == items[0].id);
        assert(places_of(items)[1] == items[1].id);
        assert(leaves[0] == items[0].id);
        assert(leaves[1] == items[1].id);
    } else {
        let axis = hull_of_boxes(items).longest();
        let sorted = sorted_by_min(items, axis);
        let mid = items.len() as int / 2;
        lemma_sort_keeps_contents(items, axis);
        let first = sorted.take(mid);
        let second = sorted.skip(mid);
        lemma_members_of_equal_contents(sorted, items);
        lemma_members_of_equal_contents(items, sorted);
        assert(items_match(first, boxes)) by {
            assert forall|i: int| 0 <= i < first.len() implies (#[trigger] first[i]).id
                < boxes.len() && first[i].bbox == boxes[first[i].id as int] by {
                assert(first[i] == sorted[i]);
                assert(items.contains(sorted[i]));
            }
        }
        assert(items_match(second, boxes)) by {
            assert forall|i: int| 0 <= i < second.len() implies (#[trigger] second[i]).id
                < boxes.len() && second[i].bbox == boxes[second[i].id as int] by {
                assert(second[i] == sorted[i + mid]);
                assert(items.contains(sorted[i + mid]));
            }
        }
        lemma_built_covers(first, boxes);
        lemma_built_covers(second, boxes);
        let left = BVHNode::built(first);
        let right = BVHNode::built(second);
        assert(leaves == left.leaves() + right.leaves());
        // Every leaf is the place of an item.
        assert forall|k: int| 0 <= k < leaves.len() implies places_of(items).contains(
            #[trigger] leaves[k],
        ) && leaves[k] < boxes.len() && node.bbox.encloses(boxes[leaves[k] as int]) by {
            let half = if k < left.leaves().len() {
                first
            } else {
                second
            };
            if k < left.leaves().len() {
                assert(leaves[k] == left.leaves()[k]);
            } else {
                assert(leaves[k] == right.leaves()[k - left.leaves().len()]);
            }
            assert(places_of(half).contains(leaves[k]));
            let i = choose|i: int| 0 <= i < places_of(half).len() && places_of(half)[i] == leaves[k];
            assert(half[i].id == leaves[k]);
            assert(sorted.contains(half[i])) by {
                if k < left.leaves().len() {
                    assert(sorted[i] == half[i]);
                } else {
                    assert(sorted[i + mid] == half[i]);
                }
            }
            assert(items.contains(half[i]));
            let j = choose|j: int| 0 <= j < items.len() && items[j] == half[i];
            assert(places_of(items)[j] == leaves[k]);
            lemma_hull_encloses_each(items, j);
        }
        // The place of every item is a leaf.
        assert forall|i: int| 0 <= i < items.len() implies leaves.contains(
            (#[trigger] items[i]).id,
        ) by {
            assert(sorted.contains(items[i]));
            let j = choose|j: int| 0 <= j < sorted.len() && sorted[j] == items[i];
            if j < mid {
                assert(first[j] == items[i]);
                assert(left.leaves().contains(first[j].id));
                let k = choose|k: int| 0 <= k < left.leaves().len() && left.leaves()[k] == items[i].id;
                assert(leaves[k] == items[i].id);
            } else {
                assert(second[j - mid] == items[i]);
                assert(right.leaves().contains(second[j - mid].id));
                let k = choose|k: int|
                    0 <= k < right.leaves().len() && right.leaves()[k] == items[i].id;
                assert(leaves[k + left.leaves().len()] == items[i].id);
            }
        }
    }
}

/// Two sequences that hold the same have the same length, and each member of the one is
/// a member of the other.
pub proof fn lemma_members_of_equal_contents(a: Seq<Bounded>, b: Seq<Bounded>)
    requires
        a.to_multiset() == b.to_multiset(),
    ensures
        a.len() == b.len(),
        forall|i: int| 0 <= i < a.len() ==> b.contains(#[trigger] a[i]),
{
    a.to_multiset_ensures();
    b.to_multiset_ensures();
    assert forall|i: int| 0 <= i < a.len() implies b.contains(#[trigger] a[i]) by {
        assert(a.to_multiset().count(a[i]) > 0);
    }
}

/// Probing one sequence of things and then another is probing the two in a row: the
/// second sequence is asked over what the hits of the first have left.
pub proof fn lemma_scan_concat<T: Hit>(first: Seq<T>, second: Seq<T>, r: &T::Ray, ray_t: Interval)
    ensures
        scan(first + second, r, ray_t) == preferring(
            scan(second, r, narrowed(ray_t, scan(first, r, ray_t))),
            scan(first, r, ray_t),
        ),
    decreases second.len(),
{
    if second.len() == 0 {
        assert(first + second =~= first);
    } else {
        lemma_scan_concat(first, second.drop_last(), r, ray_t);
        assert((first + second).drop_last() =~= first + second.drop_last());
        assert((first + second).last() == second.last());
    }
}

/// Where no thing of a sequence has a hit over a range, probing the sequence over that
/// range finds none.
pub proof fn lemma_scan_of_misses<T: Hit>(objects: Seq<T>, r: &T::Ray, ray_t: Interval)
    requires
        forall|i: int| 0 <= i < objects.len() ==> (#[trigger] objects[i]).answer(r, ray_t) is None,
    ensures
        scan(objects, r, ray_t) is None,
    decreases objects.len(),
{
    if objects.len() > 0 {
        assert forall|i: int| 0 <= i < objects.drop_last().len() implies (
        #[trigger] objects.drop_last()[i]).answer(r, ray_t) is None by {
            assert(objects.drop_last()[i] == objects[i]);
        }
        lemma_scan_of_misses(objects.drop_last(), r, ray_t);
        assert(objects.last() == objects[objects.len() - 1]);
    }
}

/// The box test is sound for `objects` and the ray `r`: a thing that the ray hits over a
/// range has a box that the ray crosses over that range.
pub open spec fn box_test_is_sound<T: Hit>(objects: Seq<T>, r: &T::Ray) -> bool {
    forall|i: int, ray_t: Interval|
        0 <= i < objects.len() && (#[trigger] objects[i].answer(r, ray_t)) is Some ==> T::crosses(
            r,
            objects[i].bounds(),
            ray_t,
        )
}

/// The box test grows with the box for the ray `r`: a ray that crosses a box over a range
/// crosses every box that encloses it over that range.
pub open spec fn box_test_is_monotone<T: Hit>(r: &T::Ray) -> bool {
    forall|outer: AABB, inner: AABB, ray_t: Interval|
        outer.encloses(inner) && #[trigger] T::crosses(r, inner, ray_t) ==> #[trigger] T::crosses(
            r,
            outer,
            ray_t,
        )
}

/// The boxes of `objects`, place by place.
pub open spec fn boxes_of<T: Hit>(objects: Seq<T>) -> Seq<AABB> {
    objects.map_values(|object: T| object.bounds())
}

/// The things at the places `places`, in that order.
pub open spec fn picked<T: Hit>(objects: Seq<T>, places: Seq<usize>) -> Seq<T> {
    places.map_values(|place: usize| objects[place as int])
}

/// A query of a hierarchy returns what probing its leaves from left to right returns,
/// as long as the box test is sound and grows with the box.
///
/// So the boxes only save work: they never change the answer.
pub proof fn lemma_traversal_is_scan<T: Hit>(
    node: BVHNode,
    objects: Seq<T>,
    r: &T::Ray,
    ray_t: Interval,
)
    requires
        node_covers(node, boxes_of(objects)),
        box_test_is_sound(objects, r),
        box_test_is_monotone::<T>(r),
    ensures
        node.answer_for(objects, r, ray_t) == scan(picked(objects, node.leaves()), r, ray_t),
    decreases node,
{
    let left = picked(objects, node.left.leaves());
    let right = picked(objects, node.right.leaves());
    let all = picked(objects, node.leaves());
    assert(all =~= left + right);
    if !T::crosses(r, node.bbox, ray_t) {
        assert forall|i: int| 0 <= i < all.len() implies (#[trigger] all[i]).answer(r, ray_t) is None by {
            let place = node.leaves()[i];
            assert(all[i] == objects[place as int]);
            if objects[place as int].answer(r, ray_t) is Some {
                assert(boxes_of(objects)[place as int] == objects[place as int].bounds());
                assert(node.bbox.encloses(objects[place as int].bounds()));
                assert(T::crosses(r, objects[place as int].bounds(), ray_t));
                assert(T::crosses(r, node.bbox, ray_t));
            }
        }
        lemma_scan_of_misses(all, r, ray_t);
    } else {
        lemma_child_traversal_is_scan(node.left, objects, r, ray_t);
        let hit_left = node.left.answer_for(objects, r, ray_t);
        lemma_child_traversal_is_scan(node.right, objects, r, narrowed(ray_t, hit_left));
        lemma_scan_concat(left, right, r, ray_t);
    }
}

/// A query of what is below a child returns what probing its leaves returns, see
/// [`lemma_traversal_is_scan`].
pub proof fn lemma_child_traversal_is_scan<T: Hit>(
    child: BvhChild,
    objects: Seq<T>,
    r: &T::Ray,
    ray_t: Interval,
)
    requires
        child_covers(child, boxes_of(objects)),
        box_test_is_sound(objects, r),
        box_test_is_monotone::<T>(r),
    ensures
        child.answer_for(objects, r, ray_t) == scan(picked(objects, child.leaves()), r, ray_t),
    decreases child,
{
    match child {
        BvhChild::Leaf(id) => {
            let one = picked(objects, child.leaves());
            assert(one.len() == 1);
            assert(one.last() == objects[id as int]);
            assert(one.drop_last().len() == 0);
            assert(scan(one.drop_last(), r, ray_t) is None);
        },
        BvhChild::Node(inner) => {
            lemma_traversal_is_scan(*inner, objects, r, ray_t);
        },
    }
}

/// The range `ray_t` with its upper end brought down to `upper`.
pub open spec fn up_to(ray_t: Interval, upper: i64) -> Interval {
    Interval { min: ray_t.min, max: upper }
}

/// Whether `object` answers with its nearest hit over `ray_t` and over every range that
/// ends earlier: its hit over `ray_t`, if it has one, lies in that range; over a range that
/// ends behind that hit it answers with the same hit, over one that ends before it with
/// none, and over one that ends at it with the same hit or with none.
pub open spec fn answers_nearest<T: Hit>(object: T, r: &T::Ray, ray_t: Interval) -> bool {
    &&& object.answer(r, ray_t) matches Some(rec) ==> rec.t <= ray_t.max
    &&& forall|upper: i64|
        upper <= ray_t.max ==> match object.answer(r, ray_t) {
            None => (#[trigger] object.answer(r, up_to(ray_t, upper))) is None,
            Some(rec) => {
                &&& rec.t < upper ==> object.answer(r, up_to(ray_t, upper)) == Some(rec)
                &&& rec.t > upper ==> object.answer(r, up_to(ray_t, upper)) is None
                &&& rec.t == upper ==> object.answer(r, up_to(ray_t, upper)) is None
                    || object.answer(r, up_to(ray_t, upper)) == Some(rec)
            },
        }
}

/// Whether `found` is a nearest hit among `objects` over `ray_t`: none, where none of them
/// has a hit; else the hit of one of them, and no hit of any of them has a smaller
/// parameter.
pub open spec fn is_nearest_among<T: Hit>(
    found: Option<HitRecord<T::Surface>>,
    objects: Seq<T>,
    r: &T::Ray,
    ray_t: Interval,
) -> bool {
    match found {
        None => forall|i: int|
            0 <= i < objects.len() ==> (#[trigger] objects[i]).answer(r, ray_t) is None,
        Some(rec) => {
            &&& exists|i: int|
                0 <= i < objects.len() && (#[trigger] objects[i]).answer(r, ray_t) == Some(rec)
            &&& forall|j: int|
                0 <= j < objects.len() ==> ((#[trigger] objects[j]).answer(r, ray_t) matches Some(
                    other,
                ) ==> rec.t <= other.t)
        },
    }
}

/// Whether `found` is the first of the nearest hits among `objects` over `ray_t`: none,
/// where none of them has a hit; else the hit of one of them, such that no hit of any of
/// them has a smaller parameter and every hit of a member before it has a larger one.
pub open spec fn is_first_nearest_among<T: Hit>(
    found: Option<HitRecord<T::Surface>>,
    objects: Seq<T>,
    r: &T::Ray,
    ray_t: Interval,
) -> bool {
    match found {
        None => forall|i: int|
            0 <= i < objects.len() ==> (#[trigger] objects[i]).answer(r, ray_t) is None,
        Some(rec) => exists|i: int| is_first_nearest_at(i, rec, objects, r, ray_t),
    }
}

/// Whether `rec` is the hit of the member at place `i`, no hit of any member has a smaller
/// parameter, and every hit of a member before place `i` has a larger one.
pub open spec fn is_first_nearest_at<T: Hit>(
    i: int,
    rec: HitRecord<T::Surface>,
    objects: Seq<T>,
    r: &T::Ray,
    ray_t: Interval,
) -> bool {
    &&& 0 <= i < objects.len()
    &&& objects[i].answer(r, ray_t) == Some(rec)
    &&& forall|j: int|
        0 <= j < objects.len() ==> ((#[trigger] objects[j]).answer(r, ray_t) matches Some(other)
            ==> rec.t <= other.t && (j < i ==> rec.t < other.t))
}

/// Probing things one after the other finds the first of the nearest hits among them, as
/// long as each of them answers with its nearest hit: a later member never takes the place
/// of an earlier one at the same parameter.
pub proof fn lemma_scan_is_first_nearest<T: Hit>(objects: Seq<T>, r: &T::Ray, ray_t: Interval)
    requires
        forall|i: int| 0 <= i < objects.len() ==> answers_nearest(#[trigger] objects[i], r, ray_t),
    ensures
        is_first_nearest_among(scan(objects, r, ray_t), objects, r, ray_t),
    decreases objects.len(),
{
    if objects.len() > 0 {
        let before = objects.drop_last();
        let last = objects.len() - 1;
        let x = objects.last();
        assert forall|i: int| 0 <= i < before.len() implies answers_nearest(
            #[trigger] before[i],
            r,
            ray_t,
        ) by {
            assert(before[i] == objects[i]);
        }
        lemma_scan_is_first_nearest(before, r, ray_t);
        let earlier = scan(before, r, ray_t);
        let found = scan(objects, r, ray_t);
        let full = x.answer(r, ray_t);
        assert(answers_nearest(objects[last], r, ray_t));
        assert forall|j: int| 0 <= j < before.len() implies before[j] == objects[j] by {}
        match earlier {
            None => {
                assert(narrowed(ray_t, earlier) == ray_t);
                assert(found == full);
                match found {
                    None => {
                        assert forall|i: int| 0 <= i < objects.len() implies (
                        #[trigger] objects[i]).answer(r, ray_t) is None by {
                            if i < before.len() {
                                assert(before[i] == objects[i]);
                            }
                        }
                    },
                    Some(rec) => {
                        assert forall|j: int| 0 <= j < objects.len() implies ((
                        #[trigger] objects[j]).answer(r, ray_t) matches Some(other) ==> rec.t
                            <= other.t && (j < last ==> rec.t < other.t)) by {
                            if j < before.len() {
                                assert(before[j] == objects[j]);
                            }
                        }
                        assert(is_first_nearest_at(last, rec, objects, r, ray_t));
                    },
                }
            },
            Some(prev) => {
                let i0 = choose|i: int| is_first_nearest_at(i, prev, before, r, ray_t);
                assert(before[i0] == objects[i0]);
                assert(answers_nearest(objects[i0], r, ray_t));
                assert(prev.t <= ray_t.max);
                assert(narrowed(ray_t, earlier) == up_to(ray_t, prev.t));
                let narrow = x.answer(r, up_to(ray_t, prev.t));
                assert(found == preferring(narrow, earlier));
                if narrow is Some && narrow->0.t < prev.t {
                    let rec = narrow->0;
                    assert(found == Some(rec));
                    assert(full == Some(rec));
                    assert forall|j: int| 0 <= j < objects.len() implies ((
                    #[trigger] objects[j]).answer(r, ray_t) matches Some(other) ==> rec.t
                        <= other.t && (j < last ==> rec.t < other.t)) by {
                        if j < before.len() {
                            assert(before[j] == objects[j]);
                        }
                    }
                    assert(is_first_nearest_at(last, rec, objects, r, ray_t));
                } else {
                    assert(found == Some(prev));
                    assert forall|j: int| 0 <= j < objects.len() implies ((
                    #[trigger] objects[j]).answer(r, ray_t) matches Some(other) ==> prev.t
                        <= other.t && (j < i0 ==> prev.t < other.t)) by {
                        if j < before.len() {
                            assert(before[j] == objects[j]);
                        }
                    }
                    assert(is_first_nearest_at(i0, prev, objects, r, ray_t));
                }
            },
        }
    }
}

/// Probing things one after the other finds a nearest hit among them, as long as each of
/// them answers with its nearest hit.
pub proof fn lemma_scan_is_nearest<T: Hit>(objects: Seq<T>, r: &T::Ray, ray_t: Interval)
    requires
        forall|i: int| 0 <= i < objects.len() ==> answers_nearest(#[trigger] objects[i], r, ray_t),
    ensures
        is_nearest_among(scan(objects, r, ray_t), objects, r, ray_t),
{
    lemma_scan_is_first_nearest(objects, r, ray_t);
    if let Some(rec) = scan(objects, r, ray_t) {
        let i = choose|i: int| is_first_nearest_at(i, rec, objects, r, ray_t);
        assert(objects[i].answer(r, ray_t) == Some(rec));
    }
}

/// Whether `a` and `b` both have a hit over `ray_t`, with the same parameter.
pub open spec fn tie<T: Hit>(a: T, b: T, r: &T::Ray, ray_t: Interval) -> bool {
    a.answer(r, ray_t) matches Some(first) && b.answer(r, ray_t) matches Some(second) && first.t
        == second.t
}

/// Whether no two of `objects` have hits over `ray_t` with the same parameter.
pub open spec fn no_two_tie<T: Hit>(objects: Seq<T>, r: &T::Ray, ray_t: Interval) -> bool {
    forall|i: int, j: int|
        0 <= i < j < objects.len() ==> !tie(#[trigger] objects[i], #[trigger] objects[j], r, ray_t)
}

/// Two nearest hits among the same things agree on whether there is a hit and at which
/// parameter; and they are the same hit where no two of the things have hits with the same
/// parameter.
pub proof fn lemma_nearest_is_unique<T: Hit>(
    one: Option<HitRecord<T::Surface>>,
    other: Option<HitRecord<T::Surface>>,
    objects: Seq<T>,
    r: &T::Ray,
    ray_t: Interval,
)
    requires
        is_nearest_among(one, objects, r, ray_t),
        is_nearest_among(other, objects, r, ray_t),
    ensures
        one is Some <==> other is Some,
        one is Some ==> one->0.t == other->0.t,
        no_two_tie(objects, r, ray_t) ==> one == other,
{
    match (one, other) {
        (Some(a), Some(b)) => {
            let i = choose|i: int|
                0 <= i < objects.len() && (#[trigger] objects[i]).answer(r, ray_t) == Some(a);
            let j = choose|j: int|
                0 <= j < objects.len() && (#[trigger] objects[j]).answer(r, ray_t) == Some(b);
            assert(a.t <= b.t);
            assert(b.t <= a.t);
            if no_two_tie(objects, r, ray_t) {
                if i < j {
                    assert(tie(objects[i], objects[j], r, ray_t));
                } else if j < i {
                    assert(tie(objects[j], objects[i], r, ray_t));
                }
            }
        },
        (Some(a), None) => {
            let i = choose|i: int|
                0 <= i < objects.len() && (#[trigger] objects[i]).answer(r, ray_t) == Some(a);
        },
        (None, Some(b)) => {
            let j = choose|j: int|
                0 <= j < objects.len() && (#[trigger] objects[j]).answer(r, ray_t) == Some(b);
        },
        (None, None) => {},
    }
}

/// A nearest hit among some things is a nearest hit among any other arrangement of them,
/// with or without repeats.
pub proof fn lemma_nearest_ignores_order<T: Hit>(
    found: Option<HitRecord<T::Surface>>,
    objects: Seq<T>,
    others: Seq<T>,
    r: &T::Ray,
    ray_t: Interval,
)
    requires
        is_nearest_among(found, objects, r, ray_t),
        forall|i: int| 0 <= i < objects.len() ==> others.contains(#[trigger] objects[i]),
        forall|i: int| 0 <= i < others.len() ==> objects.contains(#[trigger] others[i]),
    ensures
        is_nearest_among(found, others, r, ray_t),
{
    match found {
        None => {
            assert forall|i: int| 0 <= i < others.len() implies (#[trigger] others[i]).answer(
                r,
                ray_t,
            ) is None by {
                assert(objects.contains(others[i]));
                let j = choose|j: int| 0 <= j < objects.len() && objects[j] == others[i];
                assert(objects[j].answer(r, ray_t) is None);
            }
        },
        Some(rec) => {
            let i = choose|i: int|
                0 <= i < objects.len() && (#[trigger] objects[i]).answer(r, ray_t) == Some(rec);
            assert(others.contains(objects[i]));
            let k = choose|k: int| 0 <= k < others.len() && others[k] == objects[i];
            assert(others[k].answer(r, ray_t) == Some(rec));
            assert forall|j: int| 0 <= j < others.len() implies ((#[trigger] others[j]).answer(
                r,
                ray_t,
            ) matches Some(other) ==> rec.t <= other.t) by {
                assert(objects.contains(others[j]));
                let m = choose|m: int| 0 <= m < objects.len() && objects[m] == others[j];
                assert(objects[m].answer(r, ray_t) == others[j].answer(r, ray_t));
            }
        },
    }
}

/// A query of a hierarchy over all `objects` agrees with probing `objects` one after the
/// other: both find a hit or neither does, and the two hits have the same parameter. They
/// are the same hit where no two of the things have hits with the same parameter.
///
/// This holds as long as the box test is sound and grows with the box, and each thing
/// answers with its nearest hit.
pub proof fn lemma_hierarchy_agrees_with_list<T: Hit>(
    node: BVHNode,
    objects: Seq<T>,
    r: &T::Ray,
    ray_t: Interval,
)
    requires
        objects.len() <= usize::MAX,
        node_covers(node, boxes_of(objects)),
        forall|place: usize| place < objects.len() ==> #[trigger] node.leaves().contains(place),
        box_test_is_sound(objects, r),
        box_test_is_monotone::<T>(r),
        forall|i: int| 0 <= i < objects.len() ==> answers_nearest(#[trigger] objects[i], r, ray_t),
    ensures
        node.answer_for(objects, r, ray_t) is Some <==> scan(objects, r, ray_t) is Some,
        node.answer_for(objects, r, ray_t) is Some ==> node.answer_for(objects, r, ray_t)->0.t
            == scan(objects, r, ray_t)->0.t,
        no_two_tie(objects, r, ray_t)
            ==> node.answer_for(objects, r, ray_t) == scan(objects, r, ray_t),
{
    let leaves = picked(objects, node.leaves());
    lemma_traversal_is_scan(node, objects, r, ray_t);
    assert forall|k: int| 0 <= k < leaves.len() implies answers_nearest(#[trigger] leaves[k], r, ray_t)
        && objects.contains(leaves[k]) by {
        let place = node.leaves()[k];
        assert(place < boxes_of(objects).len());
        assert(leaves[k] == objects[place as int]);
    }
    assert forall|i: int| 0 <= i < objects.len() implies leaves.contains(#[trigger] objects[i]) by {
        if node.leaves().len() > 0 {
            assert(node.leaves()[0] < boxes_of(objects).len());
        }
        let place = i as usize;
        assert(node.leaves().contains(place));
        let k = choose|k: int| 0 <= k < node.leaves().len() && node.leaves()[k] == place;
        assert(leaves[k] == objects[i]);
    }
    lemma_scan_is_nearest(leaves, r, ray_t);
    lemma_scan_is_nearest(objects, r, ray_t);
    lemma_nearest_ignores_order(scan(leaves, r, ray_t), leaves, objects, r, ray_t);
    lemma_nearest_is_unique(
        node.answer_for(objects, r, ray_t),
        scan(objects, r, ray_t),
        objects,
        r,
        ray_t,
    );
}

/// The items that stand for things carry their places and boxes, and the hierarchy over
/// them has the place of every thing among its leaves.
pub proof fn lemma_entries_match<T: Hit>(objects: Seq<T>)
    requires
        objects.len() <= usize::MAX,
    ensures
        items_match(crate::bvh::entries_of(objects), boxes_of(objects)),
        objects.len() > 0 ==> forall|place: usize|
            place < objects.len() ==> #[trigger] BVHNode::built(
                crate::bvh::entries_of(objects),
            ).leaves().contains(place),
{
    let entries = crate::bvh::entries_of(objects);
    assert forall|i: int| 0 <= i < entries.len() implies (#[trigger] entries[i]).id < boxes_of(
        objects,
    ).len() && entries[i].bbox == boxes_of(objects)[entries[i].id as int] by {}
    if objects.len() > 0 {
        lemma_built_covers(entries, boxes_of(objects));
        assert forall|place: usize| place < objects.len() implies #[trigger] BVHNode::built(
            entries,
        ).leaves().contains(place) by {
            assert(entries[place as int].id == place);
        }
    }
}

/// The hierarchy that is built over things agrees with the plain list of them: for every
/// ray and every range, a query of the hierarchy and a probe of the list both find a hit
/// or neither does, and the two hits have the same parameter. They are the same hit where
/// no two of the things have hits with the same parameter.
///
/// This holds as long as the box test is sound and grows with the box, and each thing
/// answers with its nearest hit.
pub proof fn lemma_built_hierarchy_agrees_with_list<T: Hit>(
    objects: Seq<T>,
    r: &T::Ray,
    ray_t: Interval,
)
    requires
        0 < objects.len() <= usize::MAX,
        box_test_is_sound(objects, r),
        box_test_is_monotone::<T>(r),
        forall|i: int| 0 <= i < objects.len() ==> answers_nearest(#[trigger] objects[i], r, ray_t),
    ensures
        BVHNode::built(crate::bvh::entries_of(objects)).answer_for(objects, r, ray_t) is Some
            <==> scan(objects, r, ray_t) is Some,
        scan(objects, r, ray_t) is Some ==> BVHNode::built(
            crate::bvh::entries_of(objects),
        ).answer_for(objects, r, ray_t)->0.t == scan(objects, r, ray_t)->0.t,
        no_two_tie(objects, r, ray_t) ==> BVHNode::built(
            crate::bvh::entries_of(objects),
        ).answer_for(objects, r, ray_t) == scan(objects, r, ray_t),
{
    lemma_entries_match(objects);
    lemma_built_covers(crate::bvh::entries_of(objects), boxes_of(objects));
    lemma_hierarchy_agrees_with_list(
        BVHNode::built(crate::bvh::entries_of(objects)),
        objects,
        r,
        ray_t,
    );
}

/// A thing that a ray meets at two parameters, and that answers over every range with the
/// root that [`crate::sphere::first_root_inside`] picks, answers with its nearest hit.
///
/// `near` and `far` are the hits at the smaller and at the larger root.
pub proof fn lemma_two_roots_answer_nearest<T: Hit>(
    object: T,
    r: &T::Ray,
    ray_t: Interval,
    near: HitRecord<T::Surface>,
    far: HitRecord<T::Surface>,
)
    requires
        near.t <= far.t,
        forall|upper: i64|
            upper <= ray_t.max ==> #[trigger] object.answer(r, up_to(ray_t, upper))
                == match crate::sphere::first_root_inside(up_to(ray_t, upper), near.t, far.t) {
                Some(root) => if root == near.t {
                    Some(near)
                } else {
                    Some(far)
                },
                None => None,
            },
    ensures
        answers_nearest(object, r, ray_t),
{
    assert(up_to(ray_t, ray_t.max) == ray_t);
    let full = object.answer(r, up_to(ray_t, ray_t.max));
    assert forall|upper: i64| upper <= ray_t.max implies match object.answer(r, ray_t) {
        None => (#[trigger] object.answer(r, up_to(ray_t, upper))) is None,
        Some(rec) => {
            &&& rec.t < upper ==> object.answer(r, up_to(ray_t, upper)) == Some(rec)
            &&& rec.t > upper ==> object.answer(r, up_to(ray_t, upper)) is None
            &&& rec.t == upper ==> object.answer(r, up_to(ray_t, upper)) is None
                || object.answer(r, up_to(ray_t, upper)) == Some(rec)
        },
    } by {
        crate::sphere::lemma_nearest_root_is_nearest(ray_t, near.t, far.t, upper);
    }
}

/// A thing that a ray meets at one parameter, and that answers over every range whose ends
/// hold that parameter, answers with its nearest hit.
pub proof fn lemma_one_root_answers_nearest<T: Hit>(
    object: T,
    r: &T::Ray,
    ray_t: Interval,
    only: HitRecord<T::Surface>,
)
    requires
        forall|upper: i64|
            upper <= ray_t.max ==> #[trigger] object.answer(r, up_to(ray_t, upper)) == if up_to(
                ray_t,
                upper,
            ).has(only.t) {
                Some(only)
            } else {
                None
            },
    ensures
        answers_nearest(object, r, ray_t),
{
    assert(up_to(ray_t, ray_t.max) == ray_t);
    let full = object.answer(r, up_to(ray_t, ray_t.max));
}

/// Of two members that have a hit at the same parameter, the list keeps the hit of the
/// one that was added first.
pub proof fn lemma_earlier_member_keeps_a_tie<T: Hit>(
    first: T,
    second: T,
    r: &T::Ray,
    ray_t: Interval,
    kept: HitRecord<T::Surface>,
)
    requires
        first.answer(r, ray_t) == Some(kept),
        second.answer(r, narrowed(ray_t, Some(kept))) matches Some(other) ==> other.t >= kept.t,
    ensures
        scan(seq![first, second], r, ray_t) == Some(kept),
{
    let both = seq![first, second];
    assert(both.drop_last() =~= seq![first]);
    assert(seq![first].drop_last() =~= Seq::<T>::empty());
    assert(scan(Seq::<T>::empty(), r, ray_t) is None);
    assert(seq![first].last() == first);
    assert(scan(seq![first], r, ray_t) == Some(kept));
    assert(both.last() == second);
}

} // verus!
