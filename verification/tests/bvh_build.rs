use pathtracer::aabb::AABB;
use pathtracer::bvh::{sort_by_min, BVHNode, Bounded, BvhChild};
use pathtracer::interval::Interval;
use pathtracer::vec3::Vec3;

fn cube(x: i64, y: i64, z: i64, side: i64) -> AABB {
    AABB::from_corners(Vec3::new(x, y, z), Vec3::new(x + side, y + side, z + side))
}

fn item(id: usize, x: i64, y: i64, z: i64) -> Bounded {
    Bounded { bbox: cube(x, y, z, 1), id }
}

fn leaves(node: &BVHNode, out: &mut Vec<usize>) {
    for child in [&node.left, &node.right] {
        match child {
            BvhChild::Leaf(id) => out.push(*id),
            BvhChild::Node(inner) => leaves(inner, out),
        }
    }
}

fn ids(items: &[Bounded]) -> Vec<usize> {
    items.iter().map(|b| b.id).collect()
}

/// Every node's box is the hull of the boxes of the leaves below it.
fn check_boxes(node: &BVHNode, boxes: &[AABB]) -> AABB {
    let mut hull = AABB::empty();
    for child in [&node.left, &node.right] {
        let below = match child {
            BvhChild::Leaf(id) => boxes[*id],
            BvhChild::Node(inner) => check_boxes(inner, boxes),
        };
        hull = AABB::union(hull, below);
    }
    assert_eq!(node.bbox, hull);
    hull
}

#[test]
fn sort_orders_by_the_lower_end_on_the_axis() {
    let mut v = vec![item(0, 5, 0, 0), item(1, 3, 9, 0), item(2, 4, 1, 0), item(3, 1, 5, 0)];
    sort_by_min(&mut v, 0, 4, 0);
    assert_eq!(ids(&v), vec![3, 1, 2, 0]);
    sort_by_min(&mut v, 0, 4, 1);
    assert_eq!(ids(&v), vec![0, 2, 3, 1]);
}

#[test]
fn sort_keeps_the_order_of_equal_keys() {
    let mut v = vec![
        item(0, 2, 0, 0),
        item(1, 1, 0, 0),
        item(2, 2, 0, 0),
        item(3, 1, 0, 0),
        item(4, 2, 0, 0),
        item(5, 0, 0, 0),
    ];
    sort_by_min(&mut v, 0, 6, 0);
    assert_eq!(ids(&v), vec![5, 1, 3, 0, 2, 4]);
}

#[test]
fn sort_touches_only_its_range() {
    let mut v = vec![item(0, 9, 0, 0), item(1, 8, 0, 0), item(2, 7, 0, 0), item(3, 6, 0, 0)];
    sort_by_min(&mut v, 1, 3, 0);
    assert_eq!(ids(&v), vec![0, 2, 1, 3]);
    sort_by_min(&mut v, 2, 2, 0);
    assert_eq!(ids(&v), vec![0, 2, 1, 3]);
    sort_by_min(&mut v, 4, 4, 0);
    assert_eq!(ids(&v), vec![0, 2, 1, 3]);
}

#[test]
fn one_item_is_both_children() {
    let mut v = vec![item(7, 1, 2, 3)];
    let node = BVHNode::new(&mut v, 0, 1);
    assert!(matches!(node.left, BvhChild::Leaf(7)));
    assert!(matches!(node.right, BvhChild::Leaf(7)));
    assert_eq!(node.bbox, cube(1, 2, 3, 1));
}

#[test]
fn two_items_are_one_child_each_in_their_order() {
    let mut v = vec![item(0, 9, 0, 0), item(1, 1, 0, 0)];
    let node = BVHNode::new(&mut v, 0, 2);
    assert!(matches!(node.left, BvhChild::Leaf(0)));
    assert!(matches!(node.right, BvhChild::Leaf(1)));
    assert_eq!(node.bbox, AABB::union(cube(9, 0, 0, 1), cube(1, 0, 0, 1)));
    assert_eq!(ids(&v), vec![0, 1]);
}

#[test]
fn three_items_split_one_and_two_along_the_longest_axis() {
    // The box is longest along y.
    let mut v = vec![item(0, 0, 50, 0), item(1, 1, 0, 0), item(2, 2, 20, 0)];
    let node = BVHNode::new(&mut v, 0, 3);
    assert_eq!(ids(&v), vec![1, 2, 0]);
    match &node.left {
        BvhChild::Node(inner) => {
            assert!(matches!(inner.left, BvhChild::Leaf(1)));
            assert!(matches!(inner.right, BvhChild::Leaf(1)));
            assert_eq!(inner.bbox, cube(1, 0, 0, 1));
        }
        BvhChild::Leaf(_) => panic!("the left child of three items is a node"),
    }
    match &node.right {
        BvhChild::Node(inner) => {
            assert!(matches!(inner.left, BvhChild::Leaf(2)));
            assert!(matches!(inner.right, BvhChild::Leaf(0)));
        }
        BvhChild::Leaf(_) => panic!("the right child of three items is a node"),
    }
    assert_eq!(
        node.bbox,
        AABB::new(Interval::new(0, 3), Interval::new(0, 51), Interval::new(0, 1))
    );
}

#[test]
fn every_item_is_a_leaf_and_every_box_is_the_hull_of_its_leaves() {
    for n in 1..40usize {
        let mut v: Vec<Bounded> = (0..n)
            .map(|i| {
                let i = i as i64;
                item(i as usize, (i * 37) % 101, (i * 53) % 47, (i * 11) % 13)
            })
            .collect();
        let boxes: Vec<AABB> = v.iter().map(|b| b.bbox).collect();
        let node = BVHNode::new(&mut v, 0, n);
        let mut found = Vec::new();
        leaves(&node, &mut found);
        found.sort();
        found.dedup();
        assert_eq!(found, (0..n).collect::<Vec<usize>>());
        let mut arranged = ids(&v);
        arranged.sort();
        assert_eq!(arranged, (0..n).collect::<Vec<usize>>());
        check_boxes(&node, &boxes);
    }
}

#[test]
fn building_a_range_leaves_the_rest_alone() {
    let mut v = vec![
        item(0, 9, 0, 0),
        item(1, 8, 0, 0),
        item(2, 7, 0, 0),
        item(3, 6, 0, 0),
        item(4, 5, 0, 0),
    ];
    let node = BVHNode::new(&mut v, 1, 4);
    assert_eq!(v[0].id, 0);
    assert_eq!(v[4].id, 4);
    assert_eq!(ids(&v[1..4]), vec![3, 2, 1]);
    let mut found = Vec::new();
    leaves(&node, &mut found);
    assert_eq!(found, vec![3, 3, 2, 1]);
}
