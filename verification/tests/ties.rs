use pathtracer::aabb::AABB;
use pathtracer::bvh::Bvh;
use pathtracer::hit::{Hit, HitRecord, Hittables};
use pathtracer::interval::Interval;

/// A plate across the ray's path at the parameter `at`. Like a flat patch, it accepts a
/// parameter at either end of the range.
#[derive(Clone, Copy)]
struct Plate {
    at: i64,
    tag: u32,
}

impl Hit for Plate {
    type Ray = ();
    type Surface = u32;

    fn answer(&self, r: &(), ray_t: Interval) -> Option<HitRecord<u32>> {
        self.hit(r, ray_t)
    }

    fn bounds(&self) -> AABB {
        self.bounding_box()
    }

    fn crosses(r: &(), bbox: AABB, ray_t: Interval) -> bool {
        Self::ray_crosses(r, &bbox, ray_t)
    }

    fn hit(&self, _r: &(), ray_t: Interval) -> Option<HitRecord<u32>> {
        if ray_t.contains(self.at) {
            Some(HitRecord { t: self.at, surface: self.tag })
        } else {
            None
        }
    }

    fn bounding_box(&self) -> AABB {
        AABB::new(Interval::new(0, 2_000), Interval::new(0, 2_000), Interval::new(0, 1))
    }

    fn ray_crosses(_r: &(), _bbox: &AABB, ray_t: Interval) -> bool {
        ray_t.min < ray_t.max
    }
}

fn list_of(plates: &[Plate]) -> Hittables<Plate> {
    let mut list = Hittables::new();
    for plate in plates {
        list.add(*plate);
    }
    list
}

#[test]
fn later_member_at_the_same_parameter_does_not_take_the_hit() {
    let first = Plate { at: 3_000, tag: 1 };
    let second = Plate { at: 3_000, tag: 2 };
    let range = Interval::new(1, i64::MAX);
    let rec = list_of(&[first, second]).hit(&(), range).unwrap();
    assert_eq!(rec.t, 3_000);
    assert_eq!(rec.surface, 1);
    let rec = list_of(&[second, first]).hit(&(), range).unwrap();
    assert_eq!(rec.surface, 2);
}

#[test]
fn later_member_with_a_smaller_parameter_takes_the_hit() {
    let far = Plate { at: 5_000, tag: 1 };
    let near = Plate { at: 3_000, tag: 2 };
    let also_near = Plate { at: 3_000, tag: 3 };
    let range = Interval::new(1, i64::MAX);
    let rec = list_of(&[far, near, also_near]).hit(&(), range).unwrap();
    assert_eq!(rec.t, 3_000);
    assert_eq!(rec.surface, 2);
    let rec = list_of(&[also_near, far, near]).hit(&(), range).unwrap();
    assert_eq!(rec.surface, 3);
}

#[test]
fn first_hit_at_the_end_of_the_range_is_kept() {
    let plate = Plate { at: 3_000, tag: 7 };
    let rec = list_of(&[plate]).hit(&(), Interval::new(1, 3_000)).unwrap();
    assert_eq!(rec.t, 3_000);
    assert_eq!(rec.surface, 7);
    assert!(list_of(&[plate]).hit(&(), Interval::new(1, 2_999)).is_none());
}

#[test]
fn hierarchy_keeps_the_left_hit_at_the_same_parameter() {
    let first = Plate { at: 3_000, tag: 1 };
    let second = Plate { at: 3_000, tag: 2 };
    let third = Plate { at: 3_000, tag: 3 };
    let range = Interval::new(1, i64::MAX);
    let rec = Bvh::new(list_of(&[first])).hit(&(), range).unwrap();
    assert_eq!(rec.surface, 1);
    let rec = Bvh::new(list_of(&[first, second])).hit(&(), range).unwrap();
    assert_eq!(rec.t, 3_000);
    assert_eq!(rec.surface, 1);
    let rec = Bvh::new(list_of(&[second, first])).hit(&(), range).unwrap();
    assert_eq!(rec.surface, 2);
    // The boxes are equal, so the sort leaves the members in their order.
    let rec = Bvh::new(list_of(&[first, second, third])).hit(&(), range).unwrap();
    assert_eq!(rec.surface, 1);
    let nearer = Plate { at: 2_000, tag: 4 };
    let rec = Bvh::new(list_of(&[first, second, nearer, third])).hit(&(), range).unwrap();
    assert_eq!(rec.t, 2_000);
    assert_eq!(rec.surface, 4);
}

#[test]
fn list_of_one_member_has_the_box_of_that_member() {
    let plate = Plate { at: 3_000, tag: 1 };
    let list = Hittables::from(plate);
    assert_eq!(list.len(), 1);
    assert_eq!(list.get(0).tag, 1);
    assert_eq!(list.bounding_box(), plate.bounding_box());
    assert_eq!(list.hit(&(), Interval::new(1, i64::MAX)).unwrap().surface, 1);
}
