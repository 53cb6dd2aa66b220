use pathtracer::aabb::AABB;
use pathtracer::bvh::Bvh;
use pathtracer::hit::{Hit, HitRecord, Hittables};
use pathtracer::interval::Interval;
use pathtracer::sphere::nearest_root;
use pathtracer::vec3::Vec3;
use rand::Rng;

/// The integer that stands for `x`: the order of the integers is the order of the numbers.
fn key(x: f64) -> i64 {
    if x.is_nan() || x == f64::INFINITY {
        return i64::MAX;
    }
    if x == f64::NEG_INFINITY {
        return i64::MIN;
    }
    if x == 0.0 {
        // Both zeros are one number.
        return 0;
    }
    let bits = x.to_bits() as i64;
    if bits < 0 {
        bits ^ i64::MAX
    } else {
        bits
    }
}

/// The number that `k` stands for.
fn number(k: i64) -> f64 {
    if k >= key(f64::MAX) + 1 {
        return f64::INFINITY;
    }
    if k <= key(f64::MIN) - 1 {
        return f64::NEG_INFINITY;
    }
    f64::from_bits((if k < 0 { k ^ i64::MAX } else { k }) as u64)
}

#[derive(Clone, Copy)]
struct Ray {
    origin: [f64; 3],
    direction: [f64; 3],
}

#[derive(Clone, Copy)]
struct Ball {
    center: [f64; 3],
    radius: f64,
    tag: usize,
}

/// What a ball reports of a hit: which ball it is, the unit normal against the ray, and
/// whether the ray came from outside.
#[derive(Clone, Copy, Debug, PartialEq)]
struct Seen {
    tag: usize,
    normal: [f64; 3],
    front_face: bool,
}

const UNIT: f64 = 1000.0;

impl Hit for Ball {
    type Ray = Ray;
    type Surface = Seen;

    fn answer(&self, r: &Ray, ray_t: Interval) -> Option<HitRecord<Seen>> {
        self.hit(r, ray_t)
    }

    fn bounds(&self) -> AABB {
        self.bounding_box()
    }

    fn crosses(r: &Ray, bbox: AABB, ray_t: Interval) -> bool {
        Self::ray_crosses(r, &bbox, ray_t)
    }

    fn hit(&self, r: &Ray, ray_t: Interval) -> Option<HitRecord<Seen>> {
        let oc = [
            self.center[0] - r.origin[0],
            self.center[1] - r.origin[1],
            self.center[2] - r.origin[2],
        ];
        let d = r.direction;
        let a = d[0] * d[0] + d[1] * d[1] + d[2] * d[2];
        let h = d[0] * oc[0] + d[1] * oc[1] + d[2] * oc[2];
        let c = oc[0] * oc[0] + oc[1] * oc[1] + oc[2] * oc[2] - self.radius * self.radius;
        let discriminant = h * h - a * c;
        if discriminant < 0.0 {
            return None;
        }
        let sqrtd = discriminant.sqrt();
        let root = number(nearest_root(ray_t, key((h - sqrtd) / a), key((h + sqrtd) / a))?);
        let outward = [
            (r.origin[0] + root * d[0] - self.center[0]) / self.radius,
            (r.origin[1] + root * d[1] - self.center[1]) / self.radius,
            (r.origin[2] + root * d[2] - self.center[2]) / self.radius,
        ];
        let front_face = d[0] * outward[0] + d[1] * outward[1] + d[2] * outward[2] < 0.0;
        let normal = if front_face { outward } else { [-outward[0], -outward[1], -outward[2]] };
        Some(HitRecord { t: key(root), surface: Seen { tag: self.tag, normal, front_face } })
    }

    fn bounding_box(&self) -> AABB {
        let side = |n: usize| {
            Interval::new(
                ((self.center[n] - self.radius) * UNIT).floor() as i64 - 1,
                ((self.center[n] + self.radius) * UNIT).ceil() as i64 + 1,
            )
        };
        AABB::new(side(0), side(1), side(2))
    }

    fn ray_crosses(r: &Ray, bbox: &AABB, ray_t: Interval) -> bool {
        AABB::hit(&crossings(r, bbox), ray_t)
    }
}

/// The parameters at which `r` crosses the planes of the sides of `bbox`, axis by axis.
fn crossings(r: &Ray, bbox: &AABB) -> [(i64, i64); 3] {
    let mut found = [(0, 0); 3];
    for axis in 0..3usize {
        let side = bbox.axis_interval(axis);
        let adinv = 1.0 / r.direction[axis];
        let t0 = (side.min as f64 / UNIT - r.origin[axis]) * adinv;
        let t1 = (side.max as f64 / UNIT - r.origin[axis]) * adinv;
        found[axis] = (key(t0), key(t1));
    }
    found
}

fn list_of(balls: &[Ball]) -> Hittables<Ball> {
    let mut list = Hittables::new();
    for ball in balls {
        list.add(*ball);
    }
    list
}

#[test]
fn keys_keep_the_order_of_the_numbers() {
    let numbers = [
        f64::NEG_INFINITY,
        -1.0e300,
        -4.0,
        -0.001,
        0.0,
        0.001,
        3.999,
        4.0,
        1.0e300,
        f64::INFINITY,
    ];
    for pair in numbers.windows(2) {
        assert!(key(pair[0]) < key(pair[1]));
    }
    for x in numbers {
        assert_eq!(number(key(x)), x);
    }
    assert_eq!(key(f64::INFINITY), Interval::universe().max);
    assert_eq!(key(f64::NEG_INFINITY), Interval::universe().min);
}

#[test]
fn sphere_at_the_origin_is_hit_at_four() {
    let ball = Ball { center: [0.0, 0.0, 0.0], radius: 1.0, tag: 9 };
    let ray = Ray { origin: [0.0, 0.0, -5.0], direction: [0.0, 0.0, 1.0] };
    let range = Interval::new(key(0.001), key(f64::INFINITY));
    let list = list_of(&[ball]);
    let near = Seen { tag: 9, normal: [0.0, 0.0, -1.0], front_face: true };
    let rec = list.hit(&ray, range).unwrap();
    assert_eq!(number(rec.t), 4.0);
    assert_eq!(rec.surface, near);
    let bvh = Bvh::new(list_of(&[ball]));
    let rec = bvh.hit(&ray, range).unwrap();
    assert_eq!(number(rec.t), 4.0);
    assert_eq!(rec.surface, near);
    // Behind the far side of the sphere nothing is left to hit.
    assert!(bvh.hit(&ray, Interval::new(key(6.0), key(f64::INFINITY))).is_none());
    // Between the two sides only the far one is.
    let far = bvh.hit(&ray, Interval::new(key(4.5), key(f64::INFINITY))).unwrap();
    assert_eq!(number(far.t), 6.0);
    assert_eq!(far.surface, Seen { tag: 9, normal: [0.0, 0.0, -1.0], front_face: false });
}

#[test]
fn list_returns_the_nearest_member_whatever_the_order() {
    let at = |z: f64, tag: usize| Ball { center: [0.0, 0.0, z], radius: 1.0, tag };
    let ray = Ray { origin: [0.0, 0.0, -5.0], direction: [0.0, 0.0, 1.0] };
    let range = Interval::new(key(0.001), key(f64::INFINITY));
    for order in [[0usize, 1, 2], [2, 1, 0], [1, 2, 0], [1, 0, 2]] {
        let balls = [at(10.0, 0), at(0.0, 1), at(20.0, 2)];
        let list = list_of(&[balls[order[0]], balls[order[1]], balls[order[2]]]);
        let rec = list.hit(&ray, range).unwrap();
        assert_eq!(rec.surface.tag, 1);
        assert_eq!(number(rec.t), 4.0);
    }
}

#[test]
fn empty_list_and_empty_hierarchy_are_never_hit() {
    let ray = Ray { origin: [0.0, 0.0, -5.0], direction: [0.0, 0.0, 1.0] };
    let list: Hittables<Ball> = Hittables::new();
    assert_eq!(list.len(), 0);
    assert!(list.hit(&ray, Interval::universe()).is_none());
    assert_eq!(list.bounding_box(), AABB::empty());
    let bvh = Bvh::new(list);
    assert_eq!(bvh.len(), 0);
    assert!(bvh.hit(&ray, Interval::universe()).is_none());
    assert_eq!(bvh.bounding_box(), AABB::empty());
}

#[test]
fn list_keeps_the_box_around_its_members() {
    let a = Ball { center: [0.0, 0.0, 0.0], radius: 1.0, tag: 0 };
    let b = Ball { center: [5.0, 0.0, 0.0], radius: 2.0, tag: 1 };
    let mut list = Hittables::new();
    list.add(a);
    assert_eq!(list.bounding_box(), a.bounding_box());
    list.add(b);
    assert_eq!(list.bounding_box(), AABB::union(a.bounding_box(), b.bounding_box()));
    assert_eq!(list.len(), 2);
    assert_eq!(list.get(1).tag, 1);
    list.clear();
    assert_eq!(list.len(), 0);
    assert_eq!(list.bounding_box(), AABB::empty());
}

#[test]
fn hierarchy_box_is_the_box_of_the_list() {
    let balls: Vec<Ball> = (0..7)
        .map(|i| Ball { center: [i as f64 * 3.0, (i % 3) as f64, 0.0], radius: 1.0, tag: i })
        .collect();
    let list = list_of(&balls);
    let around = list.bounding_box();
    let bvh = Bvh::new(list);
    assert_eq!(bvh.len(), 7);
    assert_eq!(bvh.bounding_box(), around);
}

#[test]
fn hierarchy_agrees_with_the_list_on_random_spheres_and_rays() {
    let mut rng = rand::rng();
    for &count in &[1usize, 2, 3, 10, 60] {
        // One sphere to each cell of a grid, small enough not to leave its cell.
        let mut balls = Vec::new();
        for tag in 0..count {
            let cell = [(tag % 4) as f64, ((tag / 4) % 4) as f64, (tag / 16) as f64];
            balls.push(Ball {
                center: [
                    cell[0] * 3.0 + rng.random_range(-0.4..0.4),
                    cell[1] * 3.0 + rng.random_range(-0.4..0.4),
                    cell[2] * 3.0 + rng.random_range(-0.4..0.4),
                ],
                radius: rng.random_range(0.2..1.0),
                tag,
            });
        }
        let list = list_of(&balls);
        let bvh = Bvh::new(list_of(&balls));
        let range = Interval::new(key(0.001), key(f64::INFINITY));
        let mut hits = 0;
        for _ in 0..400 {
            let origin = [
                rng.random_range(-5.0..15.0),
                rng.random_range(-5.0..15.0),
                rng.random_range(-15.0..-5.0),
            ];
            let target = [
                rng.random_range(-1.0..10.0),
                rng.random_range(-1.0..10.0),
                rng.random_range(-1.0..10.0),
            ];
            let ray = Ray {
                origin,
                direction: [target[0] - origin[0], target[1] - origin[1], target[2] - origin[2]],
            };
            let by_list = list.hit(&ray, range);
            let by_tree = bvh.hit(&ray, range);
            match (by_list, by_tree) {
                (None, None) => {}
                (Some(a), Some(b)) => {
                    hits += 1;
                    assert_eq!(a.t, b.t);
                    assert_eq!(a.surface, b.surface);
                }
                _ => panic!("the list and the hierarchy disagree on whether there is a hit"),
            }
        }
        if count == 60 {
            assert!(hits > 0);
        }
    }
}

#[test]
fn box_is_crossed_by_a_ray_that_points_at_it_from_outside() {
    let mut rng = rand::rng();
    let bbox = AABB::from_corners(Vec3::new(-1_000, -2_000, -3_000), Vec3::new(4_000, 5_000, 6_000));
    let range = Interval::new(key(0.0), key(f64::INFINITY));
    for _ in 0..500 {
        let mut origin = [
            rng.random_range(-20.0..20.0),
            rng.random_range(-20.0..20.0),
            rng.random_range(-20.0..20.0),
        ];
        // Outside, on the far side of one face.
        origin[0] = -1.0 - rng.random_range(0.5..20.0);
        let target = [
            rng.random_range(-0.9..3.9),
            rng.random_range(-1.9..4.9),
            rng.random_range(-2.9..5.9),
        ];
        let ray = Ray {
            origin,
            direction: [target[0] - origin[0], target[1] - origin[1], target[2] - origin[2]],
        };
        assert!(Ball::ray_crosses(&ray, &bbox, range));

        // The same by hand: the ray is inside from the last entry to the first exit.
        let slabs = crossings(&ray, &bbox);
        let mut entry = 0.0f64;
        let mut exit = f64::INFINITY;
        for (t0, t1) in slabs {
            let (t0, t1) = (number(t0), number(t1));
            entry = entry.max(t0.min(t1));
            exit = exit.min(t0.max(t1));
        }
        assert!(entry < exit);
        // Past the exit, and before the entry, the box is not crossed.
        assert!(!Ball::ray_crosses(&ray, &bbox, Interval::new(key(exit), key(f64::INFINITY))));
        assert!(!Ball::ray_crosses(&ray, &bbox, Interval::new(key(0.0), key(entry))));
        assert!(Ball::ray_crosses(&ray, &bbox, Interval::new(key(entry), key(exit))));
    }
}

#[test]
fn box_is_missed_by_a_ray_that_points_away() {
    let bbox = AABB::from_corners(Vec3::new(0, 0, 0), Vec3::new(1_000, 1_000, 1_000));
    let range = Interval::new(key(0.001), key(f64::INFINITY));
    let away = Ray { origin: [-1.0, 0.5, 0.5], direction: [-1.0, 0.1, 0.1] };
    assert!(!Ball::ray_crosses(&away, &bbox, range));
    let past = Ray { origin: [-1.0, 0.5, 0.5], direction: [1.0, 2.0, 0.0] };
    assert!(!Ball::ray_crosses(&past, &bbox, range));
    let along = Ray { origin: [-1.0, 0.5, 0.5], direction: [1.0, 0.0, 0.0] };
    assert!(Ball::ray_crosses(&along, &bbox, range));
    assert!(!Ball::ray_crosses(&along, &bbox, Interval::new(key(0.001), key(1.0))));
    assert!(Ball::ray_crosses(&along, &bbox, Interval::new(key(0.001), key(1.5))));
}
