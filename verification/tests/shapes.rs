use pathtracer::aabb::AABB;
use pathtracer::interval::Interval;
use pathtracer::quad::{is_interior, MakeBox, Quad};
use pathtracer::sphere::{nearest_root, Sphere};
use pathtracer::vec3::Vec3;

#[test]
fn sphere_radius_is_kept_at_zero_or_above() {
    assert_eq!(Sphere::new(Vec3::new(1, 2, 3), 200, 4).radius, 200);
    assert_eq!(Sphere::new(Vec3::new(1, 2, 3), 0, 4).radius, 0);
    assert_eq!(Sphere::new(Vec3::new(1, 2, 3), -200, 4).radius, 0);
    assert_eq!(Sphere::new_moving(Vec3::new(1, 2, 3), Vec3::new(1, 5, 3), -1, 4).radius, 0);
}

#[test]
fn sphere_at_rest_does_not_move() {
    let s = Sphere::new(Vec3::new(1, 2, 3), 200, 4);
    assert_eq!(s.center, Vec3::new(1, 2, 3));
    assert_eq!(s.motion, Vec3::new(0, 0, 0));
    assert_eq!(s.mat, 4);
}

#[test]
fn moving_sphere_keeps_the_step_between_its_two_centres() {
    let s = Sphere::new_moving(Vec3::new(1_000, 200, 3_000), Vec3::new(1_000, 650, 3_000), 200, 7);
    assert_eq!(s.center, Vec3::new(1_000, 200, 3_000));
    assert_eq!(s.motion, Vec3::new(0, 450, 0));
    assert_eq!(s.mat, 7);
}

#[test]
fn sphere_box_reaches_one_radius_around_both_centres() {
    let still = Sphere::new(Vec3::new(0, 2_000, 0), 2_000, 0);
    assert_eq!(
        still.bounding_box(),
        AABB::from_corners(Vec3::new(-2_000, 0, -2_000), Vec3::new(2_000, 4_000, 2_000))
    );
    let moving = Sphere::new_moving(Vec3::new(0, 200, 0), Vec3::new(100, 700, 0), 200, 0);
    assert_eq!(
        moving.bounding_box(),
        AABB::from_corners(Vec3::new(-200, 0, -200), Vec3::new(300, 900, 200))
    );
    let point = Sphere::new(Vec3::new(5, 5, 5), -3, 0);
    assert_eq!(point.bounding_box(), AABB::from_corners(Vec3::new(5, 5, 5), Vec3::new(5, 5, 5)));
}

#[test]
fn quad_box_holds_the_four_corners_and_is_nowhere_flat() {
    let wall = Quad::new(Vec3::new(555_000, 0, 0), Vec3::new(0, 555_000, 0), Vec3::new(0, 0, 555_000), 2);
    assert_eq!(
        wall.bounding_box(),
        AABB::new(
            Interval::new(554_999, 555_001),
            Interval::new(0, 555_000),
            Interval::new(0, 555_000)
        )
    );
    let slanted = Quad::new(Vec3::new(0, 0, 0), Vec3::new(10, 0, 5), Vec3::new(-3, 7, 0), 0);
    assert_eq!(
        slanted.bounding_box(),
        AABB::new(Interval::new(-3, 10), Interval::new(0, 7), Interval::new(0, 5))
    );
}

#[test]
fn make_box_gives_the_six_sides() {
    let a = Vec3::new(0, 0, 0);
    let b = Vec3::new(165_000, 330_000, 165_000);
    let dx = Vec3::new(165_000, 0, 0);
    let dy = Vec3::new(0, 330_000, 0);
    let dz = Vec3::new(0, 0, 165_000);
    let expected = vec![
        Quad::new(Vec3::new(0, 0, 165_000), dx, dy, 1),
        Quad::new(Vec3::new(165_000, 0, 165_000), dz.neg(), dy, 1),
        Quad::new(Vec3::new(165_000, 0, 0), dx.neg(), dy, 1),
        Quad::new(Vec3::new(0, 0, 0), dz, dy, 1),
        Quad::new(Vec3::new(0, 330_000, 165_000), dx, dz.neg(), 1),
        Quad::new(Vec3::new(0, 0, 0), dx, dz, 1),
    ];
    assert_eq!(MakeBox(a, b, 1), expected);
    // The corners may come in any order.
    assert_eq!(MakeBox(b, a, 1), expected);
    assert_eq!(
        MakeBox(Vec3::new(165_000, 0, 165_000), Vec3::new(0, 330_000, 0), 1),
        expected
    );
}

#[test]
fn the_sides_of_a_box_lie_in_the_box() {
    let a = Vec3::new(-5, 7, 100);
    let b = Vec3::new(20, -3, 90);
    let around = AABB::from_corners(a, b).pad_to_minimums();
    let mut hull = AABB::empty();
    for side in MakeBox(a, b, 0) {
        hull = AABB::union(hull, side.bounding_box());
    }
    assert_eq!(hull.x, around.x.expand(2));
    assert_eq!(hull.y, around.y.expand(2));
    assert_eq!(hull.z, around.z.expand(2));
}

#[test]
fn nearest_root_is_the_smaller_one_inside_the_range_else_the_larger() {
    let range = Interval::new(0, 100);
    assert_eq!(nearest_root(range, 40, 60), Some(40));
    assert_eq!(nearest_root(range, -5, 60), Some(60));
    assert_eq!(nearest_root(range, 0, 60), Some(60));
    assert_eq!(nearest_root(range, 40, 100), Some(40));
    assert_eq!(nearest_root(range, -5, 100), None);
    assert_eq!(nearest_root(range, -5, 150), None);
    assert_eq!(nearest_root(range, 120, 150), None);
    assert_eq!(nearest_root(range, 0, 0), None);
    assert_eq!(nearest_root(range, 50, 50), Some(50));
    assert_eq!(nearest_root(Interval::new(0, 40), 40, 60), None);
    assert_eq!(nearest_root(Interval::new(0, 41), 40, 60), Some(40));
    assert_eq!(nearest_root(Interval::empty(), 40, 60), None);
}

#[test]
fn interior_of_a_patch_includes_its_edges() {
    let unit = Interval::new(0, 1_000);
    assert!(is_interior(0, 0, unit));
    assert!(is_interior(1_000, 1_000, unit));
    assert!(is_interior(500, 0, unit));
    assert!(!is_interior(-1, 500, unit));
    assert!(!is_interior(500, -1, unit));
    assert!(!is_interior(1_001, 500, unit));
    assert!(!is_interior(500, 1_001, unit));
}
