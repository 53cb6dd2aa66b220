use pathtracer::camera::Camera;
use pathtracer::material::Material;
use pathtracer::quad::Quad;
use pathtracer::scene::{Scene, Shape};
use pathtracer::scenes::{
    bouncing_spheres, checkered_spheres, cornell_box, is_clear_of_big_sphere, perlin_spheres, quads,
    simple_light, small_kind, small_sphere_center, SmallKind,
};
use pathtracer::sphere::Sphere;
use pathtracer::texture::Texture;
use pathtracer::vec3::Vec3;

/// Every place that the scene names exists, and parts name only parts before them.
fn check(scene: &Scene) {
    for (i, t) in scene.textures.iter().enumerate() {
        if let Texture::Checker { even, odd, .. } = t {
            assert!(*even < i && *odd < i);
        }
    }
    for m in &scene.materials {
        match m {
            Material::Lambertian { tex } | Material::DiffuseLight { tex } => {
                assert!(*tex < scene.textures.len())
            }
            _ => {}
        }
    }
    for (i, s) in scene.shapes.iter().enumerate() {
        match s {
            Shape::Sphere(s) => assert!(s.mat < scene.materials.len()),
            Shape::Quad(q) => assert!(q.mat < scene.materials.len()),
            Shape::Group { first, count } => assert!(first + count <= i),
            Shape::Translated { object, .. } | Shape::Rotated { object, .. } => assert!(*object < i),
        }
    }
    for w in &scene.world {
        assert!(*w < scene.shapes.len());
    }
}

fn two_sphere_camera() -> Camera {
    Camera {
        aspect_width: 16,
        aspect_height: 9,
        image_width: 400,
        samples_per_pixel: 100,
        max_depth: 50,
        vfov: 20_000,
        lookfrom: Vec3::new(13_000, 2_000, 3_000),
        lookat: Vec3::new(0, 0, 0),
        vup: Vec3::new(0, 1_000, 0),
        defocus_angle: 0,
        focus_dist: 10_000,
        background: Vec3::new(750, 100, 750),
        image_height: 225,
    }
}

#[test]
fn cornell_box_has_five_walls_a_lamp_and_two_blocks() {
    let scene = cornell_box();
    check(&scene);
    assert_eq!(scene.world.len(), 8);
    assert_eq!(scene.materials.len(), 4);
    assert_eq!(scene.textures.len(), 4);
    assert_eq!(scene.textures[0], Texture::SolidColor { albedo: Vec3::new(650, 50, 50) });
    assert_eq!(scene.textures[3], Texture::SolidColor { albedo: Vec3::new(15_000, 15_000, 15_000) });
    assert_eq!(scene.materials[3], Material::DiffuseLight { tex: 3 });
    assert_eq!(
        scene.shapes[scene.world[2]],
        Shape::Quad(Quad::new(
            Vec3::new(343_000, 554_000, 332_000),
            Vec3::new(-130_000, 0, 0),
            Vec3::new(0, 0, -105_000),
            3
        ))
    );
    for k in 0..6 {
        assert!(matches!(scene.shapes[scene.world[k]], Shape::Quad(_)));
    }
    for (k, angle, offset) in [
        (6usize, 15_000i64, Vec3::new(265_000, 0, 295_000)),
        (7, -18_000, Vec3::new(130_000, 0, 65_000)),
    ] {
        let moved = scene.shapes[scene.world[k]];
        let Shape::Translated { object, offset: by } = moved else {
            panic!("a block is moved into place");
        };
        assert_eq!(by, offset);
        let Shape::Rotated { object, angle: turned } = scene.shapes[object] else {
            panic!("a block is turned before it is moved");
        };
        assert_eq!(turned, angle);
        let Shape::Group { first, count } = scene.shapes[object] else {
            panic!("a block is a group of sides");
        };
        assert_eq!(count, 6);
        for side in first..first + count {
            assert!(matches!(scene.shapes[side], Shape::Quad(q) if q.mat == 1));
        }
    }
    assert!(!scene.use_bvh);
    assert_eq!(
        scene.camera,
        Camera {
            aspect_width: 1,
            aspect_height: 1,
            image_width: 600,
            samples_per_pixel: 200,
            max_depth: 50,
            vfov: 40_000,
            lookfrom: Vec3::new(278_000, 278_000, -800_000),
            lookat: Vec3::new(278_000, 278_000, 0),
            vup: Vec3::new(0, 1_000, 0),
            defocus_angle: 0,
            focus_dist: 10_000,
            background: Vec3::new(0, 0, 0),
            image_height: 600,
        }
    );
}

#[test]
fn simple_light_has_two_marbled_spheres_and_two_lamps() {
    let scene = simple_light();
    check(&scene);
    assert_eq!(scene.world, vec![0, 1, 2, 3]);
    assert_eq!(scene.textures[0], Texture::Noise { scale: 4_000 });
    assert_eq!(scene.materials[0], Material::Lambertian { tex: 0 });
    assert_eq!(scene.materials[1], Material::DiffuseLight { tex: 1 });
    assert_eq!(
        scene.shapes[0],
        Shape::Sphere(Sphere::new(Vec3::new(0, -1_000_000, 0), 1_000_000, 0))
    );
    assert_eq!(scene.shapes[1], Shape::Sphere(Sphere::new(Vec3::new(0, 2_000, 0), 2_000, 0)));
    assert_eq!(
        scene.shapes[2],
        Shape::Quad(Quad::new(
            Vec3::new(3_000, 1_000, -2_000),
            Vec3::new(2_000, 0, 0),
            Vec3::new(0, 2_000, 0),
            1
        ))
    );
    assert_eq!(scene.shapes[3], Shape::Sphere(Sphere::new(Vec3::new(0, 7_000, 0), 2_000, 1)));
    assert_eq!(
        scene.camera,
        Camera {
            lookfrom: Vec3::new(26_000, 3_000, 6_000),
            lookat: Vec3::new(0, 2_000, 0),
            background: Vec3::new(0, 0, 0),
            ..two_sphere_camera()
        }
    );
}

#[test]
fn quads_has_three_patches_of_one_colour() {
    let scene = quads();
    check(&scene);
    assert_eq!(scene.world, vec![0, 1, 2]);
    assert_eq!(scene.materials, vec![Material::Lambertian { tex: 0 }]);
    let Texture::SolidColor { albedo } = scene.textures[0] else {
        panic!("the patches have one colour");
    };
    for n in 0..3 {
        assert!((0..1000).contains(&albedo.get(n)));
    }
    assert_eq!(
        scene.shapes[1],
        Shape::Quad(Quad::new(
            Vec3::new(-2_000, -2_000, 0),
            Vec3::new(4_000, 0, 0),
            Vec3::new(0, 4_000, 0),
            0
        ))
    );
    assert_eq!(scene.camera.vfov, 80_000);
    assert_eq!(scene.camera.image_height, 400);
    assert_eq!(scene.camera.lookfrom, Vec3::new(0, 0, 9_000));
}

#[test]
fn perlin_spheres_share_one_noise_texture() {
    let scene = perlin_spheres();
    check(&scene);
    assert_eq!(scene.textures, vec![Texture::Noise { scale: 4_000 }]);
    assert_eq!(scene.materials, vec![Material::Lambertian { tex: 0 }]);
    assert_eq!(
        scene.shapes,
        vec![
            Shape::Sphere(Sphere::new(Vec3::new(0, -1_000_000, 0), 1_000_000, 0)),
            Shape::Sphere(Sphere::new(Vec3::new(0, 2_000, 0), 2_000, 0)),
        ]
    );
    assert_eq!(scene.world, vec![0, 1]);
    assert!(!scene.use_bvh);
    assert_eq!(scene.camera, two_sphere_camera());
}

#[test]
fn checkered_spheres_share_one_checker() {
    let scene = checkered_spheres();
    check(&scene);
    assert_eq!(
        scene.textures,
        vec![
            Texture::SolidColor { albedo: Vec3::new(200, 300, 100) },
            Texture::SolidColor { albedo: Vec3::new(900, 900, 900) },
            Texture::Checker { scale: 320, even: 0, odd: 1 },
        ]
    );
    assert_eq!(scene.materials, vec![Material::Lambertian { tex: 2 }]);
    assert_eq!(
        scene.shapes,
        vec![
            Shape::Sphere(Sphere::new(Vec3::new(0, -10_000, 0), 10_000, 0)),
            Shape::Sphere(Sphere::new(Vec3::new(0, 10_000, 0), 10_000, 0)),
        ]
    );
    assert_eq!(scene.world, vec![0, 1]);
    assert_eq!(scene.camera, two_sphere_camera());
}

#[test]
fn bouncing_spheres_keep_clear_of_the_large_sphere() {
    let scene = bouncing_spheres();
    check(&scene);
    let n = scene.world.len();
    // Only the four cells round the place of the large sphere can be left out.
    assert!((22 * 22..=4 + 22 * 22).contains(&n));
    assert_eq!(scene.shapes.len(), n);
    assert_eq!(scene.world, (0..n).collect::<Vec<usize>>());
    assert_eq!(
        scene.shapes[0],
        Shape::Sphere(Sphere::new(Vec3::new(0, -1_000_000, 0), 1_000_000, 0))
    );
    let mut centres = Vec::new();
    for shape in &scene.shapes[1..n - 3] {
        let Shape::Sphere(s) = shape else {
            panic!("the ground is strewn with spheres");
        };
        assert_eq!(s.radius, 200);
        assert_eq!(s.center.y(), 200);
        assert!(is_clear_of_big_sphere(s.center));
        assert!((-11_000..11_000).contains(&s.center.x()));
        assert!((-11_000..11_000).contains(&s.center.z()));
        match scene.materials[s.mat] {
            Material::Lambertian { tex } => {
                assert_eq!(s.motion.x(), 0);
                assert_eq!(s.motion.z(), 0);
                assert!((0..500).contains(&s.motion.y()));
                let Texture::SolidColor { albedo } = scene.textures[tex] else {
                    panic!("a matt small sphere has one colour");
                };
                for c in 0..3 {
                    assert!((0..=998).contains(&albedo.get(c)));
                }
            }
            Material::Metal { albedo, fuzz } => {
                assert_eq!(s.motion, Vec3::new(0, 0, 0));
                assert!((0..500).contains(&fuzz));
                for c in 0..3 {
                    assert!((500..1000).contains(&albedo.get(c)));
                }
            }
            Material::Dielectric { refraction_index } => assert_eq!(refraction_index, 1_500),
            Material::DiffuseLight { .. } => panic!("no small sphere is a lamp"),
        }
        centres.push(s.center);
    }
    // The draws differ from cell to cell.
    let first = centres[0];
    assert!(centres.iter().any(|c| c.x() - first.x() != (c.x() - first.x()) / 1000 * 1000));
    let big: Vec<Vec3> = scene.shapes[n - 3..]
        .iter()
        .map(|s| match s {
            Shape::Sphere(s) => {
                assert_eq!(s.radius, 1_000);
                s.center
            }
            _ => panic!("the three large things are spheres"),
        })
        .collect();
    assert_eq!(
        big,
        vec![Vec3::new(0, 1_000, 0), Vec3::new(4_000, 1_000, 0), Vec3::new(-4_000, 1_000, 0)]
    );
    assert!(scene.use_bvh);
    assert_eq!(
        scene.camera,
        Camera {
            image_width: 600,
            samples_per_pixel: 5,
            defocus_angle: 600,
            background: Vec3::new(1_000, 1_000, 1_000),
            image_height: 337,
            ..two_sphere_camera()
        }
    );
}

#[test]
fn small_sphere_centre_is_the_cell_corner_and_nine_tenths_of_the_jitter() {
    assert_eq!(small_sphere_center(0, 0, 0, 0), Vec3::new(0, 200, 0));
    assert_eq!(small_sphere_center(-11, 10, 0, 999), Vec3::new(-11_000, 200, 10_899));
    assert_eq!(small_sphere_center(3, -4, 500, 1), Vec3::new(3_450, 200, -4_000));
    assert_eq!(small_sphere_center(4, 0, 7, 10), Vec3::new(4_006, 200, 9));
}

#[test]
fn clearance_is_more_than_nine_tenths_from_the_large_sphere() {
    assert!(!is_clear_of_big_sphere(Vec3::new(4_000, 200, 0)));
    assert!(!is_clear_of_big_sphere(Vec3::new(4_900, 200, 0)));
    assert!(is_clear_of_big_sphere(Vec3::new(4_901, 200, 0)));
    assert!(!is_clear_of_big_sphere(Vec3::new(4_000, 200, -900)));
    assert!(is_clear_of_big_sphere(Vec3::new(4_000, 200, -901)));
    assert!(!is_clear_of_big_sphere(Vec3::new(4_540, 200, 720)));
    assert!(is_clear_of_big_sphere(Vec3::new(4_541, 200, 720)));
    assert!(is_clear_of_big_sphere(Vec3::new(i64::MAX, i64::MIN, i64::MAX)));
}

#[test]
fn small_kind_follows_the_draw() {
    assert_eq!(small_kind(0), SmallKind::Diffuse);
    assert_eq!(small_kind(799), SmallKind::Diffuse);
    assert_eq!(small_kind(800), SmallKind::Metal);
    assert_eq!(small_kind(949), SmallKind::Metal);
    assert_eq!(small_kind(950), SmallKind::Glass);
    assert_eq!(small_kind(999), SmallKind::Glass);
}

#[test]
fn scene_parts_are_named_by_their_places() {
    let mut scene = Scene::new();
    let checker = scene.checker_solid(320, Vec3::new(1, 2, 3), Vec3::new(4, 5, 6));
    assert_eq!(checker, 2);
    let matt = scene.add_material(Material::Lambertian { tex: checker });
    let lamp = scene.diffuse_light_color(Vec3::new(4_000, 4_000, 4_000));
    let red = scene.lambertian_color(Vec3::new(650, 50, 50));
    assert_eq!((matt, lamp, red), (0, 1, 2));
    assert_eq!(scene.textures.len(), 5);
    let noise = scene.add_texture(Texture::Noise { scale: 4_000 });
    assert_eq!(noise, 5);
    scene.add(Shape::Sphere(Sphere::new(Vec3::new(0, 0, 0), 1_000, lamp)));
    let sides = vec![
        Quad::new(Vec3::new(0, 0, 0), Vec3::new(1, 0, 0), Vec3::new(0, 1, 0), red),
        Quad::new(Vec3::new(0, 0, 1), Vec3::new(1, 0, 0), Vec3::new(0, 1, 0), matt),
    ];
    let group = scene.add_group(&sides);
    assert_eq!(group, 3);
    assert_eq!(scene.shapes[1], Shape::Quad(sides[0]));
    assert_eq!(scene.shapes[2], Shape::Quad(sides[1]));
    assert_eq!(scene.shapes[3], Shape::Group { first: 1, count: 2 });
    let turned = scene.add_shape(Shape::Rotated { object: group, angle: 15_000 });
    scene.add_to_world(turned);
    assert_eq!(scene.world, vec![0, 4]);
    check(&scene);
}
