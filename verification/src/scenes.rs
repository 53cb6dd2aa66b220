//! The scenes that come with the library.

use vstd::prelude::*;
use crate::camera::Camera;
use crate::material::Material;
use crate::quad::{MakeBox, Quad};
use crate::scene::{Scene, Shape};
use crate::sphere::Sphere;
use crate::texture::{Color, Texture};
use crate::utils::random_range_int;
use crate::vec3::Vec3;

verus! {

/// A draw from the thousandths `0 ..= 999`, which stand for the numbers from 0 up to, but
/// not including, 1.
fn random_thousandth() -> (r: i64)
    ensures
        0 <= r <= 999,
{
    random_range_int(0, 999) as i64
}

/// A draw from the thousandths `min ..= max - 1`.
fn random_thousandth_between(min: i32, max: i32) -> (r: i64)
    requires
        min < max,
    ensures
        min <= r < max,
{
    random_range_int(min, max - 1) as i64
}

/// The camera that looks at the two large spheres of the textured scenes.
pub open spec fn two_sphere_camera() -> Camera {
    Camera {
        aspect_width: 16,
        aspect_height: 9,
        image_width: 400,
        samples_per_pixel: 100,
        max_depth: 50,
        vfov: 20_000,
        lookfrom: Vec3::at(13_000, 2_000, 3_000),
        lookat: Vec3::at(0, 0, 0),
        vup: Vec3::at(0, 1_000, 0),
        defocus_angle: 0,
        focus_dist: 10_000,
        background: Vec3::at(750, 100, 750),
        image_height: 225,
    }
}

fn make_two_sphere_camera() -> (c: Camera)
    ensures
        c == two_sphere_camera(),
{
    Camera::builder().with_aspect_ratio(16, 9).with_image_width(400).with_samples_per_pixel(
        100,
    ).with_max_depth(50).with_vfov(20_000).with_lookfrom(Vec3::new(13_000, 2_000, 3_000)).with_lookat(
        Vec3::new(0, 0, 0),
    ).with_vup(Vec3::new(0, 1_000, 0)).with_defocus_angle(0).with_focus_dist(10_000).with_background(
        Color::new(750, 100, 750),
    ).build()
}

/// A quadrilateral shape.
pub open spec fn quad_at(q: Vec3, u: Vec3, v: Vec3, mat: usize) -> Shape {
    Shape::Quad(Quad { q, u, v, mat })
}

/// A sphere at rest, as a shape.
pub open spec fn sphere_at(center: Vec3, radius: i64, mat: usize) -> Shape {
    Shape::Sphere(Sphere { center, motion: Vec3::at(0, 0, 0), radius, mat })
}

/// The shapes of a block that stands at place `first` of the shapes: its six sides, the
/// group of them, the group turned by `angle`, and that moved by `offset`.
pub open spec fn block_shapes(first: int, corner: Vec3, mat: usize, angle: int, offset: Vec3) -> Seq<
    Shape,
> {
    crate::quad::box_sides(Vec3::at(0, 0, 0), corner, mat).map_values(|q: Quad| Shape::Quad(q))
        + seq![
        Shape::Group { first: first as usize, count: 6 },
        Shape::Rotated { object: (first + 6) as usize, angle: angle as i64 },
        Shape::Translated { object: (first + 7) as usize, offset },
    ]
}

/// The shapes of the Cornell box: the green wall, the red wall, the lamp, the floor, the
/// ceiling and the back wall, and the two blocks.
pub open spec fn cornell_shapes() -> Seq<Shape> {
    seq![
        quad_at(Vec3::at(555_000, 0, 0), Vec3::at(0, 555_000, 0), Vec3::at(0, 0, 555_000), 2),
        quad_at(Vec3::at(0, 0, 0), Vec3::at(0, 555_000, 0), Vec3::at(0, 0, 555_000), 0),
        quad_at(
            Vec3::at(343_000, 554_000, 332_000),
            Vec3::at(-130_000, 0, 0),
            Vec3::at(0, 0, -105_000),
            3,
        ),
        quad_at(Vec3::at(0, 0, 0), Vec3::at(555_000, 0, 0), Vec3::at(0, 0, 555_000), 1),
        quad_at(
            Vec3::at(555_000, 555_000, 555_000),
            Vec3::at(-555_000, 0, 0),
            Vec3::at(0, 0, -555_000),
            1,
        ),
        quad_at(Vec3::at(0, 0, 555_000), Vec3::at(555_000, 0, 0), Vec3::at(0, 555_000, 0), 1),
    ] + block_shapes(6, Vec3::at(165_000, 330_000, 165_000), 1, 15_000, Vec3::at(265_000, 0, 295_000))
        + block_shapes(
        15,
        Vec3::at(165_000, 165_000, 165_000),
        1,
        -18_000,
        Vec3::at(130_000, 0, 65_000),
    )
}

/// The Cornell box: a room of five walls (one red, one green, three white) with a lamp in
/// the ceiling and two white blocks, each turned and then moved into place.
pub fn cornell_box() -> (scene: Scene)
    ensures
        scene.well_formed(),
        scene.textures@ == seq![
            Texture::SolidColor { albedo: Vec3::at(650, 50, 50) },
            Texture::SolidColor { albedo: Vec3::at(730, 730, 730) },
            Texture::SolidColor { albedo: Vec3::at(120, 450, 150) },
            Texture::SolidColor { albedo: Vec3::at(15_000, 15_000, 15_000) },
        ],
        scene.materials@ == seq![
            Material::Lambertian { tex: 0 },
            Material::Lambertian { tex: 1 },
            Material::Lambertian { tex: 2 },
            Material::DiffuseLight { tex: 3 },
        ],
        scene.shapes@ == cornell_shapes(),
        scene.world@ == seq![0usize, 1usize, 2usize, 3usize, 4usize, 5usize, 14usize, 23usize],
        !scene.use_bvh,
        scene.camera == (Camera {
            aspect_width: 1,
            aspect_height: 1,
            image_width: 600,
            samples_per_pixel: 200,
            max_depth: 50,
            vfov: 40_000,
            lookfrom: Vec3::at(278_000, 278_000, -800_000),
            lookat: Vec3::at(278_000, 278_000, 0),
            vup: Vec3::at(0, 1_000, 0),
            defocus_angle: 0,
            focus_dist: 10_000,
            background: Vec3::at(0, 0, 0),
            image_height: 600,
        }),
{
    let mut scene = Scene::new();

    let red = scene.lambertian_color(Color::new(650, 50, 50));
    let white = scene.lambertian_color(Color::new(730, 730, 730));
    let green = scene.lambertian_color(Color::new(120, 450, 150));
    let light = scene.diffuse_light_color(Color::new(15_000, 15_000, 15_000));

    scene.add(
        Shape::Quad(
            Quad::new(
                Vec3::new(555_000, 0, 0),
                Vec3::new(0, 555_000, 0),
                Vec3::new(0, 0, 555_000),
                green,
            ),
        ),
    );
    scene.add(
        Shape::Quad(
            Quad::new(Vec3::new(0, 0, 0), Vec3::new(0, 555_000, 0), Vec3::new(0, 0, 555_000), red),
        ),
    );
    scene.add(
        Shape::Quad(
            Quad::new(
                Vec3::new(343_000, 554_000, 332_000),
                Vec3::new(-130_000, 0, 0),
                Vec3::new(0, 0, -105_000),
                light,
            ),
        ),
    );
    scene.add(
        Shape::Quad(
            Quad::new(Vec3::new(0, 0, 0), Vec3::new(555_000, 0, 0), Vec3::new(0, 0, 555_000), white),
        ),
    );
    scene.add(
        Shape::Quad(
            Quad::new(
                Vec3::new(555_000, 555_000, 555_000),
                Vec3::new(-555_000, 0, 0),
                Vec3::new(0, 0, -555_000),
                white,
            ),
        ),
    );
    scene.add(
        Shape::Quad(
            Quad::new(
                Vec3::new(0, 0, 555_000),
                Vec3::new(555_000, 0, 0),
                Vec3::new(0, 555_000, 0),
                white,
            ),
        ),
    );

    let ghost walls = scene.shapes@;
    let sides = MakeBox(Vec3::new(0, 0, 0), Vec3::new(165_000, 330_000, 165_000), white);
    let block = scene.add_group(&sides);
    let block = scene.add_shape(Shape::Rotated { object: block, angle: 15_000 });
    let block = scene.add_shape(
        Shape::Translated { object: block, offset: Vec3::new(265_000, 0, 295_000) },
    );
    scene.add_to_world(block);
    let ghost with_first = scene.shapes@;
    proof {
        assert(with_first =~= walls + block_shapes(
            6,
            Vec3::at(165_000, 330_000, 165_000),
            1,
            15_000,
            Vec3::at(265_000, 0, 295_000),
        ));
    }

    let sides = MakeBox(Vec3::new(0, 0, 0), Vec3::new(165_000, 165_000, 165_000), white);
    let block = scene.add_group(&sides);
    let block = scene.add_shape(Shape::Rotated { object: block, angle: -18_000 });
    let block = scene.add_shape(
        Shape::Translated { object: block, offset: Vec3::new(130_000, 0, 65_000) },
    );
    scene.add_to_world(block);

    scene.camera = Camera::builder().with_aspect_ratio(1, 1).with_image_width(
        600,
    ).with_samples_per_pixel(200).with_max_depth(50).with_background(Color::new(0, 0, 0)).with_vfov(
        40_000,
    ).with_lookfrom(Vec3::new(278_000, 278_000, -800_000)).with_lookat(
        Vec3::new(278_000, 278_000, 0),
    ).with_vup(Vec3::new(0, 1_000, 0)).with_defocus_angle(0).with_focus_dist(10_000).build();
    proof {
        assert(scene.shapes@ =~= with_first + block_shapes(
            15,
            Vec3::at(165_000, 165_000, 165_000),
            1,
            -18_000,
            Vec3::at(130_000, 0, 65_000),
        ));
        assert(walls =~= cornell_shapes().take(6));
        assert(scene.shapes@ =~= cornell_shapes());
        assert(scene.textures@ =~= seq![
            Texture::SolidColor { albedo: Vec3::at(650, 50, 50) },
            Texture::SolidColor { albedo: Vec3::at(730, 730, 730) },
            Texture::SolidColor { albedo: Vec3::at(120, 450, 150) },
            Texture::SolidColor { albedo: Vec3::at(15_000, 15_000, 15_000) },
        ]);
        assert(scene.materials@ =~= seq![
            Material::Lambertian { tex: 0 },
            Material::Lambertian { tex: 1 },
            Material::Lambertian { tex: 2 },
            Material::DiffuseLight { tex: 3 },
        ]);
        assert(scene.world@ =~= seq![
            0usize,
            1usize,
            2usize,
            3usize,
            4usize,
            5usize,
            14usize,
            23usize,
        ]);
    }
    scene
}

/// Two marbled spheres under a square lamp and a round one, in the dark.
pub fn simple_light() -> (scene: Scene)
    ensures
        scene.well_formed(),
        scene.textures@ == seq![
            Texture::Noise { scale: 4_000 },
            Texture::SolidColor { albedo: Vec3::at(4_000, 4_000, 4_000) },
        ],
        scene.materials@ == seq![Material::Lambertian { tex: 0 }, Material::DiffuseLight { tex: 1 }],
        scene.shapes@ == seq![
            sphere_at(Vec3::at(0, -1_000_000, 0), 1_000_000, 0),
            sphere_at(Vec3::at(0, 2_000, 0), 2_000, 0),
            quad_at(Vec3::at(3_000, 1_000, -2_000), Vec3::at(2_000, 0, 0), Vec3::at(0, 2_000, 0), 1),
            sphere_at(Vec3::at(0, 7_000, 0), 2_000, 1),
        ],
        scene.world@ == seq![0usize, 1usize, 2usize, 3usize],
        !scene.use_bvh,
        scene.camera == (Camera {
            image_width: 400,
            lookfrom: Vec3::at(26_000, 3_000, 6_000),
            lookat: Vec3::at(0, 2_000, 0),
            background: Vec3::at(0, 0, 0),
            ..two_sphere_camera()
        }),
{
    let mut scene = Scene::new();
    let pertext = scene.add_texture(Texture::Noise { scale: 4_000 });
    let marble = scene.add_material(Material::Lambertian { tex: pertext });
    scene.add(Shape::Sphere(Sphere::new(Vec3::new(0, -1_000_000, 0), 1_000_000, marble)));
    scene.add(Shape::Sphere(Sphere::new(Vec3::new(0, 2_000, 0), 2_000, marble)));

    let difflight = scene.diffuse_light_color(Color::new(4_000, 4_000, 4_000));
    scene.add(
        Shape::Quad(
            Quad::new(
                Vec3::new(3_000, 1_000, -2_000),
                Vec3::new(2_000, 0, 0),
                Vec3::new(0, 2_000, 0),
                difflight,
            ),
        ),
    );
    scene.add(Shape::Sphere(Sphere::new(Vec3::new(0, 7_000, 0), 2_000, difflight)));

    scene.camera = Camera::builder().with_aspect_ratio(16, 9).with_image_width(
        400,
    ).with_samples_per_pixel(100).with_max_depth(50).with_vfov(20_000).with_lookfrom(
        Vec3::new(26_000, 3_000, 6_000),
    ).with_lookat(Vec3::new(0, 2_000, 0)).with_vup(Vec3::new(0, 1_000, 0)).with_defocus_angle(
        0,
    ).with_focus_dist(10_000).with_background(Color::new(0, 0, 0)).build();
    proof {
        assert(scene.textures@ =~= seq![
            Texture::Noise { scale: 4_000 },
            Texture::SolidColor { albedo: Vec3::at(4_000, 4_000, 4_000) },
        ]);
        assert(scene.materials@ =~= seq![
            Material::Lambertian { tex: 0 },
            Material::DiffuseLight { tex: 1 },
        ]);
        assert(scene.shapes@ =~= seq![
            sphere_at(Vec3::at(0, -1_000_000, 0), 1_000_000, 0),
            sphere_at(Vec3::at(0, 2_000, 0), 2_000, 0),
            quad_at(Vec3::at(3_000, 1_000, -2_000), Vec3::at(2_000, 0, 0), Vec3::at(0, 2_000, 0), 1),
            sphere_at(Vec3::at(0, 7_000, 0), 2_000, 1),
        ]);
        assert(scene.world@ =~= seq![0usize, 1usize, 2usize, 3usize]);
    }
    scene
}

/// Three square patches of one matt colour, which is drawn at random.
pub fn quads() -> (scene: Scene)
    ensures
        scene.well_formed(),
        scene.world@ == seq![0usize, 1usize, 2usize],
        scene.shapes@ == seq![
            quad_at(Vec3::at(-3_000, -2_000, 5_000), Vec3::at(0, 0, -4_000), Vec3::at(0, 4_000, 0), 0),
            quad_at(Vec3::at(-2_000, -2_000, 0), Vec3::at(4_000, 0, 0), Vec3::at(0, 4_000, 0), 0),
            quad_at(Vec3::at(3_000, -2_000, 1_000), Vec3::at(0, 0, 4_000), Vec3::at(0, 4_000, 0), 0),
        ],
        scene.materials@ == seq![Material::Lambertian { tex: 0 }],
        scene.textures@.len() == 1,
        scene.textures@[0] matches Texture::SolidColor { albedo } && 0 <= albedo.x <= 999 && 0
            <= albedo.y <= 999 && 0 <= albedo.z <= 999,
        !scene.use_bvh,
        scene.camera == (Camera {
            aspect_width: 1,
            aspect_height: 1,
            image_width: 400,
            samples_per_pixel: 100,
            max_depth: 50,
            vfov: 80_000,
            lookfrom: Vec3::at(0, 0, 9_000),
            lookat: Vec3::at(0, 0, 0),
            vup: Vec3::at(0, 1_000, 0),
            defocus_angle: 0,
            focus_dist: 10_000,
            background: Vec3::at(750, 100, 750),
            image_height: 400,
        }),
{
    let mut scene = Scene::new();
    let quad_color = scene.lambertian_color(
        Color::new(random_thousandth(), random_thousandth(), random_thousandth()),
    );

    scene.add(
        Shape::Quad(
            Quad::new(
                Vec3::new(-3_000, -2_000, 5_000),
                Vec3::new(0, 0, -4_000),
                Vec3::new(0, 4_000, 0),
                quad_color,
            ),
        ),
    );
    scene.add(
        Shape::Quad(
            Quad::new(
                Vec3::new(-2_000, -2_000, 0),
                Vec3::new(4_000, 0, 0),
                Vec3::new(0, 4_000, 0),
                quad_color,
            ),
        ),
    );
    scene.add(
        Shape::Quad(
            Quad::new(
                Vec3::new(3_000, -2_000, 1_000),
                Vec3::new(0, 0, 4_000),
                Vec3::new(0, 4_000, 0),
                quad_color,
            ),
        ),
    );

    scene.camera = Camera::builder().with_aspect_ratio(1, 1).with_image_width(
        400,
    ).with_samples_per_pixel(100).with_max_depth(50).with_vfov(80_000).with_lookfrom(
        Vec3::new(0, 0, 9_000),
    ).with_lookat(Vec3::new(0, 0, 0)).with_vup(Vec3::new(0, 1_000, 0)).with_defocus_angle(
        0,
    ).with_focus_dist(10_000).with_background(Color::new(750, 100, 750)).build();
    proof {
        assert(scene.world@ =~= seq![0usize, 1usize, 2usize]);
        assert(scene.shapes@ =~= seq![
            quad_at(Vec3::at(-3_000, -2_000, 5_000), Vec3::at(0, 0, -4_000), Vec3::at(0, 4_000, 0), 0),
            quad_at(Vec3::at(-2_000, -2_000, 0), Vec3::at(4_000, 0, 0), Vec3::at(0, 4_000, 0), 0),
            quad_at(Vec3::at(3_000, -2_000, 1_000), Vec3::at(0, 0, 4_000), Vec3::at(0, 4_000, 0), 0),
        ]);
        assert(scene.materials@ =~= seq![Material::Lambertian { tex: 0 }]);
    }
    scene
}

/// A marbled sphere on marbled ground; both share one noise texture.
pub fn perlin_spheres() -> (scene: Scene)
    ensures
        scene.well_formed(),
        scene.textures@ == seq![Texture::Noise { scale: 4_000 }],
        scene.materials@ == seq![Material::Lambertian { tex: 0 }],
        scene.shapes@ == seq![
            Shape::Sphere(
                Sphere {
                    center: Vec3::at(0, -1_000_000, 0),
                    motion: Vec3::at(0, 0, 0),
                    radius: 1_000_000,
                    mat: 0,
                },
            ),
            Shape::Sphere(
                Sphere {
                    center: Vec3::at(0, 2_000, 0),
                    motion: Vec3::at(0, 0, 0),
                    radius: 2_000,
                    mat: 0,
                },
            ),
        ],
        scene.world@ == seq![0usize, 1usize],
        !scene.use_bvh,
        scene.camera == two_sphere_camera(),
{
    let mut scene = Scene::new();
    let perlin = scene.add_texture(Texture::Noise { scale: 4_000 });
    let marble = scene.add_material(Material::Lambertian { tex: perlin });
    scene.add(Shape::Sphere(Sphere::new(Vec3::new(0, -1_000_000, 0), 1_000_000, marble)));
    scene.add(Shape::Sphere(Sphere::new(Vec3::new(0, 2_000, 0), 2_000, marble)));
    scene.camera = make_two_sphere_camera();
    proof {
        assert(scene.textures@ =~= seq![Texture::Noise { scale: 4_000 }]);
        assert(scene.materials@ =~= seq![Material::Lambertian { tex: 0 }]);
        assert(scene.world@ =~= seq![0usize, 1usize]);
        assert(scene.shapes@ =~= seq![
            Shape::Sphere(
                Sphere {
                    center: Vec3::at(0, -1_000_000, 0),
                    motion: Vec3::at(0, 0, 0),
                    radius: 1_000_000,
                    mat: 0,
                },
            ),
            Shape::Sphere(
                Sphere {
                    center: Vec3::at(0, 2_000, 0),
                    motion: Vec3::at(0, 0, 0),
                    radius: 2_000,
                    mat: 0,
                },
            ),
        ]);
    }
    scene
}

/// Two large spheres that touch, both with one checker texture.
pub fn checkered_spheres() -> (scene: Scene)
    ensures
        scene.well_formed(),
        scene.textures@ == seq![
            Texture::SolidColor { albedo: Vec3::at(200, 300, 100) },
            Texture::SolidColor { albedo: Vec3::at(900, 900, 900) },
            Texture::Checker { scale: 320, even: 0, odd: 1 },
        ],
        scene.materials@ == seq![Material::Lambertian { tex: 2 }],
        scene.shapes@ == seq![
            Shape::Sphere(
                Sphere {
                    center: Vec3::at(0, -10_000, 0),
                    motion: Vec3::at(0, 0, 0),
                    radius: 10_000,
                    mat: 0,
                },
            ),
            Shape::Sphere(
                Sphere {
                    center: Vec3::at(0, 10_000, 0),
                    motion: Vec3::at(0, 0, 0),
                    radius: 10_000,
                    mat: 0,
                },
            ),
        ],
        scene.world@ == seq![0usize, 1usize],
        !scene.use_bvh,
        scene.camera == two_sphere_camera(),
{
    let mut scene = Scene::new();
    let checker = scene.checker_solid(320, Color::new(200, 300, 100), Color::new(900, 900, 900));
    let chequered = scene.add_material(Material::Lambertian { tex: checker });
    scene.add(Shape::Sphere(Sphere::new(Vec3::new(0, -10_000, 0), 10_000, chequered)));
    scene.add(Shape::Sphere(Sphere::new(Vec3::new(0, 10_000, 0), 10_000, chequered)));
    scene.camera = make_two_sphere_camera();
    proof {
        assert(scene.textures@ =~= seq![
            Texture::SolidColor { albedo: Vec3::at(200, 300, 100) },
            Texture::SolidColor { albedo: Vec3::at(900, 900, 900) },
            Texture::Checker { scale: 320, even: 0, odd: 1 },
        ]);
        assert(scene.materials@ =~= seq![Material::Lambertian { tex: 2 }]);
        assert(scene.world@ =~= seq![0usize, 1usize]);
        assert(scene.shapes@ =~= seq![
            Shape::Sphere(
                Sphere {
                    center: Vec3::at(0, -10_000, 0),
                    motion: Vec3::at(0, 0, 0),
                    radius: 10_000,
                    mat: 0,
                },
            ),
            Shape::Sphere(
                Sphere {
                    center: Vec3::at(0, 10_000, 0),
                    motion: Vec3::at(0, 0, 0),
                    radius: 10_000,
                    mat: 0,
                },
            ),
        ]);
    }
    scene
}

/// What a small sphere of [`bouncing_spheres`] is made of.
#[derive(Clone, Copy, Debug, PartialEq, Eq, Structural)]
pub enum SmallKind {
    Diffuse,
    Metal,
    Glass,
}

/// The centre of the small sphere of the grid cell `(a, b)`: the cell's corner, moved along
/// `x` and `z` by nine tenths of the two jitters, at height 200. All in thousandths.
pub open spec fn small_center(a: int, b: int, jitter_x: int, jitter_z: int) -> Vec3 {
    Vec3::at(a * 1_000 + (900 * jitter_x) / 1_000, 200, b * 1_000 + (900 * jitter_z) / 1_000)
}

/// Whether a small sphere at `center` keeps clear of the large sphere at `(4, 0.2, 0)`: its
/// centre is farther than nine tenths from that point.
pub open spec fn clear_of_big_sphere(center: Vec3) -> bool {
    (center.x - 4_000) * (center.x - 4_000) + (center.y - 200) * (center.y - 200) + center.z
        * center.z > 900 * 900
}

/// The kind that the draw `choose_mat` picks: eight in ten are matt, three in twenty are
/// metal, the rest are glass.
pub open spec fn kind_of(choose_mat: int) -> SmallKind {
    if choose_mat < 800 {
        SmallKind::Diffuse
    } else if choose_mat < 950 {
        SmallKind::Metal
    } else {
        SmallKind::Glass
    }
}

/// The centre of the small sphere of the grid cell `(a, b)`, see [`small_center`].
pub fn small_sphere_center(a: i32, b: i32, jitter_x: u16, jitter_z: u16) -> (center: Vec3)
    ensures
        center == small_center(a as int, b as int, jitter_x as int, jitter_z as int),
{
    let x: i64 = a as i64 * 1_000 + (900 * jitter_x as i64) / 1_000;
    let z: i64 = b as i64 * 1_000 + (900 * jitter_z as i64) / 1_000;
    Vec3::new(x, 200, z)
}

/// Whether a small sphere at `center` keeps clear of the large sphere, see
/// [`clear_of_big_sphere`].
pub fn is_clear_of_big_sphere(center: Vec3) -> (clear: bool)
    ensures
        clear == clear_of_big_sphere(center),
{
    let dx: i128 = center.x as i128 - 4_000;
    let dy: i128 = center.y as i128 - 200;
    let dz: i128 = center.z as i128;
    if dx > 900 || dx < -900 || dy > 900 || dy < -900 || dz > 900 || dz < -900 {
        proof {
            lemma_square_of_large(dx as int);
            lemma_square_of_large(dy as int);
            lemma_square_of_large(dz as int);
        }
        true
    } else {
        proof {
            lemma_square_of_small(dx as int);
            lemma_square_of_small(dy as int);
            lemma_square_of_small(dz as int);
        }
        dx * dx + dy * dy + dz * dz > 810_000
    }
}

proof fn lemma_square_of_large(d: int)
    ensures
        d * d >= 0,
        d > 900 || d < -900 ==> d * d > 900 * 900,
{
    assert(d * d >= 0) by (nonlinear_arith);
    assert(d > 900 || d < -900 ==> d * d > 900 * 900) by (nonlinear_arith);
}

proof fn lemma_square_of_small(d: int)
    ensures
        -900 <= d <= 900 ==> 0 <= d * d <= 810_000,
{
    assert(-900 <= d <= 900 ==> 0 <= d * d <= 810_000) by (nonlinear_arith);
}

/// The kind that the draw `choose_mat` picks, see [`kind_of`].
pub fn small_kind(choose_mat: u16) -> (kind: SmallKind)
    ensures
        kind == kind_of(choose_mat as int),
{
    if choose_mat < 800 {
        SmallKind::Diffuse
    } else if choose_mat < 950 {
        SmallKind::Metal
    } else {
        SmallKind::Glass
    }
}

/// The product of two colours, channel by channel, in thousandths.
fn tinted(a: Color, b: Color) -> (c: Color)
    requires
        0 <= a.x <= 999 && 0 <= a.y <= 999 && 0 <= a.z <= 999,
        0 <= b.x <= 999 && 0 <= b.y <= 999 && 0 <= b.z <= 999,
    ensures
        c.x == (a.x * b.x) / 1_000,
        c.y == (a.y * b.y) / 1_000,
        c.z == (a.z * b.z) / 1_000,
        0 <= c.x <= 998 && 0 <= c.y <= 998 && 0 <= c.z <= 998,
{
    proof {
        lemma_product_of_thousandths(a.x as int, b.x as int);
        lemma_product_of_thousandths(a.y as int, b.y as int);
        lemma_product_of_thousandths(a.z as int, b.z as int);
    }
    Vec3::new((a.x * b.x) / 1_000, (a.y * b.y) / 1_000, (a.z * b.z) / 1_000)
}

proof fn lemma_product_of_thousandths(a: int, b: int)
    requires
        0 <= a <= 999,
        0 <= b <= 999,
    ensures
        0 <= a * b <= 998_001,
{
    assert(0 <= a * b <= 998_001) by (nonlinear_arith)
        requires
            0 <= a <= 999,
            0 <= b <= 999,
    ;
}

/// Whether each channel of `c` lies between `low` and `high`, ends included.
pub open spec fn channels_within(c: Color, low: int, high: int) -> bool {
    low <= c.x <= high && low <= c.y <= high && low <= c.z <= high
}

/// Whether `shape` is a small sphere of [`bouncing_spheres`], the materials and textures of
/// the scene being `materials` and `textures`.
///
/// It is a sphere of radius 200 whose centre is at height 200, within the grid, and keeps
/// clear of the large sphere at `(4, 0.2, 0)`. It is matt, of one colour that is the
/// product of two colours below one, and moves straight up by less than a half; or it is
/// of metal, of a colour from a half up to below one with a blur below a half, and at
/// rest; or it is of glass with the index 1.5, and at rest.
pub open spec fn is_small_sphere(shape: Shape, materials: Seq<Material>, textures: Seq<Texture>) -> bool {
    &&& shape matches Shape::Sphere(s)
    &&& shape->Sphere_0.radius == 200
    &&& shape->Sphere_0.center.y == 200
    &&& -11_000 <= shape->Sphere_0.center.x < 11_000
    &&& -11_000 <= shape->Sphere_0.center.z < 11_000
    &&& clear_of_big_sphere(shape->Sphere_0.center)
    &&& shape->Sphere_0.mat < materials.len()
    &&& match materials[shape->Sphere_0.mat as int] {
        Material::Lambertian { tex } => {
            &&& tex < textures.len()
            &&& textures[tex as int] matches Texture::SolidColor { albedo }
            &&& channels_within(textures[tex as int]->albedo, 0, 998)
            &&& shape->Sphere_0.motion.x == 0
            &&& 0 <= shape->Sphere_0.motion.y <= 499
            &&& shape->Sphere_0.motion.z == 0
        },
        Material::Metal { albedo, fuzz } => {
            &&& channels_within(albedo, 500, 999)
            &&& 0 <= fuzz <= 499
            &&& shape->Sphere_0.motion == Vec3::at(0, 0, 0)
        },
        Material::Dielectric { refraction_index } => {
            &&& refraction_index == 1_500
            &&& shape->Sphere_0.motion == Vec3::at(0, 0, 0)
        },
        Material::DiffuseLight { tex } => false,
    }
}

/// Whether `longer` begins with all of `shorter`.
pub open spec fn extends<A>(longer: Seq<A>, shorter: Seq<A>) -> bool {
    &&& shorter.len() <= longer.len()
    &&& forall|i: int| 0 <= i < shorter.len() ==> longer[i] == shorter[i]
}

/// A small sphere stays one when materials and textures are added to the scene.
pub proof fn lemma_small_sphere_stays(
    shape: Shape,
    materials: Seq<Material>,
    textures: Seq<Texture>,
    more_materials: Seq<Material>,
    more_textures: Seq<Texture>,
)
    requires
        is_small_sphere(shape, materials, textures),
        extends(more_materials, materials),
        extends(more_textures, textures),
    ensures
        is_small_sphere(shape, more_materials, more_textures),
{
    let s = shape->Sphere_0;
    assert(more_materials[s.mat as int] == materials[s.mat as int]);
    if let Material::Lambertian { tex } = materials[s.mat as int] {
        assert(more_textures[tex as int] == textures[tex as int]);
    }
}

/// Whether the cell `(a, b)` of the grid lies so near the large sphere at `(4, 0.2, 0)`
/// that its small sphere may come too near it: these are the four cells around that point.
pub open spec fn near_big_sphere(a: int, b: int) -> bool {
    3 <= a <= 4 && -1 <= b <= 0
}

/// How many cells near the large sphere come before the cell `(a, b)`, the cells being
/// taken row by row.
pub open spec fn near_cells_before(a: int, b: int) -> int {
    (if a <= 3 {
        0int
    } else if a == 4 {
        2int
    } else {
        4int
    }) + (if 3 <= a <= 4 {
        if b <= -1 {
            0int
        } else if b == 0 {
            1int
        } else {
            2int
        }
    } else {
        0int
    })
}

/// The small sphere of a cell that is not near the large sphere keeps clear of it, whatever
/// its jitter; and the small sphere of every cell lies within the grid.
pub proof fn lemma_far_cells_are_clear(a: int, b: int, jitter_x: int, jitter_z: int)
    requires
        -11 <= a < 11,
        -11 <= b < 11,
        0 <= jitter_x <= 999,
        0 <= jitter_z <= 999,
    ensures
        !near_big_sphere(a, b) ==> clear_of_big_sphere(small_center(a, b, jitter_x, jitter_z)),
        small_center(a, b, jitter_x, jitter_z).y == 200,
        -11_000 <= small_center(a, b, jitter_x, jitter_z).x < 11_000,
        -11_000 <= small_center(a, b, jitter_x, jitter_z).z < 11_000,
{
    let c = small_center(a, b, jitter_x, jitter_z);
    assert(0 <= (900 * jitter_x) / 1_000 <= 899);
    assert(0 <= (900 * jitter_z) / 1_000 <= 899);
    assert(c.x == a * 1_000 + (900 * jitter_x) / 1_000);
    assert(c.z == b * 1_000 + (900 * jitter_z) / 1_000);
    lemma_square_of_large(c.x - 4_000);
    lemma_square_of_large(c.y - 200);
    lemma_square_of_large(c.z as int);
}

/// The camera of [`bouncing_spheres`].
pub open spec fn bouncing_camera() -> Camera {
    Camera {
        aspect_width: 16,
        aspect_height: 9,
        image_width: 600,
        samples_per_pixel: 5,
        max_depth: 50,
        vfov: 20_000,
        lookfrom: Vec3::at(13_000, 2_000, 3_000),
        lookat: Vec3::at(0, 0, 0),
        vup: Vec3::at(0, 1_000, 0),
        defocus_angle: 600,
        focus_dist: 10_000,
        background: Vec3::at(1_000, 1_000, 1_000),
        image_height: 337,
    }
}

/// Puts the small sphere of the cell `(a, b)` on the ground, unless it would come too near
/// the large sphere. Where it lies and what it is made of is drawn at random.
fn strew_cell(scene: &mut Scene, a: i32, b: i32) -> (added: bool)
    requires
        old(scene).well_formed(),
        -11 <= a < 11,
        -11 <= b < 11,
    ensures
        final(scene).well_formed(),
        !added ==> near_big_sphere(a as int, b as int),
        !added ==> final(scene).shapes@ == old(scene).shapes@,
        !added ==> final(scene).world@ == old(scene).world@,
        added ==> final(scene).shapes@.len() == old(scene).shapes@.len() + 1,
        added ==> final(scene).shapes@.drop_last() == old(scene).shapes@,
        added ==> is_small_sphere(
            final(scene).shapes@.last(),
            final(scene).materials@,
            final(scene).textures@,
        ),
        added ==> final(scene).world@ == old(scene).world@.push(old(scene).shapes@.len() as usize),
        extends(final(scene).materials@, old(scene).materials@),
        extends(final(scene).textures@, old(scene).textures@),
        final(scene).use_bvh == old(scene).use_bvh,
        final(scene).camera == old(scene).camera,
{
    let choose_mat: u16 = random_thousandth() as u16;
    let jitter_x: u16 = random_thousandth() as u16;
    let jitter_z: u16 = random_thousandth() as u16;
    let center = small_sphere_center(a, b, jitter_x, jitter_z);
    proof {
        lemma_far_cells_are_clear(a as int, b as int, jitter_x as int, jitter_z as int);
    }

    if is_clear_of_big_sphere(center) {
        match small_kind(choose_mat) {
            SmallKind::Diffuse => {
                let first = Color::new(random_thousandth(), random_thousandth(), random_thousandth());
                let second = Color::new(
                    random_thousandth(),
                    random_thousandth(),
                    random_thousandth(),
                );
                let tint = tinted(first, second);
                let mat = scene.lambertian_color(tint);
                let lift = random_thousandth_between(0, 500);
                let center2 = center.add(Vec3::new(0, lift, 0));
                let sphere = Sphere::new_moving(center, center2, 200, mat);
                scene.add(Shape::Sphere(sphere));
                let textures: usize = scene.textures.len();
                proof {
                    assert(sphere.motion == Vec3::at(0, lift as int, 0));
                    assert(scene.shapes@.last() == Shape::Sphere(sphere));
                    assert(scene.materials@[mat as int] == (Material::Lambertian {
                        tex: (textures - 1) as usize,
                    }));
                    assert(scene.textures@[textures - 1] == (Texture::SolidColor { albedo: tint }));
                }
            },
            SmallKind::Metal => {
                let albedo = Color::new(
                    random_thousandth_between(500, 1_000),
                    random_thousandth_between(500, 1_000),
                    random_thousandth_between(500, 1_000),
                );
                let fuzz = random_thousandth_between(0, 500);
                let mat = scene.add_material(Material::Metal { albedo, fuzz });
                let sphere = Sphere::new(center, 200, mat);
                scene.add(Shape::Sphere(sphere));
                proof {
                    assert(scene.shapes@.last() == Shape::Sphere(sphere));
                    assert(scene.materials@[mat as int] == (Material::Metal { albedo, fuzz }));
                }
            },
            SmallKind::Glass => {
                let mat = scene.add_material(Material::Dielectric { refraction_index: 1_500 });
                let sphere = Sphere::new(center, 200, mat);
                scene.add(Shape::Sphere(sphere));
                proof {
                    assert(scene.shapes@.last() == Shape::Sphere(sphere));
                    assert(scene.materials@[mat as int] == (Material::Dielectric {
                        refraction_index: 1_500,
                    }));
                }
            },
        }
        proof {
            assert(scene.shapes@.drop_last() =~= old(scene).shapes@);
        }
        true
    } else {
        false
    }
}

/// A chequered ground strewn with small spheres, one to each cell of a grid of 22 by 22
/// unless it would come too near the place of a large sphere, which only the four cells
/// around that place can, and three large spheres of glass, metal and a matt brown. Where the small spheres lie and what they are made of is
/// drawn at random; the matt ones move upwards while the shutter is open. The world is to
/// be searched through a bounding volume hierarchy.
pub fn bouncing_spheres() -> (scene: Scene)
    ensures
        scene.well_formed(),
        22 * 22 <= scene.world@.len() <= 4 + 22 * 22,
        scene.shapes@.len() == scene.world@.len(),
        forall|i: int| 0 <= i < scene.world@.len() ==> #[trigger] scene.world@[i] == i,
        scene.shapes@[0] == Shape::Sphere(
            Sphere {
                center: Vec3::at(0, -1_000_000, 0),
                motion: Vec3::at(0, 0, 0),
                radius: 1_000_000,
                mat: 0,
            },
        ),
        forall|i: int|
            1 <= i < scene.shapes@.len() - 3 ==> is_small_sphere(
                #[trigger] scene.shapes@[i],
                scene.materials@,
                scene.textures@,
            ),
        scene.shapes@[scene.shapes@.len() - 3] == sphere_at(
            Vec3::at(0, 1_000, 0),
            1_000,
            (scene.materials@.len() - 3) as usize,
        ),
        scene.shapes@[scene.shapes@.len() - 2] == sphere_at(
            Vec3::at(4_000, 1_000, 0),
            1_000,
            (scene.materials@.len() - 2) as usize,
        ),
        scene.shapes@[scene.shapes@.len() - 1] == sphere_at(
            Vec3::at(-4_000, 1_000, 0),
            1_000,
            (scene.materials@.len() - 1) as usize,
        ),
        scene.materials@.len() >= 4,
        scene.materials@[0] == (Material::Lambertian { tex: 2 }),
        scene.materials@[scene.materials@.len() - 3] == (Material::Dielectric {
            refraction_index: 1_500,
        }),
        scene.materials@[scene.materials@.len() - 2] == (Material::Metal {
            albedo: Vec3::at(700, 600, 500),
            fuzz: 0,
        }),
        scene.materials@[scene.materials@.len() - 1] == (Material::Lambertian {
            tex: (scene.textures@.len() - 1) as usize,
        }),
        scene.textures@[scene.textures@.len() - 1] == (Texture::SolidColor {
            albedo: Vec3::at(400, 200, 100),
        }),
        scene.use_bvh,
        scene.camera == bouncing_camera(),
{
    let mut scene = Scene::new();

    let checker = scene.checker_solid(320, Color::new(200, 300, 100), Color::new(900, 900, 900));
    let ground = scene.add_material(Material::Lambertian { tex: checker });
    scene.add(Shape::Sphere(Sphere::new(Vec3::new(0, -1_000_000, 0), 1_000_000, ground)));

    let mut a: i32 = -11;
    while a < 11
        invariant
            -11 <= a <= 11,
            scene.well_formed(),
            1 + (a + 11) * 22 - near_cells_before(a as int, -11) <= scene.world@.len() <= 1 + (a
                + 11) * 22,
            scene.shapes@.len() == scene.world@.len(),
            scene.materials@.len() >= 1,
            scene.materials@[0] == (Material::Lambertian { tex: 2 }),
            forall|i: int| 0 <= i < scene.world@.len() ==> #[trigger] scene.world@[i] == i,
            scene.shapes@[0] == sphere_at(Vec3::at(0, -1_000_000, 0), 1_000_000, 0),
            forall|i: int|
                1 <= i < scene.shapes@.len() ==> is_small_sphere(
                    #[trigger] scene.shapes@[i],
                    scene.materials@,
                    scene.textures@,
                ),
            !scene.use_bvh,
            scene.camera == Camera::unset(),
        decreases 11 - a,
    {
        let mut b: i32 = -11;
        while b < 11
            invariant
                -11 <= a < 11,
                -11 <= b <= 11,
                scene.well_formed(),
                1 + (a + 11) * 22 + (b + 11) - near_cells_before(a as int, b as int)
                    <= scene.world@.len() <= 1 + (a + 11) * 22 + (b + 11),
                scene.shapes@.len() == scene.world@.len(),
                scene.materials@.len() >= 1,
                scene.materials@[0] == (Material::Lambertian { tex: 2 }),
                forall|i: int| 0 <= i < scene.world@.len() ==> #[trigger] scene.world@[i] == i,
                scene.shapes@[0] == sphere_at(Vec3::at(0, -1_000_000, 0), 1_000_000, 0),
                forall|i: int|
                    1 <= i < scene.shapes@.len() ==> is_small_sphere(
                        #[trigger] scene.shapes@[i],
                        scene.materials@,
                        scene.textures@,
                    ),
                !scene.use_bvh,
                scene.camera == Camera::unset(),
            decreases 11 - b,
        {
            let ghost shapes = scene.shapes@;
            let ghost materials = scene.materials@;
            let ghost textures = scene.textures@;
            let added = strew_cell(&mut scene, a, b);
            proof {
                assert forall|i: int| 1 <= i < scene.shapes@.len() implies is_small_sphere(
                    #[trigger] scene.shapes@[i],
                    scene.materials@,
                    scene.textures@,
                ) by {
                    if i < shapes.len() {
                        assert(scene.shapes@[i] == shapes[i]) by {
                            if added {
                                assert(scene.shapes@.drop_last()[i] == shapes[i]);
                            }
                        }
                        lemma_small_sphere_stays(
                            shapes[i],
                            materials,
                            textures,
                            scene.materials@,
                            scene.textures@,
                        );
                    } else {
                        assert(scene.shapes@[i] == scene.shapes@.last());
                    }
                }
                if added {
                    assert(scene.shapes@[0] == scene.shapes@.drop_last()[0]);
                }
            }
            b = b + 1;
        }
        a = a + 1;
    }
    let ghost strewn = scene.shapes@.len();
    let ghost small_materials = scene.materials@;
    let ghost small_textures = scene.textures@;

    let material_1 = scene.add_material(Material::Dielectric { refraction_index: 1_500 });
    scene.add(Shape::Sphere(Sphere::new(Vec3::new(0, 1_000, 0), 1_000, material_1)));
    let material_2 = scene.add_material(
        Material::Metal { albedo: Color::new(700, 600, 500), fuzz: 0 },
    );
    scene.add(Shape::Sphere(Sphere::new(Vec3::new(4_000, 1_000, 0), 1_000, material_2)));
    let material_3 = scene.lambertian_color(Color::new(400, 200, 100));
    scene.add(Shape::Sphere(Sphere::new(Vec3::new(-4_000, 1_000, 0), 1_000, material_3)));

    scene.use_bvh = true;
    scene.camera = Camera::builder().with_aspect_ratio(16, 9).with_image_width(
        600,
    ).with_samples_per_pixel(5).with_max_depth(50).with_vfov(20_000).with_lookfrom(
        Vec3::new(13_000, 2_000, 3_000),
    ).with_lookat(Vec3::new(0, 0, 0)).with_vup(Vec3::new(0, 1_000, 0)).with_defocus_angle(
        600,
    ).with_focus_dist(10_000).with_background(Color::new(1_000, 1_000, 1_000)).build();
    proof {
        assert forall|i: int| 1 <= i < scene.shapes@.len() - 3 implies is_small_sphere(
            #[trigger] scene.shapes@[i],
            scene.materials@,
            scene.textures@,
        ) by {
            lemma_small_sphere_stays(
                scene.shapes@[i],
                small_materials,
                small_textures,
                scene.materials@,
                scene.textures@,
            );
        }
    }
    scene
}

} // verus!
