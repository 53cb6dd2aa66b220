//! Scenes: what is to be rendered, written down as plain values.
//!
//! A scene keeps its textures, materials and shapes in three lists. Whatever uses one of
//! them names it by its place in its list, so that one material serves many shapes and one
//! texture many materials.

use vstd::prelude::*;
use crate::camera::Camera;
use crate::material::Material;
use crate::quad::Quad;
use crate::sphere::Sphere;
use crate::texture::{Color, Texture};
use crate::vec3::Vec3;

verus! {

/// A shape of a scene. A shape that is made of other shapes names them by their place in
/// the scene's list of shapes.
#[derive(Clone, Copy, Debug, PartialEq, Eq, Structural)]
pub enum Shape {
    Sphere(Sphere),
    Quad(Quad),
    /// The `count` shapes from place `first` on, as one.
    Group { first: usize, count: usize },
    /// The shape at place `object`, moved by `offset`.
    Translated { object: usize, offset: Vec3 },
    /// The shape at place `object`, turned about the vertical axis by `angle`, in
    /// thousandths of a degree.
    Rotated { object: usize, angle: i64 },
}

impl Shape {
    /// Whether every shape that `self` names stands before `place`, and the material that
    /// it names before `materials` in the list of materials.
    pub open spec fn refers_below(self, place: int, materials: int) -> bool {
        match self {
            Shape::Sphere(s) => s.mat < materials,
            Shape::Quad(q) => q.mat < materials,
            Shape::Group { first, count } => first + count <= place,
            Shape::Translated { object, offset } => object < place,
            Shape::Rotated { object, angle } => object < place,
        }
    }
}

/// A scene: three lists of parts, the places of the shapes that make up the world, whether
/// the world is to be searched through a bounding volume hierarchy, and the camera.
pub struct Scene {
    pub textures: Vec<Texture>,
    pub materials: Vec<Material>,
    pub shapes: Vec<Shape>,
    pub world: Vec<usize>,
    pub use_bvh: bool,
    pub camera: Camera,
}

impl Scene {
    /// Every place that is named in the scene exists, and a part that is made of other
    /// parts names only parts that stand before it.
    pub open spec fn well_formed(&self) -> bool {
        &&& forall|i: int|
            0 <= i < self.textures@.len() ==> (#[trigger] self.textures@[i]).refers_below(i)
        &&& forall|i: int|
            0 <= i < self.materials@.len() ==> (#[trigger] self.materials@[i]).refers_below(
                self.textures@.len() as int,
            )
        &&& forall|i: int|
            0 <= i < self.shapes@.len() ==> (#[trigger] self.shapes@[i]).refers_below(
                i,
                self.materials@.len() as int,
            )
        &&& forall|i: int| 0 <= i < self.world@.len() ==> #[trigger] self.world@[i] < self.shapes@.len()
    }

    /// The scene with no parts and a camera with every setting at zero.
    pub fn new() -> (scene: Self)
        ensures
            scene.well_formed(),
            scene.textures@.len() == 0,
            scene.materials@.len() == 0,
            scene.shapes@.len() == 0,
            scene.world@.len() == 0,
            !scene.use_bvh,
            scene.camera == Camera::unset(),
    {
        Scene {
            textures: Vec::new(),
            materials: Vec::new(),
            shapes: Vec::new(),
            world: Vec::new(),
            use_bvh: false,
            camera: Camera::builder(),
        }
    }

    /// Appends `texture` to the textures and returns its place.
    pub fn add_texture(&mut self, texture: Texture) -> (place: usize)
        requires
            old(self).well_formed(),
            texture.refers_below(old(self).textures@.len() as int),
        ensures
            final(self).well_formed(),
            place == old(self).textures@.len(),
            final(self).textures@ == old(self).textures@.push(texture),
            final(self).materials == old(self).materials,
            final(self).shapes == old(self).shapes,
            final(self).world == old(self).world,
            final(self).use_bvh == old(self).use_bvh,
            final(self).camera == old(self).camera,
    {
        let place: usize = self.textures.len();
        self.textures.push(texture);
        place
    }

    /// Appends `material` to the materials and returns its place.
    pub fn add_material(&mut self, material: Material) -> (place: usize)
        requires
            old(self).well_formed(),
            material.refers_below(old(self).textures@.len() as int),
        ensures
            final(self).well_formed(),
            place == old(self).materials@.len(),
            final(self).materials@ == old(self).materials@.push(material),
            final(self).textures == old(self).textures,
            final(self).shapes == old(self).shapes,
            final(self).world == old(self).world,
            final(self).use_bvh == old(self).use_bvh,
            final(self).camera == old(self).camera,
    {
        let place: usize = self.materials.len();
        self.materials.push(material);
        place
    }

    /// Appends `shape` to the shapes, not yet to the world, and returns its place.
    pub fn add_shape(&mut self, shape: Shape) -> (place: usize)
        requires
            old(self).well_formed(),
            shape.refers_below(old(self).shapes@.len() as int, old(self).materials@.len() as int),
        ensures
            final(self).well_formed(),
            place == old(self).shapes@.len(),
            final(self).shapes@ == old(self).shapes@.push(shape),
            final(self).textures == old(self).textures,
            final(self).materials == old(self).materials,
            final(self).world == old(self).world,
            final(self).use_bvh == old(self).use_bvh,
            final(self).camera == old(self).camera,
    {
        let place: usize = self.shapes.len();
        self.shapes.push(shape);
        place
    }

    /// Appends the shape at `place` to the world.
    pub fn add_to_world(&mut self, place: usize)
        requires
            old(self).well_formed(),
            place < old(self).shapes@.len(),
        ensures
            final(self).well_formed(),
            final(self).world@ == old(self).world@.push(place),
            final(self).textures == old(self).textures,
            final(self).materials == old(self).materials,
            final(self).shapes == old(self).shapes,
            final(self).use_bvh == old(self).use_bvh,
            final(self).camera == old(self).camera,
    {
        self.world.push(place);
    }

    /// Appends `shape` to the shapes and to the world.
    pub fn add(&mut self, shape: Shape)
        requires
            old(self).well_formed(),
            shape.refers_below(old(self).shapes@.len() as int, old(self).materials@.len() as int),
        ensures
            final(self).well_formed(),
            final(self).shapes@ == old(self).shapes@.push(shape),
            final(self).world@ == old(self).world@.push(old(self).shapes@.len() as usize),
            final(self).textures == old(self).textures,
            final(self).materials == old(self).materials,
            final(self).use_bvh == old(self).use_bvh,
            final(self).camera == old(self).camera,
    {
        let place = self.add_shape(shape);
        self.add_to_world(place);
    }

    /// Appends `sides` to the shapes, and after them the group that they form; returns
    /// the place of the group.
    pub fn add_group(&mut self, sides: &Vec<Quad>) -> (place: usize)
        requires
            old(self).well_formed(),
            forall|i: int| 0 <= i < sides@.len() ==> (#[trigger] sides@[i]).mat < old(self).materials@.len(),
        ensures
            final(self).well_formed(),
            place == old(self).shapes@.len() + sides@.len(),
            final(self).shapes@ == old(self).shapes@ + sides@.map_values(|q: Quad| Shape::Quad(q)).push(
                Shape::Group { first: old(self).shapes@.len() as usize, count: sides@.len() as usize },
            ),
            final(self).textures == old(self).textures,
            final(self).materials == old(self).materials,
            final(self).world == old(self).world,
            final(self).use_bvh == old(self).use_bvh,
            final(self).camera == old(self).camera,
    {
        let first: usize = self.shapes.len();
        let count: usize = sides.len();
        let mut i: usize = 0;
        while i < count
            invariant
                i <= count,
                count == sides@.len(),
                first == old(self).shapes@.len(),
                self.well_formed(),
                self.shapes@ == old(self).shapes@ + sides@.take(i as int).map_values(
                    |q: Quad| Shape::Quad(q),
                ),
                forall|k: int| 0 <= k < sides@.len() ==> (#[trigger] sides@[k]).mat < self.materials@.len(),
                self.textures == old(self).textures,
                self.materials == old(self).materials,
                self.world == old(self).world,
                self.use_bvh == old(self).use_bvh,
                self.camera == old(self).camera,
            decreases count - i,
        {
            self.add_shape(Shape::Quad(sides[i]));
            proof {
                assert(sides@.take(i + 1) == sides@.take(i as int).push(sides@[i as int]));
                assert(self.shapes@ =~= old(self).shapes@ + sides@.take(i + 1).map_values(
                    |q: Quad| Shape::Quad(q),
                ));
            }
            i = i + 1;
        }
        proof {
            assert(sides@.take(count as int) == sides@);
        }
        let place = self.add_shape(Shape::Group { first, count });
        proof {
            assert(self.shapes@ =~= old(self).shapes@ + sides@.map_values(
                |q: Quad| Shape::Quad(q),
            ).push(Shape::Group { first, count }));
        }
        place
    }

    /// Appends a texture of the one colour `albedo` and a matt material that uses it;
    /// returns the place of the material.
    pub fn lambertian_color(&mut self, albedo: Color) -> (place: usize)
        requires
            old(self).well_formed(),
        ensures
            final(self).well_formed(),
            place == old(self).materials@.len(),
            final(self).textures@ == old(self).textures@.push(Texture::SolidColor { albedo }),
            final(self).materials@ == old(self).materials@.push(
                Material::Lambertian { tex: old(self).textures@.len() as usize },
            ),
            final(self).shapes == old(self).shapes,
            final(self).world == old(self).world,
            final(self).use_bvh == old(self).use_bvh,
            final(self).camera == old(self).camera,
    {
        let tex = self.add_texture(Texture::SolidColor { albedo });
        self.add_material(Material::Lambertian { tex })
    }

    /// Appends a texture of the one colour `emit` and a lamp that uses it; returns the
    /// place of the lamp.
    pub fn diffuse_light_color(&mut self, emit: Color) -> (place: usize)
        requires
            old(self).well_formed(),
        ensures
            final(self).well_formed(),
            place == old(self).materials@.len(),
            final(self).textures@ == old(self).textures@.push(Texture::SolidColor { albedo: emit }),
            final(self).materials@ == old(self).materials@.push(
                Material::DiffuseLight { tex: old(self).textures@.len() as usize },
            ),
            final(self).shapes == old(self).shapes,
            final(self).world == old(self).world,
            final(self).use_bvh == old(self).use_bvh,
            final(self).camera == old(self).camera,
    {
        let tex = self.add_texture(Texture::SolidColor { albedo: emit });
        self.add_material(Material::DiffuseLight { tex })
    }

    /// Appends two textures of one colour each and the checker of side `scale` that
    /// alternates between them; returns the place of the checker.
    pub fn checker_solid(&mut self, scale: i64, color1: Color, color2: Color) -> (place: usize)
        requires
            old(self).well_formed(),
        ensures
            final(self).well_formed(),
            place == old(self).textures@.len() + 2,
            final(self).textures@ == old(self).textures@.push(
                Texture::SolidColor { albedo: color1 },
            ).push(Texture::SolidColor { albedo: color2 }).push(
                Texture::Checker {
                    scale,
                    even: old(self).textures@.len() as usize,
                    odd: (old(self).textures@.len() + 1) as usize,
                },
            ),
            final(self).materials == old(self).materials,
            final(self).shapes == old(self).shapes,
            final(self).world == old(self).world,
            final(self).use_bvh == old(self).use_bvh,
            final(self).camera == old(self).camera,
    {
        let even = self.add_texture(Texture::SolidColor { albedo: color1 });
        let odd = self.add_texture(Texture::SolidColor { albedo: color2 });
        self.add_texture(Texture::Checker { scale, even, odd })
    }
}

} // verus!
