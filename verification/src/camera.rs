//! The camera's settings, and the part of its geometry that is counted in whole pixels.

use vstd::prelude::*;
use crate::texture::Color;
use crate::vec3::Vec3;

verus! {

/// The settings of a camera. Lengths, colour channels and angles (in degrees) are in
/// thousandths; the aspect ratio is the fraction `aspect_width / aspect_height`.
///
/// A setting that was never given is zero, and a camera with such settings renders nothing
/// useful: the caller gives them all.
#[derive(Clone, Copy, Debug, PartialEq, Eq, Structural)]
pub struct Camera {
    pub aspect_width: u32,
    pub aspect_height: u32,
    pub image_width: usize,
    pub samples_per_pixel: u32,
    pub max_depth: u32,
    pub vfov: i64,
    pub lookfrom: Vec3,
    pub lookat: Vec3,
    pub vup: Vec3,
    pub defocus_angle: i64,
    pub focus_dist: i64,
    pub background: Color,
    /// The number of pixel rows, which [`Camera::initialize`] derives.
    pub image_height: usize,
}

/// The number of pixel rows of an image `image_width` pixels wide with the aspect ratio
/// `aspect_width / aspect_height`: the width divided by the ratio, rounded down, and at
/// least 1.
///
/// Where the ratio is zero the quotient is infinite and the result the largest `usize`;
/// where the ratio is infinite or undefined (a height of zero, or zero by zero) it is 1.
pub open spec fn rows(image_width: usize, aspect_width: u32, aspect_height: u32) -> usize {
    if aspect_height == 0 || image_width == 0 {
        1
    } else if aspect_width == 0 {
        usize::MAX
    } else {
        let exact = (image_width * aspect_height) / (aspect_width as int);
        if exact < 1 {
            1
        } else if exact > usize::MAX {
            usize::MAX
        } else {
            exact as usize
        }
    }
}

impl Camera {
    /// A camera with every setting at zero.
    pub open spec fn unset() -> Camera {
        Camera {
            aspect_width: 0,
            aspect_height: 0,
            image_width: 0,
            samples_per_pixel: 0,
            max_depth: 0,
            vfov: 0,
            lookfrom: Vec3 { x: 0, y: 0, z: 0 },
            lookat: Vec3 { x: 0, y: 0, z: 0 },
            vup: Vec3 { x: 0, y: 0, z: 0 },
            defocus_angle: 0,
            focus_dist: 0,
            background: Vec3 { x: 0, y: 0, z: 0 },
            image_height: 0,
        }
    }

    /// Whether the number of rows is the one that the width and the aspect ratio give.
    pub open spec fn initialized(self) -> bool {
        self.image_height == rows(self.image_width, self.aspect_width, self.aspect_height)
    }

    /// Starts a camera with every setting at zero.
    pub fn builder() -> (c: Self)
        ensures
            c == Self::unset(),
    {
        Camera {
            aspect_width: 0,
            aspect_height: 0,
            image_width: 0,
            samples_per_pixel: 0,
            max_depth: 0,
            vfov: 0,
            lookfrom: Vec3::new(0, 0, 0),
            lookat: Vec3::new(0, 0, 0),
            vup: Vec3::new(0, 0, 0),
            defocus_angle: 0,
            focus_dist: 0,
            background: Vec3::new(0, 0, 0),
            image_height: 0,
        }
    }

    /// Sets the aspect ratio to `width / height`.
    pub fn with_aspect_ratio(self, width: u32, height: u32) -> (c: Self)
        ensures
            c == (Camera { aspect_width: width, aspect_height: height, ..self }),
    {
        let mut c = self;
        c.aspect_width = width;
        c.aspect_height = height;
        c
    }

    pub fn with_image_width(self, image_width: usize) -> (c: Self)
        ensures
            c == (Camera { image_width, ..self }),
    {
        let mut c = self;
        c.image_width = image_width;
        c
    }

    pub fn with_samples_per_pixel(self, samples_per_pixel: u32) -> (c: Self)
        ensures
            c == (Camera { samples_per_pixel, ..self }),
    {
        let mut c = self;
        c.samples_per_pixel = samples_per_pixel;
        c
    }

    pub fn with_max_depth(self, max_depth: u32) -> (c: Self)
        ensures
            c == (Camera { max_depth, ..self }),
    {
        let mut c = self;
        c.max_depth = max_depth;
        c
    }

    pub fn with_vfov(self, vfov: i64) -> (c: Self)
        ensures
            c == (Camera { vfov, ..self }),
    {
        let mut c = self;
        c.vfov = vfov;
        c
    }

    pub fn with_lookfrom(self, lookfrom: Vec3) -> (c: Self)
        ensures
            c == (Camera { lookfrom, ..self }),
    {
        let mut c = self;
        c.lookfrom = lookfrom;
        c
    }

    pub fn with_lookat(self, lookat: Vec3) -> (c: Self)
        ensures
            c == (Camera { lookat, ..self }),
    {
        let mut c = self;
        c.lookat = lookat;
        c
    }

    pub fn with_vup(self, vup: Vec3) -> (c: Self)
        ensures
            c == (Camera { vup, ..self }),
    {
        let mut c = self;
        c.vup = vup;
        c
    }

    pub fn with_defocus_angle(self, defocus_angle: i64) -> (c: Self)
        ensures
            c == (Camera { defocus_angle, ..self }),
    {
        let mut c = self;
        c.defocus_angle = defocus_angle;
        c
    }

    pub fn with_focus_dist(self, focus_dist: i64) -> (c: Self)
        ensures
            c == (Camera { focus_dist, ..self }),
    {
        let mut c = self;
        c.focus_dist = focus_dist;
        c
    }

    pub fn with_background(self, background: Color) -> (c: Self)
        ensures
            c == (Camera { background, ..self }),
    {
        let mut c = self;
        c.background = background;
        c
    }

    /// Ends the building: the camera with its number of rows derived.
    pub fn build(self) -> (c: Self)
        ensures
            c == (Camera {
                image_height: rows(self.image_width, self.aspect_width, self.aspect_height),
                ..self
            }),
            c.initialized(),
    {
        let mut c = self;
        c.initialize();
        c
    }

    /// Derives the number of rows from the width and the aspect ratio, see [`rows`].
    pub fn initialize(&mut self)
        ensures
            *final(self) == (Camera {
                image_height: rows(
                    old(self).image_width,
                    old(self).aspect_width,
                    old(self).aspect_height,
                ),
                ..*old(self)
            }),
            final(self).initialized(),
    {
        if self.aspect_height == 0 || self.image_width == 0 {
            self.image_height = 1;
        } else if self.aspect_width == 0 {
            self.image_height = usize::MAX;
        } else {
            assert(self.image_width * self.aspect_height <= 0xffff_ffff_ffff_ffff * 0xffff_ffff)
                by (nonlinear_arith)
                requires
                    self.image_width <= 0xffff_ffff_ffff_ffff,
                    self.aspect_height <= 0xffff_ffff,
            ;
            let product: u128 = self.image_width as u128 * self.aspect_height as u128;
            let exact: u128 = product / self.aspect_width as u128;
            if exact < 1 {
                self.image_height = 1;
            } else if exact > usize::MAX as u128 {
                self.image_height = usize::MAX;
            } else {
                self.image_height = exact as usize;
            }
        }
    }

    /// Whether rays start from a lens rather than from one point: they do where the
    /// defocus angle is above zero.
    pub fn has_lens(&self) -> (lens: bool)
        ensures
            lens == (self.defocus_angle > 0),
    {
        self.defocus_angle > 0
    }

    /// The number of pixels of the image, or `None` where it does not fit a `usize`.
    pub fn pixel_count(&self) -> (total: Option<usize>)
        ensures
            total is Some <==> self.image_width * self.image_height <= usize::MAX,
            total matches Some(n) ==> n == self.image_width * self.image_height,
    {
        self.image_width.checked_mul(self.image_height)
    }
}

impl Default for Camera {
    fn default() -> (c: Self)
        ensures
            c == Camera::unset(),
    {
        Camera::builder()
    }
}

} // verus!
