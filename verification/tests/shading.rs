use pathtracer::integrator::{first_step, next_step, Event, Light, Step};
use pathtracer::material::Material;
use pathtracer::texture::checker_is_even;
use pathtracer::vec3::Vec3;

#[test]
fn path_without_depth_is_black_and_casts_nothing() {
    assert_eq!(first_step(0), Step::Done(Light::Black));
    assert_eq!(next_step(0, Event::Miss), Step::Done(Light::Black));
    assert_eq!(next_step(0, Event::Scattered), Step::Done(Light::Black));
}

#[test]
fn path_begins_with_a_cast() {
    assert_eq!(first_step(1), Step::Cast { depth: 1 });
    assert_eq!(first_step(50), Step::Cast { depth: 50 });
}

#[test]
fn miss_ends_the_path_with_the_background() {
    assert_eq!(next_step(50, Event::Miss), Step::Done(Light::Background));
    assert_eq!(next_step(1, Event::Miss), Step::Done(Light::Background));
}

#[test]
fn surface_that_scatters_nothing_ends_the_path_with_its_emission() {
    assert_eq!(next_step(50, Event::Absorbed), Step::Done(Light::Emission));
    assert_eq!(next_step(1, Event::Absorbed), Step::Done(Light::Emission));
}

#[test]
fn scattering_goes_on_with_one_ray_less_until_none_is_left() {
    assert_eq!(next_step(50, Event::Scattered), Step::Cast { depth: 49 });
    assert_eq!(next_step(2, Event::Scattered), Step::Cast { depth: 1 });
    assert_eq!(next_step(1, Event::Scattered), Step::Done(Light::Black));
}

#[test]
fn path_of_scatterings_casts_as_many_rays_as_its_depth() {
    for max_depth in [0u32, 1, 2, 50] {
        let mut casts = 0u32;
        let mut step = first_step(max_depth);
        while let Step::Cast { depth } = step {
            casts += 1;
            step = next_step(depth, Event::Scattered);
        }
        assert_eq!(casts, max_depth);
        assert_eq!(step, Step::Done(Light::Black));
    }
}

#[test]
fn lamp_seen_directly_ends_the_path_after_one_cast() {
    // One sample, one ray: the ray meets the lamp, which scatters nothing.
    let lamp = Material::DiffuseLight { tex: 0 };
    assert!(lamp.emits());
    assert!(!lamp.may_scatter());
    let step = first_step(1);
    assert_eq!(step, Step::Cast { depth: 1 });
    assert_eq!(next_step(1, Event::Absorbed), Step::Done(Light::Emission));
}

#[test]
fn only_a_lamp_emits_and_only_a_lamp_never_scatters() {
    let others = [
        Material::Lambertian { tex: 0 },
        Material::Metal { albedo: Vec3::new(700, 600, 500), fuzz: 0 },
        Material::Dielectric { refraction_index: 1_500 },
    ];
    for m in others {
        assert!(!m.emits());
        assert!(m.may_scatter());
    }
}

#[test]
fn checker_alternates_from_cell_to_cell() {
    // The point (0, 0, 0) lies in the cell (0, 0, 0), the point (scale, 0, 0) in the cell
    // (1, 0, 0).
    assert!(checker_is_even(0, 0, 0));
    assert!(!checker_is_even(1, 0, 0));
    assert!(!checker_is_even(0, 1, 0));
    assert!(!checker_is_even(0, 0, 1));
    assert!(checker_is_even(1, 1, 0));
    assert!(!checker_is_even(1, 1, 1));
    assert!(checker_is_even(2, 0, 0));
}

#[test]
fn checker_counts_negative_cells_too() {
    assert!(!checker_is_even(-1, 0, 0));
    assert!(checker_is_even(-1, -1, 0));
    assert!(!checker_is_even(-1, -1, -1));
    assert!(checker_is_even(-2, 0, 0));
    assert!(checker_is_even(-3, 2, 1));
}

#[test]
fn checker_does_not_overflow_at_the_ends_of_the_cells() {
    assert!(!checker_is_even(i32::MAX, i32::MAX, i32::MAX));
    assert!(checker_is_even(i32::MIN, i32::MIN, i32::MIN));
    assert!(!checker_is_even(i32::MAX, i32::MIN, 0));
    assert!(checker_is_even(i32::MAX, i32::MAX, 0));
}
