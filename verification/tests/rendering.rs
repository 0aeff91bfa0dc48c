use raytracer::camera::Camera;
use raytracer::color::{clamp_color, color_level, to_decimal};
use raytracer::hittable_list::HittableList;
use raytracer::material::{Lambertian, MaterialKind};
use raytracer::ray::Ray;
use raytracer::rtweekend::{RandomSource, random_double, random_double_range, degrees_to_radians, PI};
use raytracer::sphere::Sphere;
use raytracer::vec3::Vec3;

const S: i64 = 1_000_000;

fn simple_camera() -> Camera {
    Camera::new(
        8,            // max_depth
        2 * S,        // aspect ratio 2.0
        200,          // image width
        4,            // samples per pixel
        S,            // tan(vfov / 2) == 1, i.e. a 90 degree field of view
        Vec3::new(0, 0, 0),
        Vec3::new(0, 0, -S),
        Vec3::new(0, S, 0),
        S,            // focus distance 1.0
        0,            // no defocus blur
    )
}

fn two_sphere_world() -> HittableList {
    let mut world = HittableList::new();
    let center = MaterialKind::Lambertian(Lambertian::new(Vec3::new(500_000, 500_000, 500_000)));
    let ground = MaterialKind::Lambertian(Lambertian::new(Vec3::new(800_000, 800_000, 0)));
    world.add(Sphere::with_values(Vec3::new(0, 0, -S), 500_000, center));
    world.add(Sphere::with_values(Vec3::new(0, -100_500_000, -S), 100 * S, ground));
    world
}

#[test]
fn camera_derivation_exact_values() {
    let cam = simple_camera();
    assert_eq!(cam.image_width, 200);
    assert_eq!(cam.image_height, 100);
    assert_eq!(cam.pixel_samples_scale, 250_000);
    assert_eq!(cam.center, Vec3::new(0, 0, 0));
    // pixel deltas: a 4x2 viewport split over 200x100 pixels
    assert_eq!(cam.pixel_delta_u, Vec3::new(20_000, 0, 0));
    assert_eq!(cam.pixel_delta_v, Vec3::new(0, -20_000, 0));
    // upper-left corner (-2, 1, -1) plus half a pixel delta
    assert_eq!(cam.pixel00_loc, Vec3::new(-1_990_000, 990_000, -S));
    assert_eq!(cam.defocus_disk_u, Vec3::new(0, 0, 0));
    assert_eq!(cam.defocus_disk_v, Vec3::new(0, 0, 0));
}

#[test]
fn ray_through_is_deterministic() {
    let cam = simple_camera();
    let zero = Vec3::new(0, 0, 0);
    let r1 = cam.ray_through(0, 0, &zero, &cam.center);
    let r2 = cam.ray_through(0, 0, &zero, &cam.center);
    assert_eq!(r1, r2);
    assert_eq!(r1.origin, Vec3::new(0, 0, 0));
    assert_eq!(r1.direction, Vec3::new(-1_990_000, 990_000, -S));
    // one pixel to the right moves one delta along the viewport
    let r3 = cam.ray_through(1, 0, &zero, &cam.center);
    assert_eq!(r3.direction, Vec3::new(-1_970_000, 990_000, -S));
}

/// At depth zero the integrator returns exactly black, whatever the scene
/// holds.
#[test]
fn depth_zero_is_black() {
    let cam = simple_camera();
    let world = two_sphere_world();
    let mut rng = RandomSource::ThreadRng;
    let r = Ray::new(Vec3::new(0, 0, 0), Vec3::new(0, 0, -S));
    let c = cam.ray_color(&r, &world, 0, &mut rng);
    assert_eq!(c, Vec3::new(0, 0, 0));
}

/// The background gradient: straight up blends fully into sky blue,
/// straight down stays white.
#[test]
fn background_gradient_extremes() {
    let cam = simple_camera();
    let empty = HittableList::new();
    let mut rng = RandomSource::ThreadRng;
    let up = Ray::new(Vec3::new(0, 0, 0), Vec3::new(0, S, 0));
    assert_eq!(cam.ray_color(&up, &empty, 4, &mut rng), Vec3::new(500_000, 700_000, S));
    let down = Ray::new(Vec3::new(0, 0, 0), Vec3::new(0, -S, 0));
    assert_eq!(cam.ray_color(&down, &empty, 4, &mut rng), Vec3::new(S, S, S));
}

/// Rendering the two-sphere scene twice from the same seed is bit
/// reproducible.
#[test]
fn seeded_render_is_reproducible() {
    let cam = Camera::new(
        4,
        2 * S,
        8,
        2,
        S,
        Vec3::new(0, 0, 0),
        Vec3::new(0, 0, -S),
        Vec3::new(0, S, 0),
        S,
        0,
    );
    let world = two_sphere_world();
    let mut rng1 = RandomSource::seeded(42);
    let mut rng2 = RandomSource::seeded(42);
    let first = cam.render(&world, &mut rng1);
    let second = cam.render(&world, &mut rng2);
    assert_eq!(first.len(), (cam.image_height as usize) * (cam.image_width as usize));
    assert_eq!(first, second);
    for pixel in &first {
        assert!(0 <= pixel.x && pixel.x <= S);
        assert!(0 <= pixel.y && pixel.y <= S);
        assert!(0 <= pixel.z && pixel.z <= S);
    }
}

#[test]
fn seeded_source_replays_and_thread_source_stays_in_range() {
    let mut a = RandomSource::seeded(123);
    let mut b = RandomSource::seeded(123);
    for _ in 0..20 {
        assert_eq!(a.next_in_range(-50, 50), b.next_in_range(-50, 50));
    }
    let mut rng = RandomSource::ThreadRng;
    let mut saw_nonzero = false;
    for _ in 0..50 {
        let x = random_double(&mut rng);
        assert!(0 <= x && x < S);
        let y = random_double_range(&mut rng, 10, 20);
        assert!(10 <= y && y < 20);
        if x != 0 {
            saw_nonzero = true;
        }
    }
    assert!(saw_nonzero, "fifty uniform draws cannot all be zero");
}

/// The color writer: full white maps to 255, black to 0, and a quarter
/// maps near 128 because the channel is gamma corrected (square root),
/// not linear (which would give 64).
#[test]
fn color_writer_gamma_and_clamp() {
    assert_eq!(clamp_color(Vec3::new(S, S, S)), "255 255 255");
    assert_eq!(clamp_color(Vec3::new(0, 0, 0)), "0 0 0");
    assert_eq!(clamp_color(Vec3::new(250_000, 250_000, 250_000)), "128 128 128");
    assert_eq!(color_level(250_000), 128);
    assert_eq!(color_level(-5), 0);
    // values beyond one clamp at 255
    assert_eq!(color_level(4 * S), 255);
    assert_eq!(to_decimal(0), "0");
    assert_eq!(to_decimal(7), "7");
    assert_eq!(to_decimal(255), "255");
    assert_eq!(to_decimal(1000), "1000");
}

#[test]
fn primary_rays_start_at_the_center_without_defocus() {
    let cam = simple_camera();
    let mut rng = RandomSource::seeded(9);
    for _ in 0..10 {
        let r = cam.get_ray(3, 2, &mut rng);
        assert_eq!(r.origin, cam.center);
    }
}

#[test]
fn defocus_blur_samples_the_lens_disk() {
    let cam = Camera::new(
        4,
        2 * S,
        8,
        1,
        S,
        Vec3::new(0, 0, 0),
        Vec3::new(0, 0, -S),
        Vec3::new(0, S, 0),
        S,
        10_000, // tan of half a small positive defocus angle
    );
    let mut rng = RandomSource::seeded(11);
    let mut moved = false;
    for _ in 0..20 {
        let r = cam.get_ray(0, 0, &mut rng);
        // the origin stays on the small lens disk around the center
        let off = r.origin.sub(cam.center);
        assert!(off.length() <= 10_000);
        if off != Vec3::new(0, 0, 0) {
            moved = true;
        }
    }
    assert!(moved, "lens sampling must move the ray origin");
}

#[test]
fn angle_conversion() {
    assert_eq!(PI, 3_141_593);
    assert_eq!(degrees_to_radians(180 * S), PI);
    assert_eq!(degrees_to_radians(90 * S), PI / 2);
}
