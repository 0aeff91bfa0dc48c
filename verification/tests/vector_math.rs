use raytracer::vec3::{
    Vec3, dot, cross, unit_vector, reflect, refract, random_in_unit_sphere, random_unit_vector,
    random_in_hemisphere, random_in_unit_disk,
};
use raytracer::rtweekend::RandomSource;

const S: i64 = 1_000_000;

#[test]
fn componentwise_arithmetic() {
    let a = Vec3::new(1 * S, 2 * S, 3 * S);
    let b = Vec3::new(4 * S, 5 * S, 6 * S);
    assert_eq!(a.add(b), Vec3::new(5 * S, 7 * S, 9 * S));
    assert_eq!(b.sub(a), Vec3::new(3 * S, 3 * S, 3 * S));
    assert_eq!(a.neg(), Vec3::new(-1 * S, -2 * S, -3 * S));
    assert_eq!(a.mul(b), Vec3::new(4 * S, 10 * S, 18 * S));
    assert_eq!(a.scale(2 * S), Vec3::new(2 * S, 4 * S, 6 * S));
    assert_eq!(a.div(2 * S), Vec3::new(500_000, 1 * S, 1_500_000));
    assert_eq!(a.x(), 1 * S);
    assert_eq!(a.y(), 2 * S);
    assert_eq!(a.z(), 3 * S);
}

#[test]
fn dot_cross_and_length() {
    let a = Vec3::new(1 * S, 2 * S, 3 * S);
    let b = Vec3::new(4 * S, 5 * S, 6 * S);
    assert_eq!(dot(a, b), 32 * S);
    assert_eq!(cross(Vec3::new(S, 0, 0), Vec3::new(0, S, 0)), Vec3::new(0, 0, S));
    let v = Vec3::new(3 * S, 4 * S, 0);
    assert_eq!(v.length_squared(), 25 * S);
    assert_eq!(v.length(), 5 * S);
    assert_eq!(unit_vector(v), Vec3::new(600_000, 800_000, 0));
}

#[test]
fn near_zero_guard() {
    assert!(Vec3::new(0, 0, 0).near_zero());
    assert!(Vec3::new(999, -999, 0).near_zero());
    assert!(!Vec3::new(1_000, 0, 0).near_zero());
}

/// Reflecting a unit direction about a unit normal preserves the length
/// and reverses the normal component of the direction.
#[test]
fn reflect_preserves_length_and_flips_normal_component() {
    let d = Vec3::new(600_000, 800_000, 0);
    let n = Vec3::new(0, S, 0);
    let r = reflect(&d, &n);
    assert_eq!(r, Vec3::new(600_000, -800_000, 0));
    assert_eq!(r.length_squared(), d.length_squared());
    assert_eq!(r.length(), d.length());
    assert_eq!(dot(r, n), -dot(d, n));

    // head-on incidence reflects straight back
    let d2 = Vec3::new(0, -S, 0);
    let r2 = reflect(&d2, &n);
    assert_eq!(r2, Vec3::new(0, S, 0));
    assert_eq!(dot(r2, n), -dot(d2, n));
}

#[test]
fn refract_passes_straight_through_at_equal_indices() {
    let u = Vec3::new(0, -S, 0);
    let n = Vec3::new(0, S, 0);
    let r = refract(&u, &n, S);
    assert_eq!(r, Vec3::new(0, -S, 0));
}

#[test]
fn refract_bends_toward_the_surface_entering_denser_medium() {
    // a 45-degree incoming direction entering at ratio 1 / 1.5
    let u = Vec3::new(707_106, -707_106, 0);
    let n = Vec3::new(0, S, 0);
    let eta = 666_666; // 1 / 1.5
    let r = refract(&u, &n, eta);
    // the tangential component shrinks by the ratio
    assert_eq!(r.x, 471_403);
    // still pointing into the surface
    assert!(r.y < 0);
    // approximately unit length
    let ls = r.length_squared();
    assert!((ls - S).abs() < 3_000, "length squared {ls}");
}

#[test]
fn ball_samples_are_inside_and_usable() {
    let mut rng = RandomSource::ThreadRng;
    for _ in 0..50 {
        let p = random_in_unit_sphere(&mut rng);
        assert!(p.length_squared() < S);
        assert!(!p.near_zero());
        let u = random_unit_vector(&mut rng);
        let ls = u.length_squared();
        assert!((ls - S).abs() <= 3_000, "unit sample length squared {ls}");
        let d = random_in_unit_disk(&mut rng);
        assert_eq!(d.z, 0);
        assert!(d.length_squared() < S);
    }
}

#[test]
fn hemisphere_samples_point_along_the_normal() {
    let mut rng = RandomSource::ThreadRng;
    let normal = Vec3::new(0, S, 0);
    for _ in 0..50 {
        let p = random_in_hemisphere(&mut rng, normal);
        assert!(dot(p, normal) >= 0);
        assert!(p.length_squared() < S);
        assert!(!p.near_zero());
    }
}

#[test]
fn random_vectors_lie_in_their_ranges() {
    let mut rng = RandomSource::ThreadRng;
    for _ in 0..50 {
        let v = Vec3::random(&mut rng);
        assert!(0 <= v.x && v.x < S);
        assert!(0 <= v.y && v.y < S);
        assert!(0 <= v.z && v.z < S);
        let w = Vec3::random_range(&mut rng, -2 * S, -S);
        assert!(-2 * S <= w.x && w.x < -S);
        assert!(-2 * S <= w.y && w.y < -S);
        assert!(-2 * S <= w.z && w.z < -S);
    }
}
