use raytracer::vec3::{Vec3, dot};
use raytracer::ray::Ray;
use raytracer::hittable::{Hittable, HitRecord};
use raytracer::hittable_list::HittableList;
use raytracer::material::{Lambertian, MaterialKind};
use raytracer::sphere::{Sphere, hit_sphere};
use raytracer::rtweekend::INFINITY;

const S: i64 = 1_000_000;

fn gray() -> MaterialKind {
    MaterialKind::Lambertian(Lambertian::new(Vec3::new(500_000, 500_000, 500_000)))
}

#[test]
fn ray_evaluation() {
    let r = Ray::new(Vec3::new(S, 0, 0), Vec3::new(0, 2 * S, 0));
    assert_eq!(r.origin(), Vec3::new(S, 0, 0));
    assert_eq!(r.direction(), Vec3::new(0, 2 * S, 0));
    assert_eq!(r.at(500_000), Vec3::new(S, S, 0));
}

/// A unit sphere at the origin, hit head on from z = -5: the hit lands at
/// t = 4 on the front face at (0, 0, -1) with outward normal (0, 0, -1).
#[test]
fn unit_sphere_head_on_hit() {
    let s = Sphere::with_values(Vec3::new(0, 0, 0), S, gray());
    let r = Ray::new(Vec3::new(0, 0, -5 * S), Vec3::new(0, 0, S));
    let rec = s.hit(&r, 0, INFINITY).expect("the ray must hit");
    assert_eq!(rec.t, 4 * S);
    assert_eq!(rec.p, Vec3::new(0, 0, -S));
    assert_eq!(rec.normal, Vec3::new(0, 0, -S));
    assert!(rec.front_face);
    assert!(rec.material.is_some());
}

/// A ray whose direction misses the sphere entirely (negative
/// discriminant) reports no intersection for any range.
#[test]
fn missing_ray_reports_no_hit() {
    let s = Sphere::with_values(Vec3::new(0, 0, -3 * S), S, gray());
    let up = Ray::new(Vec3::new(0, 0, 0), Vec3::new(0, S, 0));
    assert!(s.hit(&up, 0, INFINITY).is_none());
    assert!(s.hit(&up, -100 * S, 100 * S).is_none());
    assert!(s.hit(&up, 0, 1000).is_none());
}

/// The stored normal is unit length and always opposes the ray, also when
/// the sphere is struck from inside (back face).
#[test]
fn normals_are_unit_and_oppose_the_ray() {
    let s = Sphere::with_values(Vec3::new(0, 0, 0), S, gray());
    let outside = Ray::new(Vec3::new(0, 0, -5 * S), Vec3::new(0, 0, S));
    let rec = s.hit(&outside, 0, INFINITY).unwrap();
    assert_eq!(rec.normal.length_squared(), S);
    assert!(dot(rec.normal, outside.direction()) <= 0);

    let inside = Ray::new(Vec3::new(0, 0, 0), Vec3::new(0, 0, S));
    let rec2 = s.hit(&inside, 1_000, INFINITY).unwrap();
    assert_eq!(rec2.t, S);
    assert_eq!(rec2.p, Vec3::new(0, 0, S));
    assert!(!rec2.front_face);
    assert_eq!(rec2.normal, Vec3::new(0, 0, -S));
    assert!(dot(rec2.normal, inside.direction()) <= 0);
}

#[test]
fn range_bounds_reject_roots() {
    let s = Sphere::with_values(Vec3::new(0, 0, 5 * S), S, gray());
    let r = Ray::new(Vec3::new(0, 0, 0), Vec3::new(0, 0, S));
    // both roots (4 and 6) lie beyond the range
    assert!(s.hit(&r, 0, 3 * S).is_none());
    // only the farther root qualifies
    let rec = s.hit(&r, 5 * S, INFINITY).unwrap();
    assert_eq!(rec.t, 6 * S);
    assert!(!rec.front_face);
}

/// The scene scan narrows the range to the best hit so far, so the
/// nearest sphere wins in either insertion order.
#[test]
fn nearest_hit_wins_in_any_order() {
    let near = Sphere::with_values(Vec3::new(0, 0, 5 * S), S, gray());
    let far = Sphere::with_values(Vec3::new(0, 0, 10 * S), S, gray());
    let r = Ray::new(Vec3::new(0, 0, 0), Vec3::new(0, 0, S));

    let mut world = HittableList::new();
    world.add(near);
    world.add(far);
    assert_eq!(world.hit(&r, 0, INFINITY).unwrap().t, 4 * S);

    let mut reversed = HittableList::new();
    reversed.add(far);
    reversed.add(near);
    assert_eq!(reversed.hit(&r, 0, INFINITY).unwrap().t, 4 * S);

    let empty = HittableList::new();
    assert_eq!(empty.len(), 0);
    assert!(empty.hit(&r, 0, INFINITY).is_none());
}

#[test]
fn standalone_sphere_parameter() {
    // the head-on case again, through the standalone root finder
    let center = Vec3::new(0, 0, 0);
    let r = Ray::new(Vec3::new(0, 0, -5 * S), Vec3::new(0, 0, S));
    assert_eq!(hit_sphere(&center, S, &r), 4 * S);
    // a miss reports minus one
    let away = Ray::new(Vec3::new(0, 0, 0), Vec3::new(0, S, 0));
    assert_eq!(hit_sphere(&Vec3::new(0, 0, -3 * S), S, &away), -S);
}

#[test]
fn face_normal_orientation() {
    let mut rec = HitRecord {
        p: Vec3::new(0, 0, 0),
        normal: Vec3::new(0, 0, 0),
        material: None,
        t: 0,
        front_face: false,
    };
    let r = Ray::new(Vec3::new(0, 0, 0), Vec3::new(0, -S, 0));
    let outward = Vec3::new(0, S, 0);
    rec.set_face_normal(&r, &outward);
    assert!(rec.front_face);
    assert_eq!(rec.normal, Vec3::new(0, S, 0));

    let climbing = Ray::new(Vec3::new(0, 0, 0), Vec3::new(0, S, 0));
    rec.set_face_normal(&climbing, &outward);
    assert!(!rec.front_face);
    assert_eq!(rec.normal, Vec3::new(0, -S, 0));
}

#[test]
fn default_sphere_is_degenerate() {
    let s = Sphere::new();
    assert_eq!(s.radius, 0);
    assert!(s.material.is_none());
    assert_eq!(s.center, Vec3::new(0, 0, 0));
}
