use raytracer::vec3::{Vec3, dot, reflect};
use raytracer::ray::Ray;
use raytracer::hittable::HitRecord;
use raytracer::material::{
    Material, MaterialKind, Lambertian, Metal, Dielectric, lambertian_direction, metal_direction,
};
use raytracer::rtweekend::RandomSource;

const S: i64 = 1_000_000;

fn front_record(material: MaterialKind) -> HitRecord {
    HitRecord {
        p: Vec3::new(0, 0, -S),
        normal: Vec3::new(0, S, 0),
        material: Some(material),
        t: S,
        front_face: true,
    }
}

/// Lambertian scatter always succeeds and returns exactly the configured
/// albedo, whatever the incoming ray and hit record.
#[test]
fn lambertian_always_scatters_with_its_albedo() {
    let albedo = Vec3::new(700_000, 300_000, 300_000);
    let lambertian = Lambertian::new(albedo);
    let rec = front_record(MaterialKind::Lambertian(lambertian));
    let mut rng = RandomSource::ThreadRng;
    for _ in 0..20 {
        let r_in = Ray::new(Vec3::new(0, 2 * S, -S), Vec3::new(0, -S, 0));
        let (attenuation, scattered) = lambertian.scatter(&r_in, &rec, &mut rng)
            .expect("diffuse scatter never absorbs");
        assert_eq!(attenuation, albedo);
        assert_eq!(scattered.origin, rec.p);
    }
}

#[test]
fn lambertian_direction_guards_cancellation() {
    let normal = Vec3::new(0, S, 0);
    // an ordinary sample adds to the normal
    let sample = Vec3::new(S, 0, 0);
    assert_eq!(lambertian_direction(&normal, &sample), Vec3::new(S, S, 0));
    // a sample cancelling the normal falls back to the normal itself
    let opposite = Vec3::new(0, -S + 500, 0);
    assert_eq!(lambertian_direction(&normal, &opposite), normal);
}

#[test]
fn metal_reflects_and_absorbs_grazing_fuzz() {
    let albedo = Vec3::new(800_000, 600_000, 200_000);
    let metal = Metal::new(albedo, 0);
    let rec = front_record(MaterialKind::Metal(metal));
    let mut rng = RandomSource::ThreadRng;
    let r_in = Ray::new(Vec3::new(0, 2 * S, -S), Vec3::new(0, -S, 0));
    let (attenuation, scattered) = metal.scatter(&r_in, &rec, &mut rng)
        .expect("a head-on mirror reflection points away from the surface");
    assert_eq!(attenuation, albedo);
    assert_eq!(scattered.origin, rec.p);
    assert_eq!(scattered.direction, Vec3::new(0, S, 0));
    assert!(dot(scattered.direction, rec.normal) > 0);
}

/// A perfect mirror (fuzz zero) never absorbs a ray arriving from the
/// normal's side, whatever the internal draws.
#[test]
fn fuzzless_metal_never_absorbs_front_rays() {
    let metal = Metal::new(Vec3::new(900_000, 900_000, 900_000), 0);
    let rec = front_record(MaterialKind::Metal(metal));
    let mut rng = RandomSource::ThreadRng;
    let r_in = Ray::new(Vec3::new(0, 2 * S, -S), Vec3::new(600_000, -800_000, 0));
    for _ in 0..25 {
        let (_, scattered) = metal.scatter(&r_in, &rec, &mut rng)
            .expect("a mirror with a front-side reflection cannot absorb");
        assert_eq!(scattered.direction, Vec3::new(600_000, 800_000, 0));
    }
}

#[test]
fn metal_direction_is_reflection_plus_fuzz() {
    let unit_in = Vec3::new(600_000, -800_000, 0);
    let normal = Vec3::new(0, S, 0);
    let mirror = metal_direction(&unit_in, &normal, 0, &Vec3::new(S, S, S));
    assert_eq!(mirror, reflect(&unit_in, &normal));
    assert_eq!(mirror, Vec3::new(600_000, 800_000, 0));
    let fuzzed = metal_direction(&unit_in, &normal, 500_000, &Vec3::new(200_000, 0, 0));
    assert_eq!(fuzzed, Vec3::new(700_000, 800_000, 0));
}

/// At near-grazing incidence from inside glass (ratio 1.5), Snell's law
/// admits no refracted ray: the direction must be the mirror reflection,
/// whatever the reflectance draw.
#[test]
fn dielectric_total_internal_reflection() {
    let glass = Dielectric::new(1_500_000);
    let unit_in = Vec3::new(999_950, -10_000, 0);
    let normal = Vec3::new(0, S, 0);
    let expected = reflect(&unit_in, &normal);
    assert_eq!(expected, Vec3::new(999_950, 10_000, 0));
    for draw in [0, 250_000, 999_999] {
        let d = glass.scatter_direction(&unit_in, &normal, 1_500_000, draw);
        assert_eq!(d, expected);
    }
}

#[test]
fn dielectric_scatters_white() {
    let glass = Dielectric::new(1_500_000);
    let rec = front_record(MaterialKind::Dielectric(glass));
    let mut rng = RandomSource::ThreadRng;
    let r_in = Ray::new(Vec3::new(0, 2 * S, -S), Vec3::new(0, -S, 0));
    let (attenuation, scattered) = glass.scatter(&r_in, &rec, &mut rng)
        .expect("glass never absorbs");
    assert_eq!(attenuation, Vec3::new(S, S, S));
    assert_eq!(scattered.origin, rec.p);
}

#[test]
fn reflectance_grows_toward_grazing_incidence() {
    let glass = Dielectric::new(1_500_000);
    let head_on = glass.reflectance(S, 1_500_000);
    let grazing = glass.reflectance(10_000, 1_500_000);
    // r0 = ((1 - 1.5) / (1 + 1.5))^2 == 0.04
    assert_eq!(head_on, 40_000);
    assert!(grazing > head_on);
    assert!(grazing <= S);
}

#[test]
fn material_kind_dispatches() {
    let albedo = Vec3::new(S, 0, 0);
    let kind = MaterialKind::Lambertian(Lambertian::new(albedo));
    let rec = front_record(kind);
    let mut rng = RandomSource::ThreadRng;
    let r_in = Ray::new(Vec3::new(0, 2 * S, -S), Vec3::new(0, -S, 0));
    let (attenuation, _) = kind.scatter(&r_in, &rec, &mut rng).unwrap();
    assert_eq!(attenuation, albedo);
}
