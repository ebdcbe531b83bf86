use pathtrace::hittable::HitRecord;
use pathtrace::material::{Dielectric, Lambertian, Material, Metal};
use pathtrace::ray::Ray;
use pathtrace::rng::Rand;
use pathtrace::vec3::Vec3;
use pathtrace::SCALE;

// 0.7071 in fixed point: the components of a unit vector at 45 degrees.
const DIAG: i128 = 46341;

fn record_at_origin(mat: Material, r: &Ray, outward: Vec3) -> HitRecord {
    let mut rec = HitRecord::new(Vec3::default(), SCALE, mat);
    rec.set_face_normal(r, outward);
    rec
}

#[test]
fn lambertian_without_randomness_scatters_along_the_fallback_axis() {
    let albedo = Vec3::new(SCALE / 2, SCALE / 4, SCALE / 8);
    let mat = Material::Lambertian(Lambertian::new(albedo));
    let r = Ray::new(Vec3::new(0, 0, SCALE), Vec3::new(0, 0, -SCALE));
    let rec = record_at_origin(mat, &r, Vec3::new(0, 0, SCALE));
    let mut rand = Rand::none();
    let (att, scattered) = mat.scatter(&r, &rec, &mut rand).expect("always scatters");
    assert_eq!((att.x(), att.y(), att.z()), (albedo.x(), albedo.y(), albedo.z()));
    // The degraded unit sample is the z axis, so the direction is
    // normal + (0, 0, 1) = (0, 0, 2).
    let d = scattered.direction();
    assert_eq!((d.x(), d.y(), d.z()), (0, 0, 2 * SCALE));
}

#[test]
fn lambertian_scatters_near_the_normal() {
    let mat = Material::Lambertian(Lambertian::new(Vec3::new(SCALE, SCALE, SCALE)));
    let r = Ray::new(Vec3::new(0, 0, SCALE), Vec3::new(0, 0, -SCALE));
    let rec = record_at_origin(mat, &r, Vec3::new(0, 0, SCALE));
    let mut rand = Rand::from_seed(3);
    for _ in 0..20 {
        let (_, scattered) = mat.scatter(&r, &rec, &mut rand).expect("always scatters");
        // normal + unit sample: never more than one unit away from the
        // normal tip, so the z component never turns negative.
        assert!(scattered.direction().z() >= 0);
    }
}

#[test]
fn mirror_metal_reflects_exactly() {
    let albedo = Vec3::new(SCALE, SCALE / 2, SCALE / 2);
    let mat = Material::Metal(Metal::new(albedo, 0));
    // Incoming at 45 degrees onto the plane with normal +z.
    let r = Ray::new(Vec3::new(-DIAG, 0, DIAG), Vec3::new(DIAG, 0, -DIAG));
    let rec = record_at_origin(mat, &r, Vec3::new(0, 0, SCALE));
    let mut rand = Rand::from_seed(11);
    let (att, scattered) = mat.scatter(&r, &rec, &mut rand).expect("grazing-free reflection");
    assert_eq!((att.x(), att.y(), att.z()), (albedo.x(), albedo.y(), albedo.z()));
    let d = scattered.direction();
    assert_eq!((d.x(), d.y(), d.z()), (DIAG, 0, DIAG));
}

#[test]
fn metal_absorbs_directions_into_the_surface() {
    // Maximum fuzz with a grazing reflection can push the direction below
    // the surface; a head-on mirror never declines.
    let mat = Material::Metal(Metal::new(Vec3::new(SCALE, SCALE, SCALE), 0));
    let r = Ray::new(Vec3::new(0, 0, SCALE), Vec3::new(0, 0, -SCALE));
    let rec = record_at_origin(mat, &r, Vec3::new(0, 0, SCALE));
    let mut rand = Rand::from_seed(5);
    assert!(mat.scatter(&r, &rec, &mut rand).is_some());
}

#[test]
fn metal_caps_fuzz_at_one() {
    let m = Metal::new(Vec3::new(SCALE, SCALE, SCALE), 3 * SCALE);
    assert_eq!(m.fuzz, SCALE);
    let m2 = Metal::new(Vec3::new(SCALE, SCALE, SCALE), SCALE / 2);
    assert_eq!(m2.fuzz, SCALE / 2);
}

#[test]
fn dielectric_total_internal_reflection_always_reflects() {
    // Inside glass (index 1.5), hitting the boundary at 45 degrees:
    // ratio * sin_theta > 1 forces a reflection, deterministically, even
    // with no randomness available.
    let glass = Dielectric::new(98304);
    let mat = Material::Dielectric(glass);
    let r = Ray::new(Vec3::new(-DIAG, 0, DIAG), Vec3::new(DIAG, 0, -DIAG));
    // Outward normal points along -z (leaving the glass); the stored
    // normal then opposes the ray along +z with front_face false.
    let mut rec = HitRecord::new(Vec3::default(), SCALE, mat);
    rec.set_face_normal(&r, Vec3::new(0, 0, -SCALE));
    assert!(!rec.front_face);
    let mut rand = Rand::none();
    let (att, scattered) = mat.scatter(&r, &rec, &mut rand).expect("never declines");
    assert_eq!((att.x(), att.y(), att.z()), (SCALE, SCALE, SCALE));
    let d = scattered.direction();
    assert_eq!((d.x(), d.y(), d.z()), (DIAG, 0, DIAG));
}

#[test]
fn dielectric_refracts_straight_through_head_on() {
    // Head-on incidence: no bending, and without randomness the
    // non-reflective branch is taken.
    let mat = Material::Dielectric(Dielectric::new(98304));
    let r = Ray::new(Vec3::new(0, 0, SCALE), Vec3::new(0, 0, -SCALE));
    let rec = record_at_origin(mat, &r, Vec3::new(0, 0, SCALE));
    assert!(rec.front_face);
    let mut rand = Rand::none();
    let (_, scattered) = mat.scatter(&r, &rec, &mut rand).expect("never declines");
    let d = scattered.direction();
    assert_eq!((d.x(), d.y(), d.z()), (0, 0, -SCALE));
}
