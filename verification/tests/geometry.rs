use pathtrace::hittable_list::HittableList;
use pathtrace::material::{Lambertian, Material};
use pathtrace::ray::Ray;
use pathtrace::sphere::Sphere;
use pathtrace::vec3::Vec3;
use pathtrace::SCALE;

fn gray() -> Material {
    Material::Lambertian(Lambertian::new(Vec3::new(SCALE / 2, SCALE / 2, SCALE / 2)))
}

fn axial_ray() -> Ray {
    Ray::new(Vec3::default(), Vec3::new(0, 0, -SCALE))
}

#[test]
fn ray_at_walks_the_parameter() {
    let r = Ray::new(Vec3::new(SCALE, 0, 0), Vec3::new(0, 0, -SCALE));
    let p = r.at(2 * SCALE);
    assert_eq!((p.x(), p.y(), p.z()), (SCALE, 0, -2 * SCALE));
}

#[test]
fn sphere_through_center_hits_at_both_roots() {
    // Center three units away, radius one: roots at t = 2 and t = 4.
    let s = Sphere::new(Vec3::new(0, 0, -3 * SCALE), SCALE, gray());
    let r = axial_ray();
    let near = s.hit(&r, 1, 100 * SCALE).expect("near root");
    assert_eq!(near.t, 2 * SCALE);
    let far = s.hit(&r, 3 * SCALE, 100 * SCALE).expect("far root");
    assert_eq!(far.t, 4 * SCALE);
    // No root strictly inside a window past both.
    assert!(s.hit(&r, 5 * SCALE, 100 * SCALE).is_none());
}

#[test]
fn sphere_missed_when_offset_exceeds_radius() {
    // Perpendicular distance two, radius one: no hit.
    let s = Sphere::new(Vec3::new(0, 2 * SCALE, -3 * SCALE), SCALE, gray());
    assert!(s.hit(&axial_ray(), 1, 100 * SCALE).is_none());
}

#[test]
fn hit_normal_opposes_incoming_ray() {
    let r = axial_ray();
    // Outside hit: the normal points back along +z.
    let s = Sphere::new(Vec3::new(0, 0, -3 * SCALE), SCALE, gray());
    let rec = s.hit(&r, 1, 100 * SCALE).unwrap();
    assert!(rec.front_face);
    assert!(rec.normal.dot(r.direction()) <= 0);
    // Inside hit (ray origin inside the sphere): still opposing.
    let enclosing = Sphere::new(Vec3::default(), 5 * SCALE, gray());
    let inside = enclosing.hit(&r, 1, 100 * SCALE).unwrap();
    assert!(!inside.front_face);
    assert!(inside.normal.dot(r.direction()) <= 0);
}

#[test]
fn negative_radius_flips_orientation() {
    let r = axial_ray();
    let solid = Sphere::new(Vec3::new(0, 0, -3 * SCALE), SCALE, gray());
    let shell = Sphere::new(Vec3::new(0, 0, -3 * SCALE), -SCALE, gray());
    let a = solid.hit(&r, 1, 100 * SCALE).unwrap();
    let b = shell.hit(&r, 1, 100 * SCALE).unwrap();
    assert_eq!(a.t, b.t);
    assert_eq!((a.p.x(), a.p.y(), a.p.z()), (b.p.x(), b.p.y(), b.p.z()));
    // The outward geometric normal flips, so the face flag flips while the
    // stored (ray-opposing) normal agrees.
    assert_eq!(a.front_face, !b.front_face);
    assert_eq!(
        (a.normal.x(), a.normal.y(), a.normal.z()),
        (b.normal.x(), b.normal.y(), b.normal.z())
    );
}

#[test]
fn list_returns_closest_hit_and_clear_empties() {
    let mut world = HittableList::new();
    world.add(Sphere::new(Vec3::new(0, 0, -8 * SCALE), SCALE, gray()));
    world.add(Sphere::new(Vec3::new(0, 0, -3 * SCALE), SCALE, gray()));
    world.add(Sphere::new(Vec3::new(0, 0, -20 * SCALE), SCALE, gray()));
    let r = axial_ray();
    let rec = world.hit(&r, 1, 1000 * SCALE).expect("closest hit");
    assert_eq!(rec.t, 2 * SCALE);
    world.clear();
    assert!(world.hit(&r, 1, 1000 * SCALE).is_none());
}

#[test]
fn list_respects_the_query_window() {
    let mut world = HittableList::new();
    world.add(Sphere::new(Vec3::new(0, 0, -3 * SCALE), SCALE, gray()));
    let r = axial_ray();
    // Only the far root lies inside this window.
    let rec = world.hit(&r, 3 * SCALE, 1000 * SCALE).expect("far root");
    assert_eq!(rec.t, 4 * SCALE);
    assert!(world.hit(&r, 5 * SCALE, 1000 * SCALE).is_none());
}
