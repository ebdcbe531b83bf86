use pathtrace::camera::Camera;
use pathtrace::hittable_list::HittableList;
use pathtrace::material::{Lambertian, Material};
use pathtrace::ray::Ray;
use pathtrace::rng::Rand;
use pathtrace::sphere::Sphere;
use pathtrace::vec3::{to_rgb8, Vec3};
use pathtrace::SCALE;

#[test]
fn depth_zero_is_black_for_any_ray() {
    let world = HittableList::new();
    let mut rand = Rand::from_seed(1);
    for dir in [
        Vec3::new(SCALE, 0, 0),
        Vec3::new(0, -SCALE, 7 * SCALE),
        Vec3::default(),
    ] {
        let c = Ray::new(Vec3::new(SCALE, SCALE, SCALE), dir).color(&world, 0, &mut rand);
        assert_eq!((c.x(), c.y(), c.z()), (0, 0, 0));
    }
}

#[test]
fn empty_scene_returns_the_sky_gradient() {
    let world = HittableList::new();
    let mut rand = Rand::from_seed(1);
    // Level direction: the exact average of white and sky blue.
    let level = Ray::new(Vec3::default(), Vec3::new(SCALE, 0, 0)).color(&world, 5, &mut rand);
    assert_eq!((level.x(), level.y(), level.z()), (49152, 55705, 65536));
    // Straight up: pure sky blue.
    let up = Ray::new(Vec3::default(), Vec3::new(0, SCALE, 0)).color(&world, 5, &mut rand);
    assert_eq!((up.x(), up.y(), up.z()), (32768, 45875, 65536));
    // Straight down: pure white.
    let down = Ray::new(Vec3::default(), Vec3::new(0, -SCALE, 0)).color(&world, 5, &mut rand);
    assert_eq!((down.x(), down.y(), down.z()), (SCALE, SCALE, SCALE));
}

#[test]
fn absorbed_paths_are_black_and_colors_stay_in_range() {
    let mut world = HittableList::new();
    world.add(Sphere::new(
        Vec3::new(0, 0, -3 * SCALE),
        SCALE,
        Material::Lambertian(Lambertian::new(Vec3::new(SCALE / 2, SCALE / 2, SCALE / 2))),
    ));
    let mut rand = Rand::from_seed(9);
    for i in 0..30_i128 {
        let r = Ray::new(Vec3::default(), Vec3::new(i * 1000, i * 500, -SCALE));
        let c = r.color(&world, 8, &mut rand);
        for ch in [c.x(), c.y(), c.z()] {
            assert!(0 <= ch && ch <= SCALE);
        }
    }
}

fn straight_down_z_camera() -> Camera {
    Camera::new(
        Vec3::default(),
        Vec3::new(0, 0, -SCALE),
        Vec3::new(0, SCALE, 0),
        90 * SCALE,
        SCALE,
        0,
        SCALE,
    )
}

#[test]
fn closed_aperture_rays_are_deterministic() {
    let cam = straight_down_z_camera();
    let mut rand = Rand::from_seed(4);
    let s: i128 = 20000;
    let t: i128 = 40000;
    let r1 = cam.get_ray(s, t, &mut rand);
    let r2 = cam.get_ray(s, t, &mut rand);
    assert_eq!(r1.origin().x(), r2.origin().x());
    assert_eq!(r1.origin().y(), r2.origin().y());
    assert_eq!(r1.origin().z(), r2.origin().z());
    assert_eq!(r1.direction().x(), r2.direction().x());
    assert_eq!(r1.direction().y(), r2.direction().y());
    assert_eq!(r1.direction().z(), r2.direction().z());
}

#[test]
fn open_aperture_perturbs_origin_but_keeps_the_target() {
    let cam = Camera::new(
        Vec3::default(),
        Vec3::new(0, 0, -SCALE),
        Vec3::new(0, SCALE, 0),
        90 * SCALE,
        SCALE,
        2 * SCALE,
        SCALE,
    );
    let mut rand = Rand::from_seed(12);
    let s: i128 = 20000;
    let t: i128 = 40000;
    let mut saw_different_origin = false;
    let r1 = cam.get_ray(s, t, &mut rand);
    let target1 = r1.origin().add(r1.direction());
    for _ in 0..10 {
        let r2 = cam.get_ray(s, t, &mut rand);
        if r2.origin().x() != r1.origin().x() || r2.origin().y() != r1.origin().y() {
            saw_different_origin = true;
        }
        // Origin plus direction lands on the same image-plane target.
        let target2 = r2.origin().add(r2.direction());
        assert_eq!(target1.x(), target2.x());
        assert_eq!(target1.y(), target2.y());
        assert_eq!(target1.z(), target2.z());
    }
    assert!(saw_different_origin);
}

#[test]
fn lambertian_sphere_center_darker_than_sky() {
    // One diffuse sphere of radius one half, one unit down the axis, lit
    // by the sky; the center pixel must come out strictly darker than a
    // border pixel that sees only sky.
    let mut world = HittableList::new();
    world.add(Sphere::new(
        Vec3::new(0, 0, -SCALE),
        SCALE / 2,
        Material::Lambertian(Lambertian::new(Vec3::new(SCALE / 2, SCALE / 2, SCALE / 2))),
    ));
    let cam = straight_down_z_camera();
    let mut rand = Rand::from_seed(2024);
    let samples: i64 = 60;
    let mut center_acc = Vec3::default();
    let mut border_acc = Vec3::default();
    for _ in 0..samples {
        let center_ray = cam.get_ray(SCALE / 2, SCALE / 2, &mut rand);
        center_acc = center_acc.add(center_ray.color(&world, 10, &mut rand));
        let border_ray = cam.get_ray(0, 0, &mut rand);
        border_acc = border_acc.add(border_ray.color(&world, 10, &mut rand));
    }
    let center = to_rgb8(center_acc, samples);
    let border = to_rgb8(border_acc, samples);
    assert!(center.0 < border.0);
    assert!(center.1 < border.1);
    assert!(center.2 < border.2);
}
