use pathtrace::fixed::{fx_add, fx_div, fx_mul, fx_sqrt, fx_sub};
use pathtrace::rng::Rand;
use pathtrace::vec3::{to_rgb8, Vec3};
use pathtrace::SCALE;

#[test]
fn fixed_point_basics() {
    let one: i128 = SCALE;
    assert_eq!(fx_add(one, one), 2 * SCALE);
    assert_eq!(fx_sub(one, 2 * SCALE), -SCALE);
    // 1.5 * 2 = 3
    assert_eq!(fx_mul(98304, 131072), 196608);
    // 3 / 2 = 1.5
    assert_eq!(fx_div(196608, 131072), 98304);
    // sqrt(4) = 2, sqrt(0.25) = 0.5
    assert_eq!(fx_sqrt(4 * SCALE), 2 * SCALE);
    assert_eq!(fx_sqrt(SCALE / 4), SCALE / 2);
    // truncation toward zero on both signs
    assert_eq!(fx_div(-196608, 131072), -98304);
    assert_eq!(fx_mul(-98304, 131072), -196608);
}

#[test]
fn dot_and_cross() {
    let x = Vec3::new(SCALE, 0, 0);
    let y = Vec3::new(0, SCALE, 0);
    let z = Vec3::new(0, 0, SCALE);
    assert_eq!(x.dot(y), 0);
    assert_eq!(x.dot(x), SCALE);
    let c = x.cross(y);
    assert_eq!((c.x(), c.y(), c.z()), (z.x(), z.y(), z.z()));
    let v = Vec3::new(SCALE, 2 * SCALE, 3 * SCALE);
    assert_eq!(v.length_squared(), 14 * SCALE);
}

#[test]
fn unit_vector_of_pythagorean_triple() {
    // (3, 4, 0) has length 5; components of the unit vector are 3/5 and 4/5
    // up to the fixed-point quantum.
    let v = Vec3::new(3 * SCALE, 4 * SCALE, 0);
    let u = v.unit_vector();
    assert_eq!(u.x(), 39321); // 0.6 * 65536 = 39321.6, truncated
    assert_eq!(u.y(), 52428); // 0.8 * 65536 = 52428.8, truncated
    assert_eq!(u.z(), 0);
}

#[test]
fn reflection_preserves_length_and_opposes_normal() {
    // v = (1, -1, 0) against the unit normal n = (0, 1, 0):
    // reflect(v, n) = (1, 1, 0), exactly, and the normal component flips.
    let v = Vec3::new(SCALE, -SCALE, 0);
    let n = Vec3::new(0, SCALE, 0);
    let r = v.reflect(n);
    assert_eq!((r.x(), r.y(), r.z()), (SCALE, SCALE, 0));
    assert_eq!(r.dot(n), -v.dot(n));
    assert_eq!(r.length_squared(), v.length_squared());
}

#[test]
fn near_zero_detects_only_the_zero_vector() {
    assert!(Vec3::default().near_zero());
    assert!(!Vec3::new(1, 0, 0).near_zero());
    assert!(!Vec3::new(0, 0, -1).near_zero());
}

#[test]
fn refract_straight_through_at_normal_incidence() {
    // A ray entering along the normal passes straight through for any
    // refraction ratio.
    let uv = Vec3::new(0, 0, -SCALE);
    let n = Vec3::new(0, 0, SCALE);
    let eta: i128 = 43690; // about 1/1.5
    let r = uv.refract(n, eta);
    assert_eq!((r.x(), r.y(), r.z()), (0, 0, -SCALE));
}

#[test]
fn to_rgb8_applies_gamma_and_clamp() {
    // Linear (1.0, 0.25, 0.0) maps to (255, 128, 0): the top channel is
    // clamped just below one, the quarter channel gamma-corrects to one
    // half.
    let c = Vec3::new(SCALE, SCALE / 4, 0);
    assert_eq!(to_rgb8(c, 1), (255, 128, 0));
    // Averaging over samples divides first: four samples of 1.0 sum to
    // 4.0 and still map to 255.
    let acc = Vec3::new(4 * SCALE, SCALE, 0);
    assert_eq!(to_rgb8(acc, 4), (255, 128, 0));
}

#[test]
fn random_components_stay_in_range() {
    let mut rand = Rand::from_seed(42);
    for _ in 0..50 {
        let v = Vec3::random(&mut rand, -SCALE, SCALE);
        for c in [v.x(), v.y(), v.z()] {
            assert!(-SCALE <= c && c < SCALE);
        }
    }
    let mut rand = Rand::from_seed(7);
    let mut saw_nonzero = false;
    for _ in 0..20 {
        let p = Vec3::random_in_unit_sphere(&mut rand);
        assert!(p.length_squared() < SCALE);
        if p.length_squared() > 0 {
            saw_nonzero = true;
        }
        let d = Vec3::random_in_unit_disk(&mut rand);
        assert!(d.length_squared() < SCALE);
        assert_eq!(d.z(), 0);
        let n = Vec3::new(0, SCALE, 0);
        let h = Vec3::random_in_hemisphere(&mut rand, n);
        assert!(h.dot(n) >= 0);
    }
    assert!(saw_nonzero);
}

#[test]
fn unavailable_randomness_degrades_to_defaults() {
    let mut rand = Rand::none();
    let v = Vec3::random(&mut rand, -SCALE, SCALE);
    assert_eq!((v.x(), v.y(), v.z()), (0, 0, 0));
    let u = Vec3::random_unit_vector(&mut rand);
    assert_eq!((u.x(), u.y(), u.z()), (0, 0, SCALE));
}
