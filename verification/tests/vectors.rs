use rustyrender::fixed::{FX_MAX, HALF, ONE};
use rustyrender::geometry::types::{Vec2f, Vec3f, TWO};

fn whole(x: i64, y: i64, z: i64) -> Vec3f {
    Vec3f::new(x * ONE, y * ONE, z * ONE)
}

#[test]
fn constructors_keep_the_components() {
    let v = Vec3f::new(1, -2, 3);
    assert_eq!((v.x, v.y, v.z), (1, -2, 3));
    let w = Vec2f::new(-4, 5);
    assert_eq!((w.x, w.y), (-4, 5));
    assert_eq!(TWO, 2 * ONE);
}

#[test]
fn vec2_adds_and_subtracts_by_component() {
    let a = Vec2f::new(3 * ONE, -ONE);
    let b = Vec2f::new(HALF, 2 * ONE);
    assert_eq!(a + b, Vec2f::new(3 * ONE + HALF, ONE));
    assert_eq!(a - b, Vec2f::new(2 * ONE + HALF, -3 * ONE));
    assert_eq!(Vec2f::new(FX_MAX, -FX_MAX) + Vec2f::new(1, -1), Vec2f::new(FX_MAX, -FX_MAX));
}

#[test]
fn vec3_subtracts_by_component() {
    assert_eq!(whole(5, 7, 9) - whole(1, 10, 9), whole(4, -3, 0));
    assert_eq!(Vec3f::new(-FX_MAX, 0, FX_MAX) - Vec3f::new(5, 0, -5), Vec3f::new(-FX_MAX, 0, FX_MAX));
}

#[test]
fn dot_product_of_whole_vectors() {
    assert_eq!(whole(1, 2, 3).dot(whole(4, 5, 6)), 32 * ONE);
    assert_eq!(whole(1, 0, 0).dot(whole(0, 1, 0)), 0);
    assert_eq!(whole(0, 0, 1).dot(whole(0, 0, -1)), -ONE);
    assert_eq!(Vec3f::new(HALF, HALF, 0).dot(Vec3f::new(HALF, HALF, ONE)), HALF);
}

#[test]
fn cross_product_is_right_handed() {
    assert_eq!(whole(1, 0, 0).cross(whole(0, 1, 0)), whole(0, 0, 1));
    assert_eq!(whole(0, 1, 0).cross(whole(0, 0, 1)), whole(1, 0, 0));
    assert_eq!(whole(0, 0, 1).cross(whole(1, 0, 0)), whole(0, 1, 0));
    assert_eq!(whole(1, 2, 3).cross(whole(4, 5, 6)), whole(-3, 6, -3));
}

#[test]
fn cross_product_changes_sign_with_the_order() {
    let a = Vec3f::new(3 * ONE + 17, -HALF, 5);
    let b = Vec3f::new(-ONE, 2 * ONE + 1, 9 * ONE);
    let ab = a.cross(b);
    let ba = b.cross(a);
    assert_eq!((ab.x, ab.y, ab.z), (-ba.x, -ba.y, -ba.z));
    assert_eq!(a.dot(b), b.dot(a));
}

#[test]
fn magnitude_is_the_floor_of_the_length() {
    assert_eq!(whole(3, 4, 0).magnitude(), 5 * ONE);
    assert_eq!(whole(0, 0, 0).magnitude(), 0);
    assert_eq!(whole(1, 1, 1).magnitude(), 7439101573);
    assert_eq!(Vec3f::new(0, -7, 0).magnitude(), 7);
    assert_eq!(Vec3f::new(1, 1, 0).magnitude(), 1);
    assert_eq!(Vec3f::new(i64::MIN, i64::MIN, i64::MIN).magnitude(), FX_MAX);
}

#[test]
fn normalize_divides_by_the_length() {
    let mut v = whole(3, 4, 0);
    v.normalize();
    assert_eq!(v, Vec3f::new(2576980377, 3435973836, 0));
    let mut w = whole(0, 0, -9);
    w.normalize();
    assert_eq!(w, whole(0, 0, -1));
    let mut d = whole(1, 1, 1);
    d.normalize();
    assert_eq!(d, Vec3f::new(2479700524, 2479700524, 2479700524));
}

#[test]
fn normalize_works_at_full_precision_on_short_vectors() {
    let mut v = Vec3f::new(65536, 65546, 0);
    v.normalize();
    assert_eq!(v, Vec3f::new(3036768804, 3037232178, 0));
    let mut w = Vec3f::new(1, 1, 1);
    w.normalize();
    assert_eq!(w, Vec3f::new(2479700524, 2479700524, 2479700524));
    let mut u = Vec3f::new(0, 7, 0);
    u.normalize();
    assert_eq!(u, Vec3f::new(0, ONE, 0));
}

#[test]
fn normalize_of_a_vector_that_is_not_finite_is_not_finite() {
    for v in [Vec3f::new(i64::MIN, 3, 3), Vec3f::new(0, FX_MAX, 0), Vec3f::new(1, 1, -FX_MAX)] {
        let mut n = v;
        n.normalize();
        assert_eq!(n, Vec3f::new(FX_MAX, FX_MAX, FX_MAX));
    }
    // The longest finite vector is normalized like any other.
    let mut w = Vec3f::new(FX_MAX - 1, 1 - FX_MAX, 0);
    w.normalize();
    assert_eq!(w, Vec3f::new(3037000499, -3037000500, 0));
}

#[test]
fn normalize_of_the_zero_vector_is_not_finite() {
    let mut v = Vec3f::new(0, 0, 0);
    v.normalize();
    assert_eq!(v, Vec3f::new(FX_MAX, FX_MAX, FX_MAX));
    assert!(!v.is_finite());
}

#[test]
fn normalized_vectors_have_length_one_within_rounding() {
    let samples = [
        whole(3, 4, 0),
        whole(1, 1, 1),
        Vec3f::new(123456789, -987654321, 555),
        Vec3f::new(-70000, 1, 65536),
        Vec3f::new(ONE * 1000, -ONE * 2000, ONE * 10),
        Vec3f::new(1 << 18, 0, 1 << 17),
        Vec3f::new(65536, 65546, 0),
        Vec3f::new(1, 1, 1),
        Vec3f::new(0, 0, -1),
        Vec3f::new(FX_MAX - 1, 1 - FX_MAX, 3),
    ];
    for s in samples {
        let mut v = s;
        v.normalize();
        let len = v.magnitude();
        assert!(ONE - 4 <= len && len <= ONE + 4, "{:?} gives {}", s, len);
    }
}

#[test]
fn finite_vectors_have_no_saturated_component() {
    assert!(whole(1, -2, 3).is_finite());
    assert!(!Vec3f::new(0, FX_MAX, 0).is_finite());
    assert!(!Vec3f::new(-FX_MAX, 0, 0).is_finite());
    assert!(!Vec3f::new(0, 0, i64::MIN).is_finite());
}

#[test]
fn to_screen_maps_the_unit_square_onto_the_picture() {
    let scale = 1000 * ONE;
    assert_eq!(whole(-1, -1, 7).to_screen(scale), whole(0, 0, 7));
    assert_eq!(whole(1, 1, -7).to_screen(scale), whole(1000, 1000, -7));
    assert_eq!(Vec3f::new(0, HALF, 5).to_screen(scale), Vec3f::new(500 * ONE, 750 * ONE, 5));
}

#[test]
fn to_screen_rounds_to_whole_pixels() {
    // (1 + 2^-9) * 500 = 500.9765625
    assert_eq!(Vec3f::new(ONE >> 9, 0, 0).to_screen(1000 * ONE).x, 501 * ONE);
    // (1 + 0.25) * 2 = 2.5 and (1 - 0.75) * 2 = 0.5: halves go up.
    assert_eq!(Vec3f::new(ONE / 4, -3 * (ONE / 4), 0).to_screen(4 * ONE), whole(3, 1, 0));
    // (1 - 1.125) * 4 = -0.5: a negative half goes down.
    assert_eq!(Vec3f::new(-ONE - ONE / 8, 0, 0).to_screen(8 * ONE).x, -ONE);
    // The depth is passed through untouched.
    assert_eq!(Vec3f::new(0, 0, 12345).to_screen(3 * ONE).z, 12345);
}

#[test]
fn to_screen_keeps_what_is_not_finite_as_such() {
    let s = Vec3f::new(FX_MAX, -ONE, 0).to_screen(4 * ONE);
    assert_eq!(s, Vec3f::new(FX_MAX, 0, 0));
    let s = Vec3f::new(0, i64::MIN, FX_MAX).to_screen(4 * ONE);
    assert_eq!(s, Vec3f::new(2 * ONE, FX_MAX, FX_MAX));
    let s = Vec3f::new(0, ONE, 0).to_screen(FX_MAX);
    assert_eq!(s, Vec3f::new(FX_MAX, FX_MAX, 0));
    assert!(!s.is_finite());
}

#[test]
fn normalize_keeps_the_signs() {
    let mut v = Vec3f::new(-5, 0, 1 << 40);
    v.normalize();
    assert_eq!(v, Vec3f::new(-1, 0, ONE));
    let mut w = Vec3f::new(-3 * ONE, 4 * ONE, 0);
    w.normalize();
    assert_eq!(w, Vec3f::new(-2576980378, 3435973836, 0));
}

#[test]
fn to_screen_is_right_or_not_finite() {
    // (2^29 + 1) * 4 / 2 is beyond the scalars.
    assert_eq!(Vec3f::new(ONE << 29, 0, 0).to_screen(4 * ONE).x, FX_MAX);
    // (2^28 + 1) * 4 / 2 = 2^29 + 2.
    assert_eq!(Vec3f::new(ONE << 28, 0, 0).to_screen(4 * ONE).x, ((1i64 << 29) + 2) * ONE);
    // The largest scale: half of it rounds up to 2^29, all of it to 2^30.
    assert_eq!(Vec3f::new(0, ONE, 0).to_screen(FX_MAX - 1), Vec3f::new(ONE << 29, FX_MAX, 0));
}

#[test]
fn products_that_overflow_do_not_cancel() {
    // x * y' - y * x' with both products beyond the scalars.
    let a = Vec3f::new(ONE << 20, ONE << 20, 0);
    let b = Vec3f::new(ONE << 20, ONE << 21, 0);
    let c = a.cross(b);
    assert_eq!((c.x, c.y), (0, 0));
    assert!(!c.is_finite());
    assert_eq!(a.dot(Vec3f::new(ONE << 20, -(ONE << 20), 0)), FX_MAX);
    // In range the products are exact.
    let s = Vec3f::new(ONE << 10, ONE << 10, 0).cross(Vec3f::new(ONE << 10, ONE << 11, 0));
    assert_eq!(s, Vec3f::new(0, 0, ONE << 20));
}

#[test]
fn normalized_vectors_are_parallel_to_their_source() {
    let samples = [
        whole(3, 4, 0),
        Vec3f::new(123456789, -987654321, 555),
        Vec3f::new(-70000, 1, 65536),
        Vec3f::new(1, -1, 1),
        Vec3f::new(FX_MAX - 1, 1 - FX_MAX, 3),
    ];
    for v in samples {
        let mut n = v;
        n.normalize();
        let cross = |a: i64, b: i64, c: i64, d: i64| (a as i128 * d as i128 - b as i128 * c as i128).abs();
        assert!(cross(n.x, n.y, v.x, v.y) <= (v.x.abs() + v.y.abs()) as i128, "{:?}", v);
        assert!(cross(n.y, n.z, v.y, v.z) <= (v.y.abs() + v.z.abs()) as i128, "{:?}", v);
        assert!(cross(n.z, n.x, v.z, v.x) <= (v.z.abs() + v.x.abs()) as i128, "{:?}", v);
    }
}
