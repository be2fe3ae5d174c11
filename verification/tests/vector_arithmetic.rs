use raytracer::scalar::Scalar;
use raytracer::vector::Vec3;
use raytracer::vector::Vec4;

fn s(raw: i64) -> Scalar {
    Scalar { raw }
}

fn v(x: i64, y: i64, z: i64) -> Vec3 {
    Vec3 { x: s(x), y: s(y), z: s(z) }
}

/// The vector of so many thousandths along each axis.
fn mv(x: i64, y: i64, z: i64) -> Vec3 {
    v(x * 1_000_000, y * 1_000_000, z * 1_000_000)
}

#[test]
fn constructors_keep_their_arguments() {
    assert_eq!(Vec3::new(s(1), s(2), s(3)), v(1, 2, 3));
    assert_eq!(Vec3::splat(s(7)), v(7, 7, 7));
    let w = Vec4::new(s(1), s(2), s(3), s(4));
    assert_eq!((w.x, w.y, w.z, w.w), (s(1), s(2), s(3), s(4)));
}

#[test]
fn sums_go_by_component() {
    assert_eq!(v(1, 2, 3).add(v(10, 20, 30)), v(11, 22, 33));
    assert_eq!(v(1, 2, 3).sub(v(10, 20, 30)), v(-9, -18, -27));
    assert_eq!(v(1, -2, 3).neg(), v(-1, 2, -3));
    assert_eq!(v(i64::MAX, i64::MIN, 0).add(v(1, -1, 0)), v(i64::MAX, i64::MIN, 0));
    assert_eq!(v(i64::MIN, 0, 0).neg(), v(i64::MAX, 0, 0));
}

#[test]
fn scaling_rounds_each_component_toward_zero() {
    assert_eq!(mv(1_000, 700, 300).scale(s(300_000_000)), mv(300, 210, 90));
    assert_eq!(v(3, -3, 1_000_000_001).scale(s(500_000_000)), v(1, -1, 500_000_000));
}

#[test]
fn dot_product_rounds_once() {
    // Half of a billionth, three times over: each product alone is too small
    // to hold, but their exact sum is a billionth and a half.
    assert_eq!(mv(500, 500, 500).dot(v(1, 1, 1)), s(1));
    assert_eq!(mv(1_000, 2_000, 3_000).dot(mv(4_000, -5_000, 6_000)), s(12_000_000_000));
    assert_eq!(mv(600, 800, 0).dot(mv(600, 800, 0)), s(1_000_000_000));
    assert_eq!(v(1, 0, 0).dot(v(-999_999_999, 0, 0)), s(0));
    assert_eq!(v(3, 0, 0).dot(mv(-500, 0, 0)), s(-1));
}

#[test]
fn dot_product_of_extremes_saturates() {
    let top = v(i64::MIN, i64::MIN, i64::MIN);
    assert_eq!(top.dot(top), s(i64::MAX));
    assert_eq!(top.dot(top.neg()), s(i64::MIN));
    // the two huge products all but cancel: 2^63 and six units squared are left
    assert_eq!(v(i64::MIN, i64::MIN, 2_000_000_000).dot(v(i64::MIN, i64::MAX, 3_000_000_000)), s(15_223_372_036));
    // here they cancel exactly
    assert_eq!(v(i64::MAX, i64::MAX, 2_000_000_000).dot(v(i64::MAX, -i64::MAX, 3_000_000_000)), s(6_000_000_000));
}

#[test]
fn length_is_the_root_of_the_exact_sum_of_squares() {
    assert_eq!(mv(3_000, 4_000, 0).length(), s(5_000_000_000));
    assert_eq!(mv(0, 0, -1_000).length(), s(1_000_000_000));
    assert_eq!(v(1, 1, 0).length(), s(2));
    assert_eq!(v(1_500, 0, 0).length(), s(1_500));
    assert_eq!(v(0, 0, 0).length(), s(0));
    assert_eq!(v(i64::MIN, i64::MIN, i64::MIN).length(), s(i64::MAX));
}

#[test]
fn normalized_vector_has_unit_length() {
    assert_eq!(mv(3_000, 4_000, 0).normalize(), mv(600, 800, 0));
    assert_eq!(mv(0, 0, -24_000).normalize(), mv(0, 0, -1_000));
    assert_eq!(mv(0, 18_000, 24_000).normalize(), mv(0, 600, 800));
    assert_eq!(v(1_500, 0, 0).normalize(), mv(1_000, 0, 0));
    assert_eq!(mv(1_000, 1_000, 1_000).normalize(), v(577_350_269, 577_350_269, 577_350_269));
}

#[test]
fn normalized_zero_vector_is_zero() {
    assert_eq!(v(0, 0, 0).normalize(), v(0, 0, 0));
}

#[test]
fn colour_bytes_clamp_each_channel() {
    assert_eq!(mv(200, 700, 800).to_rgb(), (51, 178, 204));
    assert_eq!(v(-1, 1_000_000_000, 5_000_000_000).to_rgb(), (0, 255, 255));
    assert_eq!(mv(400, 400, 300).to_rgb(), (102, 102, 76));
}
