use raytracer::material::Material;
use raytracer::scalar::Scalar;
use raytracer::scene::floor_colour;
use raytracer::scene::scene_intersect;
use raytracer::scene::Light;
use raytracer::sphere::Sphere;
use raytracer::vector::Vec3;
use raytracer::vector::Vec4;

fn s(raw: i64) -> Scalar {
    Scalar { raw }
}

/// The number of so many thousandths.
fn m(thousandths: i64) -> Scalar {
    Scalar { raw: thousandths * 1_000_000 }
}

fn v(x: i64, y: i64, z: i64) -> Vec3 {
    Vec3 { x: s(x), y: s(y), z: s(z) }
}

/// The vector of so many thousandths along each axis.
fn mv(x: i64, y: i64, z: i64) -> Vec3 {
    Vec3 { x: m(x), y: m(y), z: m(z) }
}

fn white_square() -> Material {
    floor(mv(300, 300, 300))
}

fn orange_square() -> Material {
    floor(mv(300, 210, 90))
}

fn floor(colour: Vec3) -> Material {
    Material::new(colour, Vec4::new(m(1_000), s(0), s(0), s(0)), s(0), m(1_000))
}

fn up() -> Vec3 {
    mv(0, 1_000, 0)
}

fn down() -> Vec3 {
    mv(0, -1_000, 0)
}

fn forward() -> Vec3 {
    mv(0, 0, -1_000)
}

#[test]
fn light_keeps_its_parts() {
    let light = Light::new(v(1, 2, 3), s(4));
    assert_eq!(light.position, v(1, 2, 3));
    assert_eq!(light.intensity, s(4));
}

#[test]
fn empty_scene_shows_nothing_ahead() {
    assert_eq!(scene_intersect(&mv(0, 0, 0), &forward(), &vec![]), None);
    assert_eq!(scene_intersect(&mv(0, 0, 0), &up(), &vec![]), None);
}

#[test]
fn sphere_hit_gives_material_point_and_outward_normal() {
    let spheres = vec![Sphere::new(mv(6_000, 0, -8_000), m(1_000), Material::ivory())];
    let hit = scene_intersect(&mv(0, 0, 0), &mv(600, 0, -800), &spheres);
    assert_eq!(hit, Some((Material::ivory(), mv(5_400, 0, -7_200), mv(-600, 0, 800))));
}

#[test]
fn nearer_sphere_wins_whatever_the_order() {
    let near = Sphere::new(mv(0, 0, -10_000), m(2_000), Material::red_rubber());
    let far = Sphere::new(mv(0, 0, -20_000), m(2_000), Material::ivory());
    let expected = Some((Material::red_rubber(), mv(0, 0, -8_000), mv(0, 0, 1_000)));
    assert_eq!(scene_intersect(&mv(0, 0, 0), &forward(), &vec![far, near]), expected);
    assert_eq!(scene_intersect(&mv(0, 0, 0), &forward(), &vec![near, far]), expected);
}

#[test]
fn first_of_two_spheres_at_the_same_distance_wins() {
    let ivory = Sphere::new(mv(0, 0, -10_000), m(2_000), Material::ivory());
    let rubber = Sphere::new(mv(0, 0, -10_000), m(2_000), Material::red_rubber());
    assert_eq!(
        scene_intersect(&mv(0, 0, 0), &forward(), &vec![ivory, rubber]),
        Some((Material::ivory(), mv(0, 0, -8_000), mv(0, 0, 1_000)))
    );
    assert_eq!(
        scene_intersect(&mv(0, 0, 0), &forward(), &vec![rubber, ivory]),
        Some((Material::red_rubber(), mv(0, 0, -8_000), mv(0, 0, 1_000)))
    );
}

#[test]
fn sphere_at_the_horizon_is_out_of_sight() {
    let at = Sphere::new(mv(0, 0, -1_002_000), m(2_000), Material::ivory());
    let within = Sphere::new(mv(0, 0, -1_001_999), m(2_000), Material::ivory());
    assert_eq!(scene_intersect(&mv(0, 0, 0), &forward(), &vec![at]), None);
    assert_eq!(
        scene_intersect(&mv(0, 0, 0), &forward(), &vec![within]),
        Some((Material::ivory(), mv(0, 0, -999_999), mv(0, 0, 1_000)))
    );
}

#[test]
fn sphere_out_of_sight_does_not_hide_one_in_sight() {
    let beyond = Sphere::new(mv(0, 0, -1_002_000), m(2_000), Material::ivory());
    let near = Sphere::new(mv(0, 0, -500_000), m(2_000), Material::red_rubber());
    assert_eq!(
        scene_intersect(&mv(0, 0, 0), &forward(), &vec![beyond, near]),
        Some((Material::red_rubber(), mv(0, 0, -498_000), mv(0, 0, 1_000)))
    );
}

#[test]
fn ray_down_to_the_board_meets_the_floor() {
    // along (0, -0.28, -0.96) the plane four below lies 4 / 0.28 ahead
    let hit = scene_intersect(&mv(0, 0, 0), &mv(0, -280, -960), &vec![]);
    assert_eq!(hit, Some((orange_square(), v(0, -3_999_999_999, -13_714_285_713), up())));
    let hit = scene_intersect(&mv(0, 0, 0), &mv(600, -280, -742), &vec![]);
    assert_eq!(hit, Some((white_square(), v(8_571_428_571, -3_999_999_999, -10_599_999_999), up())));
}

#[test]
fn floor_is_met_from_below_too() {
    let hit = scene_intersect(&mv(0, -5_000, -12_000), &up(), &vec![]);
    assert_eq!(hit, Some((white_square(), mv(0, -4_000, -12_000), up())));
}

#[test]
fn floor_behind_the_ray_is_not_met() {
    assert_eq!(scene_intersect(&mv(0, 0, -12_000), &up(), &vec![]), None);
    assert_eq!(scene_intersect(&mv(0, -5_000, -12_000), &down(), &vec![]), None);
    assert_eq!(scene_intersect(&mv(0, 0, 0), &mv(0, 280, -960), &vec![]), None);
    // starting on the plane itself
    assert_eq!(scene_intersect(&mv(0, -4_000, -12_000), &down(), &vec![]), None);
}

#[test]
fn ray_along_the_floor_does_not_meet_it() {
    let just_above = mv(0, -3_999, -12_000);
    let hit = scene_intersect(&just_above, &v(0, -1_000_001, -999_999_999), &vec![]);
    assert_eq!(hit, Some((orange_square(), v(0, -3_999_999_999, -12_999_998_999), up())));
    assert_eq!(scene_intersect(&just_above, &v(0, -1_000_000, -999_999_999), &vec![]), None);
    assert_eq!(scene_intersect(&just_above, &forward(), &vec![]), None);
}

#[test]
fn board_ends_at_its_edges() {
    let over = |x: i64, z: i64| scene_intersect(&mv(x, 0, z), &down(), &vec![]);
    assert_eq!(over(9_999, -12_000), Some((white_square(), mv(9_999, -4_000, -12_000), up())));
    assert_eq!(over(10_000, -12_000), None);
    assert_eq!(over(-9_999, -12_000), Some((orange_square(), mv(-9_999, -4_000, -12_000), up())));
    assert_eq!(over(-10_000, -12_000), None);
    assert_eq!(over(0, -10_000), None);
    assert_eq!(over(0, -10_001), Some((white_square(), mv(0, -4_000, -10_001), up())));
    assert_eq!(over(0, -30_000), None);
    assert_eq!(over(0, -29_999), Some((orange_square(), mv(0, -4_000, -29_999), up())));
}

#[test]
fn floor_at_the_horizon_is_out_of_sight() {
    assert_eq!(scene_intersect(&mv(0, 996_000, -12_000), &down(), &vec![]), None);
    assert_eq!(
        scene_intersect(&mv(0, 995_999, -12_000), &down(), &vec![]),
        Some((white_square(), mv(0, -4_000, -12_000), up()))
    );
}

#[test]
fn sphere_before_the_floor_hides_it() {
    let spheres = vec![Sphere::new(mv(0, -2_000, -6_857), m(1_000), Material::ivory())];
    let hit = scene_intersect(&mv(0, 0, 0), &mv(0, -280, -960), &spheres);
    assert_eq!(
        hit,
        Some((Material::ivory(), v(0, -1_719_961_600, -5_897_011_200), v(0, 280_038_399, 959_988_799)))
    );
}

#[test]
fn floor_before_a_sphere_hides_it() {
    let spheres = vec![Sphere::new(mv(0, -8_000, -27_428), m(1_000), Material::ivory())];
    let hit = scene_intersect(&mv(0, 0, 0), &mv(0, -280, -960), &spheres);
    assert_eq!(hit, Some((orange_square(), v(0, -3_999_999_999, -13_714_285_713), up())));
}

#[test]
fn floor_keeps_the_default_material_whatever_spheres_are_met() {
    // the ray runs through the sphere's far half after the floor
    let spheres = vec![Sphere::new(mv(0, -8_000, -27_428), m(1_000), Material::glass())];
    let hit = scene_intersect(&mv(0, 0, 0), &mv(0, -280, -960), &spheres);
    let (material, _, _) = hit.unwrap();
    assert_eq!(material.albedo, Material::default().albedo);
    assert_eq!(material.specular_exponent, Material::default().specular_exponent);
    assert_eq!(material.refractive_index, Material::default().refractive_index);
}

#[test]
fn squares_are_two_wide_and_alternate() {
    let white = mv(300, 300, 300);
    let orange = mv(300, 210, 90);
    assert_eq!(floor_colour(mv(0, 0, -12_000)), white);
    assert_eq!(floor_colour(mv(0, 0, -11_000)), white);
    assert_eq!(floor_colour(mv(1_999, 0, -11_000)), white);
    assert_eq!(floor_colour(mv(2_000, 0, -12_000)), orange);
    assert_eq!(floor_colour(mv(-1_000, 0, -11_000)), orange);
    assert_eq!(floor_colour(v(-1, 0, -12_000_000_000)), orange);
    assert_eq!(floor_colour(mv(-3_000, 0, -13_000)), orange);
    assert_eq!(floor_colour(mv(2_000, 0, -14_000)), white);
    assert_eq!(floor_colour(mv(0, 0, 0)), white);
    assert_eq!(floor_colour(mv(0, 777, 0)), white);
}

#[test]
fn square_under_one_and_minus_fifteen_is_white() {
    // half of 1 rounds down to 0 and half of -15 to -8: an even sum
    assert_eq!(floor_colour(mv(1_000, 0, -15_000)), mv(300, 300, 300));
    let hit = scene_intersect(&mv(1_000, 0, -15_000), &down(), &vec![]);
    assert_eq!(hit, Some((white_square(), mv(1_000, -4_000, -15_000), up())));
}

#[test]
fn floor_has_the_refractive_index_of_empty_space() {
    let (material, _, _) = scene_intersect(&mv(1_000, 0, -15_000), &down(), &vec![]).unwrap();
    assert_eq!(material.refractive_index, m(1_000));
    assert_eq!(material.specular_exponent, s(0));
    assert_eq!(material.albedo, Vec4::new(m(1_000), s(0), s(0), s(0)));
}
