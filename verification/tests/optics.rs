use raytracer::scalar::Scalar;
use raytracer::optics::lift;
use raytracer::optics::reflect;
use raytracer::optics::reflected_ray;
use raytracer::optics::refract;
use raytracer::optics::refracted_ray;
use raytracer::vector::Vec3;

fn s(raw: i64) -> Scalar {
    Scalar { raw }
}

/// The number of so many thousandths.
fn m(thousandths: i64) -> Scalar {
    Scalar { raw: thousandths * 1_000_000 }
}

fn v(x: i64, y: i64, z: i64) -> Vec3 {
    Vec3 { x: s(x), y: s(y), z: s(z) }
}

/// The vector of so many thousandths along each axis.
fn mv(x: i64, y: i64, z: i64) -> Vec3 {
    Vec3 { x: m(x), y: m(y), z: m(z) }
}

#[test]
fn reflection_flips_the_component_along_the_normal() {
    let up = mv(0, 1_000, 0);
    assert_eq!(reflect(&mv(1_000, -1_000, 0), &up), mv(1_000, 1_000, 0));
    assert_eq!(reflect(&mv(600, -800, 0), &up), mv(600, 800, 0));
    assert_eq!(reflect(&v(1, 2, 3), &mv(0, 0, 1_000)), v(1, 2, -3));
    // along (0.6, 0.8, 0) the incident vector has -0.14
    assert_eq!(reflect(&mv(300, -400, 500), &mv(600, 800, 0)), mv(468, -176, 500));
}

#[test]
fn reflected_component_is_the_opposite_of_the_incident_one() {
    let normals = [mv(0, 1_000, 0), mv(-1_000, 0, 0), mv(600, 800, 0), mv(0, -280, 960)];
    let incidents = [mv(300, -400, 500), mv(-1_000, 2_000, 7_000), mv(125, 0, -250), mv(0, 0, 0)];
    for n in normals {
        for i in incidents {
            assert_eq!(reflect(&i, &n).dot(n), i.dot(n).neg());
        }
    }
}

#[test]
fn rounding_moves_the_reflected_component_by_a_few_billionths_at_most() {
    // three billionths along each of two axes have 4.2 billionths along
    // (0.6, 0.8, 0), held as 4; the mirror image (-1, -3, 0) has -3
    let tiny = v(3, 3, 0);
    let slanted = mv(600, 800, 0);
    assert_eq!(tiny.dot(slanted), s(4));
    assert_eq!(reflect(&tiny, &slanted), v(-1, -3, 0));
    assert_eq!(reflect(&tiny, &slanted).dot(slanted), s(-3));
    // a normal made by normalizing (1, 2, 2) falls short of length one
    let normal = mv(1_000, 2_000, 2_000).normalize();
    assert_eq!(normal, v(333_333_333, 666_666_666, 666_666_666));
    let down = mv(0, -1_000, 0);
    assert_eq!(down.dot(normal), s(-666_666_666));
    assert_eq!(reflect(&down, &normal).dot(normal), s(666_666_663));
    for incident in [mv(300, -400, 500), mv(-1_000, 2_000, 7_000), v(1, 0, 0), v(-7, 11, 13)] {
        let sum = reflect(&incident, &normal).dot(normal).add(incident.dot(normal));
        assert!(sum.raw.abs() < 5 + incident.dot(normal).raw.abs() / 100_000_000);
    }
}

#[test]
fn reflecting_twice_about_an_axis_restores_the_vector() {
    let i = v(123_456_789, -987_654_321, 555);
    let n = mv(0, 0, -1_000);
    assert_eq!(reflect(&reflect(&i, &n), &n), i);
}

#[test]
fn equal_indices_do_not_bend_the_ray() {
    let up = mv(0, 1_000, 0);
    assert_eq!(refract(&mv(0, -1_000, 0), &up, &m(1_000)), mv(0, -1_000, 0));
    assert_eq!(refract(&mv(600, -800, 0), &up, &m(1_000)), mv(600, -800, 0));
}

#[test]
fn equal_indices_leave_a_grazing_ray_within_rounding() {
    let up = mv(0, 1_000, 0);
    // the cosine is 31000 billionths; its square is too small to hold, so
    // the whole of it is left along the normal
    let grazing = v(999_999_999, -31_000, 0);
    assert_eq!(refract(&grazing, &up, &m(1_000)), v(999_999_999, 0, 0));
    let slanted = mv(3_000, -1_000, 0).normalize();
    assert_eq!(slanted, v(948_683_297, -316_227_765, 0));
    let bent = refract(&slanted, &up, &m(1_000));
    assert_eq!(bent.x, slanted.x);
    assert!(bent.y.raw >= slanted.y.raw && bent.y.raw <= slanted.y.raw + 31_622);
}

#[test]
fn ray_entering_glass_bends_toward_the_normal() {
    let up = mv(0, 1_000, 0);
    assert_eq!(refract(&mv(0, -1_000, 0), &up, &m(1_500)), mv(0, -1_000, 0));
    // sine 0.6 outside becomes 0.4 inside, less the rounding of 1 / 1.5
    assert_eq!(refract(&mv(600, -800, 0), &up, &m(1_500)), v(399_999_999, -916_515_140, 0));
}

#[test]
fn ray_leaving_glass_bends_away_from_the_normal() {
    let up = mv(0, 1_000, 0);
    assert_eq!(refract(&mv(0, 1_000, 0), &up, &m(1_500)), mv(0, 1_000, 0));
    // sine 0.28 inside becomes 0.42 outside
    assert_eq!(refract(&mv(280, 960, 0), &up, &m(1_500)), v(420_000_000, 907_524_105, 0));
    // sine 0.6 inside becomes 0.9 outside
    assert_eq!(refract(&mv(600, 800, 0), &up, &m(1_500)), v(900_000_000, 435_889_895, 0));
}

#[test]
fn total_internal_reflection_gives_the_fixed_vector() {
    let up = mv(0, 1_000, 0);
    // sines 0.96 and 0.8 inside would be 1.44 and 1.2 outside
    assert_eq!(refract(&mv(960, 280, 0), &up, &m(1_500)), mv(1_000, 0, 0));
    assert_eq!(refract(&mv(800, 600, 0), &up, &m(1_500)), mv(1_000, 0, 0));
}

#[test]
fn index_zero_lets_only_the_head_on_ray_through() {
    let up = mv(0, 1_000, 0);
    assert_eq!(refract(&mv(600, -800, 0), &up, &s(0)), mv(1_000, 0, 0));
    assert_eq!(refract(&mv(0, -1_000, 0), &up, &s(0)), mv(0, -1_000, 0));
}

#[test]
fn lift_moves_to_the_side_the_direction_heads_for() {
    let up = mv(0, 1_000, 0);
    assert_eq!(lift(mv(0, 0, 0), up, mv(0, -1_000, 0), m(1)), mv(0, -1, 0));
    assert_eq!(lift(mv(0, 0, 0), up, mv(0, 1_000, 0), m(1)), mv(0, 1, 0));
    // a direction along the surface counts as leaving it
    assert_eq!(lift(mv(0, 0, 0), up, mv(1_000, 0, 0), m(1)), mv(0, 1, 0));
    assert_eq!(
        lift(mv(1_000, 2_000, 3_000), mv(600, 0, 800), mv(0, 0, 1_000), s(100_000)),
        v(1_000_060_000, 2_000_000_000, 3_000_080_000)
    );
}

#[test]
fn secondary_rays_start_a_thousandth_off_the_surface() {
    let up = mv(0, 1_000, 0);
    let point = mv(5_000, -4_000, -12_000);
    assert_eq!(
        reflected_ray(mv(600, -800, 0), point, up),
        (mv(5_000, -3_999, -12_000), mv(600, 800, 0))
    );
    assert_eq!(
        refracted_ray(mv(600, -800, 0), point, up, m(1_000)),
        (mv(5_000, -4_001, -12_000), mv(600, -800, 0))
    );
    // the fixed vector of total internal reflection runs along this surface
    assert_eq!(
        refracted_ray(mv(960, 280, 0), point, up, m(1_500)),
        (mv(5_000, -3_999, -12_000), mv(1_000, 0, 0))
    );
}
