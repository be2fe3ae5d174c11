use raytracer::camera::pixel;
use raytracer::camera::primary_direction;
use raytracer::camera::render;
use raytracer::camera::render_frame;
use raytracer::camera::HEIGHT;
use raytracer::camera::WIDTH;
use raytracer::material::Material;
use raytracer::scalar::Scalar;
use raytracer::scene::Light;
use raytracer::shading::cast_ray;
use raytracer::sphere::Sphere;
use raytracer::vector::Vec3;

fn s(raw: i64) -> Scalar {
    Scalar { raw }
}

/// The number of so many thousandths.
fn m(thousandths: i64) -> Scalar {
    Scalar { raw: thousandths * 1_000_000 }
}

fn v(x: i64, y: i64, z: i64) -> Vec3 {
    Vec3 { x: s(x), y: s(y), z: s(z) }
}

/// The vector of so many thousandths along each axis.
fn mv(x: i64, y: i64, z: i64) -> Vec3 {
    Vec3 { x: m(x), y: m(y), z: m(z) }
}

const BACKGROUND: (u8, u8, u8) = (51, 178, 204);

fn one_ball() -> (Vec<Sphere>, Vec<Light>) {
    (
        vec![Sphere::new(mv(-3_000, 0, -16_000), m(2_000), Material::ivory())],
        vec![Light::new(mv(-20_000, 20_000, 20_000), m(1_500))],
    )
}

fn four_balls() -> (Vec<Sphere>, Vec<Light>) {
    (
        vec![
            Sphere::new(mv(-3_000, 0, -16_000), m(2_000), Material::ivory()),
            Sphere::new(mv(1_500, -500, -18_000), m(3_000), Material::red_rubber()),
            Sphere::new(mv(-1_000, -1_500, -12_000), m(2_000), Material::glass()),
            Sphere::new(mv(7_000, 5_000, -18_000), m(4_000), Material::mirror()),
        ],
        vec![
            Light::new(mv(-20_000, 20_000, 20_000), m(1_500)),
            Light::new(mv(30_000, 50_000, -25_000), m(1_800)),
            Light::new(mv(30_000, 20_000, 30_000), m(1_700)),
        ],
    )
}

fn squared_distance(a: Vec3, b: Vec3) -> i128 {
    let d = |p: Scalar, q: Scalar| (p.raw as i128 - q.raw as i128).pow(2);
    d(a.x, b.x) + d(a.y, b.y) + d(a.z, b.z)
}

#[test]
fn standard_frame_is_four_by_three() {
    assert_eq!((WIDTH, HEIGHT), (1024, 768));
}

#[test]
fn single_pixel_looks_straight_ahead() {
    assert_eq!(primary_direction(0, 0, 1, 1), mv(0, 0, -1_000));
}

#[test]
fn corner_pixels_look_through_the_centres_of_the_quarters() {
    // on a 2 by 2 frame the centres lie at plus and minus one half
    assert_eq!(primary_direction(0, 0, 2, 2), v(-408_248_290, 408_248_290, -816_496_580));
    assert_eq!(primary_direction(1, 1, 2, 2), v(408_248_290, -408_248_290, -816_496_580));
    assert_eq!(primary_direction(1, 0, 2, 2), v(408_248_290, 408_248_290, -816_496_580));
}

#[test]
fn wide_frame_spreads_sideways() {
    // on a 4 by 2 frame the outer columns lie at plus and minus one and a
    // half, the rows at plus and minus one half
    assert_eq!(primary_direction(0, 0, 4, 2), v(-801_783_725, 267_261_241, -534_522_483));
    assert_eq!(primary_direction(3, 1, 4, 2), v(801_783_725, -267_261_241, -534_522_483));
}

#[test]
fn standard_frame_directions() {
    assert_eq!(primary_direction(512, 384, 1024, 768), v(1_302_080, -1_302_080, -999_998_304));
    assert_eq!(primary_direction(0, 0, 1024, 768), v(-685_875_938, 514_239_339, -514_909_795));
}

#[test]
fn pixel_is_the_colour_of_its_ray_in_bytes() {
    let (spheres, lights) = one_ball();
    for (i, j) in [(439, 383), (480, 383), (0, 0)] {
        let direction = primary_direction(i, j, WIDTH, HEIGHT);
        let colour = cast_ray(&mv(0, 0, 0), &direction, &spheres, &lights, 0);
        assert_eq!(pixel(i, j, WIDTH, HEIGHT, &spheres, &lights), colour.to_rgb());
    }
}

#[test]
fn centre_of_the_ball_looks_like_ivory() {
    let (spheres, lights) = one_ball();
    // the centre of the ball projects between columns 439 and 440 and
    // between rows 383 and 384
    let ivory = Material::ivory().diffuse_colour;
    let background = Material::default().diffuse_colour;
    for (i, j) in [(439, 383), (440, 383), (439, 384), (440, 384)] {
        let direction = primary_direction(i, j, WIDTH, HEIGHT);
        let colour = cast_ray(&mv(0, 0, 0), &direction, &spheres, &lights, 0);
        assert!(squared_distance(colour, ivory) < squared_distance(colour, background));
    }
    assert_eq!(pixel(439, 383, WIDTH, HEIGHT, &spheres, &lights), (80, 118, 110));
    assert_eq!(pixel(440, 384, WIDTH, HEIGHT, &spheres, &lights), (78, 117, 108));
}

#[test]
fn pixels_away_from_the_ball_show_the_background() {
    let (spheres, lights) = one_ball();
    for (i, j) in [(0, 0), (1023, 0), (0, 767), (1023, 767), (512, 384), (439, 300), (900, 400)] {
        assert_eq!(pixel(i, j, WIDTH, HEIGHT, &spheres, &lights), BACKGROUND);
    }
}

#[test]
fn floor_shows_below_the_ball() {
    let (spheres, lights) = one_ball();
    // an orange square, lit at a slant
    assert_eq!(pixel(512, 500, WIDTH, HEIGHT, &spheres, &lights), (60, 42, 18));
}

#[test]
fn rendered_frame_holds_every_pixel() {
    let (spheres, lights) = four_balls();
    let canvas = render_frame(&spheres, &lights, 8, 6);
    for j in 0..6 {
        for i in 0..8 {
            assert_eq!(canvas.pixel(i, j), Some(pixel(i, j, 8, 6, &spheres, &lights)));
        }
    }
    assert_eq!(canvas.pixel(5, 1), Some((255, 255, 255)));
    assert_eq!(canvas.pixel(5, 2), Some((40, 142, 163)));
    assert_eq!(canvas.pixel(3, 3), Some((23, 40, 39)));
    assert_eq!(canvas.pixel(4, 3), Some((42, 17, 17)));
    assert_eq!(canvas.pixel(0, 0), Some(BACKGROUND));
    assert_eq!(canvas.pixel(7, 5), Some(BACKGROUND));
}

#[test]
fn canvas_has_no_pixel_outside_the_frame() {
    let (spheres, lights) = one_ball();
    let canvas = render_frame(&spheres, &lights, 3, 2);
    assert_eq!(canvas.pixel(2, 1), Some(BACKGROUND));
    assert_eq!(canvas.pixel(3, 0), None);
    assert_eq!(canvas.pixel(0, 2), None);
    assert_eq!(canvas.pixel(u32::MAX, u32::MAX), None);
}

#[test]
fn canvas_bytes_run_row_by_row() {
    let (spheres, lights) = four_balls();
    let canvas = render_frame(&spheres, &lights, 8, 6);
    let (width, height, bytes) = canvas.into_parts();
    assert_eq!((width, height), (8, 6));
    assert_eq!(bytes.len(), 3 * 8 * 6);
    for j in 0..6u32 {
        for i in 0..8u32 {
            let at = 3 * (j * 8 + i) as usize;
            let rgb = pixel(i, j, 8, 6, &spheres, &lights);
            assert_eq!((bytes[at], bytes[at + 1], bytes[at + 2]), rgb);
        }
    }
    // the one white pixel stands in row 1, column 5
    assert_eq!(&bytes[3 * 13..3 * 14], &[255, 255, 255]);
}

#[test]
fn empty_frames_hold_nothing() {
    let (spheres, lights) = one_ball();
    let (width, height, bytes) = render_frame(&spheres, &lights, 0, 5).into_parts();
    assert_eq!((width, height, bytes.len()), (0, 5, 0));
    let canvas = render_frame(&spheres, &lights, 5, 0);
    assert_eq!(canvas.pixel(0, 0), None);
    let (width, height, bytes) = canvas.into_parts();
    assert_eq!((width, height, bytes.len()), (5, 0, 0));
}

#[test]
fn standard_render_of_one_ball() {
    let (spheres, lights) = one_ball();
    let canvas = render(&spheres, &lights);
    assert_eq!(canvas.pixel(1023, 767), Some(BACKGROUND));
    assert_eq!(canvas.pixel(1024, 767), None);
    assert_eq!(canvas.pixel(1023, 768), None);
    assert_eq!(canvas.pixel(439, 383), Some((80, 118, 110)));
    assert_eq!(canvas.pixel(480, 383), Some((15, 53, 61)));
    assert_eq!(canvas.pixel(0, 0), Some(BACKGROUND));
    assert_eq!(canvas.pixel(439, 300), Some(BACKGROUND));
    let (width, height, bytes) = canvas.into_parts();
    assert_eq!((width, height, bytes.len()), (1024, 768, 3 * 1024 * 768));
}
