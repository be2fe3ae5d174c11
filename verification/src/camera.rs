//! The camera: one ray through each pixel of the raster, from the origin and
//! looking down the negative depth axis with a right-angle field of view.

use vstd::prelude::*;
use crate::canvas::Canvas;
use crate::canvas::canvas_height;
use crate::canvas::canvas_pixels;
use crate::canvas::canvas_width;
use crate::canvas::image_new;
use crate::canvas::image_put_pixel;
use crate::canvas::on_raster;
use crate::scalar::Scalar;
use crate::scalar::SCALE;
use crate::scalar::lemma_quot_bounds;
use crate::scalar::quot;
use crate::scene::Light;
use crate::scene::spec_scene_intersect;
use crate::shading::cast_ray;
use crate::shading::spec_cast_ray;
use crate::sphere::Sphere;
use crate::vector::Vec3;
use crate::vector::MAX_NORMALIZED;
use crate::vector::lemma_length_covers_components;

verus! {

/// Columns of the standard frame.
pub const WIDTH: u32 = 1024;

/// Rows of the standard frame.
pub const HEIGHT: u32 = 768;

/// The unit direction through the centre of the pixel at column `i`, row
/// `j`. The frame spans one unit up and down at unit depth, and as much more
/// sideways as it is wider than high; row zero is the top.
pub open spec fn spec_primary_direction(i: u32, j: u32, width: u32, height: u32) -> Vec3 {
    let rows = Scalar::of(height * SCALE);
    (Vec3 {
        x: Scalar::of((2 * i + 1 - width) * SCALE).div(rows),
        y: Scalar::of((height - 2 * j - 1) * SCALE).div(rows),
        z: (Scalar { raw: SCALE }).neg(),
    }).normalize()
}

/// The bytes of the pixel at column `i`, row `j`: the colour seen from the
/// origin through it, each channel held to the unit interval.
pub open spec fn spec_pixel(
    i: u32,
    j: u32,
    width: u32,
    height: u32,
    spheres: &Vec<Sphere>,
    lights: &Vec<Light>,
) -> (u8, u8, u8) {
    let origin = Vec3 { x: Scalar { raw: 0 }, y: Scalar { raw: 0 }, z: Scalar { raw: 0 } };
    spec_cast_ray(&origin, &spec_primary_direction(i, j, width, height), spheres, lights, 0).to_rgb()
}

/// The unit direction from the camera through the pixel at column `i`,
/// row `j` of a `width` by `height` frame.
#[verifier::when_used_as_spec(spec_primary_direction)]
pub fn primary_direction(i: u32, j: u32, width: u32, height: u32) -> (direction: Vec3)
    ensures
        direction == spec_primary_direction(i, j, width, height),
        direction.in_unit_cube(),
        i < width && j < height ==> direction.is_nearly_unit(),
{
    let rows: Scalar = Scalar::from_int(height as i64);
    let across: i64 = 2 * (i as i64) + 1 - (width as i64);
    let up: i64 = (height as i64) - 2 * (j as i64) - 1;
    let through: Vec3 = Vec3::new(
        Scalar::from_int(across).div(rows),
        Scalar::from_int(up).div(rows),
        Scalar { raw: SCALE }.neg(),
    );
    proof {
        if i < width && j < height {
            lemma_ratio_to_rows(across as int, height as int);
            lemma_ratio_to_rows(up as int, height as int);
            lemma_length_covers_components(through);
        }
    }
    through.normalize()
}

/// A count of pixels over the number of rows, both as numbers: the ratio is
/// at most the count in size, and so within what normalization can take.
proof fn lemma_ratio_to_rows(count: int, rows: int)
    requires
        -0x1_0000_0000 <= count <= 0x1_0000_0000,
        0 < rows <= 0x1_0000_0000,
    ensures
        -MAX_NORMALIZED <= Scalar::of(count * SCALE).div(Scalar::of(rows * SCALE))@
            <= MAX_NORMALIZED,
{
    let s = SCALE as int;
    let n = (count * s) * s;
    let d = rows * s;
    let q = quot(n, d);
    lemma_quot_bounds(n, d);
    assert(-0x1_0000_0000 * s <= count * s <= 0x1_0000_0000 * s) by (nonlinear_arith)
        requires
            -0x1_0000_0000 <= count <= 0x1_0000_0000,
            s > 0,
    ;
    assert(s <= d <= 0x1_0000_0000 * s) by (nonlinear_arith)
        requires
            d == rows * s,
            0 < rows <= 0x1_0000_0000,
            s > 0,
    ;
    assert((count >= 0 && 0 <= q <= count * s) || (count <= 0 && count * s <= q <= 0))
        by (nonlinear_arith)
        requires
            n == (count * s) * s,
            d >= s,
            s > 0,
            (n >= 0 && 0 <= q * d <= n) || (n <= 0 && n <= q * d <= 0),
    ;
}

/// The bytes of the pixel at column `i`, row `j` of a `width` by `height`
/// frame of the scene.
#[verifier::when_used_as_spec(spec_pixel)]
pub fn pixel(i: u32, j: u32, width: u32, height: u32, spheres: &Vec<Sphere>, lights: &Vec<Light>)
    -> (rgb: (u8, u8, u8))
    ensures
        rgb == spec_pixel(i, j, width, height, spheres, lights),
        sees_nothing(i, j, width, height, spheres) ==> rgb == (51u8, 178u8, 204u8),
{
    proof {
        lemma_empty_pixel_is_background(i, j, width, height, spheres, lights);
    }
    let origin: Vec3 = Vec3::splat(Scalar { raw: 0 });
    let direction: Vec3 = primary_direction(i, j, width, height);
    cast_ray(&origin, &direction, spheres, lights, 0).to_rgb()
}

/// Whether the ray through the pixel at column `i`, row `j` meets neither a
/// sphere nor the floor.
pub open spec fn sees_nothing(i: u32, j: u32, width: u32, height: u32, spheres: &Vec<Sphere>) -> bool {
    let origin = Vec3 { x: Scalar { raw: 0 }, y: Scalar { raw: 0 }, z: Scalar { raw: 0 } };
    spec_scene_intersect(&origin, &spec_primary_direction(i, j, width, height), spheres) is None
}

/// A pixel whose ray meets nothing shows the background to the byte: 51 of
/// red, 178 of green and 204 of blue.
pub proof fn lemma_empty_pixel_is_background(
    i: u32,
    j: u32,
    width: u32,
    height: u32,
    spheres: &Vec<Sphere>,
    lights: &Vec<Light>,
)
    ensures
        sees_nothing(i, j, width, height, spheres) ==> spec_pixel(
            i,
            j,
            width,
            height,
            spheres,
            lights,
        ) == (51u8, 178u8, 204u8),
{
    assert((255 * 200_000_000int) / 1_000_000_000 == 51);
    assert((255 * 700_000_000int) / 1_000_000_000 == 178);
    assert((255 * 800_000_000int) / 1_000_000_000 == 204);
}

/// Renders the scene on a raster of `width` by `height` pixels.
pub fn render_frame(spheres: &Vec<Sphere>, lights: &Vec<Light>, width: u32, height: u32) -> (canvas:
    Canvas)
    requires
        3 * width * height <= isize::MAX,
    ensures
        canvas_width(canvas) == width,
        canvas_height(canvas) == height,
        canvas_pixels(canvas) =~= Map::new(
            |p: (int, int)| on_raster(p, width as nat, height as nat),
            |p: (int, int)| spec_pixel(p.0 as u32, p.1 as u32, width, height, spheres, lights),
        ),
{
    let mut canvas: Canvas = image_new(width, height);
    let mut j: u32 = 0;
    while j < height
        invariant
            j <= height,
            canvas_width(canvas) == width,
            canvas_height(canvas) == height,
            canvas_pixels(canvas).dom() =~= Set::new(
                |p: (int, int)| on_raster(p, width as nat, height as nat),
            ),
            forall|p: (int, int)|
                on_raster(p, width as nat, j as nat) ==> #[trigger] canvas_pixels(canvas)[p]
                    == spec_pixel(p.0 as u32, p.1 as u32, width, height, spheres, lights),
        decreases height - j,
    {
        let mut i: u32 = 0;
        while i < width
            invariant
                i <= width,
                j < height,
                canvas_width(canvas) == width,
                canvas_height(canvas) == height,
                canvas_pixels(canvas).dom() =~= Set::new(
                    |p: (int, int)| on_raster(p, width as nat, height as nat),
                ),
                forall|p: (int, int)|
                    on_raster(p, width as nat, j as nat) ==> #[trigger] canvas_pixels(canvas)[p]
                        == spec_pixel(p.0 as u32, p.1 as u32, width, height, spheres, lights),
                forall|p: (int, int)|
                    0 <= p.0 < i && p.1 == j ==> #[trigger] canvas_pixels(canvas)[p] == spec_pixel(
                        p.0 as u32,
                        p.1 as u32,
                        width,
                        height,
                        spheres,
                        lights,
                    ),
            decreases width - i,
        {
            let rgb: (u8, u8, u8) = pixel(i, j, width, height, spheres, lights);
            image_put_pixel(&mut canvas, i, j, rgb);
            i = i + 1;
        }
        j = j + 1;
    }
    canvas
}

/// Renders the scene on the standard frame.
pub fn render(spheres: &Vec<Sphere>, lights: &Vec<Light>) -> (canvas: Canvas)
    ensures
        canvas_width(canvas) == WIDTH,
        canvas_height(canvas) == HEIGHT,
        canvas_pixels(canvas) =~= Map::new(
            |p: (int, int)| on_raster(p, WIDTH as nat, HEIGHT as nat),
            |p: (int, int)| spec_pixel(p.0 as u32, p.1 as u32, WIDTH, HEIGHT, spheres, lights),
        ),
{
    render_frame(spheres, lights, WIDTH, HEIGHT)
}

} // verus!
