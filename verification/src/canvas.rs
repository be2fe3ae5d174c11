//! The raster that a render fills: an RGB image buffer of the `image` crate,
//! seen by the verifier as a grid of byte triples.

use vstd::prelude::*;

verus! {

/// An 8-bit RGB raster. The buffer itself is an `ImageBuffer` of the `image`
/// crate and is opaque here: contracts speak of it through [`canvas_width`],
/// [`canvas_height`] and [`canvas_pixels`]. Only [`image_new`] makes one.
#[verifier::external_body]
pub struct Canvas {
    image: image::RgbImage,
}

/// Number of columns of the raster.
pub uninterp spec fn canvas_width(canvas: Canvas) -> nat;

/// Number of rows of the raster.
pub uninterp spec fn canvas_height(canvas: Canvas) -> nat;

/// The pixels of the raster, keyed by (column, row) with the origin at the
/// top left.
pub uninterp spec fn canvas_pixels(canvas: Canvas) -> Map<(int, int), (u8, u8, u8)>;

/// Whether (column, row) lies on a raster of the given size.
pub open spec fn on_raster(p: (int, int), width: nat, height: nat) -> bool {
    0 <= p.0 < width && 0 <= p.1 < height
}

/// `ImageBuffer::new`: allocates a `width` by `height` raster in which every
/// channel of every pixel is zero. The call panics when the byte count does
/// not fit a vector, which the precondition rules out.
#[verifier::external_body]
pub(crate) fn image_new(width: u32, height: u32) -> (canvas: Canvas)
    requires
        3 * width * height <= isize::MAX,
    ensures
        canvas_width(canvas) == width,
        canvas_height(canvas) == height,
        canvas_pixels(canvas) == Map::new(
            |p: (int, int)| on_raster(p, width as nat, height as nat),
            |p: (int, int)| (0u8, 0u8, 0u8),
        ),
{
    Canvas { image: image::RgbImage::new(width, height) }
}

/// `ImageBuffer::put_pixel`: overwrites the pixel at column `x`, row `y` and
/// leaves every other pixel and the dimensions alone. The call panics outside
/// the raster, which the precondition rules out.
#[verifier::external_body]
pub(crate) fn image_put_pixel(canvas: &mut Canvas, x: u32, y: u32, rgb: (u8, u8, u8))
    requires
        x < canvas_width(*old(canvas)),
        y < canvas_height(*old(canvas)),
    ensures
        canvas_width(*final(canvas)) == canvas_width(*old(canvas)),
        canvas_height(*final(canvas)) == canvas_height(*old(canvas)),
        canvas_pixels(*final(canvas)) == canvas_pixels(*old(canvas)).insert(
            (x as int, y as int),
            rgb,
        ),
{
    canvas.image.put_pixel(x, y, image::Rgb([rgb.0, rgb.1, rgb.2]))
}

/// `ImageBuffer::get_pixel`: the pixel at column `x`, row `y`. The call
/// panics outside the raster, which the precondition rules out.
#[verifier::external_body]
fn image_get_pixel(canvas: &Canvas, x: u32, y: u32) -> (rgb: (u8, u8, u8))
    requires
        x < canvas_width(*canvas),
        y < canvas_height(*canvas),
    ensures
        rgb == canvas_pixels(*canvas)[(x as int, y as int)],
{
    let pixel = canvas.image.get_pixel(x, y);
    (pixel.0[0], pixel.0[1], pixel.0[2])
}

/// `ImageBuffer::width`: the number of columns.
#[verifier::external_body]
fn image_width(canvas: &Canvas) -> (width: u32)
    ensures
        width == canvas_width(*canvas),
{
    canvas.image.width()
}

/// `ImageBuffer::height`: the number of rows.
#[verifier::external_body]
fn image_height(canvas: &Canvas) -> (height: u32)
    ensures
        height == canvas_height(*canvas),
{
    canvas.image.height()
}

/// `ImageBuffer::into_raw`: the buffer behind the raster, handed over as it
/// is. A raster made by `ImageBuffer::new` holds exactly three bytes for each
/// pixel, in the order red, green, blue, row after row from the top; every
/// `Canvas` is made that way.
#[verifier::external_body]
fn image_into_raw(canvas: Canvas) -> (bytes: Vec<u8>)
    ensures
        bytes@.len() == 3 * canvas_width(canvas) * canvas_height(canvas),
        forall|x: int, y: int|
            #![trigger canvas_pixels(canvas)[(x, y)]]
            on_raster((x, y), canvas_width(canvas), canvas_height(canvas)) ==> canvas_pixels(
                canvas,
            )[(x, y)] == (
                bytes@[3 * (y * canvas_width(canvas) + x)],
                bytes@[3 * (y * canvas_width(canvas) + x) + 1],
                bytes@[3 * (y * canvas_width(canvas) + x) + 2],
            ),
{
    canvas.image.into_raw()
}

impl Canvas {
    /// The pixel at column `x`, row `y`, if the raster has one there.
    pub fn pixel(&self, x: u32, y: u32) -> (rgb: Option<(u8, u8, u8)>)
        ensures
            rgb == if x < canvas_width(*self) && y < canvas_height(*self) {
                Some(canvas_pixels(*self)[(x as int, y as int)])
            } else {
                None
            },
    {
        if x < image_width(self) && y < image_height(self) {
            Some(image_get_pixel(self, x, y))
        } else {
            None
        }
    }

    /// The width, the height and the bytes of the raster, row after row from
    /// the top, three bytes for each pixel.
    pub fn into_parts(self) -> (parts: (u32, u32, Vec<u8>))
        ensures
            parts.0 == canvas_width(self),
            parts.1 == canvas_height(self),
            parts.2@.len() == 3 * parts.0 * parts.1,
            forall|x: int, y: int|
                #![trigger canvas_pixels(self)[(x, y)]]
                on_raster((x, y), parts.0 as nat, parts.1 as nat) ==> canvas_pixels(self)[(x, y)]
                    == (
                    parts.2@[3 * (y * parts.0 + x)],
                    parts.2@[3 * (y * parts.0 + x) + 1],
                    parts.2@[3 * (y * parts.0 + x) + 2],
                ),
    {
        let width: u32 = image_width(&self);
        let height: u32 = image_height(&self);
        (width, height, image_into_raw(self))
    }
}

} // verus!
