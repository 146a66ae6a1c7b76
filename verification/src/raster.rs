//! The output raster, and the loop that fills it.
//!
//! The pixels live in an `image::RgbImage`. Verus cannot look into one, so the
//! raster is known here by two names, `dimensions` and `pixels`, and by what
//! four calls into the `image` crate are trusted to do to them.

use crate::vector::Vector3f;
use vstd::prelude::*;

verus! {

/// A raster of eight-bit RGB pixels, kept in an `image::RgbImage`.
#[verifier::external_body]
pub struct Raster {
    image: image::RgbImage,
}

/// The width and the height of a raster.
pub uninterp spec fn dimensions(raster: Raster) -> (u32, u32);

/// The pixels of a raster by column and row, each as red, green and blue.
pub uninterp spec fn pixels(raster: Raster) -> Map<(u32, u32), (u8, u8, u8)>;

/// `image::ImageBuffer::new`, which allocates three zeroed bytes for each pixel
/// and panics where their number does not fit a vector. Trusted: the raster
/// has the dimensions asked for, and each of its pixels is black.
#[verifier::external_body]
fn blank(width: u32, height: u32) -> (raster: Raster)
    requires
        3 * width * height <= isize::MAX,
    ensures
        dimensions(raster) == (width, height),
        forall|x: u32, y: u32|
            x < width && y < height ==> #[trigger] pixels(raster)[(x, y)] == (0u8, 0u8, 0u8),
{
    Raster { image: image::RgbImage::new(width, height) }
}

/// `image::ImageBuffer::dimensions`. Trusted: it returns the width and the height.
#[verifier::external_body]
fn size(raster: &Raster) -> (size: (u32, u32))
    ensures
        size == dimensions(*raster),
{
    raster.image.dimensions()
}

/// `image::ImageBuffer::get_pixel`, which panics outside the raster. Trusted:
/// it returns the pixel at column `x` of row `y`.
#[verifier::external_body]
fn pixel(raster: &Raster, x: u32, y: u32) -> (rgb: (u8, u8, u8))
    requires
        x < dimensions(*raster).0,
        y < dimensions(*raster).1,
    ensures
        rgb == pixels(*raster)[(x, y)],
{
    let p = raster.image.get_pixel(x, y);
    (p.0[0], p.0[1], p.0[2])
}

/// `image::ImageBuffer::put_pixel`, which panics outside the raster. Trusted:
/// it overwrites the pixel at column `x` of row `y` and leaves the dimensions
/// and every other pixel as they were.
#[verifier::external_body]
fn put_pixel(raster: &mut Raster, x: u32, y: u32, rgb: (u8, u8, u8))
    requires
        x < dimensions(*old(raster)).0,
        y < dimensions(*old(raster)).1,
    ensures
        dimensions(*final(raster)) == dimensions(*old(raster)),
        pixels(*final(raster)) == pixels(*old(raster)).insert((x, y), rgb),
{
    raster.image.put_pixel(x, y, image::Rgb([rgb.0, rgb.1, rgb.2]));
}

/// `rgb` is what `shade` can give for the pixel at column `x` of row `y`, cut
/// down to eight-bit channels.
pub open spec fn shaded<F: Fn(u32, u32) -> Vector3f>(
    shade: F,
    x: u32,
    y: u32,
    rgb: (u8, u8, u8),
) -> bool {
    exists|color: Vector3f|
        #[trigger] call_ensures(shade, (x, y), color) && rgb == color.spec_quantize()
}

/// Pixel `(px, py)` comes before pixel `(x, y)` where rows are taken from the
/// top and each row from the left.
pub open spec fn scanned_before(px: u32, py: u32, x: u32, y: u32) -> bool {
    py < y || (py == y && px < x)
}

/// The position in row-major bytes of the first channel of a pixel.
pub open spec fn byte_offset(width: u32, x: u32, y: u32) -> int {
    3 * (y * width + x)
}

/// The three bytes that stand at a pixel's position in row-major bytes.
pub open spec fn pixel_bytes(bytes: Seq<u8>, width: u32, x: u32, y: u32) -> (u8, u8, u8) {
    let at: int = byte_offset(width, x, y);
    (bytes[at], bytes[at + 1], bytes[at + 2])
}

/// Whether the bytes of a raster of this size fit a vector, three for each pixel.
pub open spec fn spec_fits(width: u32, height: u32) -> bool {
    3 * width * height <= isize::MAX
}

/// In row-major bytes an earlier pixel ends before a later one begins.
proof fn lemma_offsets_increase(width: u32, px: u32, py: u32, x: u32, y: u32)
    requires
        px < width,
        scanned_before(px, py, x, y),
    ensures
        0 <= byte_offset(width, px, py),
        byte_offset(width, px, py) + 3 <= byte_offset(width, x, y),
{
    assert(0 <= py * width) by (nonlinear_arith);
    if py < y {
        assert(py * width + width <= y * width) by (nonlinear_arith)
            requires
                py + 1 <= y,
        ;
    }
}

impl Raster {
    /// The number of columns.
    pub open spec fn spec_width(&self) -> u32 {
        dimensions(*self).0
    }

    /// The number of rows.
    pub open spec fn spec_height(&self) -> u32 {
        dimensions(*self).1
    }

    /// The pixel at column `x` of row `y`.
    pub open spec fn spec_pixel(&self, x: u32, y: u32) -> (u8, u8, u8) {
        pixels(*self)[(x, y)]
    }

    /// `bytes` holds the pixels row by row from the top, each row from the
    /// left, each pixel as its red, green and blue byte.
    pub open spec fn spec_row_major(&self, bytes: Seq<u8>) -> bool {
        &&& bytes.len() == 3 * self.spec_width() * self.spec_height()
        &&& forall|x: u32, y: u32|
            x < self.spec_width() && y < self.spec_height() ==> #[trigger] self.spec_pixel(x, y)
                == pixel_bytes(bytes, self.spec_width(), x, y)
    }

    /// The number of columns.
    #[verifier::when_used_as_spec(spec_width)]
    pub fn width(&self) -> (w: u32)
        ensures
            w == self.spec_width(),
    {
        size(self).0
    }

    /// The number of rows.
    #[verifier::when_used_as_spec(spec_height)]
    pub fn height(&self) -> (h: u32)
        ensures
            h == self.spec_height(),
    {
        size(self).1
    }

    /// The pixel at column `x` of row `y`, or nothing outside the raster.
    pub fn get_pixel(&self, x: u32, y: u32) -> (rgb: Option<(u8, u8, u8)>)
        ensures
            rgb == (if x < self.spec_width() && y < self.spec_height() {
                Some(self.spec_pixel(x, y))
            } else {
                None
            }),
    {
        let (width, height): (u32, u32) = size(self);
        if x < width && y < height {
            Some(pixel(self, x, y))
        } else {
            None
        }
    }

    /// The pixels as bytes, row by row from the top.
    pub fn to_bytes(&self) -> (bytes: Vec<u8>)
        ensures
            self.spec_row_major(bytes@),
    {
        let (width, height): (u32, u32) = size(self);
        let mut bytes: Vec<u8> = Vec::new();
        let mut y: u32 = 0;
        while y < height
            invariant
                dimensions(*self) == (width, height),
                y <= height,
                bytes.len() == byte_offset(width, 0, y),
                forall|px: u32, py: u32|
                    px < width && scanned_before(px, py, 0, y) ==> #[trigger] self.spec_pixel(
                        px,
                        py,
                    ) == pixel_bytes(bytes@, width, px, py),
            decreases height - y,
        {
            let mut x: u32 = 0;
            while x < width
                invariant
                    dimensions(*self) == (width, height),
                    y < height,
                    x <= width,
                    bytes.len() == byte_offset(width, x, y),
                    forall|px: u32, py: u32|
                        px < width && scanned_before(px, py, x, y) ==> #[trigger] self.spec_pixel(
                            px,
                            py,
                        ) == pixel_bytes(bytes@, width, px, py),
                decreases width - x,
            {
                let rgb = pixel(self, x, y);
                let ghost earlier = bytes@;
                bytes.push(rgb.0);
                bytes.push(rgb.1);
                bytes.push(rgb.2);
                proof {
                    assert forall|px: u32, py: u32|
                        px < width && scanned_before(px, py, x, y) implies pixel_bytes(
                        bytes@,
                        width,
                        px,
                        py,
                    ) == pixel_bytes(earlier, width, px, py) by {
                        lemma_offsets_increase(width, px, py, x, y);
                    }
                }
                x += 1;
            }
            proof {
                assert(y * width + width == (y + 1) * width) by (nonlinear_arith);
            }
            y += 1;
        }
        proof {
            assert(3 * (height * width) == 3 * width * height) by (nonlinear_arith);
        }
        bytes
    }
}

/// Whether a raster of this size can be allocated.
#[verifier::when_used_as_spec(spec_fits)]
pub fn fits(width: u32, height: u32) -> (ok: bool)
    ensures
        ok == spec_fits(width, height),
{
    assert(width * height <= 0xffff_ffff * 0xffff_ffff && 3 * width * height == 3 * (width
        * height)) by (nonlinear_arith);
    let pixels: u64 = (width as u64) * (height as u64);
    match pixels.checked_mul(3) {
        Some(bytes) => bytes <= isize::MAX as u64,
        None => false,
    }
}

/// Fills a raster of the given size: calls `shade` for each pixel, row by row
/// from the top and from left to right within a row, cuts the colour it
/// returns down to eight-bit channels and writes them to that pixel.
pub fn render<F: Fn(u32, u32) -> Vector3f>(width: u32, height: u32, shade: F) -> (raster: Raster)
    requires
        spec_fits(width, height),
        forall|x: u32, y: u32| x < width && y < height ==> call_requires(shade, (x, y)),
    ensures
        raster.spec_width() == width,
        raster.spec_height() == height,
        forall|x: u32, y: u32|
            x < width && y < height ==> shaded(shade, x, y, #[trigger] raster.spec_pixel(x, y)),
{
    let mut raster = blank(width, height);
    let mut y: u32 = 0;
    while y < height
        invariant
            dimensions(raster) == (width, height),
            y <= height,
            forall|x: u32, y: u32| x < width && y < height ==> call_requires(shade, (x, y)),
            forall|px: u32, py: u32|
                px < width && scanned_before(px, py, 0, y) ==> shaded(
                    shade,
                    px,
                    py,
                    #[trigger] raster.spec_pixel(px, py),
                ),
        decreases height - y,
    {
        let mut x: u32 = 0;
        while x < width
            invariant
                dimensions(raster) == (width, height),
                y < height,
                x <= width,
                forall|x: u32, y: u32| x < width && y < height ==> call_requires(shade, (x, y)),
                forall|px: u32, py: u32|
                    px < width && scanned_before(px, py, x, y) ==> shaded(
                        shade,
                        px,
                        py,
                        #[trigger] raster.spec_pixel(px, py),
                    ),
            decreases width - x,
        {
            let color = shade(x, y);
            let rgb = color.quantize();
            let ghost before = raster;
            put_pixel(&mut raster, x, y, rgb);
            proof {
                assert(shaded(shade, x, y, raster.spec_pixel(x, y)));
                assert forall|px: u32, py: u32|
                    px < width && scanned_before(px, py, x, y) implies raster.spec_pixel(px, py)
                    == before.spec_pixel(px, py) by {
                    assert((px, py) != (x, y));
                }
            }
            x += 1;
        }
        y += 1;
    }
    raster
}

} // verus!
