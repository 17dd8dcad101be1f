//! An 8-bit RGB pixel grid, backed by the `image` crate's buffer.
//!
//! Verus cannot look inside the buffer, so this module gives its dimensions
//! and its samples a mathematical name and states, operation by operation, what
//! the `image` crate does to them. Everything in the rest of the crate is proved
//! from those statements.

use vstd::prelude::*;

verus! {

/// An RGB image with 8 bits per channel.
///
/// The buffer inside is an `image::RgbImage`; it is opaque to the verifier and
/// known only through [`raster_width`], [`raster_height`] and [`raster_samples`].
#[verifier::external_body]
#[derive(Debug)]
pub struct Raster {
    buffer: image::RgbImage,
}

/// The failure that `image` reports from its operations. Carried, never inspected.
#[verifier::external_type_specification]
#[verifier::external_body]
pub struct ExImageError(image::ImageError);

/// The number of pixel columns of the buffer.
pub uninterp spec fn raster_width(r: Raster) -> u32;

/// The number of pixel rows of the buffer.
pub uninterp spec fn raster_height(r: Raster) -> u32;

/// The channel samples that the buffer holds: rows from top to bottom, within
/// a row pixels from left to right, within a pixel red, green, blue.
pub uninterp spec fn raster_samples(r: Raster) -> Seq<u8>;

/// One pixel: its red, green and blue sample.
pub type Rgb = (u8, u8, u8);

/// The pixel that a fresh canvas shows everywhere.
pub open spec fn black() -> Rgb {
    (0u8, 0u8, 0u8)
}

/// What a [`Raster`] is, mathematically.
pub struct RasterView {
    pub width: nat,
    pub height: nat,
    pub samples: Seq<u8>,
}

impl RasterView {
    /// Where the red sample of the pixel in column `x`, row `y` stands.
    pub open spec fn index(self, x: int, y: int) -> int {
        3 * (y * self.width + x)
    }

    /// The pixel in column `x`, row `y`.
    pub open spec fn pixel(self, x: int, y: int) -> Rgb {
        (
            self.samples[self.index(x, y)],
            self.samples[self.index(x, y) + 1],
            self.samples[self.index(x, y) + 2],
        )
    }

    /// Column `x`, row `y` lies inside the grid.
    pub open spec fn contains(self, x: int, y: int) -> bool {
        0 <= x < self.width && 0 <= y < self.height
    }
}

impl View for Raster {
    type V = RasterView;

    open spec fn view(&self) -> RasterView {
        RasterView {
            width: raster_width(*self) as nat,
            height: raster_height(*self) as nat,
            samples: raster_samples(*self),
        }
    }
}

/// A buffer of `width` by `height` pixels can be allocated: the number of its
/// samples can be computed in `usize` and is a length that a `Vec` may have.
pub open spec fn allocatable(width: int, height: int) -> bool {
    3 * width <= usize::MAX && 3 * width * height <= isize::MAX
}

/// `other`, put with its top-left corner at column `x`, row `y`, lies within `canvas`.
pub open spec fn fits_at(canvas: RasterView, other: RasterView, x: int, y: int) -> bool {
    x + other.width <= canvas.width && y + other.height <= canvas.height
}

/// `after` is `before` with `other` drawn over it, top-left corner at column
/// `x`, row `y`: inside that rectangle it shows `other`, elsewhere `before`.
pub open spec fn pasted(
    before: RasterView,
    after: RasterView,
    other: RasterView,
    x: int,
    y: int,
) -> bool {
    &&& after.width == before.width
    &&& after.height == before.height
    &&& after.samples.len() == before.samples.len()
    &&& forall|cx: int, cy: int|
        before.contains(cx, cy) ==> #[trigger] after.pixel(cx, cy) == if other.contains(
            cx - x,
            cy - y,
        ) {
            other.pixel(cx - x, cy - y)
        } else {
            before.pixel(cx, cy)
        }
}

/// The three samples of a pixel inside a grid stand among the samples that a
/// grid of those dimensions needs.
pub proof fn lemma_pixel_in_samples(width: nat, height: nat, x: int, y: int)
    requires
        0 <= x < width,
        0 <= y < height,
    ensures
        0 <= 3 * (y * width + x),
        3 * (y * width + x) + 2 < 3 * width * height,
{
    assert(y * width + x < width * height) by (nonlinear_arith)
        requires
            0 <= x < width,
            0 <= y < height,
    ;
    assert(0 <= y * width) by (nonlinear_arith)
        requires
            0 <= y,
            0 <= width,
    ;
    assert(3 * width * height == 3 * (width * height)) by (nonlinear_arith);
}

impl Raster {
    /// `image::ImageBuffer::new`: a buffer of the given dimensions with every
    /// sample zero. The call panics where the sample count overflows `usize` or
    /// exceeds what a `Vec` may hold; `requires` leaves those dimensions out.
    #[verifier::external_body]
    fn zeroed(width: u32, height: u32) -> (r: Raster)
        requires
            allocatable(width as int, height as int),
        ensures
            raster_width(r) == width,
            raster_height(r) == height,
            raster_samples(r) == Seq::new((3 * width * height) as nat, |i: int| 0u8),
    {
        Raster { buffer: image::RgbImage::new(width, height) }
    }

    /// `image::ImageBuffer::from_raw`: takes `data` as the samples of a buffer of
    /// the given dimensions, unchanged, if it holds at least as many samples as
    /// those dimensions need and that number can be computed in `usize`.
    #[verifier::external_body]
    fn adopt(width: u32, height: u32, data: Vec<u8>) -> (r: Option<Raster>)
        ensures
            r.is_some() == (3 * width <= usize::MAX && 3 * width * height <= data@.len()),
            r.is_some() ==> raster_width(r.unwrap()) == width,
            r.is_some() ==> raster_height(r.unwrap()) == height,
            r.is_some() ==> raster_samples(r.unwrap()) == data@,
    {
        match image::RgbImage::from_raw(width, height, data) {
            Some(buffer) => Some(Raster { buffer }),
            None => None,
        }
    }

    /// `image::ImageBuffer::into_raw`: hands out the samples.
    #[verifier::external_body]
    fn release(self) -> (data: Vec<u8>)
        ensures
            data@ == raster_samples(self),
    {
        self.buffer.into_raw()
    }

    /// `image::ImageBuffer::width`.
    #[verifier::external_body]
    fn columns(&self) -> (w: u32)
        ensures
            w == raster_width(*self),
    {
        self.buffer.width()
    }

    /// `image::ImageBuffer::height`.
    #[verifier::external_body]
    fn rows(&self) -> (h: u32)
        ensures
            h == raster_height(*self),
    {
        self.buffer.height()
    }

    /// `image::GenericImage::copy_from`: draws `other` over this buffer with its
    /// top-left corner at column `x`, row `y`. It succeeds exactly when `other`
    /// lies within the buffer there, and otherwise leaves the buffer as it was.
    /// The call adds `x` and `y` to the dimensions of `other` in `u32`;
    /// `requires` leaves out the arguments on which those sums overflow.
    #[verifier::external_body]
    pub(crate) fn copy_from(&mut self, other: &Raster, x: u32, y: u32) -> (r: Result<
        (),
        image::ImageError,
    >)
        requires
            other@.width + x <= u32::MAX,
            other@.height + y <= u32::MAX,
        ensures
            r is Ok <==> fits_at(old(self)@, other@, x as int, y as int),
            r is Ok ==> pasted(old(self)@, final(self)@, other@, x as int, y as int),
            r is Err ==> final(self)@ == old(self)@,
    {
        image::GenericImage::copy_from(&mut self.buffer, &other.buffer, x, y)
    }

    /// A black canvas of the given dimensions, or `None` where no such buffer
    /// can be allocated.
    pub fn new(width: u32, height: u32) -> (r: Option<Raster>)
        ensures
            r is Some <==> allocatable(width as int, height as int),
            r is Some ==> {
                let canvas = r->Some_0@;
                &&& canvas.width == width
                &&& canvas.height == height
                &&& canvas.samples.len() == 3 * width * height
                &&& forall|i: int| 0 <= i < canvas.samples.len() ==> canvas.samples[i] == 0
                &&& forall|x: int, y: int|
                    canvas.contains(x, y) ==> #[trigger] canvas.pixel(x, y) == black()
            },
    {
        let row: u64 = 3 * (width as u64);
        assert(row * height <= 0xffff_ffff_ffff_ffff * 0xffff_ffff) by (nonlinear_arith)
            requires
                row <= 0xffff_ffff_ffff_ffff,
                height <= 0xffff_ffff,
        ;
        let samples: u128 = (row as u128) * (height as u128);
        if row as u128 <= usize::MAX as u128 && samples <= isize::MAX as u128 {
            let canvas = Raster::zeroed(width, height);
            assert forall|x: int, y: int| canvas@.contains(x, y) implies #[trigger] canvas@.pixel(
                x,
                y,
            ) == black() by {
                lemma_pixel_in_samples(canvas@.width, canvas@.height, x, y);
            }
            Some(canvas)
        } else {
            None
        }
    }

    /// An image of the given dimensions over the samples `data`: rows from top
    /// to bottom, pixels from left to right, red, green and blue of each. `None`
    /// where `data` holds fewer samples than the dimensions need.
    pub fn from_raw(width: u32, height: u32, data: Vec<u8>) -> (r: Option<Raster>)
        ensures
            r is Some <==> 3 * width <= usize::MAX && 3 * width * height <= data@.len(),
            r is Some ==> r->Some_0@ == (RasterView {
                width: width as nat,
                height: height as nat,
                samples: data@,
            }),
    {
        Raster::adopt(width, height, data)
    }

    /// The samples of the image, in the order in which [`Raster::from_raw`] takes them.
    pub fn into_raw(self) -> (data: Vec<u8>)
        ensures
            data@ == self@.samples,
    {
        self.release()
    }

    /// The dimensions: width, then height.
    pub fn dimensions(&self) -> (d: (u32, u32))
        ensures
            d.0 == self@.width,
            d.1 == self@.height,
    {
        (self.columns(), self.rows())
    }
}

} // verus!
