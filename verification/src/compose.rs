//! Images side by side: each one drawn on the canvas to the right of the one
//! before it, its top edge on the canvas's top edge.

use vstd::prelude::*;
use crate::layout::{
    canvas_size, heights, lemma_max_before_bounds, lemma_max_before_within,
    lemma_sum_before_grows, max_height, representable, sum_before, total_width, widths,
};
use crate::raster::{allocatable, black, fits_at, pasted, Raster, RasterView};

verus! {

/// Why a concatenation failed.
#[derive(Debug, Clone, Copy, PartialEq, Eq, Structural)]
pub enum ConcatError {
    /// A canvas of the computed dimensions cannot be allocated.
    CanvasTooLarge,
    /// An image reaches beyond the right or the bottom edge of the canvas.
    DimensionMismatch,
}

/// The widths of a list of images.
pub open spec fn image_widths(images: Seq<Raster>) -> Seq<nat> {
    Seq::new(images.len(), |i: int| images[i]@.width)
}

/// The column at which image `k` starts: the widths of the images before it together.
pub open spec fn offset(images: Seq<Raster>, k: int) -> nat {
    sum_before(image_widths(images), k)
}

/// Image `k`, at its offset, lies within a canvas of the given dimensions.
pub open spec fn fits(images: Seq<Raster>, k: int, width: nat, height: nat) -> bool {
    offset(images, k + 1) <= width && images[k]@.height <= height
}

/// Each of the first `n` images, at its offset, lies within a canvas of the
/// given dimensions.
pub open spec fn all_fit(images: Seq<Raster>, n: int, width: nat, height: nat) -> bool {
    forall|k: int| 0 <= k < n ==> #[trigger] fits(images, k, width, height)
}

/// Column `x`, row `y` of the canvas belongs to image `k`.
pub open spec fn in_slot(images: Seq<Raster>, k: int, x: int, y: int) -> bool {
    offset(images, k) <= x < offset(images, k + 1) && 0 <= y < images[k]@.height
}

/// Column `x`, row `y` of the canvas belongs to one of the first `n` images.
pub open spec fn covered(images: Seq<Raster>, n: int, x: int, y: int) -> bool {
    exists|k: int| 0 <= k < n && #[trigger] in_slot(images, k, x, y)
}

/// The canvas shows image `k` at its offset, pixel for pixel.
pub open spec fn shows(canvas: RasterView, images: Seq<Raster>, k: int) -> bool {
    forall|i: int, j: int| #[trigger]
        images[k]@.contains(i, j) ==> canvas.pixel(offset(images, k) + i, j) == images[k]@.pixel(
            i,
            j,
        )
}

/// The canvas shows the first `n` images side by side and is black wherever
/// none of them stands.
pub open spec fn side_by_side(canvas: RasterView, images: Seq<Raster>, n: int) -> bool {
    &&& forall|k: int| 0 <= k < n ==> #[trigger] shows(canvas, images, k)
    &&& forall|x: int, y: int|
        canvas.contains(x, y) && !covered(images, n, x, y) ==> #[trigger] canvas.pixel(x, y)
            == black()
}

/// Draws `img` on the canvas with its top-left corner at column `x` of the top
/// row, and returns the column that follows it, where the next image goes.
/// Fails, and leaves the canvas as it was, where `img` does not lie within the
/// canvas there.
pub fn place(canvas: &mut Raster, img: &Raster, x: u32) -> (r: Result<u32, ConcatError>)
    ensures
        r is Ok <==> fits_at(old(canvas)@, img@, x as int, 0),
        match r {
            Ok(next) => next == x + img@.width && pasted(
                old(canvas)@,
                final(canvas)@,
                img@,
                x as int,
                0,
            ),
            Err(e) => e == ConcatError::DimensionMismatch && final(canvas)@ == old(canvas)@,
        },
{
    let (width, _) = img.dimensions();
    if width > u32::MAX - x {
        return Err(ConcatError::DimensionMismatch);
    }
    match canvas.copy_from(img, x, 0) {
        Ok(()) => Ok(x + width),
        Err(_) => Err(ConcatError::DimensionMismatch),
    }
}

/// A canvas as wide as images of these sizes together and as high as the
/// highest of them can be made: its dimensions can be said in a `u32`, and a
/// buffer of those dimensions can be allocated.
pub open spec fn canvas_possible(sizes: Seq<(usize, usize)>) -> bool {
    representable(sizes) && allocatable(total_width(sizes) as int, max_height(sizes) as int)
}

/// The canvas for images of the given sizes, with the images drawn on it side
/// by side in their order: the first at the left edge, each following one
/// directly to the right of the one before, all with their top edge on the
/// canvas's top edge.
///
/// The sizes alone decide the dimensions of the canvas: it is as wide as they
/// are together and as high as the highest. The concatenation fails where no
/// such canvas can be made, and where an image, at its place, does not lie
/// within the canvas.
pub fn concatenate(sizes: &Vec<(usize, usize)>, images: &Vec<Raster>) -> (r: Result<
    Raster,
    ConcatError,
>)
    requires
        sizes@.len() >= 1,
    ensures
        match r {
            Ok(canvas) => {
                &&& canvas_possible(sizes@)
                &&& all_fit(
                    images@,
                    images@.len() as int,
                    total_width(sizes@),
                    max_height(sizes@),
                )
                &&& canvas@.width == total_width(sizes@)
                &&& canvas@.height == max_height(sizes@)
                &&& canvas@.samples.len() == 3 * canvas@.width * canvas@.height
                &&& side_by_side(canvas@, images@, images@.len() as int)
            },
            Err(ConcatError::CanvasTooLarge) => !canvas_possible(sizes@),
            Err(ConcatError::DimensionMismatch) => {
                &&& canvas_possible(sizes@)
                &&& !all_fit(
                    images@,
                    images@.len() as int,
                    total_width(sizes@),
                    max_height(sizes@),
                )
            },
        },
{
    let (width, height) = match canvas_size(sizes) {
        Some(dims) => dims,
        None => {
            return Err(ConcatError::CanvasTooLarge);
        },
    };
    let mut canvas = match Raster::new(width, height) {
        Some(canvas) => canvas,
        None => {
            return Err(ConcatError::CanvasTooLarge);
        },
    };
    let mut next: u32 = 0;
    let mut n: usize = 0;
    while n < images.len()
        invariant
            n <= images.len(),
            width == total_width(sizes@),
            height == max_height(sizes@),
            canvas_possible(sizes@),
            canvas@.width == width,
            canvas@.height == height,
            canvas@.samples.len() == 3 * width * height,
            next == offset(images@, n as int),
            all_fit(images@, n as int, width as nat, height as nat),
            side_by_side(canvas@, images@, n as int),
        decreases images.len() - n,
    {
        let ghost before = canvas@;
        match place(&mut canvas, &images[n], next) {
            Ok(after) => {
                proof {
                    lemma_placed(before, canvas@, images@, n as int);
                }
                next = after;
            },
            Err(e) => {
                assert(!fits(images@, n as int, width as nat, height as nat));
                return Err(e);
            },
        }
        n += 1;
    }
    Ok(canvas)
}

/// A canvas that shows the first `n` images side by side shows the first
/// `n + 1` once image `n` is drawn at its offset.
pub proof fn lemma_placed(before: RasterView, after: RasterView, images: Seq<Raster>, n: int)
    requires
        0 <= n < images.len(),
        all_fit(images, n, before.width, before.height),
        side_by_side(before, images, n),
        fits_at(before, images[n]@, offset(images, n) as int, 0),
        pasted(before, after, images[n]@, offset(images, n) as int, 0),
    ensures
        all_fit(images, n + 1, after.width, after.height),
        side_by_side(after, images, n + 1),
{
    let start = offset(images, n) as int;
    let img = images[n]@;
    assert(offset(images, n + 1) == start + img.width);
    assert(fits(images, n, after.width, after.height));
    assert forall|k: int| 0 <= k < n + 1 implies #[trigger] shows(after, images, k) by {
        assert forall|i: int, j: int| #[trigger] images[k]@.contains(i, j) implies after.pixel(
            offset(images, k) + i,
            j,
        ) == images[k]@.pixel(i, j) by {
            let x = offset(images, k) + i;
            if k < n {
                assert(fits(images, k, before.width, before.height));
                assert(shows(before, images, k));
                lemma_sum_before_grows(image_widths(images), k + 1, n);
                assert(before.contains(x, j));
                assert(!img.contains(x - start, j));
            } else {
                assert(before.contains(x, j));
                assert(img.contains(x - start, j));
            }
        }
    }
    assert forall|x: int, y: int|
        after.contains(x, y) && !covered(images, n + 1, x, y) implies #[trigger] after.pixel(x, y)
        == black() by {
        assert(!in_slot(images, n, x, y));
        assert(!img.contains(x - start, y));
        if covered(images, n, x, y) {
            let k = choose|k: int| 0 <= k < n && #[trigger] in_slot(images, k, x, y);
            assert(in_slot(images, k, x, y));
            assert(false);
        }
        assert(before.contains(x, y));
    }
}

/// No place on the canvas belongs to two images.
pub proof fn lemma_slots_disjoint(images: Seq<Raster>, j: int, k: int, x: int, y: int)
    requires
        0 <= j < images.len(),
        0 <= k < images.len(),
        in_slot(images, j, x, y),
        in_slot(images, k, x, y),
    ensures
        j == k,
{
    if j < k {
        lemma_sum_before_grows(image_widths(images), j + 1, k);
    }
    if k < j {
        lemma_sum_before_grows(image_widths(images), k + 1, j);
    }
}

/// Where each size is that of the image at the same place in the list, every
/// image lies within a canvas as wide as the images together and as high as
/// the highest of them, and that height can be said in a `u32`.
pub proof fn lemma_true_sizes_fit(sizes: Seq<(usize, usize)>, images: Seq<Raster>)
    requires
        sizes.len() == images.len(),
        forall|k: int|
            0 <= k < sizes.len() ==> sizes[k].0 == images[k]@.width && sizes[k].1
                == images[k]@.height,
    ensures
        total_width(sizes) == offset(images, images.len() as int),
        max_height(sizes) <= u32::MAX,
        all_fit(images, images.len() as int, total_width(sizes), max_height(sizes)),
{
    let n = images.len() as int;
    assert(widths(sizes) =~= image_widths(images));
    lemma_max_before_within(heights(sizes), n, 0xffff_ffff);
    assert forall|k: int| 0 <= k < n implies #[trigger] fits(
        images,
        k,
        total_width(sizes),
        max_height(sizes),
    ) by {
        lemma_sum_before_grows(image_widths(images), k + 1, n);
        lemma_max_before_bounds(heights(sizes), n, k);
    }
}

} // verus!
