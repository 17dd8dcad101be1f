//! The dimensions of the canvas: as wide as the images together, as high as
//! the highest of them.

use vstd::prelude::*;

verus! {

/// The sum of the first `k` entries of `ws`.
pub open spec fn sum_before(ws: Seq<nat>, k: int) -> nat
    decreases k,
{
    if k <= 0 {
        0
    } else {
        sum_before(ws, k - 1) + ws[k - 1]
    }
}

/// The greatest of the first `k` entries of `hs`; zero where `k` is zero.
pub open spec fn max_before(hs: Seq<nat>, k: int) -> nat
    decreases k,
{
    if k <= 0 {
        0
    } else if hs[k - 1] > max_before(hs, k - 1) {
        hs[k - 1]
    } else {
        max_before(hs, k - 1)
    }
}

/// The widths of a list of (width, height) pairs.
pub open spec fn widths(sizes: Seq<(usize, usize)>) -> Seq<nat> {
    Seq::new(sizes.len(), |i: int| sizes[i].0 as nat)
}

/// The heights of a list of (width, height) pairs.
pub open spec fn heights(sizes: Seq<(usize, usize)>) -> Seq<nat> {
    Seq::new(sizes.len(), |i: int| sizes[i].1 as nat)
}

/// The widths of all the images together.
pub open spec fn total_width(sizes: Seq<(usize, usize)>) -> nat {
    sum_before(widths(sizes), sizes.len() as int)
}

/// The height of the highest image.
pub open spec fn max_height(sizes: Seq<(usize, usize)>) -> nat {
    max_before(heights(sizes), sizes.len() as int)
}

/// Both dimensions of the canvas for images of these sizes can be said in a `u32`.
pub open spec fn representable(sizes: Seq<(usize, usize)>) -> bool {
    total_width(sizes) <= u32::MAX && max_height(sizes) <= u32::MAX
}

/// A sum over more entries is no smaller.
pub proof fn lemma_sum_before_grows(ws: Seq<nat>, j: int, k: int)
    requires
        j <= k <= ws.len(),
    ensures
        sum_before(ws, j) <= sum_before(ws, k),
    decreases k,
{
    if j < k && 0 < k {
        lemma_sum_before_grows(ws, j, k - 1);
    }
}

/// No entry among the first `k` exceeds their maximum.
pub proof fn lemma_max_before_bounds(hs: Seq<nat>, k: int, i: int)
    requires
        0 <= i < k <= hs.len(),
    ensures
        hs[i] <= max_before(hs, k),
    decreases k,
{
    if i < k - 1 {
        lemma_max_before_bounds(hs, k - 1, i);
    }
}

/// The maximum of the first `k` entries is one of them.
pub proof fn lemma_max_before_attained(hs: Seq<nat>, k: int) -> (i: int)
    requires
        0 < k <= hs.len(),
    ensures
        0 <= i < k,
        hs[i] == max_before(hs, k),
    decreases k,
{
    if k == 1 {
        assert(max_before(hs, 0) == 0);
        0
    } else if hs[k - 1] > max_before(hs, k - 1) {
        k - 1
    } else {
        lemma_max_before_attained(hs, k - 1)
    }
}

/// The maximum of entries that are all at most `bound` is at most `bound`.
pub proof fn lemma_max_before_within(hs: Seq<nat>, k: int, bound: nat)
    requires
        k <= hs.len(),
        forall|i: int| 0 <= i < k ==> hs[i] <= bound,
    ensures
        max_before(hs, k) <= bound,
    decreases k,
{
    if 0 < k {
        lemma_max_before_within(hs, k - 1, bound);
    }
}

/// The dimensions of the canvas on which images of the given sizes, each a
/// (width, height) pair, stand side by side: the sum of the widths and the
/// greatest height. `None` where one of the two is more than a `u32` can say.
pub fn canvas_size(sizes: &Vec<(usize, usize)>) -> (dims: Option<(u32, u32)>)
    requires
        sizes@.len() >= 1,
    ensures
        dims is Some <==> representable(sizes@),
        dims is Some ==> dims->Some_0.0 == total_width(sizes@) && dims->Some_0.1 == max_height(
            sizes@,
        ),
{
    let mut width: u32 = 0;
    let mut height: u32 = 0;
    let mut i: usize = 0;
    while i < sizes.len()
        invariant
            i <= sizes.len(),
            width == sum_before(widths(sizes@), i as int),
            height == max_before(heights(sizes@), i as int),
        decreases sizes.len() - i,
    {
        let (w, h) = sizes[i];
        if w > (u32::MAX - width) as usize {
            proof {
                lemma_sum_before_grows(widths(sizes@), i + 1, sizes@.len() as int);
            }
            return None;
        }
        if h > u32::MAX as usize {
            proof {
                lemma_max_before_bounds(heights(sizes@), sizes@.len() as int, i as int);
            }
            return None;
        }
        width = width + w as u32;
        if h as u32 > height {
            height = h as u32;
        }
        i += 1;
    }
    Some((width, height))
}

} // verus!
