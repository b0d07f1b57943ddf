//! Finding and trimming the uniform side margins of a page.
//!
//! The colour of the top right corner counts as background. In every row the
//! first and the last pixel that differ from it bound the content; the bounds
//! that most rows share give the window to keep.

use crate::mode::first_mode;
use crate::mode::first_mode_at;
use crate::mode::is_band;
use crate::mode::lemma_first_mode_exists;
use crate::mode::lemma_first_mode_of_band;
use crate::mode::vec_most_occur;
use crate::raster::Pixel;
use crate::raster::Raster;
use crate::raster::RasterView;
use vstd::prelude::*;

verus! {

/// The colour that counts as margin: that of the top right corner.
pub open spec fn background(image: RasterView) -> Pixel {
    image.pixel(image.width - 1, 0)
}

/// The column at which both scans of a row give up: the middle of the page.
pub open spec fn middle(image: RasterView) -> int {
    (image.width / 2) as int
}

/// `bound` is where the content of row `y` begins: the first column left of
/// the middle whose colour is not the background, or the middle itself when
/// there is none.
pub open spec fn is_left_bound(image: RasterView, y: int, bound: int) -> bool {
    &&& 0 <= bound <= middle(image)
    &&& forall|x: int| 0 <= x < bound ==> #[trigger] image.pixel(x, y) == background(image)
    &&& bound < middle(image) ==> image.pixel(bound, y) != background(image)
}

/// `bound` is where the content of row `y` ends: the last column right of the
/// middle whose colour is not the background, or the middle itself when there
/// is none.
pub open spec fn is_right_bound(image: RasterView, y: int, bound: int) -> bool {
    &&& middle(image) <= bound < image.width
    &&& forall|x: int|
        bound < x < image.width ==> #[trigger] image.pixel(x, y) == background(image)
    &&& bound > middle(image) ==> image.pixel(bound, y) != background(image)
}

/// Where the content of row `y` begins.
pub open spec fn left_bound(image: RasterView, y: int) -> int {
    choose|bound: int| is_left_bound(image, y, bound)
}

/// Where the content of row `y` ends.
pub open spec fn right_bound(image: RasterView, y: int) -> int {
    choose|bound: int| is_right_bound(image, y, bound)
}

/// A row has one left bound only.
pub proof fn lemma_left_bound_unique(image: RasterView, y: int, bound: int)
    requires
        is_left_bound(image, y, bound),
    ensures
        left_bound(image, y) == bound,
{
    let other = left_bound(image, y);
    if other < bound {
        assert(image.pixel(other, y) == background(image));
    } else if bound < other {
        assert(image.pixel(bound, y) == background(image));
    }
}

/// A row has one right bound only.
pub proof fn lemma_right_bound_unique(image: RasterView, y: int, bound: int)
    requires
        is_right_bound(image, y, bound),
    ensures
        right_bound(image, y) == bound,
{
    let other = right_bound(image, y);
    if other < bound {
        assert(image.pixel(bound, y) == background(image));
    } else if bound < other {
        assert(image.pixel(other, y) == background(image));
    }
}

/// When every column from `from` up to the middle is known to follow only
/// background, the row has a left bound.
pub proof fn lemma_left_bound_exists(image: RasterView, y: int, from: int)
    requires
        0 <= from <= middle(image),
        forall|x: int| 0 <= x < from ==> #[trigger] image.pixel(x, y) == background(image),
    ensures
        is_left_bound(image, y, left_bound(image, y)),
    decreases middle(image) - from,
{
    if from < middle(image) && image.pixel(from, y) == background(image) {
        lemma_left_bound_exists(image, y, from + 1);
    } else {
        assert(is_left_bound(image, y, from));
    }
}

/// When every column after `from` is known to be background, the row has a
/// right bound.
pub proof fn lemma_right_bound_exists(image: RasterView, y: int, from: int)
    requires
        middle(image) <= from < image.width,
        forall|x: int|
            from < x < image.width ==> #[trigger] image.pixel(x, y) == background(image),
    ensures
        is_right_bound(image, y, right_bound(image, y)),
    decreases from - middle(image),
{
    if from > middle(image) && image.pixel(from, y) == background(image) {
        lemma_right_bound_exists(image, y, from - 1);
    } else {
        assert(is_right_bound(image, y, from));
    }
}

/// The left bounds of all rows, from the top.
pub open spec fn left_bounds(image: RasterView) -> Seq<u32> {
    Seq::new(image.height, |y: int| left_bound(image, y) as u32)
}

/// The right bounds of all rows, from the top.
pub open spec fn right_bounds(image: RasterView) -> Seq<u32> {
    Seq::new(image.height, |y: int| right_bound(image, y) as u32)
}

/// The window `[left, right)` that the rows of a page agree on: the most
/// frequent left bound and the most frequent right bound, each the first of
/// several that are equally frequent.
pub open spec fn margin_window(image: RasterView) -> (int, int) {
    (first_mode(left_bounds(image)) as int, first_mode(right_bounds(image)) as int)
}

/// The guard of the crop: the tolerance, given in millionths, is below the
/// fraction `(cropped - full) / full` by which the width would
/// change. That fraction is never positive.
pub open spec fn crop_applies(margin: int, cropped: int, full: int) -> bool {
    margin * full < (cropped - full) * 1_000_000
}

/// What trimming does to a page: a page without pixels stays as it is; any
/// other is cut to its margin window when the guard holds for the window's
/// width, and stays as it is when it does not.
pub open spec fn is_trimmed(before: RasterView, margin: int, after: RasterView) -> bool {
    if before.width == 0 || before.height == 0 {
        after == before
    } else {
        let (left, right) = margin_window(before);
        if crop_applies(margin, right - left, before.width as int) {
            after.width == right - left && after.is_columns_of(before, left)
        } else {
            after == before
        }
    }
}

/// Scans row `y` from both ends for the first pixel that is not background.
pub fn row_bounds(image: &Raster, y: u32, margin_color: Pixel) -> (bounds: (u32, u32))
    requires
        image@.width > 0,
        y < image@.height,
        margin_color == background(image@),
    ensures
        is_left_bound(image@, y as int, bounds.0 as int),
        is_right_bound(image@, y as int, bounds.1 as int),
        left_bound(image@, y as int) == bounds.0,
        right_bound(image@, y as int) == bounds.1,
{
    let width = image.width();
    let half = width / 2;
    let mut left: u32 = 0;
    while left < half && image.pixel(left, y) == margin_color
        invariant
            left <= half,
            half == middle(image@),
            width == image@.width,
            y < image@.height,
            forall|x: int|
                0 <= x < left ==> #[trigger] image@.pixel(x, y as int) == margin_color,
        decreases half - left,
    {
        left += 1;
    }
    let mut right: u32 = width - 1;
    while right > half && image.pixel(right, y) == margin_color
        invariant
            half <= right < width,
            half == middle(image@),
            width == image@.width,
            y < image@.height,
            forall|x: int|
                right < x < width ==> #[trigger] image@.pixel(x, y as int) == margin_color,
        decreases right,
    {
        right -= 1;
    }
    proof {
        lemma_left_bound_unique(image@, y as int, left as int);
        lemma_right_bound_unique(image@, y as int, right as int);
    }
    (left, right)
}

/// Whether the guard of the crop holds.
pub fn guard_holds(margin: i32, cropped: u32, full: u32) -> (holds: bool)
    ensures
        holds == crop_applies(margin as int, cropped as int, full as int),
{
    assert(-0x8000_0000 * 0xffff_ffff <= margin * full <= 0x7fff_ffff * 0xffff_ffff)
        by (nonlinear_arith)
        requires
            -0x8000_0000 <= margin <= 0x7fff_ffff,
            0 <= full <= 0xffff_ffff,
    ;
    let tolerated: i64 = (margin as i64) * (full as i64);
    let change: i64 = ((cropped as i64) - (full as i64)) * 1_000_000;
    tolerated < change
}

/// Trims the side margins of a page: finds the window that most rows agree
/// on and cuts the page to it when the guard holds for `margin`, a tolerance
/// in millionths of the page width. The page is left as it is otherwise.
pub fn process_margin(image: &mut Raster, margin: i32)
    ensures
        is_trimmed(old(image)@, margin as int, final(image)@),
{
    let width = image.width();
    let height = image.height();
    if width == 0 || height == 0 {
        return ;
    }
    let margin_color = image.pixel(width - 1, 0);
    let mut left_margin: Vec<u32> = Vec::new();
    let mut right_margin: Vec<u32> = Vec::new();
    let mut y: u32 = 0;
    while y < height
        invariant
            y <= height,
            width == image@.width,
            width > 0,
            height == image@.height,
            margin_color == background(image@),
            left_margin@ == left_bounds(image@).take(y as int),
            right_margin@ == right_bounds(image@).take(y as int),
        decreases height - y,
    {
        let (left, right) = row_bounds(image, y, margin_color);
        left_margin.push(left);
        right_margin.push(right);
        proof {
            assert(left_bounds(image@).take(y as int + 1) =~= left_bounds(image@).take(
                y as int,
            ).push(left));
            assert(right_bounds(image@).take(y as int + 1) =~= right_bounds(image@).take(
                y as int,
            ).push(right));
        }
        y += 1;
    }
    proof {
        assert(left_margin@ =~= left_bounds(image@));
        assert(right_margin@ =~= right_bounds(image@));
        lemma_window_in_page(image@);
    }
    let left = vec_most_occur(left_margin.as_slice());
    let right = vec_most_occur(right_margin.as_slice());
    let cropped = right - left;
    if guard_holds(margin, cropped, width) {
        *image = image.columns(left, cropped);
    }
}

/// The margin window of a page with pixels lies inside the page, around its
/// middle.
pub proof fn lemma_window_in_page(image: RasterView)
    requires
        image.width > 0,
        image.height > 0,
        image.width <= u32::MAX,
    ensures
        0 <= margin_window(image).0 <= middle(image),
        middle(image) <= margin_window(image).1 < image.width,
{
    let lefts = left_bounds(image);
    let rights = right_bounds(image);
    lemma_first_mode_exists(lefts);
    lemma_first_mode_exists(rights);
    let l = choose|at: int| first_mode_at(lefts, at);
    let r = choose|at: int| first_mode_at(rights, at);
    lemma_left_bound_exists(image, l, 0);
    lemma_right_bound_exists(image, r, image.width - 1);
}

/// The content of `image` is one rectangle: its pixels in the columns `left`
/// to `right` of the rows `top .. bottom` differ from the background, which
/// fills the rest. The rectangle reaches over the middle of the page.
pub open spec fn is_centered_rectangle(
    image: RasterView,
    left: int,
    right: int,
    top: int,
    bottom: int,
) -> bool {
    &&& 0 <= left < middle(image) < right < image.width
    &&& 0 <= top < bottom <= image.height
    &&& forall|x: int, y: int| #[trigger]
        image.contains(x, y) ==> (image.pixel(x, y) != background(image) <==> left <= x <= right
            && top <= y < bottom)
}

/// Trimming a page that shows one centred rectangle on a uniform background:
/// when the rectangle fills more rows than it leaves empty (or as many,
/// starting at the top), the margin window runs from the first column of the
/// rectangle to its last. The page is cut to that window when the tolerance
/// is below the fraction by which the width changes, and left alone when it
/// is not.
pub proof fn lemma_centered_rectangle_is_kept(
    image: RasterView,
    margin: int,
    after: RasterView,
    left: int,
    right: int,
    top: int,
    bottom: int,
)
    requires
        image.width <= u32::MAX,
        is_centered_rectangle(image, left, right, top, bottom),
        2 * (bottom - top) > image.height || (2 * (bottom - top) == image.height && top == 0),
        is_trimmed(image, margin, after),
    ensures
        margin_window(image) == (left, right),
        margin * image.width < (right - left - image.width) * 1_000_000 ==> after.width == right
            - left && after.is_columns_of(image, left),
        margin * image.width >= (right - left - image.width) * 1_000_000 ==> after == image,
{
    let mid = middle(image);
    assert forall|y: int| 0 <= y < image.height implies #[trigger] left_bound(image, y) == if top
        <= y < bottom {
        left
    } else {
        mid
    } by {
        assert forall|x: int| 0 <= x < image.width implies (#[trigger] image.pixel(x, y)
            != background(image) <==> left <= x <= right && top <= y < bottom) by {
            assert(image.contains(x, y));
        }
        if top <= y < bottom {
            lemma_left_bound_unique(image, y, left);
        } else {
            lemma_left_bound_unique(image, y, mid);
        }
    }
    assert forall|y: int| 0 <= y < image.height implies #[trigger] right_bound(image, y) == if top
        <= y < bottom {
        right
    } else {
        mid
    } by {
        assert forall|x: int| 0 <= x < image.width implies (#[trigger] image.pixel(x, y)
            != background(image) <==> left <= x <= right && top <= y < bottom) by {
            assert(image.contains(x, y));
        }
        if top <= y < bottom {
            lemma_right_bound_unique(image, y, right);
        } else {
            lemma_right_bound_unique(image, y, mid);
        }
    }
    assert(is_band(left_bounds(image), left as u32, mid as u32, top, bottom));
    assert(is_band(right_bounds(image), right as u32, mid as u32, top, bottom));
    lemma_first_mode_of_band(left_bounds(image), left as u32, mid as u32, top, bottom);
    lemma_first_mode_of_band(right_bounds(image), right as u32, mid as u32, top, bottom);
}

} // verus!
