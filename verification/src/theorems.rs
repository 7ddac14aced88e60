//! What holds of the scanner and the strategies on every image.

use crate::contour::{columns, enclosing_rect, rows, traceable, Point};
use crate::cropper::mask_cell;
use crate::error::CropError;
use crate::geometry::Rect;
use crate::pixel::{lemma_gray_keeps_luma, Pixel, PixelPredicate};
use crate::raster::Raster;
use vstd::prelude::*;

verus! {

/// Where no pixel passes the test, the scanner reports no content.
pub proof fn theorem_no_passing_pixel(raster: Raster, pred: PixelPredicate)
    requires
        forall|x: int, y: int| raster.contains(x, y) ==> !pred.holds(raster.at(x, y)),
    ensures
        raster.bounding_box(pred) == Err::<Rect, CropError>(CropError::NoContentFound),
{
    raster.lemma_bounds_without_hit(pred);
}

/// Where the passing pixels are exactly those of one block of at least two
/// columns and two rows, the scanner reports the rectangle that starts at
/// the block's first column and row and spans to its last ones: one less
/// than the block in width and in height.
pub proof fn theorem_single_block(raster: Raster, pred: PixelPredicate, block: Rect)
    requires
        raster.valid(),
        block.fits(raster.width, raster.height),
        block.width >= 2,
        block.height >= 2,
        forall|x: int, y: int| #[trigger]
            raster.hit(pred, x, y) <==> block.x <= x < block.x + block.width && block.y <= y
                < block.y + block.height,
    ensures
        raster.bounding_box(pred) == Ok::<Rect, CropError>(
            Rect {
                x: block.x,
                y: block.y,
                width: (block.width - 1) as u32,
                height: (block.height - 1) as u32,
            },
        ),
{
    let left: int = block.x as int;
    let top: int = block.y as int;
    let right: int = block.x + block.width - 1;
    let bottom: int = block.y + block.height - 1;
    assert(raster.hit(pred, left, top));
    assert(raster.hit(pred, right, bottom));
    raster.lemma_bounds(pred, left, top, right, bottom);
}

/// Where all passing pixels lie in one column, or all in one row, the
/// scanner reports no content.
pub proof fn theorem_single_line(raster: Raster, pred: PixelPredicate, line: int)
    requires
        (forall|x: int, y: int| raster.hit(pred, x, y) ==> x == line) || (forall|x: int, y: int|
            raster.hit(pred, x, y) ==> y == line),
    ensures
        raster.bounding_box(pred) == Err::<Rect, CropError>(CropError::NoContentFound),
{
    if exists|x: int, y: int| raster.hit(pred, x, y) {
        let (x, y) = choose|x: int, y: int| raster.hit(pred, x, y);
        raster.lemma_bounds_with_hit(pred, x, y);
        let x0: int = raster.min_x(pred);
        let x1: int = raster.max_x(pred);
        let y0: int = raster.min_y(pred);
        let y1: int = raster.max_y(pred);
        let a: int = choose|a: int| raster.hit(pred, x0, a);
        let b: int = choose|b: int| raster.hit(pred, x1, b);
        let c: int = choose|c: int| raster.hit(pred, c, y0);
        let d: int = choose|d: int| raster.hit(pred, d, y1);
        assert(raster.hit(pred, x0, a) && raster.hit(pred, x1, b));
        assert(raster.hit(pred, c, y0) && raster.hit(pred, d, y1));
    } else {
        raster.lemma_bounds_without_hit(pred);
    }
}

/// A single passing pixel, with no other anywhere, is no content.
pub proof fn theorem_single_pixel(raster: Raster, pred: PixelPredicate, px: int, py: int)
    requires
        raster.hit(pred, px, py),
        forall|x: int, y: int| raster.hit(pred, x, y) ==> x == px && y == py,
    ensures
        raster.bounding_box(pred) == Err::<Rect, CropError>(CropError::NoContentFound),
{
    theorem_single_line(raster, pred, px);
}

/// Where passing pixels touch all four edges of an image of at least two
/// columns and two rows, nothing is trimmed: the scanner's rectangle starts
/// at the origin and spans to the last column and the last row.
pub proof fn theorem_content_at_every_edge(raster: Raster, pred: PixelPredicate)
    requires
        raster.valid(),
        raster.width >= 2,
        raster.height >= 2,
        raster.column_hit(pred, 0),
        raster.column_hit(pred, raster.width - 1),
        raster.row_hit(pred, 0),
        raster.row_hit(pred, raster.height - 1),
    ensures
        raster.bounding_box(pred) == Ok::<Rect, CropError>(
            Rect {
                x: 0,
                y: 0,
                width: (raster.width - 1) as u32,
                height: (raster.height - 1) as u32,
            },
        ),
{
    raster.lemma_bounds(pred, 0, 0, raster.width - 1, raster.height - 1);
}

/// Two images in which the same positions pass, each under its own test,
/// get the same answer from the scanner.
pub proof fn theorem_same_hits(
    first: Raster,
    first_pred: PixelPredicate,
    second: Raster,
    second_pred: PixelPredicate,
)
    requires
        first.width == second.width,
        first.height == second.height,
        forall|x: int, y: int| first.hit(first_pred, x, y) <==> second.hit(second_pred, x, y),
    ensures
        first.bounding_box(first_pred) == second.bounding_box(second_pred),
{
    if exists|x: int, y: int| first.hit(first_pred, x, y) {
        let (x, y) = choose|x: int, y: int| first.hit(first_pred, x, y);
        first.lemma_bounds_with_hit(first_pred, x, y);
        let x0: int = first.min_x(first_pred);
        let x1: int = first.max_x(first_pred);
        let y0: int = first.min_y(first_pred);
        let y1: int = first.max_y(first_pred);
        let a: int = choose|a: int| first.hit(first_pred, x0, a);
        let b: int = choose|b: int| first.hit(first_pred, x1, b);
        let c: int = choose|c: int| first.hit(first_pred, c, y0);
        let d: int = choose|d: int| first.hit(first_pred, d, y1);
        assert(second.hit(second_pred, x0, a) && second.hit(second_pred, x1, b));
        assert(second.hit(second_pred, c, y0) && second.hit(second_pred, d, y1));
        assert forall|u: int, v: int| second.hit(second_pred, u, v) implies x0 <= u <= x1 && y0
            <= v <= y1 by {
            first.lemma_bounds_with_hit(first_pred, u, v);
        }
        second.lemma_bounds(second_pred, x0, y0, x1, y1);
    } else {
        first.lemma_bounds_without_hit(first_pred);
        second.lemma_bounds_without_hit(second_pred);
    }
}

/// Converting to gray does not move the content: the brightness tests find
/// on the gray image the rectangle that they find on the image itself.
pub proof fn theorem_gray_scan(raster: Raster)
    requires
        raster.valid(),
    ensures
        raster.grayscale().bounding_box(PixelPredicate::Grayscale) == raster.bounding_box(
            PixelPredicate::Grayscale,
        ),
        raster.grayscale().bounding_box(PixelPredicate::BinaryThreshold) == raster.bounding_box(
            PixelPredicate::BinaryThreshold,
        ),
        raster.crop_grayscale() == raster.cropped_to(raster, PixelPredicate::Grayscale),
{
    let gray: Raster = raster.grayscale();
    raster.lemma_grayscale();
    assert forall|x: int, y: int|
        (gray.hit(PixelPredicate::Grayscale, x, y) <==> raster.hit(
            PixelPredicate::Grayscale,
            x,
            y,
        )) && (gray.hit(PixelPredicate::BinaryThreshold, x, y) <==> raster.hit(
            PixelPredicate::BinaryThreshold,
            x,
            y,
        )) by {
        if raster.contains(x, y) {
            assert(gray.at(x, y) == raster.at(x, y).gray());
            lemma_gray_keeps_luma(raster.at(x, y));
        }
    }
    theorem_same_hits(gray, PixelPredicate::Grayscale, raster, PixelPredicate::Grayscale);
    theorem_same_hits(
        gray,
        PixelPredicate::BinaryThreshold,
        raster,
        PixelPredicate::BinaryThreshold,
    );
}

/// A cell of the mask is foreground exactly where the image's own pixel
/// is brighter than the mask limit, and background elsewhere: converting
/// to gray first changes no cell.
pub proof fn theorem_mask_reads_brightness(raster: Raster)
    requires
        raster.valid(),
    ensures
        raster.mask().len() == raster.width * raster.height,
        forall|x: int, y: int|
            raster.contains(x, y) ==> #[trigger] raster.mask()[y * raster.width + x] == mask_cell(
                raster.at(x, y),
            ),
{
    raster.lemma_grayscale();
    assert forall|x: int, y: int| raster.contains(x, y) implies #[trigger] raster.mask()[y
        * raster.width + x] == mask_cell(raster.at(x, y)) by {
        raster.lemma_index(x, y);
        assert(raster.grayscale().at(x, y) == raster.at(x, y).gray());
        lemma_gray_keeps_luma(raster.at(x, y));
    }
}

/// The grayscale strategy on an image of one colour throughout: a colour
/// without brightness is no content.  A colour with brightness gives the
/// image from its first column and row to its last ones, if it has at least
/// two of each; on a single column or row it is no content either.
pub proof fn theorem_uniform_grayscale(raster: Raster, colour: Pixel)
    requires
        raster.valid(),
        forall|x: int, y: int| raster.contains(x, y) ==> raster.at(x, y) == colour,
    ensures
        colour.luma() == 0 ==> raster.crop_grayscale() == Err::<Raster, CropError>(
            CropError::NoContentFound,
        ),
        colour.luma() > 0 && raster.width >= 2 && raster.height >= 2
            ==> raster.grayscale().bounding_box(PixelPredicate::Grayscale) == Ok::<
            Rect,
            CropError,
        >(
            Rect {
                x: 0,
                y: 0,
                width: (raster.width - 1) as u32,
                height: (raster.height - 1) as u32,
            },
        ) && raster.crop_grayscale() == Ok::<Raster, CropError>(
            raster.region(
                Rect {
                    x: 0,
                    y: 0,
                    width: (raster.width - 1) as u32,
                    height: (raster.height - 1) as u32,
                },
            ),
        ),
        colour.luma() > 0 && (raster.width == 1 || raster.height == 1) ==> raster.crop_grayscale()
            == Err::<Raster, CropError>(CropError::NoContentFound),
{
    let pred = PixelPredicate::Grayscale;
    theorem_gray_scan(raster);
    if colour.luma() == 0 {
        theorem_no_passing_pixel(raster, pred);
    } else {
        let right: int = raster.width - 1;
        let bottom: int = raster.height - 1;
        assert(raster.hit(pred, 0, 0));
        assert(raster.hit(pred, right, bottom));
        raster.lemma_bounds(pred, 0, 0, right, bottom);
    }
}

/// The fixed strategy scans the image's full width and all of its rows but
/// the bottom 1661 where the image is wider than high, and all but the
/// bottom 1580 otherwise, whenever the image is higher than that.
pub proof fn theorem_scanned_height(raster: Raster)
    requires
        raster.valid(),
    ensures
        raster.width > raster.height && raster.height > 1661 ==> (raster.above_margin() matches Ok(
            part,
        ) && part.valid() && part.width == raster.width && part.height == raster.height - 1661),
        raster.width <= raster.height && raster.height > 1580 ==> (
        raster.above_margin() matches Ok(part) && part.valid() && part.width == raster.width
            && part.height == raster.height - 1580),
        raster.height <= raster.bottom_margin() ==> raster.crop_fixed() == Err::<
            Raster,
            CropError,
        >(CropError::InvalidGeometry),
{
    if raster.height > raster.bottom_margin() {
        raster.lemma_region(
            Rect {
                x: 0,
                y: 0,
                width: raster.width as u32,
                height: (raster.height - raster.bottom_margin()) as u32,
            },
        );
    }
}

/// The rectangle around a boundary holds each of its points, and its sides
/// touch some of them.
pub proof fn theorem_rect_holds_boundary(points: Seq<Point>)
    requires
        traceable(points),
    ensures
        enclosing_rect(points).has_area(),
        forall|i: int|
            0 <= i < points.len() ==> enclosing_rect(points).x <= (#[trigger] points[i]).x
                < enclosing_rect(points).x + enclosing_rect(points).width && enclosing_rect(
                points,
            ).y <= points[i].y < enclosing_rect(points).y + enclosing_rect(points).height,
        columns(points).contains(enclosing_rect(points).x as int),
        rows(points).contains(enclosing_rect(points).y as int),
        columns(points).contains(enclosing_rect(points).x + enclosing_rect(points).width - 1),
        rows(points).contains(enclosing_rect(points).y + enclosing_rect(points).height - 1),
{
    let xs: Seq<int> = columns(points);
    let ys: Seq<int> = rows(points);
    xs.min_ensures();
    xs.max_ensures();
    ys.min_ensures();
    ys.max_ensures();
    assert forall|i: int| 0 <= i < points.len() implies 0 <= xs.min() <= (#[trigger] points[i]).x
        <= xs.max() <= i32::MAX && 0 <= ys.min() <= points[i].y <= ys.max() <= i32::MAX by {
        assert(xs[i] == points[i].x && ys[i] == points[i].y);
        let a: int = choose|a: int| 0 <= a < xs.len() && xs[a] == xs.min();
        let b: int = choose|b: int| 0 <= b < xs.len() && xs[b] == xs.max();
        let c: int = choose|c: int| 0 <= c < ys.len() && ys[c] == ys.min();
        let d: int = choose|d: int| 0 <= d < ys.len() && ys[d] == ys.max();
        assert(xs[a] == points[a].x && xs[b] == points[b].x);
        assert(ys[c] == points[c].y && ys[d] == points[d].y);
    }
    assert(xs[0] == points[0].x && ys[0] == points[0].y);
}

} // verus!
