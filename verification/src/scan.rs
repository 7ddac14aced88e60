//! The bounding-box scanner: the smallest rectangle spanned by the pixels
//! that pass a test.

use crate::buffer::PixelBuffer;
use crate::error::CropError;
use crate::geometry::Rect;
use crate::pixel::{Pixel, PixelPredicate};
use crate::raster::Raster;
use vstd::prelude::*;

verus! {

impl Raster {
    /// The position lies in the image and its pixel passes the test.
    pub open spec fn hit(self, pred: PixelPredicate, x: int, y: int) -> bool {
        self.contains(x, y) && pred.holds(self.at(x, y))
    }

    /// Some pixel of column `x` passes the test.
    pub open spec fn column_hit(self, pred: PixelPredicate, x: int) -> bool {
        exists|y: int| self.hit(pred, x, y)
    }

    /// Some pixel of row `y` passes the test.
    pub open spec fn row_hit(self, pred: PixelPredicate, y: int) -> bool {
        exists|x: int| self.hit(pred, x, y)
    }

    /// The leftmost column with a passing pixel; the width if there is none.
    #[verifier::opaque]
    pub open spec fn min_x(self, pred: PixelPredicate) -> int {
        if exists|x: int| self.column_hit(pred, x) {
            choose|x: int|
                self.column_hit(pred, x) && forall|other: int|
                    self.column_hit(pred, other) ==> x <= other
        } else {
            self.width as int
        }
    }

    /// The rightmost column with a passing pixel; zero if there is none.
    #[verifier::opaque]
    pub open spec fn max_x(self, pred: PixelPredicate) -> int {
        if exists|x: int| self.column_hit(pred, x) {
            choose|x: int|
                self.column_hit(pred, x) && forall|other: int|
                    self.column_hit(pred, other) ==> other <= x
        } else {
            0
        }
    }

    /// The topmost row with a passing pixel; the height if there is none.
    #[verifier::opaque]
    pub open spec fn min_y(self, pred: PixelPredicate) -> int {
        if exists|y: int| self.row_hit(pred, y) {
            choose|y: int|
                self.row_hit(pred, y) && forall|other: int|
                    self.row_hit(pred, other) ==> y <= other
        } else {
            self.height as int
        }
    }

    /// The bottommost row with a passing pixel; zero if there is none.
    #[verifier::opaque]
    pub open spec fn max_y(self, pred: PixelPredicate) -> int {
        if exists|y: int| self.row_hit(pred, y) {
            choose|y: int|
                self.row_hit(pred, y) && forall|other: int|
                    self.row_hit(pred, other) ==> other <= y
        } else {
            0
        }
    }

    /// What the scanner reports: the rectangle from the first passing
    /// column and row, as wide and as high as the distance to the last
    /// ones.  The comparison is strict: passing pixels that all lie in one
    /// column, or all in one row, count as no content.
    pub open spec fn bounding_box(self, pred: PixelPredicate) -> Result<Rect, CropError> {
        if self.max_x(pred) > self.min_x(pred) && self.max_y(pred) > self.min_y(pred) {
            Ok(
                Rect {
                    x: self.min_x(pred) as u32,
                    y: self.min_y(pred) as u32,
                    width: (self.max_x(pred) - self.min_x(pred)) as u32,
                    height: (self.max_y(pred) - self.min_y(pred)) as u32,
                },
            )
        } else {
            Err(CropError::NoContentFound)
        }
    }

    /// A column that is hit and left of every hit column is the first one.
    pub proof fn lemma_min_x(self, pred: PixelPredicate, x: int)
        requires
            self.column_hit(pred, x),
            forall|other: int| self.column_hit(pred, other) ==> x <= other,
        ensures
            self.min_x(pred) == x,
    {
        reveal(Raster::min_x);
        let m: int = self.min_x(pred);
        assert(self.column_hit(pred, m) && forall|other: int|
            self.column_hit(pred, other) ==> m <= other);
    }

    /// A column that is hit and right of every hit column is the last one.
    pub proof fn lemma_max_x(self, pred: PixelPredicate, x: int)
        requires
            self.column_hit(pred, x),
            forall|other: int| self.column_hit(pred, other) ==> other <= x,
        ensures
            self.max_x(pred) == x,
    {
        reveal(Raster::max_x);
        let m: int = self.max_x(pred);
        assert(self.column_hit(pred, m) && forall|other: int|
            self.column_hit(pred, other) ==> other <= m);
    }

    /// A row that is hit and above every hit row is the first one.
    pub proof fn lemma_min_y(self, pred: PixelPredicate, y: int)
        requires
            self.row_hit(pred, y),
            forall|other: int| self.row_hit(pred, other) ==> y <= other,
        ensures
            self.min_y(pred) == y,
    {
        reveal(Raster::min_y);
        let m: int = self.min_y(pred);
        assert(self.row_hit(pred, m) && forall|other: int|
            self.row_hit(pred, other) ==> m <= other);
    }

    /// A row that is hit and below every hit row is the last one.
    pub proof fn lemma_max_y(self, pred: PixelPredicate, y: int)
        requires
            self.row_hit(pred, y),
            forall|other: int| self.row_hit(pred, other) ==> other <= y,
        ensures
            self.max_y(pred) == y,
    {
        reveal(Raster::max_y);
        let m: int = self.max_y(pred);
        assert(self.row_hit(pred, m) && forall|other: int|
            self.row_hit(pred, other) ==> other <= m);
    }

    /// The four bounds are pinned down by four passing pixels, one on each
    /// side, that enclose every other passing pixel.
    pub proof fn lemma_bounds(
        self,
        pred: PixelPredicate,
        left: int,
        top: int,
        right: int,
        bottom: int,
    )
        requires
            self.column_hit(pred, left),
            self.column_hit(pred, right),
            self.row_hit(pred, top),
            self.row_hit(pred, bottom),
            forall|x: int, y: int|
                self.hit(pred, x, y) ==> left <= x <= right && top <= y <= bottom,
        ensures
            self.min_x(pred) == left,
            self.max_x(pred) == right,
            self.min_y(pred) == top,
            self.max_y(pred) == bottom,
    {
        self.lemma_min_x(pred, left);
        self.lemma_max_x(pred, right);
        self.lemma_min_y(pred, top);
        self.lemma_max_y(pred, bottom);
    }

    /// Without a passing pixel the bounds keep their starting values.
    pub proof fn lemma_bounds_without_hit(self, pred: PixelPredicate)
        requires
            forall|x: int, y: int| !self.hit(pred, x, y),
        ensures
            self.min_x(pred) == self.width,
            self.max_x(pred) == 0,
            self.min_y(pred) == self.height,
            self.max_y(pred) == 0,
    {
        reveal(Raster::min_x);
        reveal(Raster::max_x);
        reveal(Raster::min_y);
        reveal(Raster::max_y);
    }

    /// With a passing pixel in the image, each bound is the coordinate of
    /// one, and the bounds enclose them all.
    pub proof fn lemma_bounds_with_hit(self, pred: PixelPredicate, x: int, y: int)
        requires
            self.hit(pred, x, y),
        ensures
            self.column_hit(pred, self.min_x(pred)),
            self.column_hit(pred, self.max_x(pred)),
            self.row_hit(pred, self.min_y(pred)),
            self.row_hit(pred, self.max_y(pred)),
            self.min_x(pred) <= x <= self.max_x(pred),
            self.min_y(pred) <= y <= self.max_y(pred),
            0 <= self.min_x(pred) <= self.max_x(pred) < self.width,
            0 <= self.min_y(pred) <= self.max_y(pred) < self.height,
    {
        assert(self.column_hit(pred, x));
        assert(self.row_hit(pred, y));
        self.lemma_least_column(pred, x);
        self.lemma_greatest_column(pred, x);
        self.lemma_least_row(pred, y);
        self.lemma_greatest_row(pred, y);
        reveal(Raster::min_x);
        reveal(Raster::max_x);
        reveal(Raster::min_y);
        reveal(Raster::max_y);
    }

    /// Among the hit columns up to `x` there is a leftmost one.
    proof fn lemma_least_column(self, pred: PixelPredicate, x: int)
        requires
            self.column_hit(pred, x),
        ensures
            exists|m: int|
                self.column_hit(pred, m) && forall|other: int|
                    self.column_hit(pred, other) ==> m <= other,
        decreases x,
    {
        let y: int = choose|y: int| self.hit(pred, x, y);
        assert(self.hit(pred, x, y));
        if exists|lower: int| lower < x && self.column_hit(pred, lower) {
            let lower: int = choose|lower: int| lower < x && self.column_hit(pred, lower);
            let v: int = choose|v: int| self.hit(pred, lower, v);
            assert(self.hit(pred, lower, v));
            self.lemma_least_column(pred, lower);
        } else {
            assert(self.column_hit(pred, x) && forall|other: int|
                self.column_hit(pred, other) ==> x <= other);
        }
    }

    /// Among the hit columns from `x` on there is a rightmost one.
    proof fn lemma_greatest_column(self, pred: PixelPredicate, x: int)
        requires
            self.column_hit(pred, x),
        ensures
            exists|m: int|
                self.column_hit(pred, m) && forall|other: int|
                    self.column_hit(pred, other) ==> other <= m,
        decreases self.width - x,
    {
        let y: int = choose|y: int| self.hit(pred, x, y);
        assert(self.hit(pred, x, y));
        if exists|higher: int| higher > x && self.column_hit(pred, higher) {
            let higher: int = choose|higher: int| higher > x && self.column_hit(pred, higher);
            let v: int = choose|v: int| self.hit(pred, higher, v);
            assert(self.hit(pred, higher, v));
            self.lemma_greatest_column(pred, higher);
        } else {
            assert(self.column_hit(pred, x) && forall|other: int|
                self.column_hit(pred, other) ==> other <= x);
        }
    }

    /// Among the hit rows up to `y` there is a topmost one.
    proof fn lemma_least_row(self, pred: PixelPredicate, y: int)
        requires
            self.row_hit(pred, y),
        ensures
            exists|m: int|
                self.row_hit(pred, m) && forall|other: int|
                    self.row_hit(pred, other) ==> m <= other,
        decreases y,
    {
        let x: int = choose|x: int| self.hit(pred, x, y);
        assert(self.hit(pred, x, y));
        if exists|lower: int| lower < y && self.row_hit(pred, lower) {
            let lower: int = choose|lower: int| lower < y && self.row_hit(pred, lower);
            let u: int = choose|u: int| self.hit(pred, u, lower);
            assert(self.hit(pred, u, lower));
            self.lemma_least_row(pred, lower);
        } else {
            assert(self.row_hit(pred, y) && forall|other: int|
                self.row_hit(pred, other) ==> y <= other);
        }
    }

    /// Among the hit rows from `y` on there is a bottommost one.
    proof fn lemma_greatest_row(self, pred: PixelPredicate, y: int)
        requires
            self.row_hit(pred, y),
        ensures
            exists|m: int|
                self.row_hit(pred, m) && forall|other: int|
                    self.row_hit(pred, other) ==> other <= m,
        decreases self.height - y,
    {
        let x: int = choose|x: int| self.hit(pred, x, y);
        assert(self.hit(pred, x, y));
        if exists|higher: int| higher > y && self.row_hit(pred, higher) {
            let higher: int = choose|higher: int| higher > y && self.row_hit(pred, higher);
            let u: int = choose|u: int| self.hit(pred, u, higher);
            assert(self.hit(pred, u, higher));
            self.lemma_greatest_row(pred, higher);
        } else {
            assert(self.row_hit(pred, y) && forall|other: int|
                self.row_hit(pred, other) ==> other <= y);
        }
    }

    /// A reported rectangle lies inside the image and has area, so it can
    /// always be cut out.
    pub proof fn lemma_box_admitted(self, pred: PixelPredicate)
        requires
            self.valid(),
        ensures
            self.bounding_box(pred) matches Ok(rect) ==> self.admits(rect) && rect.x
                == self.min_x(pred) && rect.y == self.min_y(pred) && rect.x + rect.width
                == self.max_x(pred) && rect.y + rect.height == self.max_y(pred),
    {
        if exists|x: int, y: int| self.hit(pred, x, y) {
            let (x, y) = choose|x: int, y: int| self.hit(pred, x, y);
            self.lemma_bounds_with_hit(pred, x, y);
        } else {
            self.lemma_bounds_without_hit(pred);
        }
    }
}

/// Scans every pixel once and reports the rectangle spanned by those that
/// pass the test.
pub fn scan_bounds(image: &PixelBuffer, pred: PixelPredicate) -> (r: Result<Rect, CropError>)
    ensures
        r == image@.bounding_box(pred),
        r matches Ok(rect) ==> image@.admits(rect),
        r matches Err(e) ==> e == CropError::NoContentFound,
        image@.valid(),
{
    let width: u32 = image.width();
    let height: u32 = image.height();
    let mut min_x: u32 = width;
    let mut min_y: u32 = height;
    let mut max_x: u32 = 0;
    let mut max_y: u32 = 0;
    let ghost model: Raster = image@;
    // Where the pixels that set the four bounds were seen.
    let ghost mut seen: bool = false;
    let ghost mut left_row: int = 0;
    let ghost mut right_row: int = 0;
    let ghost mut top_column: int = 0;
    let ghost mut bottom_column: int = 0;
    let mut y: u32 = 0;
    while y < height
        invariant
            model == image@,
            model.valid(),
            width == model.width,
            height == model.height,
            y <= height,
            forall|i: int, j: int|
                model.hit(pred, i, j) && j < y ==> min_x <= i <= max_x && min_y <= j <= max_y,
            !seen ==> min_x == width && min_y == height && max_x == 0 && max_y == 0,
            !seen ==> forall|i: int, j: int| model.hit(pred, i, j) ==> j >= y,
            seen ==> model.hit(pred, min_x as int, left_row) && model.hit(
                pred,
                max_x as int,
                right_row,
            ) && model.hit(pred, top_column, min_y as int) && model.hit(
                pred,
                bottom_column,
                max_y as int,
            ),
        decreases height - y,
    {
        let mut x: u32 = 0;
        while x < width
            invariant
                model == image@,
                model.valid(),
                width == model.width,
                height == model.height,
                y < height,
                x <= width,
                forall|i: int, j: int|
                    model.hit(pred, i, j) && (j < y || (j == y && i < x)) ==> min_x <= i <= max_x
                        && min_y <= j <= max_y,
                !seen ==> min_x == width && min_y == height && max_x == 0 && max_y == 0,
                !seen ==> forall|i: int, j: int|
                    model.hit(pred, i, j) ==> j > y || (j == y && i >= x),
                seen ==> model.hit(pred, min_x as int, left_row) && model.hit(
                    pred,
                    max_x as int,
                    right_row,
                ) && model.hit(pred, top_column, min_y as int) && model.hit(
                    pred,
                    bottom_column,
                    max_y as int,
                ),
            decreases width - x,
        {
            let p: Pixel = image.pixel(x, y);
            if pred.test(&p) {
                assert(model.hit(pred, x as int, y as int));
                if x < min_x {
                    min_x = x;
                    proof {
                        left_row = y as int;
                    }
                }
                if y < min_y {
                    min_y = y;
                    proof {
                        top_column = x as int;
                    }
                }
                if x > max_x {
                    max_x = x;
                    proof {
                        right_row = y as int;
                    }
                }
                if y > max_y {
                    max_y = y;
                    proof {
                        bottom_column = x as int;
                    }
                }
                proof {
                    if !seen {
                        left_row = y as int;
                        right_row = y as int;
                        top_column = x as int;
                        bottom_column = x as int;
                    }
                    seen = true;
                }
            }
            x = x + 1;
        }
        y = y + 1;
    }
    proof {
        if seen {
            model.lemma_bounds(pred, min_x as int, min_y as int, max_x as int, max_y as int);
        } else {
            model.lemma_bounds_without_hit(pred);
        }
        model.lemma_box_admitted(pred);
    }
    if max_x > min_x && max_y > min_y {
        Ok(Rect { x: min_x, y: min_y, width: max_x - min_x, height: max_y - min_y })
    } else {
        Err(CropError::NoContentFound)
    }
}

} // verus!
