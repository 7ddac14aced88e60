//! The four cropping strategies and their dispatcher.

use crate::buffer::{outcome, PixelBuffer};
use crate::contour::{
    boundaries, doubled_areas, enclosing_rect, first_largest, largest_contour, Contour, Point,
};
use crate::error::CropError;
use crate::geometry::Rect;
use crate::pixel::{Pixel, PixelPredicate};
use crate::raster::{lemma_cell_index, Raster};
use crate::scan::scan_bounds;
use vstd::prelude::*;

verus! {

/// Rows taken off the bottom of an image that is wider than high.
pub const LANDSCAPE_MARGIN: u32 = 1661;

/// Rows taken off the bottom of any other image.
pub const PORTRAIT_MARGIN: u32 = 1580;

/// Value of a foreground cell in a mask.
pub const FOREGROUND: u8 = 255;

/// Value of a background cell in a mask.
pub const BACKGROUND: u8 = 0;

/// The strategy by which content is told from background.
#[derive(Clone, Copy, Debug, PartialEq, Eq, Structural)]
pub enum CropMethod {
    /// Drop a fixed margin at the bottom, then trim what is transparent.
    Fixed,
    /// Trim what is dark on every colour channel.
    DarkTol,
    /// Trim what has no brightness at all.
    Grayscale,
    /// Keep the largest connected bright region.
    Contour,
}

/// What the region tracer outside this crate came back with, as
/// mathematical values: the boundaries it found, or its error message.
pub open spec fn tracing(traced: Result<Vec<Contour>, String>) -> Result<Seq<Seq<Point>>, String> {
    match traced {
        Ok(contours) => Ok(boundaries(contours@)),
        Err(message) => Err(message),
    }
}

/// The cell of a mask for one pixel of the gray image.
pub open spec fn mask_cell(p: Pixel) -> u8 {
    if PixelPredicate::BinaryThreshold.holds(p) {
        FOREGROUND
    } else {
        BACKGROUND
    }
}

impl Raster {
    /// The number of rows that the fixed strategy takes off the bottom.
    pub open spec fn bottom_margin(self) -> nat {
        if self.width > self.height {
            LANDSCAPE_MARGIN as nat
        } else {
            PORTRAIT_MARGIN as nat
        }
    }

    /// The part of the image that the fixed strategy scans: all of it but
    /// the bottom margin.  An image no higher than its margin has no such
    /// part.
    pub open spec fn above_margin(self) -> Result<Raster, CropError> {
        if self.height > self.bottom_margin() {
            Ok(
                self.region(
                    Rect {
                        x: 0,
                        y: 0,
                        width: self.width as u32,
                        height: (self.height - self.bottom_margin()) as u32,
                    },
                ),
            )
        } else {
            Err(CropError::InvalidGeometry)
        }
    }

    /// The image cut down to the rectangle that the scanner reports on
    /// `scanned`.
    pub open spec fn cropped_to(self, scanned: Raster, pred: PixelPredicate) -> Result<
        Raster,
        CropError,
    > {
        match scanned.bounding_box(pred) {
            Ok(rect) => self.cut(rect),
            Err(e) => Err(e),
        }
    }

    /// The fixed strategy: what is above the margin, trimmed to its pixels
    /// that are not transparent.
    pub open spec fn crop_fixed(self) -> Result<Raster, CropError> {
        match self.above_margin() {
            Ok(part) => part.cropped_to(part, PixelPredicate::Alpha),
            Err(e) => Err(e),
        }
    }

    /// The dark-tolerance strategy: the image trimmed to its pixels that
    /// are not dark.
    pub open spec fn crop_dark_tol(self) -> Result<Raster, CropError> {
        self.cropped_to(self, PixelPredicate::DarkTolerance)
    }

    /// The grayscale strategy: the image itself, trimmed to the rectangle
    /// found on its gray version.
    pub open spec fn crop_grayscale(self) -> Result<Raster, CropError> {
        self.cropped_to(self.grayscale(), PixelPredicate::Grayscale)
    }

    /// The contour strategy: the image cut down to the rectangle around the
    /// region of the largest area, the first of them if several are as
    /// large.  The tracer's error is handed on; no region at all is no
    /// content.
    pub open spec fn crop_contour(self, traced: Result<Seq<Seq<Point>>, String>) -> Result<
        Raster,
        CropError,
    > {
        match traced {
            Err(message) => Err(CropError::BackendFailure(message)),
            Ok(regions) => if regions.len() == 0 {
                Err(CropError::NoContentFound)
            } else {
                self.cut(enclosing_rect(regions[first_largest(doubled_areas(regions))]))
            },
        }
    }

    /// What each method makes of the image.  Only the contour method looks
    /// at what the tracer found.
    pub open spec fn crop(self, method: CropMethod, traced: Result<Seq<Seq<Point>>, String>)
        -> Result<Raster, CropError> {
        match method {
            CropMethod::Fixed => self.crop_fixed(),
            CropMethod::DarkTol => self.crop_dark_tol(),
            CropMethod::Grayscale => self.crop_grayscale(),
            CropMethod::Contour => self.crop_contour(traced),
        }
    }

    /// The two-level mask of the image: one cell per pixel, row by row,
    /// foreground where the gray image is brighter than the mask limit.
    pub open spec fn mask(self) -> Seq<u8> {
        self.grayscale().pixels.map_values(|p: Pixel| mask_cell(p))
    }

    /// A rectangle found on an image of the same size can always be cut
    /// out: such a crop fails only for want of content.
    pub proof fn lemma_cropped_to_same_size(self, scanned: Raster, pred: PixelPredicate)
        requires
            self.valid(),
            scanned.valid(),
            scanned.width == self.width,
            scanned.height == self.height,
        ensures
            self.cropped_to(scanned, pred) is Ok <==> scanned.bounding_box(pred) is Ok,
            self.cropped_to(scanned, pred) matches Err(e) ==> e == CropError::NoContentFound,
            self.cropped_to(scanned, pred) matches Ok(out) ==> out.valid(),
    {
        scanned.lemma_box_admitted(pred);
        if scanned.bounding_box(pred) is Ok {
            self.lemma_region(scanned.bounding_box(pred).unwrap());
        }
    }
}

/// Cuts `image` down to the rectangle that the scanner finds on `scanned`.
/// The four strategies share this step; they differ in the test and in the
/// image that is scanned.
pub fn crop_to_content(image: &PixelBuffer, scanned: &PixelBuffer, pred: PixelPredicate) -> (r:
    Result<PixelBuffer, CropError>)
    ensures
        outcome(r) == image@.cropped_to(scanned@, pred),
        r matches Ok(out) ==> out@.valid(),
        scanned@.width == image@.width && scanned@.height == image@.height ==> (r is Ok
            <==> scanned@.bounding_box(pred) is Ok) && (r matches Err(e) ==> e
            == CropError::NoContentFound),
{
    match scan_bounds(scanned, pred) {
        Ok(rect) => {
            let r = image.crop(rect);
            proof {
                if scanned@.width == image@.width && scanned@.height == image@.height {
                    image@.lemma_cropped_to_same_size(scanned@, pred);
                }
            }
            r
        },
        Err(e) => Err(e),
    }
}

/// Takes the bottom margin off: 1661 rows where the image is wider than
/// high, 1580 rows otherwise.  What is left has the full width.  An image
/// no higher than its margin is refused.
pub fn trim_bottom_margin(image: &PixelBuffer) -> (r: Result<PixelBuffer, CropError>)
    ensures
        outcome(r) == image@.above_margin(),
        r is Ok <==> image@.height > image@.bottom_margin(),
        r matches Ok(part) ==> part@.valid() && part@.width == image@.width && part@.height
            == image@.height - image@.bottom_margin(),
        r matches Err(e) ==> e == CropError::InvalidGeometry,
        image@.width > image@.height ==> image@.bottom_margin() == 1661,
        image@.width <= image@.height ==> image@.bottom_margin() == 1580,
{
    let width: u32 = image.width();
    let height: u32 = image.height();
    let margin: u32 = if width > height {
        LANDSCAPE_MARGIN
    } else {
        PORTRAIT_MARGIN
    };
    if height <= margin {
        return Err(CropError::InvalidGeometry);
    }
    let rect = Rect { x: 0, y: 0, width, height: height - margin };
    proof {
        image@.lemma_region(rect);
    }
    image.crop(rect)
}

/// The fixed strategy: takes the bottom margin off and trims the rest to
/// its pixels that are not transparent.
pub fn crop_fixed(image: &PixelBuffer) -> (r: Result<PixelBuffer, CropError>)
    ensures
        outcome(r) == image@.crop_fixed(),
        r matches Ok(out) ==> out@.valid(),
        image@.height <= image@.bottom_margin() ==> r == Err::<PixelBuffer, CropError>(
            CropError::InvalidGeometry,
        ),
        image@.height > image@.bottom_margin() ==> (r matches Err(e) ==> e
            == CropError::NoContentFound),
{
    match trim_bottom_margin(image) {
        Ok(part) => crop_to_content(&part, &part, PixelPredicate::Alpha),
        Err(e) => Err(e),
    }
}

/// The dark-tolerance strategy: trims the image to its pixels with a colour
/// channel above 50.
pub fn crop_dark_tol(image: &PixelBuffer) -> (r: Result<PixelBuffer, CropError>)
    ensures
        outcome(r) == image@.crop_dark_tol(),
        r is Ok <==> image@.bounding_box(PixelPredicate::DarkTolerance) is Ok,
        r matches Ok(out) ==> out@.valid(),
        r matches Err(e) ==> e == CropError::NoContentFound,
{
    crop_to_content(image, image, PixelPredicate::DarkTolerance)
}

/// The grayscale strategy: converts the image to gray, finds the rectangle
/// of the pixels with any brightness there, and cuts the image itself to it.
pub fn crop_grayscale(image: &PixelBuffer) -> (r: Result<PixelBuffer, CropError>)
    ensures
        outcome(r) == image@.crop_grayscale(),
        r is Ok <==> image@.grayscale().bounding_box(PixelPredicate::Grayscale) is Ok,
        r matches Ok(out) ==> out@.valid(),
        r matches Err(e) ==> e == CropError::NoContentFound,
{
    let gray: PixelBuffer = image.grayscale();
    crop_to_content(image, &gray, PixelPredicate::Grayscale)
}

/// The contour strategy, from what the tracer found on the image's mask:
/// cuts the image to the rectangle around the region of the largest area.
/// A rectangle that reaches outside the image is refused.
pub fn crop_contour(image: &PixelBuffer, traced: Result<Vec<Contour>, String>) -> (r: Result<
    PixelBuffer,
    CropError,
>)
    ensures
        outcome(r) == image@.crop_contour(tracing(traced)),
        r matches Ok(out) ==> out@.valid(),
{
    match traced {
        Err(message) => Err(CropError::BackendFailure(message)),
        Ok(contours) => {
            match largest_contour(&contours) {
                None => Err(CropError::NoContentFound),
                Some(i) => {
                    let rect: Rect = contours[i].bounding_rect();
                    proof {
                        assert(boundaries(contours@)[i as int] == contours@[i as int]@);
                    }
                    image.crop(rect)
                },
            }
        },
    }
}

/// Crops the image by the given method and hands the strategy's result on
/// as it is.  `traced` is what the region tracer found on the image's
/// mask; only the contour method reads it.
pub fn crop_image(image: &PixelBuffer, method: &CropMethod, traced: Result<Vec<Contour>, String>)
    -> (r: Result<PixelBuffer, CropError>)
    ensures
        outcome(r) == image@.crop(*method, tracing(traced)),
        r matches Ok(out) ==> out@.valid(),
{
    match method {
        CropMethod::Fixed => crop_fixed(image),
        CropMethod::DarkTol => crop_dark_tol(image),
        CropMethod::Grayscale => crop_grayscale(image),
        CropMethod::Contour => crop_contour(image, traced),
    }
}

/// Builds the two-level mask on which regions are traced: the image is
/// converted to gray, and a cell is foreground where the gray pixel's
/// luminance exceeds 10.
pub fn foreground_mask(image: &PixelBuffer) -> (mask: Vec<u8>)
    ensures
        mask@ == image@.mask(),
        mask@.len() == image@.width * image@.height,
{
    let gray: PixelBuffer = image.grayscale();
    let width: u32 = gray.width();
    let height: u32 = gray.height();
    let ghost model: Raster = gray@;
    let mut mask: Vec<u8> = Vec::new();
    let mut y: u32 = 0;
    while y < height
        invariant
            model == gray@,
            model.valid(),
            width == model.width,
            height == model.height,
            y <= height,
            mask@.len() == y * width,
            mask@.len() <= model.pixels.len(),
            forall|k: int| 0 <= k < mask@.len() ==> mask@[k] == mask_cell(model.pixels[k]),
        decreases height - y,
    {
        let mut x: u32 = 0;
        while x < width
            invariant
                model == gray@,
                model.valid(),
                width == model.width,
                height == model.height,
                y < height,
                x <= width,
                mask@.len() == y * width + x,
                mask@.len() <= model.pixels.len(),
                forall|k: int| 0 <= k < mask@.len() ==> mask@[k] == mask_cell(model.pixels[k]),
            decreases width - x,
        {
            proof {
                lemma_cell_index(width as int, height as int, x as int, y as int);
            }
            let p: Pixel = gray.pixel(x, y);
            let cell: u8 = if PixelPredicate::BinaryThreshold.test(&p) {
                FOREGROUND
            } else {
                BACKGROUND
            };
            mask.push(cell);
            x = x + 1;
        }
        proof {
            assert(y * width + width == (y + 1) * width) by (nonlinear_arith);
            assert((y + 1) * width <= width * height) by (nonlinear_arith)
                requires
                    y < height,
                    0 <= width,
            ;
        }
        y = y + 1;
    }
    proof {
        assert(height * width == width * height) by (nonlinear_arith);
        assert(mask@ =~= image@.mask());
    }
    mask
}

} // verus!
