//! Images held in memory.

use crate::backend::{crop_rgba, grayscale_rgba};
use crate::error::CropError;
use crate::geometry::Rect;
use crate::pixel::Pixel;
use crate::raster::{lemma_cell_index, pixels_of, Raster};
use vstd::prelude::*;

verus! {

/// An 8-bit RGBA image: `4 * width * height` bytes, row by row from the
/// top, four bytes per pixel.  An image is never empty.
#[derive(Debug, PartialEq, Eq)]
pub struct PixelBuffer {
    width: u32,
    height: u32,
    data: Vec<u8>,
}

impl View for PixelBuffer {
    type V = Raster;

    closed spec fn view(&self) -> Raster {
        Raster {
            width: self.width as nat,
            height: self.height as nat,
            pixels: pixels_of(self.data@),
        }
    }
}

/// A crop's result with the image replaced by its model.
pub open spec fn outcome(r: Result<PixelBuffer, CropError>) -> Result<Raster, CropError> {
    match r {
        Ok(image) => Ok(image@),
        Err(e) => Err(e),
    }
}

impl PixelBuffer {
    #[verifier::type_invariant]
    spec fn well_formed(self) -> bool {
        &&& self.width > 0
        &&& self.height > 0
        &&& self.data@.len() == 4 * (self.width * self.height)
    }

    /// Wraps raw RGBA bytes.  The bytes are accepted when the image is not
    /// empty and there are exactly four bytes for every pixel.
    pub fn from_raw(width: u32, height: u32, data: Vec<u8>) -> (r: Option<PixelBuffer>)
        ensures
            r is Some <==> width > 0 && height > 0 && data@.len() == 4 * (width * height),
            r matches Some(image) ==> image@ == (Raster {
                width: width as nat,
                height: height as nat,
                pixels: pixels_of(data@),
            }) && image@.valid(),
    {
        assert(width * height <= 0xFFFF_FFFF * 0xFFFF_FFFF) by (nonlinear_arith)
            requires
                width <= 0xFFFF_FFFF,
                height <= 0xFFFF_FFFF,
        ;
        let cells: u128 = (width as u128) * (height as u128);
        if width > 0 && height > 0 && data.len() as u128 == 4 * cells {
            Some(PixelBuffer { width, height, data })
        } else {
            None
        }
    }

    /// The number of columns.
    pub fn width(&self) -> (w: u32)
        ensures
            w == self@.width,
            self@.valid(),
    {
        proof {
            use_type_invariant(self);
        }
        self.width
    }

    /// The number of rows.
    pub fn height(&self) -> (h: u32)
        ensures
            h == self@.height,
            self@.valid(),
    {
        proof {
            use_type_invariant(self);
        }
        self.height
    }

    /// The pixel in column `x` of row `y`.
    pub fn pixel(&self, x: u32, y: u32) -> (p: Pixel)
        requires
            self@.contains(x as int, y as int),
        ensures
            p == self@.at(x as int, y as int),
    {
        proof {
            use_type_invariant(self);
            lemma_cell_index(self.width as int, self.height as int, x as int, y as int);
        }
        let len: usize = self.data.len();
        assert(y * self.width <= y * self.width + x < len);
        let cell: usize = (y as usize) * (self.width as usize) + (x as usize);
        let at: usize = 4 * cell;
        Pixel {
            red: self.data[at],
            green: self.data[at + 1],
            blue: self.data[at + 2],
            alpha: self.data[at + 3],
        }
    }

    /// Gives the raw RGBA bytes back.
    pub fn into_raw(self) -> (data: Vec<u8>)
        ensures
            data@.len() == 4 * (self@.width * self@.height),
            pixels_of(data@) == self@.pixels,
    {
        proof {
            use_type_invariant(&self);
        }
        self.data
    }

    /// Converts the image to gray: every pixel keeps its alpha and gets its
    /// luminance on the three colour channels.
    pub fn grayscale(&self) -> (gray: PixelBuffer)
        ensures
            gray@ == self@.grayscale(),
            gray@.valid(),
    {
        proof {
            use_type_invariant(self);
        }
        let data: Vec<u8> = grayscale_rgba(self.width, self.height, &self.data);
        PixelBuffer { width: self.width, height: self.height, data }
    }

    /// Cuts the rectangle out of the image.  A rectangle without area, or
    /// one that reaches outside the image, is refused.
    pub fn crop(&self, rect: Rect) -> (r: Result<PixelBuffer, CropError>)
        ensures
            outcome(r) == self@.cut(rect),
            r is Ok <==> self@.admits(rect),
            r matches Ok(image) ==> image@.valid(),
            r matches Err(e) ==> e == CropError::InvalidGeometry,
            self@.valid(),
    {
        proof {
            use_type_invariant(self);
        }
        if rect.width == 0 || rect.height == 0 {
            return Err(CropError::InvalidGeometry);
        }
        if rect.width > self.width || rect.height > self.height {
            return Err(CropError::InvalidGeometry);
        }
        if rect.x > self.width - rect.width || rect.y > self.height - rect.height {
            return Err(CropError::InvalidGeometry);
        }
        let data: Vec<u8> = crop_rgba(self.width, self.height, &self.data, rect);
        Ok(PixelBuffer { width: rect.width, height: rect.height, data })
    }
}

} // verus!
