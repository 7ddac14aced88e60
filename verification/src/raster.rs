//! The mathematical model of an image.

use crate::error::CropError;
use crate::geometry::Rect;
use crate::pixel::Pixel;
use vstd::prelude::*;

verus! {

/// An image as a grid of pixels, stored row by row from the top.
pub struct Raster {
    pub width: nat,
    pub height: nat,
    pub pixels: Seq<Pixel>,
}

/// Groups a byte sequence into RGBA pixels, four bytes each.
pub open spec fn pixels_of(bytes: Seq<u8>) -> Seq<Pixel> {
    Seq::new(
        (bytes.len() / 4) as nat,
        |k: int|
            Pixel {
                red: bytes[4 * k],
                green: bytes[4 * k + 1],
                blue: bytes[4 * k + 2],
                alpha: bytes[4 * k + 3],
            },
    )
}

impl Raster {
    /// The grid is not empty, holds one pixel per position, and its sides
    /// can be counted in 32 bits.
    pub open spec fn valid(self) -> bool {
        &&& 0 < self.width <= u32::MAX
        &&& 0 < self.height <= u32::MAX
        &&& self.pixels.len() == self.width * self.height
    }

    /// The position lies inside the grid.
    pub open spec fn contains(self, x: int, y: int) -> bool {
        0 <= x < self.width && 0 <= y < self.height
    }

    /// The pixel in column `x` of row `y`.
    pub open spec fn at(self, x: int, y: int) -> Pixel {
        self.pixels[y * self.width + x]
    }

    /// The part of the image that the rectangle covers, as an image of its
    /// own.
    pub open spec fn region(self, rect: Rect) -> Raster {
        Raster {
            width: rect.width as nat,
            height: rect.height as nat,
            pixels: Seq::new(
                (rect.width * rect.height) as nat,
                |k: int| self.at(rect.x + k % (rect.width as int), rect.y + k / (rect.width as int)),
            ),
        }
    }

    /// The rectangle has area and lies inside the image.
    pub open spec fn admits(self, rect: Rect) -> bool {
        rect.has_area() && rect.fits(self.width, self.height)
    }

    /// Cutting with a check: the region if the rectangle is admitted.
    pub open spec fn cut(self, rect: Rect) -> Result<Raster, CropError> {
        if self.admits(rect) {
            Ok(self.region(rect))
        } else {
            Err(CropError::InvalidGeometry)
        }
    }

    /// The image with every pixel replaced by the gray of its brightness.
    pub open spec fn grayscale(self) -> Raster {
        Raster {
            width: self.width,
            height: self.height,
            pixels: self.pixels.map_values(|p: Pixel| p.gray()),
        }
    }
}

/// Positions inside a grid number its cells without gaps or overlap.
pub proof fn lemma_cell_index(width: int, height: int, x: int, y: int)
    requires
        0 <= x < width,
        0 <= y < height,
    ensures
        0 <= y * width + x < width * height,
        (y * width + x) / width == y,
        (y * width + x) % width == x,
{
    assert(0 <= y * width && y * width + width <= width * height) by (nonlinear_arith)
        requires
            0 <= y < height,
            0 < width,
    ;
    vstd::arithmetic::div_mod::lemma_fundamental_div_mod_converse(y * width + x, width, y, x);
}

impl Raster {
    /// A position inside a valid image has a pixel.
    pub proof fn lemma_index(self, x: int, y: int)
        requires
            self.valid(),
            self.contains(x, y),
        ensures
            0 <= y * self.width + x < self.pixels.len(),
    {
        lemma_cell_index(self.width as int, self.height as int, x, y);
    }

    /// A region is a valid image whose pixels are those of the whole image,
    /// shifted by the rectangle's corner.
    pub proof fn lemma_region(self, rect: Rect)
        requires
            self.valid(),
            self.admits(rect),
        ensures
            self.region(rect).valid(),
            forall|x: int, y: int|
                #![trigger self.region(rect).at(x, y)]
                0 <= x < rect.width && 0 <= y < rect.height ==> self.region(rect).at(x, y)
                    == self.at(rect.x + x, rect.y + y),
    {
        let w: int = rect.width as int;
        let h: int = rect.height as int;
        let sub = self.region(rect);
        assert forall|x: int, y: int| 0 <= x < w && 0 <= y < h implies #[trigger] sub.at(x, y)
            == self.at(rect.x + x, rect.y + y) by {
            lemma_cell_index(w, h, x, y);
        }
    }

    /// Converting to gray keeps the size and converts pixel by pixel.
    pub proof fn lemma_grayscale(self)
        requires
            self.valid(),
        ensures
            self.grayscale().valid(),
            forall|x: int, y: int|
                #![trigger self.grayscale().at(x, y)]
                self.contains(x, y) ==> self.grayscale().at(x, y) == self.at(x, y).gray(),
    {
        assert forall|x: int, y: int| self.contains(x, y) implies #[trigger] self.grayscale().at(
            x,
            y,
        ) == self.at(x, y).gray() by {
            self.lemma_index(x, y);
        }
    }
}

} // verus!
