//! Pixels and the per-pixel tests that tell content from background.

use vstd::prelude::*;

verus! {

/// A channel above this value marks a pixel as not dark.
pub const DARK_LIMIT: u8 = 50;

/// A luminance above this value puts a pixel in the foreground of a mask.
pub const MASK_LIMIT: u8 = 10;

/// Perceptual brightness of a colour: the sRGB channels weighted
/// 0.2126 : 0.7152 : 0.0722, rounded down.
pub open spec fn luminance(red: int, green: int, blue: int) -> int {
    (2126 * red + 7152 * green + 722 * blue) / 10000
}

/// One RGBA sample, eight bits per channel.
#[derive(Clone, Copy, Debug, PartialEq, Eq, Structural)]
pub struct Pixel {
    pub red: u8,
    pub green: u8,
    pub blue: u8,
    pub alpha: u8,
}

impl Pixel {
    /// The pixel's luminance as a mathematical integer.
    pub open spec fn luma(self) -> int {
        luminance(self.red as int, self.green as int, self.blue as int)
    }

    /// The pixel with its colour replaced by its luminance on all three
    /// colour channels; alpha is kept.
    pub open spec fn gray(self) -> Pixel {
        Pixel {
            red: self.luma() as u8,
            green: self.luma() as u8,
            blue: self.luma() as u8,
            alpha: self.alpha,
        }
    }

    /// Computes the luminance.
    pub fn luminance(&self) -> (l: u8)
        ensures
            l == self.luma(),
    {
        let weighted: u32 = 2126 * (self.red as u32) + 7152 * (self.green as u32) + 722 * (
        self.blue as u32);
        let l: u32 = weighted / 10000;
        l as u8
    }

    /// Computes the gray pixel of the same brightness.
    pub fn to_gray(&self) -> (g: Pixel)
        ensures
            g == self.gray(),
    {
        let l: u8 = self.luminance();
        Pixel { red: l, green: l, blue: l, alpha: self.alpha }
    }
}

/// Luminance never leaves the range of a channel.
pub proof fn lemma_luminance_range(red: int, green: int, blue: int)
    requires
        0 <= red <= 255,
        0 <= green <= 255,
        0 <= blue <= 255,
    ensures
        0 <= luminance(red, green, blue) <= 255,
{
}

/// A gray pixel is as bright as its channels say: converting twice changes
/// nothing.
pub proof fn lemma_gray_keeps_luma(p: Pixel)
    ensures
        p.gray().luma() == p.luma(),
        p.gray().gray() == p.gray(),
{
    lemma_luminance_range(p.red as int, p.green as int, p.blue as int);
    let l: int = p.luma();
    assert(2126 * l + 7152 * l + 722 * l == 10000 * l);
}

/// The tests a pixel can be put to.
#[derive(Clone, Copy, Debug, PartialEq, Eq, Structural)]
pub enum PixelPredicate {
    /// The pixel is not fully transparent.
    Alpha,
    /// Some colour channel exceeds [`DARK_LIMIT`].
    DarkTolerance,
    /// The luminance is above zero.
    Grayscale,
    /// The luminance exceeds [`MASK_LIMIT`].
    BinaryThreshold,
}

impl PixelPredicate {
    /// Whether the pixel counts as content under this test.
    pub open spec fn holds(self, p: Pixel) -> bool {
        match self {
            PixelPredicate::Alpha => p.alpha > 0,
            PixelPredicate::DarkTolerance => p.red > DARK_LIMIT || p.green > DARK_LIMIT || p.blue
                > DARK_LIMIT,
            PixelPredicate::Grayscale => p.luma() > 0,
            PixelPredicate::BinaryThreshold => p.luma() > MASK_LIMIT,
        }
    }

    /// Evaluates the test on one pixel.
    pub fn test(&self, p: &Pixel) -> (b: bool)
        ensures
            b == self.holds(*p),
    {
        match self {
            PixelPredicate::Alpha => p.alpha > 0,
            PixelPredicate::DarkTolerance => p.red > DARK_LIMIT || p.green > DARK_LIMIT || p.blue
                > DARK_LIMIT,
            PixelPredicate::Grayscale => p.luminance() > 0,
            PixelPredicate::BinaryThreshold => p.luminance() > MASK_LIMIT,
        }
    }
}

} // verus!
