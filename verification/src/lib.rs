//! Automatic cropping of raster images.
//!
//! Given a decoded RGBA image, the crate finds the rectangle that holds the
//! image's content under one of four detection strategies and cuts the image
//! down to it.  Every function is verified against a mathematical model of
//! the image; the few calls into the `image` and `base64` crates are
//! isolated in small trusted wrappers whose contracts are written out.

mod backend;
pub mod buffer;
pub mod contour;
pub mod cropper;
pub mod cursor;
pub mod error;
pub mod geometry;
pub mod pixel;
pub mod raster;
pub mod scan;
pub mod theorems;
pub mod transcribe;
