//! Types that allow parsing and rebuilding of various Arc System Works
//! file formats, with machine-checked contracts on the codecs.

pub mod bbcf;
pub mod dbzop;
pub mod error;
pub mod ggacpr;
pub mod helpers;
pub mod pac;
pub mod zlib;

pub use error::Error;
pub use pac::arcsys_filename_hash;
pub use helpers::{IndexedImage, RGBAColor};
