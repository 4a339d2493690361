//! Verified pieces of the OpenEXR codec layer: the byte reconstruction step of
//! ZIP-predicted DWA data and the JPEG 2000 (HTJ2K) block codec glue.
pub mod compression;
pub mod error;
pub mod math;
pub mod text;
