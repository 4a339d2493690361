//! Compression methods of OpenEXR image blocks.
pub mod dwa;
pub mod htj2k;
