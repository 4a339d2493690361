//! Helpers of the DWA compression method.
pub mod zip;
