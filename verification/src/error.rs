//! Errors reported by the codecs.
use vstd::prelude::*;

verus! {

/// An error that a codec reports.
#[derive(Debug)]
pub enum Error {
    /// The contents are invalid or could not be processed.
    Invalid(String),
}

} // verus!
