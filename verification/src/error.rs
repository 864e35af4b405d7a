//! What can go wrong while one image is processed. Every error aborts
//! that image alone; the caller keeps going.

use vstd::prelude::*;

verus! {

/// The per-image error taxonomy.
#[derive(Clone, Copy, PartialEq, Eq, Structural, Debug)]
pub enum PdfError {
    /// The target object is missing or is not a stream.
    StreamAccess,
    /// The filter chain is unsupported, or decompression failed.
    Decode,
    /// The component count is unusable after all heuristics.
    ColorConversion,
    /// Re-encoding the pixel buffer failed.
    Encode,
}

impl PdfError {
    /// A short tag for reporting.
    pub fn describe(&self) -> &'static str {
        match self {
            PdfError::StreamAccess => "object is not a stream",
            PdfError::Decode => "stream decode failed",
            PdfError::ColorConversion => "unsupported component count",
            PdfError::Encode => "re-encoding failed",
        }
    }
}

} // verus!
