//! Verified core of a document image recompressor.
//!
//! A document is a graph of objects; raster image streams inside it are
//! decoded, optionally downscaled, and re-encoded into a compact lossy
//! format, with every dependent dictionary field kept consistent.

pub mod assoc;
pub mod codec;
pub mod decode;
pub mod dict;
pub mod document;
pub mod driver;
pub mod error;
pub mod interpret;
pub mod names;
pub mod object;
pub mod pipeline;
pub mod pixels;
pub mod resize;
pub mod resolve;
pub mod writer;
