//! A decoder for a self-describing binary data-interchange format: a byte
//! stream of typed items, each introduced by a compact header (major type
//! plus length/argument), with definite- and indefinite-length (chunked)
//! string, array and map forms.
//!
//! The decoder is pull-based: the caller asks for a value of a given shape
//! and receives it as a plain tagged result. Byte and text payloads are
//! returned as zero-copy views of the input whenever the byte source allows
//! it, and are otherwise assembled in a caller-supplied scratch buffer.

pub mod de;
pub mod error;
pub mod header;
pub mod io;
pub mod scratch;
pub mod simple;

pub use crate::error::Error;
