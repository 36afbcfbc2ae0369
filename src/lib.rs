//! A buffered reader that decodes text in an arbitrary encoding into UTF-8,
//! one chunk of the underlying source at a time.
use vstd::prelude::*;

pub mod decoding;
pub mod reader;

verus! {

/// The number of bytes that a buffer pulls from its source at once, unless
/// told otherwise.
pub const DEFAULT_BUF_SIZE: usize = 4096;

} // verus!
