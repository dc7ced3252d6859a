//! Turns a run of bytes into compilable C source text: one or more chunk
//! files, each holding a statically initialized byte array, and a companion
//! header that declares every generated symbol and records the totals.
//!
//! The library computes text from plain values; reading the input file and
//! writing the generated files is left to the caller.

pub mod convert;
pub mod encode;
pub mod header;
pub mod numerals;

use vstd::prelude::*;

verus! {

/// Default cap on the number of input bytes placed in one chunk, chosen to
/// keep every generated translation unit under common compiler limits on
/// literal and array size.
pub const DEFAULT_MAX_CHUNK_BYTES: usize = 2097152;

} // verus!
