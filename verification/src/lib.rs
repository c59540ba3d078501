//! Packed-bit voxel occupancy and face-visibility culling.
//!
//! A chunk of the voxel world is a fixed-size cube of cells, each either
//! solid or empty.  The library stores that occupancy one bit per cell,
//! packed into machine words, and derives for every solid cell which of its
//! six faces are externally visible — not hidden by a solid neighbor, whether
//! that neighbor lies in the same chunk or across a chunk boundary.  A
//! renderer consumes the resulting bitsets as plain values; nothing here
//! depends on any graphics backend.

use vstd::prelude::*;

pub mod array3d;
pub mod bitvec;
pub mod chunk;
pub mod chunk_manager;
pub mod laws;
pub mod pipeline;

verus! {

/// Why a grid or direction operation was rejected.
///
/// Both conditions signal a caller bug: they are reported immediately and
/// never retried.
#[derive(Clone, Copy, Debug, PartialEq, Eq, Structural)]
pub enum GridError {
    /// A coordinate fell outside `[0, size)` on some axis.
    OutOfRange,
    /// A direction code outside the six valid values.
    InvalidDirection,
}

} // verus!
