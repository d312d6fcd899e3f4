//! Block-size limits shared by every buffer the codec touches.

use vstd::prelude::*;

verus! {

/// A heap block header as the host allocator lays it out.
pub struct Block {
    /// Memory manager info.
    #[allow(dead_code)]
    mm_info: u32,
}

/// Bytes the allocator reserves for its own bookkeeping in each block.
pub const BLOCK_OVERHEAD: usize = 100;

/// The largest logical byte length a buffer may declare.
pub const BLOCK_MAX_SIZE: usize = 0x4000_0000 - BLOCK_OVERHEAD;

} // verus!
