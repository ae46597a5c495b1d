use vstd::prelude::*;

verus! {

/// Width and height of a chunk, in cells.
pub const CHUNK_SIZE: i32 = 64;

/// Number of cells in a chunk.
pub const CHUNK_CELLS: i32 = CHUNK_SIZE * CHUNK_SIZE;

} // verus!
