//! The errors and statistics of tvisor's Rust heap, and the check of the
//! arena it is given.
use vstd::prelude::*;

verus! {

#[derive(Debug, Clone, Copy, PartialEq, Eq, Structural)]
pub enum HeapError {
    AlreadyInitialized,
    InvalidRegion,
    NotInitialized,
}

#[derive(Debug, Clone, Copy, PartialEq, Eq, Structural)]
pub struct HeapStats {
    /// Start of the virtually contiguous heap arena.
    pub arena_start: usize,
    /// Number of bytes owned by the underlying heap.
    pub arena_bytes: usize,
    /// Bytes currently charged to live allocations, including alignment
    /// padding retained by the underlying allocator.
    pub used_bytes: usize,
    /// Bytes currently available for allocation.
    pub free_bytes: usize,
    /// Number of successful allocations that have not been deallocated.
    pub live_allocations: usize,
    /// Number of allocation attempts rejected because no suitable hole was
    /// available or because the heap was not initialized yet.
    pub failed_allocations: usize,
}

/// The smallest arena the heap accepts: room for its first hole's header,
/// three machine words.
pub open spec fn min_arena_bytes() -> int {
    3 * (usize::BITS / 8) as int
}

/// Checks the heap arena `[arena_start, arena_start + arena_bytes)`: it
/// must not start at zero, must hold the heap's first hole header, and must
/// not wrap.
pub fn validate_arena(arena_start: usize, arena_bytes: usize) -> (r: Result<(), HeapError>)
    ensures
        r is Ok <==> (arena_start != 0 && arena_bytes >= min_arena_bytes() && arena_start
            + arena_bytes <= usize::MAX),
        r is Err ==> r == Err::<(), HeapError>(HeapError::InvalidRegion),
{
    let word_bytes = (usize::BITS / 8) as usize;
    if arena_start == 0 || arena_bytes < 3 * word_bytes || arena_start.checked_add(
        arena_bytes,
    ).is_none() {
        return Err(HeapError::InvalidRegion);
    }
    Ok(())
}

} // verus!
