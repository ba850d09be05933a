//! The CPU-driven memory copier behind the platform's DMA interface: the copy
//! itself is a plain memory move; what is decided here is whether the ranges
//! are acceptable.

use vstd::prelude::*;

verus! {

/// Errors of the copier.
#[derive(Clone, Copy, Debug, PartialEq, Eq, Structural)]
pub enum DmaError {
    /// `src + len` or `dst + len` does not fit in the address space.
    AddressOverflow,
}

/// A DMA engine emulated by CPU copies.
pub struct CpuDmaCopier;

impl Default for CpuDmaCopier {
    fn default() -> (c: Self) {
        Self::new()
    }
}

impl CpuDmaCopier {
    pub fn new() -> (c: Self) {
        Self
    }

    /// Whether a copy of `len` bytes from `src` to `dst` may go ahead: both
    /// ranges must end inside the address space.
    pub fn check_copy(&self, src: usize, dst: usize, len: usize) -> (r: Result<(), DmaError>)
        ensures
            r is Ok <==> src + len <= usize::MAX && dst + len <= usize::MAX,
            r is Err ==> r == Err::<(), DmaError>(DmaError::AddressOverflow),
    {
        if src.checked_add(len).is_none() {
            return Err(DmaError::AddressOverflow);
        }
        if dst.checked_add(len).is_none() {
            return Err(DmaError::AddressOverflow);
        }
        Ok(())
    }
}

} // verus!
