//! What becomes of requests for memory that cannot be met.

use vstd::prelude::*;
use crate::mapalloc::Layout;

verus! {

/// Why a table could not be made.
#[derive(PartialEq, Eq, Debug, Structural)]
pub enum TryReserveError {
    /// The computed capacity exceeds the maximum size.
    CapacityOverflow,
    /// The memory allocator returned an error.
    AllocatorError {
        /// The layout of the allocation that failed.
        layout: Layout,
    },
}

impl Clone for TryReserveError {
    fn clone(&self) -> (r: Self)
        ensures
            r == *self,
    {
        match self {
            TryReserveError::CapacityOverflow => TryReserveError::CapacityOverflow,
            TryReserveError::AllocatorError { layout } => TryReserveError::AllocatorError {
                layout: *layout,
            },
        }
    }
}

/// Whether a request for memory may be answered with an error.
#[derive(Clone, Copy)]
pub enum Fallibility {
    Fallible,
    Infallible,
}

impl Fallibility {
    /// The error for a capacity that is too large. Infallible requests must not come to this.
    pub fn capacity_overflow(self) -> (r: TryReserveError)
        requires
            self is Fallible,
        ensures
            r == TryReserveError::CapacityOverflow,
    {
        TryReserveError::CapacityOverflow
    }

    /// The error for memory that the allocator did not give.
    ///
    /// Whoever made an infallible request has no use for an error; such a caller ends the
    /// process with it.
    pub fn allocator_error(self, layout: Layout) -> (r: TryReserveError)
        ensures
            r == (TryReserveError::AllocatorError { layout }),
    {
        TryReserveError::AllocatorError { layout }
    }
}

} // verus!
