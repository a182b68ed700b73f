//! A global heap adapter: the four allocation operations a managed runtime's
//! heap expects (allocate, allocate-zeroed, deallocate, reallocate), built on
//! top of an aligned-allocation backend in the style of the native `memalign`
//! family.
//!
//! The adapter itself is stateless: all bookkeeping lives in the heap the
//! backend manages. Here that heap is modelled explicitly by [`HostHeap`], a
//! map from block addresses to byte contents, so that every adapter rule is
//! stated and proved over it: a returned address is a multiple of the
//! requested alignment, zero-allocation really zeroes every byte, resizing
//! preserves the common prefix byte for byte, and a failed resize leaves the
//! original block untouched.

use vstd::prelude::*;

mod adapter;
mod heap;
mod layout;

pub use adapter::can_allocate;
pub use adapter::lemma_alloc_dealloc_leaves_no_trace;
pub use adapter::widened_align;
pub use adapter::zero_bytes;
pub use heap::round_up;
pub use heap::HostHeap;
pub use heap::MIN_NATIVE_ALIGN;
pub use layout::is_power_of_two;
pub use layout::Layout;

verus! {

/// The global allocator adapter.
///
/// A zero-sized, state-free value: any number of instances are
/// interchangeable, because all allocation state lives in the heap itself,
/// never in the adapter.
pub struct LibcAlloc;

} // verus!
