//! The adapter: the four operations a global heap provider must satisfy,
//! implemented over the `memalign`-style backend and proved against the
//! host-heap model.
//!
//! The backend has no zeroing allocator that honours alignment and no native
//! resize, so the adapter emulates both: allocate-zeroed is allocate followed
//! by an explicit zero-fill, and reallocate is allocate-copy-release, with
//! the original block released only after the replacement succeeded.

use vstd::prelude::*;

verus! {

use crate::heap::round_up;
use crate::heap::HostHeap;
use crate::heap::MIN_NATIVE_ALIGN;
use crate::layout::lemma_aligned_to_smaller_pow2;
use crate::layout::Layout;
use crate::LibcAlloc;
use vstd::arithmetic::power2::is_pow2;
use vstd::math::min;

/// The alignment actually handed to the backend: the caller's request,
/// widened to the backend's floor. Widening is always legal: an address that
/// is a multiple of a larger power of two is a multiple of any smaller one.
pub open spec fn widened_align(align: int) -> int {
    if align < MIN_NATIVE_ALIGN as int {
        MIN_NATIVE_ALIGN as int
    } else {
        align
    }
}

/// Whether the heap can currently satisfy a request for `size` bytes at the
/// caller-requested alignment `align`.
pub open spec fn can_allocate(heap: HostHeap, size: int, align: int) -> bool {
    heap.fits(widened_align(align), size)
}

/// `n` zero bytes.
pub open spec fn zero_bytes(n: nat) -> Seq<u8> {
    Seq::new(n, |i: int| 0u8)
}

/// Widens an alignment to the backend's floor.
fn widen_align(align: usize) -> (w: usize)
    requires
        is_pow2(align as int),
    ensures
        w as int == widened_align(align as int),
        is_pow2(w as int),
        w >= MIN_NATIVE_ALIGN,
        w >= align,
{
    if align < MIN_NATIVE_ALIGN {
        proof {
            assert(is_pow2(MIN_NATIVE_ALIGN as int)) by {
                reveal_with_fuel(is_pow2, 5);
            }
        }
        MIN_NATIVE_ALIGN
    } else {
        align
    }
}

impl LibcAlloc {
    /// Requests `layout.size` bytes aligned to at least `layout.align`.
    ///
    /// Returns the null address `0` on failure (and then the heap is
    /// untouched); never panics for out-of-memory, which is a normal,
    /// expected outcome. On success the address is nonzero, a multiple of
    /// the requested alignment, fresh, and the heap gains exactly that one
    /// block of `layout.size` bytes of unspecified contents.
    pub fn allocate(&self, heap: &mut HostHeap, layout: Layout) -> (addr: usize)
        requires
            old(heap).wf(),
            layout.wf(),
        ensures
            final(heap).wf(),
            final(heap).capacity() == old(heap).capacity(),
            addr != 0 <==> can_allocate(*old(heap), layout.size as int, layout.align as int),
            addr == 0 ==> *final(heap) == *old(heap),
            addr != 0 ==> addr as int % layout.align as int == 0
                && addr as int == round_up(old(heap).cursor(), widened_align(layout.align as int))
                && final(heap).cursor() == addr + layout.size + 1
                && !old(heap).mem().contains_key(addr)
                && final(heap).mem().contains_key(addr)
                && final(heap).mem()[addr].len() == layout.size
                && final(heap).mem() == old(heap).mem().insert(addr, final(heap).mem()[addr]),
    {
        let w = widen_align(layout.align);
        let addr = heap.aligned_alloc(w, layout.size);
        if addr != 0 {
            proof {
                lemma_aligned_to_smaller_pow2(addr as int, layout.align as int, w as int);
            }
        }
        addr
    }

    /// Like [`Self::allocate`], but on success every one of the `layout.size`
    /// bytes of the new block is zero.
    ///
    /// The backend's zeroing allocator makes no alignment promise, so this
    /// is built from `allocate` followed by an explicit zero-fill over exactly
    /// `layout.size` bytes, skipped when the allocation failed.
    pub fn allocate_zeroed(&self, heap: &mut HostHeap, layout: Layout) -> (addr: usize)
        requires
            old(heap).wf(),
            layout.wf(),
        ensures
            final(heap).wf(),
            final(heap).capacity() == old(heap).capacity(),
            addr != 0 <==> can_allocate(*old(heap), layout.size as int, layout.align as int),
            addr == 0 ==> *final(heap) == *old(heap),
            addr != 0 ==> addr as int % layout.align as int == 0
                && addr as int == round_up(old(heap).cursor(), widened_align(layout.align as int))
                && final(heap).cursor() == addr + layout.size + 1
                && !old(heap).mem().contains_key(addr)
                && final(heap).mem() == old(heap).mem().insert(addr, zero_bytes(layout.size as nat)),
    {
        let addr = self.allocate(heap, layout);
        if addr != 0 {
            let ghost m1 = heap.mem();
            let ghost cap1 = heap.capacity();
            let ghost cur1 = heap.cursor();
            let mut i: usize = 0;
            while i < layout.size
                invariant
                    i <= layout.size,
                    heap.wf(),
                    heap.capacity() == cap1,
                    heap.cursor() == cur1,
                    heap.mem().contains_key(addr),
                    heap.mem()[addr].len() == layout.size,
                    forall|j: int| 0 <= j < i ==> heap.mem()[addr][j] == 0u8,
                    heap.mem() == m1.insert(addr, heap.mem()[addr]),
                decreases layout.size - i,
            {
                heap.write_byte(addr, i, 0);
                proof {
                    assert(heap.mem() =~= m1.insert(addr, heap.mem()[addr]));
                }
                i = i + 1;
            }
            proof {
                assert(heap.mem()[addr] =~= zero_bytes(layout.size as nat));
                assert(heap.mem() =~= old(heap).mem().insert(
                    addr,
                    zero_bytes(layout.size as nat),
                ));
            }
        }
        addr
    }

    /// Releases the block at `addr`, previously returned by a successful
    /// `allocate`, `allocate_zeroed` or `reallocate` and not yet released.
    ///
    /// The caller's contract, inherited from the native allocator: `addr`
    /// and `layout` must match that prior allocation's live state. Exactly
    /// that one block disappears from the heap; nothing else changes.
    pub fn deallocate(&self, heap: &mut HostHeap, addr: usize, layout: Layout)
        requires
            old(heap).wf(),
            layout.wf(),
            old(heap).mem().contains_key(addr),
            old(heap).mem()[addr].len() == layout.size,
        ensures
            final(heap).wf(),
            final(heap).capacity() == old(heap).capacity(),
            final(heap).cursor() == old(heap).cursor(),
            final(heap).mem() == old(heap).mem().remove(addr),
    {
        heap.free(addr);
    }

    /// Resizes the block at `addr` (allocated with `old_layout`) to
    /// `new_size` bytes, keeping the alignment.
    ///
    /// The backend has no alignment-preserving native resize, so this
    /// emulates one: allocate a fresh block, copy the first
    /// `min(old_layout.size, new_size)` bytes, then release the old block.
    /// The ordering is load-bearing: the original block is never released
    /// unless the replacement succeeded, so a failed reallocate returns the
    /// null address and leaves the heap — the original block included —
    /// completely untouched.
    pub fn reallocate(
        &self,
        heap: &mut HostHeap,
        addr: usize,
        old_layout: Layout,
        new_size: usize,
    ) -> (new_addr: usize)
        requires
            old(heap).wf(),
            old_layout.wf(),
            old(heap).mem().contains_key(addr),
            old(heap).mem()[addr].len() == old_layout.size,
        ensures
            final(heap).wf(),
            final(heap).capacity() == old(heap).capacity(),
            new_addr != 0 <==> can_allocate(*old(heap), new_size as int, old_layout.align as int),
            new_addr == 0 ==> *final(heap) == *old(heap),
            new_addr != 0 ==> new_addr as int % old_layout.align as int == 0
                && new_addr as int == round_up(
                    old(heap).cursor(),
                    widened_align(old_layout.align as int),
                )
                && final(heap).cursor() == new_addr + new_size + 1
                && new_addr != addr
                && final(heap).mem().contains_key(new_addr)
                && final(heap).mem()[new_addr].len() == new_size
                && (forall|j: int|
                    0 <= j < min(old_layout.size as int, new_size as int)
                        ==> final(heap).mem()[new_addr][j] == old(heap).mem()[addr][j])
                && final(heap).mem() == old(heap).mem().remove(addr).insert(
                    new_addr,
                    final(heap).mem()[new_addr],
                ),
    {
        let ghost m0 = heap.mem();
        let ghost cap0 = heap.capacity();
        let new_layout = Layout { size: new_size, align: old_layout.align };
        let ghost cur1 = round_up(heap.cursor(), widened_align(old_layout.align as int))
            + new_size + 1;
        let new_addr = self.allocate(heap, new_layout);
        if new_addr == 0 {
            return 0;
        }
        let n: usize = if old_layout.size < new_size {
            old_layout.size
        } else {
            new_size
        };
        let mut i: usize = 0;
        while i < n
            invariant
                i <= n,
                heap.wf(),
                heap.capacity() == cap0,
                heap.cursor() == cur1,
                n as int == min(m0[addr].len() as int, new_size as int),
                new_addr != 0,
                new_addr != addr,
                m0.contains_key(addr),
                heap.mem().contains_key(addr),
                heap.mem()[addr] == m0[addr],
                heap.mem().contains_key(new_addr),
                heap.mem()[new_addr].len() == new_size,
                forall|j: int| 0 <= j < i ==> heap.mem()[new_addr][j] == m0[addr][j],
                heap.mem() == m0.insert(new_addr, heap.mem()[new_addr]),
            decreases n - i,
        {
            let b = heap.read_byte(addr, i);
            heap.write_byte(new_addr, i, b);
            proof {
                assert(heap.mem() =~= m0.insert(new_addr, heap.mem()[new_addr]));
            }
            i = i + 1;
        }
        self.deallocate(heap, addr, old_layout);
        proof {
            assert(heap.mem() =~= m0.remove(addr).insert(new_addr, heap.mem()[new_addr]));
        }
        new_addr
    }
}

/// Law: a successful allocation followed by a deallocation of the same
/// handle leaves no observable effect.
///
/// `allocate` promises that a successful allocation returns an address the heap
/// did not contain and that the heap becomes exactly the old contents plus
/// that one entry; `deallocate` promises that the heap becomes exactly its
/// contents minus that entry. This law closes the loop: adding a fresh entry
/// and then removing it gives back precisely the contents the heap had
/// before the pair, so nothing the pair did remains visible.
pub proof fn lemma_alloc_dealloc_leaves_no_trace(
    m: Map<usize, Seq<u8>>,
    addr: usize,
    data: Seq<u8>,
)
    requires
        !m.contains_key(addr),
    ensures
        m.insert(addr, data).remove(addr) == m,
{
    assert(m.insert(addr, data).remove(addr) =~= m);
}

} // verus!
