//! Exercises the four adapter operations on the modelled host heap.

use libc_alloc::{HostHeap, Layout, LibcAlloc};

fn layout(size: usize, align: usize) -> Layout {
    Layout::new(size, align).unwrap()
}

#[test]
fn allocate_returns_aligned_addresses() {
    let mut heap = HostHeap::new(1 << 20);
    let adapter = LibcAlloc;
    for align in [1usize, 2, 4, 8, 16, 32, 64, 4096] {
        let addr = adapter.allocate(&mut heap, layout(10, align));
        assert_ne!(addr, 0);
        assert_eq!(addr % align, 0);
    }
}

#[test]
fn allocate_widens_small_alignments_to_the_native_floor() {
    let mut heap = HostHeap::new(1 << 16);
    let adapter = LibcAlloc;
    for align in [1usize, 2, 4] {
        let addr = adapter.allocate(&mut heap, layout(3, align));
        assert_ne!(addr, 0);
        assert_eq!(addr % libc_alloc::MIN_NATIVE_ALIGN, 0);
    }
}

#[test]
fn allocate_zeroed_zeroes_every_byte() {
    let mut heap = HostHeap::new(1 << 16);
    let adapter = LibcAlloc;
    let l = layout(64, 8);
    let addr = adapter.allocate_zeroed(&mut heap, l);
    assert_ne!(addr, 0);
    for offset in 0..64 {
        assert_eq!(heap.read_byte(addr, offset), 0);
    }
}

#[test]
fn allocate_zeroed_16_bytes_at_alignment_16() {
    let mut heap = HostHeap::new(1 << 16);
    let adapter = LibcAlloc;
    let l = layout(16, 16);
    let addr = adapter.allocate_zeroed(&mut heap, l);
    assert_ne!(addr, 0);
    assert_eq!(addr % 16, 0);
    for offset in 0..16 {
        assert_eq!(heap.read_byte(addr, offset), 0);
    }
}

#[test]
fn plain_allocate_does_not_zero() {
    // The model deliberately fills fresh blocks with a nonzero scrap value:
    // a dropped zero-fill in allocate_zeroed would be visible here.
    let mut heap = HostHeap::new(1 << 16);
    let adapter = LibcAlloc;
    let addr = adapter.allocate(&mut heap, layout(8, 8));
    assert_ne!(addr, 0);
    assert_ne!(heap.read_byte(addr, 0), 0);
}

#[test]
fn allocate_fails_with_null_when_capacity_is_exhausted() {
    let mut heap = HostHeap::new(64);
    let adapter = LibcAlloc;
    let addr = adapter.allocate(&mut heap, layout(100, 8));
    assert_eq!(addr, 0);
    // the failed request left the heap usable
    let addr = adapter.allocate(&mut heap, layout(16, 8));
    assert_ne!(addr, 0);
}

#[test]
fn deallocate_leaves_no_trace() {
    let mut heap = HostHeap::new(1 << 16);
    let adapter = LibcAlloc;
    let l = layout(24, 8);
    let addr = adapter.allocate(&mut heap, l);
    assert_ne!(addr, 0);
    adapter.deallocate(&mut heap, addr, l);
    // a subsequent unrelated allocation still works
    let other = adapter.allocate(&mut heap, layout(40, 16));
    assert_ne!(other, 0);
    assert_eq!(other % 16, 0);
}

#[test]
fn zero_size_allocation_succeeds_and_frees() {
    let mut heap = HostHeap::new(1 << 12);
    let adapter = LibcAlloc;
    let l = layout(0, 8);
    let addr = adapter.allocate(&mut heap, l);
    assert_ne!(addr, 0);
    adapter.deallocate(&mut heap, addr, l);
}

#[test]
fn reallocate_grow_preserves_the_old_contents() {
    let mut heap = HostHeap::new(1 << 16);
    let adapter = LibcAlloc;
    let old_layout = layout(24, 8);
    let addr = adapter.allocate(&mut heap, old_layout);
    assert_ne!(addr, 0);
    assert_eq!(addr % 8, 0);
    for offset in 0..24 {
        heap.write_byte(addr, offset, 0xAB);
    }
    let new_addr = adapter.reallocate(&mut heap, addr, old_layout, 48);
    assert_ne!(new_addr, 0);
    assert_eq!(new_addr % 8, 0);
    for offset in 0..24 {
        assert_eq!(heap.read_byte(new_addr, offset), 0xAB);
    }
    adapter.deallocate(&mut heap, new_addr, layout(48, 8));
}

#[test]
fn reallocate_shrink_preserves_the_prefix() {
    let mut heap = HostHeap::new(1 << 16);
    let adapter = LibcAlloc;
    let old_layout = layout(24, 8);
    let addr = adapter.allocate(&mut heap, old_layout);
    assert_ne!(addr, 0);
    for offset in 0..24 {
        heap.write_byte(addr, offset, offset as u8 + 1);
    }
    let new_addr = adapter.reallocate(&mut heap, addr, old_layout, 10);
    assert_ne!(new_addr, 0);
    for offset in 0..10 {
        assert_eq!(heap.read_byte(new_addr, offset), offset as u8 + 1);
    }
}

#[test]
fn failed_reallocate_leaves_the_original_block_intact() {
    let mut heap = HostHeap::new(64);
    let adapter = LibcAlloc;
    let old_layout = layout(24, 8);
    let addr = adapter.allocate(&mut heap, old_layout);
    assert_ne!(addr, 0);
    for offset in 0..24 {
        heap.write_byte(addr, offset, 0xCD);
    }
    // 100 bytes cannot fit in a 64-byte heap
    let new_addr = adapter.reallocate(&mut heap, addr, old_layout, 100);
    assert_eq!(new_addr, 0);
    // the original handle is unchanged and still live
    for offset in 0..24 {
        assert_eq!(heap.read_byte(addr, offset), 0xCD);
    }
    adapter.deallocate(&mut heap, addr, old_layout);
}

#[test]
fn many_blocks_stay_disjoint() {
    let mut heap = HostHeap::new(1 << 20);
    let adapter = LibcAlloc;
    let l = layout(16, 16);
    let mut handles = Vec::new();
    for k in 0..8 {
        let addr = adapter.allocate(&mut heap, l);
        assert_ne!(addr, 0);
        for offset in 0..16 {
            heap.write_byte(addr, offset, k as u8);
        }
        handles.push(addr);
    }
    for (k, &addr) in handles.iter().enumerate() {
        for offset in 0..16 {
            assert_eq!(heap.read_byte(addr, offset), k as u8);
        }
    }
    for &addr in &handles {
        adapter.deallocate(&mut heap, addr, l);
    }
}
