//! An explicit model of the host heap behind the native backend.
//!
//! The backend the adapter builds on is an aligned allocator in the
//! `memalign` style: an aligned-allocate primitive that returns the block's
//! address (null on failure) and a release primitive, with no native resize.
//! [`HostHeap`] models that heap as a map from block addresses to byte
//! contents, with a bump cursor handing out fresh aligned addresses and a
//! fixed capacity that makes allocation failure a real, reachable outcome.
//! Address `0` is never handed out: it is the null address that signals
//! failure.

use vstd::prelude::*;

verus! {

use vstd::arithmetic::div_mod::lemma_fundamental_div_mod;
use vstd::arithmetic::div_mod::lemma_mod_multiples_basic;
use vstd::arithmetic::power2::is_pow2;

/// The backend's alignment floor: the native aligned-allocate primitive
/// requires the alignment to be at least the size of a native pointer, so
/// callers must widen smaller requests up to this granularity.
pub const MIN_NATIVE_ALIGN: usize = 8;

/// Fresh blocks are filled with this deliberately nonzero scrap value: newly
/// allocated native memory promises nothing about its contents, and a
/// forgotten zero-fill has to show up.
const FRESH_FILL: u8 = 0xA5;

/// One block the backend has handed out. A released block stays in the list
/// with `live` cleared: the bump cursor never reuses addresses, which keeps
/// every address unique over the heap's whole history.
struct Block {
    addr: usize,
    live: bool,
    data: Vec<u8>,
}

/// The model of the host heap: the backend's entire observable state.
pub struct HostHeap {
    blocks: Vec<Block>,
    next: usize,
    capacity: usize,
}

/// The smallest multiple of `a` that is at least `n`.
pub open spec fn round_up(n: int, a: int) -> int {
    if n % a == 0 {
        n
    } else {
        n + a - (n % a)
    }
}

/// The live blocks of `blocks`, as a map from address to contents.
spec fn mem_of(blocks: Seq<Block>) -> Map<usize, Seq<u8>>
    decreases blocks.len(),
{
    if blocks.len() == 0 {
        Map::empty()
    } else {
        let rest = mem_of(blocks.drop_last());
        let last = blocks.last();
        if last.live {
            rest.insert(last.addr, last.data@)
        } else {
            rest
        }
    }
}

/// No two blocks, live or released, share an address.
spec fn distinct_addrs(blocks: Seq<Block>) -> bool {
    forall|i: int, j: int|
        #![trigger blocks[i].addr, blocks[j].addr]
        0 <= i < blocks.len() && 0 <= j < blocks.len() && i != j ==> blocks[i].addr
            != blocks[j].addr
}

/// Every block sits strictly below the bump cursor and above address zero.
spec fn bounded_by(blocks: Seq<Block>, next: int) -> bool {
    forall|i: int|
        #![trigger blocks[i]]
        0 <= i < blocks.len() ==> 1 <= blocks[i].addr && blocks[i].addr + blocks[i].data@.len()
            < next
}

proof fn lemma_mem_of_key_index(blocks: Seq<Block>, a: usize)
    requires
        mem_of(blocks).contains_key(a),
    ensures
        exists|i: int|
            #![trigger blocks[i]]
            0 <= i < blocks.len() && blocks[i].live && blocks[i].addr == a,
    decreases blocks.len(),
{
    if blocks.len() == 0 {
        assert(false);
    } else {
        let last = blocks.last();
        if last.live && last.addr == a {
            assert(blocks[blocks.len() - 1].live && blocks[blocks.len() - 1].addr == a);
        } else {
            lemma_mem_of_key_index(blocks.drop_last(), a);
            let j = choose|i: int|
                #![trigger blocks.drop_last()[i]]
                0 <= i < blocks.drop_last().len() && blocks.drop_last()[i].live
                    && blocks.drop_last()[i].addr == a;
            assert(blocks[j].live && blocks[j].addr == a);
        }
    }
}

proof fn lemma_distinct_drop_last(blocks: Seq<Block>)
    requires
        distinct_addrs(blocks),
        blocks.len() > 0,
    ensures
        distinct_addrs(blocks.drop_last()),
{
    let dl = blocks.drop_last();
    assert forall|i: int, j: int|
        0 <= i < dl.len() && 0 <= j < dl.len() && i != j implies #[trigger] dl[i].addr
        != #[trigger] dl[j].addr by {
        assert(dl[i] == blocks[i]);
        assert(dl[j] == blocks[j]);
    }
}

proof fn lemma_mem_of_at(blocks: Seq<Block>, i: int)
    requires
        distinct_addrs(blocks),
        0 <= i < blocks.len(),
        blocks[i].live,
    ensures
        mem_of(blocks).contains_key(blocks[i].addr),
        mem_of(blocks)[blocks[i].addr] == blocks[i].data@,
    decreases blocks.len(),
{
    let last = blocks.last();
    if i < blocks.len() - 1 {
        lemma_distinct_drop_last(blocks);
        assert(blocks.drop_last()[i] == blocks[i]);
        lemma_mem_of_at(blocks.drop_last(), i);
        if last.live {
            assert(last.addr != blocks[i].addr);
        }
    }
}

proof fn lemma_mem_of_push(blocks: Seq<Block>, b: Block)
    requires
        b.live,
    ensures
        mem_of(blocks.push(b)) == mem_of(blocks).insert(b.addr, b.data@),
{
    assert(blocks.push(b).drop_last() =~= blocks);
    assert(blocks.push(b).last() == b);
}

proof fn lemma_mem_of_update(blocks: Seq<Block>, i: int, b: Block)
    requires
        distinct_addrs(blocks),
        0 <= i < blocks.len(),
        blocks[i].live,
        b.addr == blocks[i].addr,
    ensures
        mem_of(blocks.update(i, b)) == (if b.live {
            mem_of(blocks).insert(b.addr, b.data@)
        } else {
            mem_of(blocks).remove(b.addr)
        }),
    decreases blocks.len(),
{
    let a = blocks[i].addr;
    let last = blocks.last();
    let upd = blocks.update(i, b);
    if i == blocks.len() - 1 {
        assert(upd.drop_last() =~= blocks.drop_last());
        assert(upd.last() == b);
        let rest = mem_of(blocks.drop_last());
        if !b.live {
            if rest.contains_key(a) {
                lemma_mem_of_key_index(blocks.drop_last(), a);
                let j = choose|k: int|
                    #![trigger blocks.drop_last()[k]]
                    0 <= k < blocks.drop_last().len() && blocks.drop_last()[k].live
                        && blocks.drop_last()[k].addr == a;
                assert(blocks[j].addr == blocks[i].addr);
                assert(false);
            }
            assert(mem_of(upd) =~= mem_of(blocks).remove(a));
        } else {
            assert(mem_of(upd) =~= mem_of(blocks).insert(a, b.data@));
        }
    } else {
        lemma_distinct_drop_last(blocks);
        assert(blocks.drop_last()[i] == blocks[i]);
        lemma_mem_of_update(blocks.drop_last(), i, b);
        assert(upd.drop_last() =~= blocks.drop_last().update(i, b));
        assert(upd.last() == last);
        if last.live {
            assert(last.addr != a);
            if b.live {
                assert(mem_of(upd) =~= mem_of(blocks).insert(a, b.data@));
            } else {
                assert(mem_of(upd) =~= mem_of(blocks).remove(a));
            }
        } else {
            if b.live {
                assert(mem_of(upd) =~= mem_of(blocks).insert(a, b.data@));
            } else {
                assert(mem_of(upd) =~= mem_of(blocks).remove(a));
            }
        }
    }
}

impl HostHeap {
    /// The heap's observable contents: each live block's bytes, by address.
    pub closed spec fn mem(self) -> Map<usize, Seq<u8>> {
        mem_of(self.blocks@)
    }

    /// The heap's fixed capacity in bytes.
    pub closed spec fn capacity(self) -> int {
        self.capacity as int
    }

    /// The bump cursor: the lowest address the backend may still hand out.
    pub closed spec fn cursor(self) -> int {
        self.next as int
    }

    /// The heap model's internal invariant.
    pub closed spec fn wf(self) -> bool {
        &&& 1 <= self.next <= self.capacity
        &&& distinct_addrs(self.blocks@)
        &&& bounded_by(self.blocks@, self.next as int)
    }

    /// Whether a request for `size` bytes at alignment `align` can currently
    /// be satisfied: the next aligned address plus the new block must stay
    /// below the capacity.
    pub open spec fn fits(self, align: int, size: int) -> bool {
        round_up(self.cursor(), align) + size < self.capacity()
    }

    /// A fresh, empty heap with the given capacity.
    pub fn new(capacity: usize) -> (h: HostHeap)
        requires
            capacity >= 1,
        ensures
            h.wf(),
            h.mem() == Map::<usize, Seq<u8>>::empty(),
            h.capacity() == capacity as int,
            h.cursor() == 1,
    {
        HostHeap { blocks: Vec::new(), next: 1, capacity }
    }

    /// The backend's aligned-allocate primitive, in the style of the native
    /// `memalign` family: returns the address of a fresh block of `size`
    /// bytes at a multiple of `align`, or the null address `0` when the
    /// request cannot be satisfied. The contents of a fresh block are
    /// unspecified.
    pub fn aligned_alloc(&mut self, align: usize, size: usize) -> (addr: usize)
        requires
            old(self).wf(),
            align >= MIN_NATIVE_ALIGN,
            is_pow2(align as int),
        ensures
            final(self).wf(),
            final(self).capacity() == old(self).capacity(),
            addr != 0 <==> old(self).fits(align as int, size as int),
            addr == 0 ==> *final(self) == *old(self),
            addr != 0 ==> addr % align == 0
                && addr as int == round_up(old(self).cursor(), align as int)
                && final(self).cursor() == addr + size + 1
                && !old(self).mem().contains_key(addr)
                && final(self).mem().contains_key(addr)
                && final(self).mem()[addr].len() == size
                && final(self).mem() == old(self).mem().insert(addr, final(self).mem()[addr]),
    {
        let rem: usize = self.next % align;
        let pad: usize = if rem == 0 {
            0
        } else {
            align - rem
        };
        proof {
            assert(round_up(self.next as int, align as int) == self.next + pad);
        }
        if pad > self.capacity - self.next {
            return 0;
        }
        let base: usize = self.next + pad;
        if size >= self.capacity - base {
            return 0;
        }
        let data: Vec<u8> = vec![FRESH_FILL; size];
        proof {
            lemma_fundamental_div_mod(self.next as int, align as int);
            if rem != 0 {
                let q = self.next as int / align as int;
                assert(align as int * q + align as int == align as int * (q + 1))
                    by (nonlinear_arith);
                lemma_mod_multiples_basic(q + 1, align as int);
            }
            assert(base as int % align as int == 0);
            if mem_of(self.blocks@).contains_key(base) {
                lemma_mem_of_key_index(self.blocks@, base);
                let j = choose|i: int|
                    #![trigger self.blocks@[i]]
                    0 <= i < self.blocks@.len() && self.blocks@[i].live && self.blocks@[i].addr
                        == base;
                assert(false);
            }
        }
        let ghost pre = *self;
        let block = Block { addr: base, live: true, data };
        proof {
            lemma_mem_of_push(self.blocks@, block);
        }
        self.blocks.push(block);
        self.next = base + size + 1;
        proof {
            assert forall|i: int| 0 <= i < self.blocks@.len() implies 1 <= (
            #[trigger] self.blocks@[i]).addr && self.blocks@[i].addr + self.blocks@[i].data@.len()
                < self.next by {
                if i < pre.blocks@.len() {
                    assert(self.blocks@[i] == pre.blocks@[i]);
                }
            }
            assert forall|i: int, j: int|
                0 <= i < self.blocks@.len() && 0 <= j < self.blocks@.len() && i != j implies (
            #[trigger] self.blocks@[i].addr) != (#[trigger] self.blocks@[j].addr) by {
                if i < pre.blocks@.len() && j < pre.blocks@.len() {
                    assert(pre.blocks@[i].addr != pre.blocks@[j].addr);
                } else if i < pre.blocks@.len() {
                    assert(pre.blocks@[i].addr + pre.blocks@[i].data@.len() < pre.next);
                } else {
                    assert(pre.blocks@[j].addr + pre.blocks@[j].data@.len() < pre.next);
                }
            }
        }
        base
    }

    /// Finds the index of the live block at `addr`.
    fn find_block(&self, addr: usize) -> (i: usize)
        requires
            self.wf(),
            self.mem().contains_key(addr),
        ensures
            i < self.blocks@.len(),
            self.blocks@[i as int].live,
            self.blocks@[i as int].addr == addr,
    {
        let n = self.blocks.len();
        let mut i: usize = 0;
        while i < n
            invariant
                n == self.blocks@.len(),
                i <= n,
                self.mem().contains_key(addr),
                forall|j: int|
                    #![trigger self.blocks@[j]]
                    0 <= j < i ==> !(self.blocks@[j].live && self.blocks@[j].addr == addr),
            decreases n - i,
        {
            if self.blocks[i].live && self.blocks[i].addr == addr {
                return i;
            }
            i = i + 1;
        }
        proof {
            lemma_mem_of_key_index(self.blocks@, addr);
            assert(false);
        }
        0
    }

    /// Reads one byte of a live block.
    pub fn read_byte(&self, addr: usize, offset: usize) -> (v: u8)
        requires
            self.wf(),
            self.mem().contains_key(addr),
            offset < self.mem()[addr].len(),
        ensures
            v == self.mem()[addr][offset as int],
    {
        let i = self.find_block(addr);
        proof {
            lemma_mem_of_at(self.blocks@, i as int);
        }
        self.blocks[i].data[offset]
    }

    /// Writes one byte of a live block; no other byte and no other block
    /// changes.
    pub fn write_byte(&mut self, addr: usize, offset: usize, v: u8)
        requires
            old(self).wf(),
            old(self).mem().contains_key(addr),
            offset < old(self).mem()[addr].len(),
        ensures
            final(self).wf(),
            final(self).capacity() == old(self).capacity(),
            final(self).cursor() == old(self).cursor(),
            final(self).mem() == old(self).mem().insert(
                addr,
                old(self).mem()[addr].update(offset as int, v),
            ),
    {
        let i = self.find_block(addr);
        proof {
            lemma_mem_of_at(self.blocks@, i as int);
        }
        let ghost pre = *self;
        let blk = &mut self.blocks[i];
        let slot = &mut blk.data[offset];
        *slot = v;
        proof {
            assert(self.blocks@ == pre.blocks@.update(
                i as int,
                Block {
                    addr: pre.blocks@[i as int].addr,
                    live: pre.blocks@[i as int].live,
                    data: self.blocks@[i as int].data,
                },
            ));
            lemma_mem_of_update(pre.blocks@, i as int, self.blocks@[i as int]);
            assert forall|k: int| 0 <= k < self.blocks@.len() implies 1 <= (
            #[trigger] self.blocks@[k]).addr && self.blocks@[k].addr + self.blocks@[k].data@.len()
                < self.next by {
                assert(pre.blocks@[k].addr + pre.blocks@[k].data@.len() < pre.next);
            }
            assert forall|k: int, l: int|
                0 <= k < self.blocks@.len() && 0 <= l < self.blocks@.len() && k != l implies (
            #[trigger] self.blocks@[k].addr) != (#[trigger] self.blocks@[l].addr) by {
                assert(pre.blocks@[k].addr != pre.blocks@[l].addr);
            }
        }
    }

    /// The backend's release primitive: frees the live block at `addr`,
    /// removing it from the heap's contents. Nothing else changes.
    pub fn free(&mut self, addr: usize)
        requires
            old(self).wf(),
            old(self).mem().contains_key(addr),
        ensures
            final(self).wf(),
            final(self).capacity() == old(self).capacity(),
            final(self).cursor() == old(self).cursor(),
            final(self).mem() == old(self).mem().remove(addr),
    {
        let i = self.find_block(addr);
        let ghost pre = *self;
        let blk = &mut self.blocks[i];
        blk.live = false;
        blk.data = Vec::new();
        proof {
            assert(self.blocks@ == pre.blocks@.update(
                i as int,
                Block {
                    addr: pre.blocks@[i as int].addr,
                    live: false,
                    data: self.blocks@[i as int].data,
                },
            ));
            lemma_mem_of_update(pre.blocks@, i as int, self.blocks@[i as int]);
            assert forall|k: int| 0 <= k < self.blocks@.len() implies 1 <= (
            #[trigger] self.blocks@[k]).addr && self.blocks@[k].addr + self.blocks@[k].data@.len()
                < self.next by {
                assert(pre.blocks@[k].addr + pre.blocks@[k].data@.len() < pre.next);
            }
            assert forall|k: int, l: int|
                0 <= k < self.blocks@.len() && 0 <= l < self.blocks@.len() && k != l implies (
            #[trigger] self.blocks@[k].addr) != (#[trigger] self.blocks@[l].addr) by {
                assert(pre.blocks@[k].addr != pre.blocks@[l].addr);
            }
        }
    }
}

} // verus!
