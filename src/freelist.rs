use vstd::prelude::*;
use crate::virtual_mem::{lemma_put_u64, put_u64, MemView, VirtualMemory};

verus! {

/// Bytes of the link stored at the start of each free block.
pub const LINK_SIZE: usize = 8;

/// The link that follows position `i` of `blocks`: the next block, or 0
/// after the last.
pub open spec fn next_of(blocks: Seq<nat>, i: int) -> nat {
    if i + 1 < blocks.len() {
        blocks[i + 1]
    } else {
        0
    }
}

/// The links of two distinct blocks do not overlap.
pub open spec fn links_apart(a: nat, b: nat) -> bool {
    a + LINK_SIZE <= b || b + LINK_SIZE <= a
}

/// Intrusive LIFO list of free blocks: each free block holds, in its first
/// eight bytes, the address of the next one (0 ends the list).
pub struct FreeList {
    head: usize,
    blocks: Ghost<Seq<nat>>,
}

impl View for FreeList {
    type V = Seq<nat>;

    /// The free blocks, from the one handed out next to the last.
    closed spec fn view(&self) -> Seq<nat> {
        self.blocks@
    }
}

impl FreeList {
    /// The head is the first block, and no block is at address 0.
    pub closed spec fn linked(&self) -> bool {
        let b = self.blocks@;
        &&& self.head == if b.len() == 0 { 0 } else { b[0] }
        &&& forall|i: int| 0 <= i < b.len() ==> #[trigger] b[i] > 0
    }

    /// The address the head holds.
    pub closed spec fn head_addr(&self) -> nat {
        self.head as nat
    }

    /// The list is linked, and its links are as its blocks say in `mem`.
    pub open spec fn wf(&self, mem: MemView) -> bool {
        self.linked() && self.links_hold(mem)
    }

    /// Each block's link, in `mem`, holds the address of the next block.
    pub closed spec fn links_hold(&self, mem: MemView) -> bool {
        let b = self.blocks@;
        &&& forall|i: int| 0 <= i < b.len() ==> mem.in_committed(#[trigger] b[i], LINK_SIZE as nat)
        &&& forall|i: int, j: int| 0 <= i < j < b.len() ==> links_apart(#[trigger] b[i], #[trigger] b[j])
        &&& forall|i: int| 0 <= i < b.len() ==> mem.u64_at(#[trigger] b[i]) == next_of(b, i)
    }

    /// Threads `floor((end - begin) / block_size)` blocks of `block_size`
    /// bytes, starting at `begin`, into a list, lowest address first.
    pub fn new_from(mem: &mut VirtualMemory, begin: usize, end: usize, block_size: usize) -> (r: FreeList)
        requires
            old(mem)@.wf(),
            block_size >= LINK_SIZE,
            0 < begin <= end,
            old(mem)@.base <= begin,
            end <= old(mem)@.committed_end(),
        ensures
            final(mem)@.wf(),
            final(mem)@.base == old(mem)@.base,
            final(mem)@.reserved == old(mem)@.reserved,
            final(mem)@.bytes.len() == old(mem)@.bytes.len(),
            r.wf(final(mem)@),
            r@.len() == (end - begin) / (block_size as int),
            forall|k: int| 0 <= k < r@.len() ==> #[trigger] r@[k] == begin + k * block_size,
    {
        let count: usize = (end - begin) / block_size;
        let ghost blocks: Seq<nat> = Seq::empty();
        let mut k: usize = 0;
        let mut addr: usize = begin;
        proof {
            assert(count * block_size <= end - begin) by (nonlinear_arith)
                requires
                    count == (end - begin) / (block_size as int),
                    block_size > 0,
                    end >= begin,
            ;
        }
        while k < count
            invariant
                mem@.wf(),
                mem@.base == old(mem)@.base,
                mem@.reserved == old(mem)@.reserved,
                mem@.bytes.len() == old(mem)@.bytes.len(),
                old(mem)@.base <= begin,
                end <= old(mem)@.committed_end(),
                0 < begin,
                block_size >= LINK_SIZE,
                count * block_size <= end - begin,
                k <= count,
                addr == begin + k * block_size,
                blocks.len() == k,
                forall|j: int| 0 <= j < k ==> #[trigger] blocks[j] == begin + j * block_size,
                forall|j: int| 0 <= j < k ==> #[trigger] blocks[j] + block_size <= addr,
                forall|j: int| 0 <= j < k ==> begin <= #[trigger] blocks[j],
                forall|i: int, j: int| 0 <= i < j < k ==> #[trigger] blocks[i] + block_size <= #[trigger] blocks[j],
                forall|j: int| 0 <= j && j + 1 < k ==> mem@.u64_at(#[trigger] blocks[j]) == blocks[j + 1],
                k > 0 ==> mem@.u64_at(blocks[k - 1]) == if k < count { addr as nat } else { 0 },
            decreases count - k,
        {
            proof {
                assert(k * block_size + block_size <= count * block_size) by (nonlinear_arith)
                    requires
                        k < count,
                ;
                assert((k + 1) * block_size == k * block_size + block_size) by (nonlinear_arith);
            }
            let next: usize = if k + 1 < count {
                addr + block_size
            } else {
                0
            };
            let ghost before = mem@;
            proof {
                lemma_put_u64(mem@.bytes, addr - mem@.base, next as nat);
            }
            mem.write_u64(addr, next as u64);
            proof {
                assert forall|j: int| 0 <= j < k implies mem@.u64_at(#[trigger] blocks[j]) == before.u64_at(blocks[j]) by {
                    let i = blocks[j] - mem@.base;
                    assert(mem@.bytes[i] == before.bytes[i]);
                    assert(mem@.bytes[i + 1] == before.bytes[i + 1]);
                    assert(mem@.bytes[i + 2] == before.bytes[i + 2]);
                    assert(mem@.bytes[i + 3] == before.bytes[i + 3]);
                    assert(mem@.bytes[i + 4] == before.bytes[i + 4]);
                    assert(mem@.bytes[i + 5] == before.bytes[i + 5]);
                    assert(mem@.bytes[i + 6] == before.bytes[i + 6]);
                    assert(mem@.bytes[i + 7] == before.bytes[i + 7]);
                }
                blocks = blocks.push(addr as nat);
            }
            k = k + 1;
            addr = addr + block_size;
        }
        proof {
            assert forall|i: int| 0 <= i < blocks.len() implies mem@.u64_at(#[trigger] blocks[i]) == next_of(blocks, i) by {}
            assert forall|i: int, j: int| 0 <= i < j < blocks.len() implies links_apart(#[trigger] blocks[i], #[trigger] blocks[j]) by {}
            assert forall|i: int| 0 <= i < blocks.len() implies mem@.in_committed(#[trigger] blocks[i], LINK_SIZE as nat) by {}
        }
        FreeList { head: if count > 0 { begin } else { 0 }, blocks: Ghost(blocks) }
    }

    /// What a well-formed list says of its blocks.
    pub proof fn lemma_wf_facts(&self, mem: MemView)
        requires
            self.wf(mem),
        ensures
            forall|i: int| 0 <= i < self@.len() ==> #[trigger] self@[i] > 0 && mem.in_committed(self@[i], LINK_SIZE as nat)
                && mem.u64_at(self@[i]) == next_of(self@, i),
            forall|i: int, j: int| 0 <= i < j < self@.len() ==> links_apart(#[trigger] self@[i], #[trigger] self@[j]),
    {
    }

    /// The list stays well formed in a memory whose links are unchanged.
    pub proof fn lemma_wf_frame(&self, mem: MemView, other: MemView)
        requires
            self.wf(mem),
            other.base == mem.base,
            other.bytes.len() == mem.bytes.len(),
            forall|i: int, d: int| 0 <= i < self@.len() && 0 <= d < LINK_SIZE ==>
                #[trigger] other.bytes[self@[i] + d - mem.base] == mem.bytes[self@[i] + d - mem.base],
        ensures
            self.wf(other),
    {
        let b = self.blocks@;
        assert forall|i: int| 0 <= i < b.len() implies other.u64_at(#[trigger] b[i]) == next_of(b, i) by {
            assert(other.bytes[self@[i] + 0 - mem.base] == mem.bytes[self@[i] + 0 - mem.base]);
            assert(other.bytes[self@[i] + 1 - mem.base] == mem.bytes[self@[i] + 1 - mem.base]);
            assert(other.bytes[self@[i] + 2 - mem.base] == mem.bytes[self@[i] + 2 - mem.base]);
            assert(other.bytes[self@[i] + 3 - mem.base] == mem.bytes[self@[i] + 3 - mem.base]);
            assert(other.bytes[self@[i] + 4 - mem.base] == mem.bytes[self@[i] + 4 - mem.base]);
            assert(other.bytes[self@[i] + 5 - mem.base] == mem.bytes[self@[i] + 5 - mem.base]);
            assert(other.bytes[self@[i] + 6 - mem.base] == mem.bytes[self@[i] + 6 - mem.base]);
            assert(other.bytes[self@[i] + 7 - mem.base] == mem.bytes[self@[i] + 7 - mem.base]);
        }
    }

    /// Takes the first free block; 0 when there is none.
    pub fn get_block(&mut self, mem: &VirtualMemory) -> (r: usize)
        requires
            old(self).wf(mem@),
            mem@.wf(),
        ensures
            final(self).wf(mem@),
            old(self)@.len() == 0 ==> r == 0 && final(self)@ == old(self)@,
            old(self)@.len() > 0 ==> r == old(self)@[0] && final(self)@ == old(self)@.drop_first(),
    {
        if self.head == 0 {
            return 0;
        }
        let block = self.head;
        let next = mem.read_u64(block);
        self.head = next as usize;
        self.blocks = Ghost(self.blocks@.drop_first());
        proof {
            assert forall|i: int| 0 <= i < self.blocks@.len() implies mem@.u64_at(#[trigger] self.blocks@[i])
                == next_of(self.blocks@, i) by {
                assert(self.blocks@[i] == old(self).blocks@[i + 1]);
            }
        }
        block
    }

    /// Makes `block` the first free block.
    #[verifier::rlimit(40)]
    pub fn return_block(&mut self, mem: &mut VirtualMemory, block: usize)
        requires
            old(self).wf(old(mem)@),
            old(mem)@.wf(),
            block > 0,
            old(mem)@.in_committed(block as nat, LINK_SIZE as nat),
            forall|i: int| 0 <= i < old(self)@.len() ==> links_apart(#[trigger] old(self)@[i], block as nat),
        ensures
            final(mem)@ == (MemView { bytes: put_u64(old(mem)@.bytes, block - old(mem)@.base, next_of(seq![block as nat] + old(self)@, 0)), ..old(mem)@ }),
            final(self).wf(final(mem)@),
            final(self)@ == seq![block as nat] + old(self)@,
    {
        proof {
            lemma_put_u64(mem@.bytes, block - mem@.base, self.head as nat);
        }
        mem.write_u64(block, self.head as u64);
        let ghost old_blocks = self.blocks@;
        self.blocks = Ghost(seq![block as nat] + old_blocks);
        self.head = block;
        proof {
            let b = self.blocks@;
            assert forall|i: int| 0 <= i < b.len() implies mem@.u64_at(#[trigger] b[i]) == next_of(b, i) by {
                if i > 0 {
                    assert(b[i] == old_blocks[i - 1]);
                    assert(links_apart(old_blocks[i - 1], block as nat));
                }
            }
            assert forall|i: int, j: int| 0 <= i < j < b.len() implies links_apart(#[trigger] b[i], #[trigger] b[j]) by {
                if i > 0 {
                    assert(b[i] == old_blocks[i - 1]);
                }
                assert(b[j] == old_blocks[j - 1]);
            }
        }
    }

    /// Whether no block is free.
    pub fn is_empty(&self) -> (r: bool)
        requires
            self.linked(),
        ensures
            r == (self@.len() == 0),
    {
        proof {
            if self@.len() > 0 {
                assert(self@[0] > 0);
            }
        }
        self.head == 0
    }
}

} // verus!
