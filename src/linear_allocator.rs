use vstd::prelude::*;
use crate::base::{as_block, Allocator, BasicAllocator, MemoryBlock};
use crate::pointer_util::{align_top, aligned_up, is_pow2, lemma_aligned_up};
use crate::virtual_mem::{put_u32, reserve_committed, MemView, VirtualMemory, MAX_RESERVATION};

verus! {

/// Bytes of the header in front of each block: the block's size.
pub const LINEAR_HEADER_SIZE: usize = 4;

/// Abstract state of a linear allocator.
pub struct LinearView {
    pub mem: MemView,
    pub end: nat,
    pub cursor: nat,
}

impl LinearView {
    pub open spec fn wf(self) -> bool {
        &&& self.mem.wf()
        &&& self.mem.base <= self.cursor <= self.end
        &&& self.end <= self.mem.committed_end()
        &&& self.end <= self.mem.base + MAX_RESERVATION
    }

    /// Outcome of `alloc_raw(size, alignment, offset)`: the header goes right
    /// before the user pointer, which is placed so that it plus `offset` is
    /// aligned; the request fails when the aligned position plus `size`
    /// passes the end, or when `size` does not fit the header.
    pub open spec fn alloc_step(self, size: nat, alignment: nat, offset: nat) -> (LinearView, Option<nat>) {
        let a = aligned_up((self.cursor + offset + LINEAR_HEADER_SIZE) as nat, alignment);
        if size > u32::MAX || a + size > self.end {
            (self, None)
        } else {
            let p = (a - offset) as nat;
            (
                LinearView {
                    cursor: p + size,
                    mem: MemView {
                        bytes: put_u32(self.mem.bytes, p - LINEAR_HEADER_SIZE - self.mem.base, size),
                        ..self.mem
                    },
                    ..self
                },
                Some(p),
            )
        }
    }

    /// Size recorded in the header of the block at `p`.
    pub open spec fn recorded_size(self, p: nat) -> nat {
        self.mem.u32_at((p - LINEAR_HEADER_SIZE) as nat)
    }

    /// Outcome of `reset`: the cursor goes back to the first address.
    pub open spec fn reset_step(self) -> LinearView {
        LinearView { cursor: self.mem.base, ..self }
    }
}

/// An allocation never moves the cursor back, handing back a block leaves it
/// alone, and a reset returns it to the first address.
pub proof fn lemma_linear_cursor_monotonic(s: LinearView, size: nat, alignment: nat, offset: nat)
    requires
        s.wf(),
        is_pow2(alignment),
    ensures
        s.alloc_step(size, alignment, offset).0.cursor >= s.cursor,
        s.alloc_step(size, alignment, offset).0.wf(),
        s.reset_step().cursor == s.mem.base,
        s.reset_step().wf(),
{
    lemma_aligned_up((s.cursor + offset + LINEAR_HEADER_SIZE) as nat, alignment);
    let a = aligned_up((s.cursor + offset + LINEAR_HEADER_SIZE) as nat, alignment);
    if !(size > u32::MAX || a + size > s.end) {
        let p = (a - offset) as nat;
        crate::virtual_mem::lemma_put_u32(s.mem.bytes, p - LINEAR_HEADER_SIZE - s.mem.base, size);
    }
}

/// Bump allocator: hands out blocks from low to high addresses and frees them
/// all at once on `reset`.
pub struct LinearAllocator {
    mem: VirtualMemory,
    end: usize,
    cursor: usize,
}

impl View for LinearAllocator {
    type V = LinearView;

    closed spec fn view(&self) -> LinearView {
        LinearView { mem: self.mem@, end: self.end as nat, cursor: self.cursor as nat }
    }
}

impl LinearAllocator {
    /// An allocator over `size` fresh bytes.
    pub fn new(size: usize) -> (r: LinearAllocator)
        requires
            0 < size <= MAX_RESERVATION,
        ensures
            r@.wf(),
            r@.cursor == r@.mem.base,
            r@.end == r@.mem.base + size,
    {
        let mem = reserve_committed(size);
        let base = mem.base_address();
        LinearAllocator { mem, end: base + size, cursor: base }
    }

    /// Address of the next byte that an allocation would consider.
    pub fn cursor(&self) -> (r: usize)
        ensures
            r == self@.cursor,
    {
        self.cursor
    }
}

impl BasicAllocator for LinearAllocator {
    open spec fn fresh(&self, size: nat) -> bool {
        self@.cursor == self@.mem.base && self@.end == self@.mem.base + size
    }

    fn new(size: usize) -> (r: LinearAllocator) {
        LinearAllocator::new(size)
    }
}

impl Allocator for LinearAllocator {
    open spec fn inv(&self) -> bool {
        self@.wf()
    }

    open spec fn mem(&self) -> MemView {
        self@.mem
    }

    open spec fn admits(&self, size: nat, alignment: nat) -> bool {
        true
    }

    open spec fn honours_offset(&self, offset: nat) -> bool {
        true
    }

    open spec fn header_readable(&self, p: nat) -> bool {
        self@.mem.in_committed((p - LINEAR_HEADER_SIZE) as nat, LINEAR_HEADER_SIZE as nat) && p >= LINEAR_HEADER_SIZE
    }

    open spec fn recorded_size(&self, p: nat) -> nat {
        self@.recorded_size(p)
    }

    open spec fn writable(&self, addr: nat, len: nat) -> bool {
        true
    }

    open spec fn header_span() -> nat {
        4
    }

    open spec fn may_dealloc(&self, p: nat) -> bool {
        true
    }

    proof fn lemma_inv_mem(&self) {
    }

    proof fn lemma_with_bytes_refl(&self) {
    }

    proof fn lemma_with_bytes_trans(&self, mid: &Self, last: &Self, first_bytes: Seq<u8>, last_bytes: Seq<u8>) {
    }

    proof fn lemma_writable_part(&self, addr: nat, len: nat, part: nat, part_len: nat) {
    }

    open spec fn alloc_result(&self, size: nat, alignment: nat, offset: nat) -> Option<nat> {
        self@.alloc_step(size, alignment, offset).1
    }

    open spec fn alloc_post(&self, next: &Self, size: nat, alignment: nat, offset: nat, r: Option<MemoryBlock>) -> bool {
        next@ == self@.alloc_step(size, alignment, offset).0 && r == as_block(self@.alloc_step(size, alignment, offset).1)
    }

    open spec fn dealloc_post(&self, next: &Self, p: nat) -> bool {
        next@ == self@
    }

    open spec fn reset_post(&self, next: &Self) -> bool {
        next@ == self@.reset_step()
    }

    open spec fn with_bytes(&self, next: &Self, bytes: Seq<u8>) -> bool {
        next@ == (LinearView { mem: MemView { bytes, ..self@.mem }, ..self@ })
    }

    fn alloc_raw(&mut self, size: usize, alignment: usize, offset: usize) -> (r: Option<MemoryBlock>) {
        let ghost s = self@;
        proof {
            lemma_aligned_up((s.cursor + offset + LINEAR_HEADER_SIZE) as nat, alignment as nat);
        }
        if size > u32::MAX as usize || offset > self.end - self.cursor || alignment > self.end {
            proof {
                assert(s.alloc_step(size as nat, alignment as nat, offset as nat).1 is None);
            }
            return None;
        }
        let x: usize = self.cursor + offset + LINEAR_HEADER_SIZE;
        let a = align_top(x, alignment);
        if a > self.end || size > self.end - a {
            return None;
        }
        let p: usize = a - offset;
        proof {
            crate::virtual_mem::lemma_put_u32(self@.mem.bytes, p - LINEAR_HEADER_SIZE - s.mem.base, size as nat);
        }
        self.mem.write_u32(p - LINEAR_HEADER_SIZE, size as u32);
        self.cursor = p + size;
        proof {
            assert(self@ == s.alloc_step(size as nat, alignment as nat, offset as nat).0);
        }
        Some(MemoryBlock { ptr: p })
    }

    /// Handing back a single block does nothing; `reset` frees them all.
    fn dealloc_raw(&mut self, memory: MemoryBlock) {
    }

    fn reset(&mut self) {
        self.cursor = self.mem.base_address();
    }

    fn get_allocation_size(&self, memory: &MemoryBlock) -> (r: usize) {
        self.mem.read_u32(memory.ptr - LINEAR_HEADER_SIZE) as usize
    }

    fn read_u8(&self, addr: usize) -> (r: u8) {
        self.mem.read_u8(addr)
    }

    fn write_u8(&mut self, addr: usize, v: u8) {
        self.mem.write_u8(addr, v);
        proof {
            assert forall|p: nat| old(self).header_readable(p) && (addr + 1 <= p - 4 || p <= addr) implies {
                &&& #[trigger] self.may_dealloc(p) == old(self).may_dealloc(p)
                &&& self.header_readable(p) == old(self).header_readable(p)
                &&& self.recorded_size(p) == old(self).recorded_size(p)
            } by {
                let i = p - 4 - old(self)@.mem.base;
                assert forall|j: int| i <= j < i + 4 implies #[trigger] self@.mem.bytes[j] == old(self)@.mem.bytes[j] by {}
                crate::virtual_mem::lemma_u32_same(self@.mem.bytes, old(self)@.mem.bytes, i + 0);
            }
        }
    }

    fn read_u32(&self, addr: usize) -> (r: u32) {
        self.mem.read_u32(addr)
    }

    fn write_u32(&mut self, addr: usize, v: u32) {
        proof {
            crate::virtual_mem::lemma_put_u32(self@.mem.bytes, addr - self@.mem.base, v as nat);
        }
        self.mem.write_u32(addr, v);
        proof {
            assert forall|p: nat| old(self).header_readable(p) && (addr + 4 <= p - 4 || p <= addr) implies {
                &&& #[trigger] self.may_dealloc(p) == old(self).may_dealloc(p)
                &&& self.header_readable(p) == old(self).header_readable(p)
                &&& self.recorded_size(p) == old(self).recorded_size(p)
            } by {
                let i = p - 4 - old(self)@.mem.base;
                assert forall|j: int| i <= j < i + 4 implies #[trigger] self@.mem.bytes[j] == old(self)@.mem.bytes[j] by {}
                crate::virtual_mem::lemma_u32_same(self@.mem.bytes, old(self)@.mem.bytes, i + 0);
            }
        }
    }
}

} // verus!
