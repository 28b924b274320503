use vstd::prelude::*;
use crate::base::{as_block, Allocator, BasicAllocator, MemoryBlock};
use crate::pointer_util::{align_top, aligned_up, is_pow2, lemma_aligned_up};
use crate::virtual_mem::{put_u32, reserve_committed, MemView, VirtualMemory, MAX_RESERVATION};

verus! {

/// Bytes of the header in front of each block: the offset of the previous
/// cursor from the first address, the block's size, and its allocation id.
pub const STACK_HEADER_SIZE: usize = 12;

/// Abstract state of a stack allocator.
pub struct StackView {
    pub mem: MemView,
    pub end: nat,
    pub cursor: nat,
    pub counter: nat,
}

/// `bytes` with a stack header for user pointer `p` written into it.
pub open spec fn put_stack_header(mem: MemView, p: nat, prev_offset: nat, size: nat, id: nat) -> MemView {
    let i = p - STACK_HEADER_SIZE - mem.base;
    MemView { bytes: put_u32(put_u32(put_u32(mem.bytes, i, prev_offset), i + 4, size), i + 8, id), ..mem }
}

/// The previous-cursor offset recorded in front of `p`.
pub open spec fn header_offset(mem: MemView, p: nat) -> nat {
    mem.u32_at((p - 12) as nat)
}

/// The size recorded in front of `p`.
pub open spec fn header_size(mem: MemView, p: nat) -> nat {
    mem.u32_at((p - 8) as nat)
}

/// The allocation id recorded in front of `p`.
pub open spec fn header_id(mem: MemView, p: nat) -> nat {
    mem.u32_at((p - 4) as nat)
}

impl StackView {
    pub open spec fn wf(self) -> bool {
        &&& self.mem.wf()
        &&& self.mem.base <= self.cursor <= self.end
        &&& self.end <= self.mem.committed_end()
        &&& self.end <= self.mem.base + MAX_RESERVATION
        &&& self.counter <= u32::MAX
    }

    /// Outcome of `alloc_raw(size, alignment, offset)`. The header records
    /// where the cursor stood and the next allocation id.
    pub open spec fn alloc_step(self, size: nat, alignment: nat, offset: nat) -> (StackView, Option<nat>) {
        let a = aligned_up((self.cursor + offset + STACK_HEADER_SIZE) as nat, alignment);
        if size > u32::MAX || self.counter == u32::MAX || a + size > self.end {
            (self, None)
        } else {
            let p = (a - offset) as nat;
            (
                StackView {
                    cursor: p + size,
                    counter: self.counter + 1,
                    mem: put_stack_header(self.mem, p, (self.cursor - self.mem.base) as nat, size, self.counter + 1),
                    ..self
                },
                Some(p),
            )
        }
    }

    /// Whether the block at `p` may be handed back: its header is in
    /// committed memory, it is the most recent live allocation, and it
    /// records a cursor below itself.
    pub open spec fn may_dealloc(self, p: nat) -> bool {
        &&& self.mem.base + STACK_HEADER_SIZE <= p <= self.end
        &&& self.counter > 0
        &&& header_id(self.mem, p) == self.counter
        &&& self.mem.base + header_offset(self.mem, p) + STACK_HEADER_SIZE <= p
    }

    /// Outcome of handing back `p`: the cursor returns to where the header
    /// says it stood.
    pub open spec fn dealloc_step(self, p: nat) -> StackView {
        StackView { cursor: self.mem.base + header_offset(self.mem, p), counter: (self.counter - 1) as nat, ..self }
    }

    pub open spec fn reset_step(self) -> StackView {
        StackView { cursor: self.mem.base, counter: 0, ..self }
    }
}

/// A written stack header reads back as written and leaves every other
/// byte as it was.
pub proof fn lemma_stack_header(mem: MemView, p: nat, prev_offset: nat, size: nat, id: nat)
    requires
        mem.base + STACK_HEADER_SIZE <= p <= mem.committed_end(),
        prev_offset <= u32::MAX,
        size <= u32::MAX,
        id <= u32::MAX,
    ensures
        put_stack_header(mem, p, prev_offset, size, id).bytes.len() == mem.bytes.len(),
        put_stack_header(mem, p, prev_offset, size, id).base == mem.base,
        put_stack_header(mem, p, prev_offset, size, id).reserved == mem.reserved,
        header_offset(put_stack_header(mem, p, prev_offset, size, id), p) == prev_offset,
        header_size(put_stack_header(mem, p, prev_offset, size, id), p) == size,
        header_id(put_stack_header(mem, p, prev_offset, size, id), p) == id,
        forall|j: int|
            0 <= j < mem.bytes.len() && (j < p - STACK_HEADER_SIZE - mem.base || j >= p - mem.base)
                ==> #[trigger] put_stack_header(mem, p, prev_offset, size, id).bytes[j] == mem.bytes[j],
{
    let i = p - STACK_HEADER_SIZE - mem.base;
    let b1 = put_u32(mem.bytes, i, prev_offset);
    let b2 = put_u32(b1, i + 4, size);
    let b3 = put_u32(b2, i + 8, id);
    crate::virtual_mem::lemma_put_u32(mem.bytes, i, prev_offset);
    crate::virtual_mem::lemma_put_u32(b1, i + 4, size);
    crate::virtual_mem::lemma_put_u32(b2, i + 8, id);
    assert(crate::virtual_mem::u32_at(b3, i) == crate::virtual_mem::u32_at(b1, i));
    assert(crate::virtual_mem::u32_at(b3, i + 4) == crate::virtual_mem::u32_at(b2, i + 4));
}

/// Two allocations handed back in reverse order leave the cursor and the
/// allocation counter where they were; handing back the older one first
/// is refused.
pub proof fn lemma_stack_lifo(
    s: StackView,
    size_a: nat,
    alignment_a: nat,
    offset_a: nat,
    size_b: nat,
    alignment_b: nat,
    offset_b: nat,
)
    requires
        s.wf(),
        is_pow2(alignment_a),
        is_pow2(alignment_b),
        s.alloc_step(size_a, alignment_a, offset_a).1 is Some,
        s.alloc_step(size_a, alignment_a, offset_a).0.alloc_step(size_b, alignment_b, offset_b).1 is Some,
    ensures
        ({
            let (s1, pa) = s.alloc_step(size_a, alignment_a, offset_a);
            let (s2, pb) = s1.alloc_step(size_b, alignment_b, offset_b);
            &&& !s2.may_dealloc(pa.unwrap())
            &&& s2.may_dealloc(pb.unwrap())
            &&& s2.dealloc_step(pb.unwrap()).may_dealloc(pa.unwrap())
            &&& s2.dealloc_step(pb.unwrap()).dealloc_step(pa.unwrap()).cursor == s.cursor
            &&& s2.dealloc_step(pb.unwrap()).dealloc_step(pa.unwrap()).counter == s.counter
        }),
{
    let (s1, pa) = s.alloc_step(size_a, alignment_a, offset_a);
    let (s2, pb) = s1.alloc_step(size_b, alignment_b, offset_b);
    let pa = pa.unwrap();
    let pb = pb.unwrap();
    lemma_aligned_up((s.cursor + offset_a + STACK_HEADER_SIZE) as nat, alignment_a);
    lemma_stack_header(s.mem, pa, (s.cursor - s.mem.base) as nat, size_a, s.counter + 1);
    lemma_aligned_up((s1.cursor + offset_b + STACK_HEADER_SIZE) as nat, alignment_b);
    lemma_stack_header(s1.mem, pb, (s1.cursor - s1.mem.base) as nat, size_b, s1.counter + 1);
    let i = pa - 12 - s.mem.base;
    assert(s2.mem.bytes[i] == s1.mem.bytes[i]);
    assert(s2.mem.bytes[i + 1] == s1.mem.bytes[i + 1]);
    assert(s2.mem.bytes[i + 2] == s1.mem.bytes[i + 2]);
    assert(s2.mem.bytes[i + 3] == s1.mem.bytes[i + 3]);
    assert(s2.mem.bytes[i + 8] == s1.mem.bytes[i + 8]);
    assert(s2.mem.bytes[i + 9] == s1.mem.bytes[i + 9]);
    assert(s2.mem.bytes[i + 10] == s1.mem.bytes[i + 10]);
    assert(s2.mem.bytes[i + 11] == s1.mem.bytes[i + 11]);
    assert(header_offset(s2.mem, pa) == header_offset(s1.mem, pa));
    assert(header_id(s2.mem, pa) == header_id(s1.mem, pa));
}

/// LIFO allocator: blocks are handed back in the reverse order of their
/// allocation, each one rewinding the cursor to where it stood before.
pub struct StackAllocator {
    mem: VirtualMemory,
    end: usize,
    cursor: usize,
    counter: u32,
}

impl View for StackAllocator {
    type V = StackView;

    closed spec fn view(&self) -> StackView {
        StackView { mem: self.mem@, end: self.end as nat, cursor: self.cursor as nat, counter: self.counter as nat }
    }
}

impl StackAllocator {
    /// An allocator over `size` fresh bytes.
    pub fn new(size: usize) -> (r: StackAllocator)
        requires
            0 < size <= MAX_RESERVATION,
        ensures
            r@.wf(),
            r@.cursor == r@.mem.base,
            r@.counter == 0,
            r@.end == r@.mem.base + size,
    {
        let mem = reserve_committed(size);
        let base = mem.base_address();
        StackAllocator { mem, end: base + size, cursor: base, counter: 0 }
    }

    /// Address of the next byte that an allocation would consider.
    pub fn cursor(&self) -> (r: usize)
        ensures
            r == self@.cursor,
    {
        self.cursor
    }

    /// Number of live allocations.
    pub fn allocation_count(&self) -> (r: u32)
        ensures
            r == self@.counter,
    {
        self.counter
    }
}

impl BasicAllocator for StackAllocator {
    open spec fn fresh(&self, size: nat) -> bool {
        self@.cursor == self@.mem.base && self@.counter == 0 && self@.end == self@.mem.base + size
    }

    fn new(size: usize) -> (r: StackAllocator) {
        StackAllocator::new(size)
    }
}

impl Allocator for StackAllocator {
    open spec fn inv(&self) -> bool {
        self@.wf()
    }

    open spec fn mem(&self) -> MemView {
        self@.mem
    }

    open spec fn admits(&self, size: nat, alignment: nat) -> bool {
        true
    }

    open spec fn honours_offset(&self, offset: nat) -> bool {
        true
    }

    open spec fn header_readable(&self, p: nat) -> bool {
        self@.mem.base + STACK_HEADER_SIZE <= p <= self@.mem.committed_end()
    }

    open spec fn recorded_size(&self, p: nat) -> nat {
        header_size(self@.mem, p)
    }

    open spec fn writable(&self, addr: nat, len: nat) -> bool {
        true
    }

    open spec fn header_span() -> nat {
        12
    }

    open spec fn may_dealloc(&self, p: nat) -> bool {
        self@.may_dealloc(p)
    }

    proof fn lemma_inv_mem(&self) {
    }

    proof fn lemma_with_bytes_refl(&self) {
    }

    proof fn lemma_with_bytes_trans(&self, mid: &Self, last: &Self, first_bytes: Seq<u8>, last_bytes: Seq<u8>) {
    }

    proof fn lemma_writable_part(&self, addr: nat, len: nat, part: nat, part_len: nat) {
    }

    open spec fn alloc_result(&self, size: nat, alignment: nat, offset: nat) -> Option<nat> {
        self@.alloc_step(size, alignment, offset).1
    }

    open spec fn alloc_post(&self, next: &Self, size: nat, alignment: nat, offset: nat, r: Option<MemoryBlock>) -> bool {
        next@ == self@.alloc_step(size, alignment, offset).0 && r == as_block(self@.alloc_step(size, alignment, offset).1)
    }

    open spec fn dealloc_post(&self, next: &Self, p: nat) -> bool {
        next@ == self@.dealloc_step(p)
    }

    open spec fn reset_post(&self, next: &Self) -> bool {
        next@ == self@.reset_step()
    }

    open spec fn with_bytes(&self, next: &Self, bytes: Seq<u8>) -> bool {
        next@ == (StackView { mem: MemView { bytes, ..self@.mem }, ..self@ })
    }

    #[verifier::rlimit(50)]
    fn alloc_raw(&mut self, size: usize, alignment: usize, offset: usize) -> (r: Option<MemoryBlock>) {
        let ghost s = self@;
        proof {
            lemma_aligned_up((s.cursor + offset + STACK_HEADER_SIZE) as nat, alignment as nat);
        }
        if size > u32::MAX as usize || self.counter == u32::MAX || offset > self.end - self.cursor
            || alignment > self.end {
            return None;
        }
        let x: usize = self.cursor + offset + STACK_HEADER_SIZE;
        let a = align_top(x, alignment);
        if a > self.end || size > self.end - a {
            return None;
        }
        let p: usize = a - offset;
        let base = self.mem.base_address();
        let prev_offset = (self.cursor - base) as u32;
        let id = self.counter + 1;
        self.mem.write_u32(p - STACK_HEADER_SIZE, prev_offset);
        self.mem.write_u32(p - 8, size as u32);
        self.mem.write_u32(p - 4, id);
        proof {
            let i = p - STACK_HEADER_SIZE - s.mem.base;
            let b1 = put_u32(s.mem.bytes, i, prev_offset as nat);
            let b2 = put_u32(b1, i + 4, size as nat);
            crate::virtual_mem::lemma_put_u32(s.mem.bytes, i, prev_offset as nat);
            crate::virtual_mem::lemma_put_u32(b1, i + 4, size as nat);
            crate::virtual_mem::lemma_put_u32(b2, i + 8, id as nat);
        }
        self.cursor = p + size;
        self.counter = id;
        Some(MemoryBlock { ptr: p })
    }

    fn dealloc_raw(&mut self, memory: MemoryBlock) {
        let base = self.mem.base_address();
        let prev_offset = self.mem.read_u32(memory.ptr - STACK_HEADER_SIZE);
        self.cursor = base + prev_offset as usize;
        self.counter = self.counter - 1;
    }

    fn reset(&mut self) {
        self.cursor = self.mem.base_address();
        self.counter = 0;
    }

    fn get_allocation_size(&self, memory: &MemoryBlock) -> (r: usize) {
        self.mem.read_u32(memory.ptr - 8) as usize
    }

    fn read_u8(&self, addr: usize) -> (r: u8) {
        self.mem.read_u8(addr)
    }

    fn write_u8(&mut self, addr: usize, v: u8) {
        self.mem.write_u8(addr, v);
        proof {
            assert forall|p: nat| old(self).header_readable(p) && (addr + 1 <= p - 12 || p <= addr) implies {
                &&& #[trigger] self.may_dealloc(p) == old(self).may_dealloc(p)
                &&& self.header_readable(p) == old(self).header_readable(p)
                &&& self.recorded_size(p) == old(self).recorded_size(p)
            } by {
                let i = p - 12 - old(self)@.mem.base;
                assert forall|j: int| i <= j < i + 12 implies #[trigger] self@.mem.bytes[j] == old(self)@.mem.bytes[j] by {}
                crate::virtual_mem::lemma_u32_same(self@.mem.bytes, old(self)@.mem.bytes, i + 0);
                crate::virtual_mem::lemma_u32_same(self@.mem.bytes, old(self)@.mem.bytes, i + 4);
                crate::virtual_mem::lemma_u32_same(self@.mem.bytes, old(self)@.mem.bytes, i + 8);
            }
        }
    }

    fn read_u32(&self, addr: usize) -> (r: u32) {
        self.mem.read_u32(addr)
    }

    fn write_u32(&mut self, addr: usize, v: u32) {
        proof {
            crate::virtual_mem::lemma_put_u32(self@.mem.bytes, addr - self@.mem.base, v as nat);
        }
        self.mem.write_u32(addr, v);
        proof {
            assert forall|p: nat| old(self).header_readable(p) && (addr + 4 <= p - 12 || p <= addr) implies {
                &&& #[trigger] self.may_dealloc(p) == old(self).may_dealloc(p)
                &&& self.header_readable(p) == old(self).header_readable(p)
                &&& self.recorded_size(p) == old(self).recorded_size(p)
            } by {
                let i = p - 12 - old(self)@.mem.base;
                assert forall|j: int| i <= j < i + 12 implies #[trigger] self@.mem.bytes[j] == old(self)@.mem.bytes[j] by {}
                crate::virtual_mem::lemma_u32_same(self@.mem.bytes, old(self)@.mem.bytes, i + 0);
                crate::virtual_mem::lemma_u32_same(self@.mem.bytes, old(self)@.mem.bytes, i + 4);
                crate::virtual_mem::lemma_u32_same(self@.mem.bytes, old(self)@.mem.bytes, i + 8);
            }
        }
    }
}

} // verus!
