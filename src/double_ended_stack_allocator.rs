use vstd::prelude::*;
use crate::base::{as_block, Allocator, BasicAllocator, MemoryBlock};
use crate::pointer_util::{align_bottom, aligned_down, is_pow2, lemma_aligned_down};
use crate::stack_allocator::{header_id, header_offset, header_size, lemma_stack_header, put_stack_header, STACK_HEADER_SIZE};
use crate::virtual_mem::{put_u32, reserve_committed, MemView, VirtualMemory, MAX_RESERVATION};

verus! {

/// Abstract state of a double-ended stack allocator.
pub struct DoubleEndedView {
    pub mem: MemView,
    pub end: nat,
    pub front: nat,
    pub back: nat,
    pub front_counter: nat,
    pub back_counter: nat,
}

impl DoubleEndedView {
    pub open spec fn wf(self) -> bool {
        &&& self.mem.wf()
        &&& self.mem.base <= self.front <= self.back <= self.end
        &&& self.end <= self.mem.committed_end()
        &&& self.end <= self.mem.base + MAX_RESERVATION
        &&& self.front_counter <= u32::MAX
        &&& self.back_counter <= u32::MAX
    }

    /// Outcome of a front allocation: as on a stack allocator, the header
    /// follows the front cursor and the user pointer follows the header,
    /// padded so that it plus `offset` is aligned; fails when the block would
    /// reach past the back cursor.
    pub open spec fn alloc_front(self, size: nat, alignment: nat, offset: nat) -> (DoubleEndedView, Option<nat>) {
        let y = (self.front + STACK_HEADER_SIZE) as nat;
        let p = y + front_padding(y, offset, alignment);
        if size > u32::MAX || self.front_counter == u32::MAX || p + size > self.back {
            (self, None)
        } else {
            (
                DoubleEndedView {
                    front: p + size,
                    front_counter: self.front_counter + 1,
                    mem: put_stack_header(self.mem, p, (self.front - self.mem.base) as nat, size, self.front_counter + 1),
                    ..self
                },
                Some(p),
            )
        }
    }

    /// Outcome of a back allocation: the back cursor moves down by `size`,
    /// to an aligned position, then by the header; the header records the
    /// old back cursor's distance from the end. Fails when the header would
    /// reach below the front cursor.
    pub open spec fn alloc_back(self, size: nat, alignment: nat, offset: nat) -> (DoubleEndedView, Option<nat>) {
        let a = aligned_down((self.back - size) as nat, alignment);
        if size > u32::MAX || self.back_counter == u32::MAX || size > self.back || a < self.front + offset
            + STACK_HEADER_SIZE {
            (self, None)
        } else {
            let p = (a - offset) as nat;
            (
                DoubleEndedView {
                    back: (p - STACK_HEADER_SIZE) as nat,
                    back_counter: self.back_counter + 1,
                    mem: put_stack_header(self.mem, p, (self.end - self.back) as nat, size, self.back_counter + 1),
                    ..self
                },
                Some(p),
            )
        }
    }

    /// Whether `p` may be handed back on the front side: it lies below the
    /// back cursor and is the latest live front allocation.
    pub open spec fn may_dealloc_front(self, p: nat) -> bool {
        &&& self.mem.base + STACK_HEADER_SIZE <= p < self.back
        &&& self.front_counter > 0
        &&& header_id(self.mem, p) == self.front_counter
        &&& self.mem.base + header_offset(self.mem, p) + STACK_HEADER_SIZE <= p
    }

    /// Whether `p` may be handed back on the back side: it lies at or above
    /// the back cursor and is the latest live back allocation.
    pub open spec fn may_dealloc_back(self, p: nat) -> bool {
        &&& self.mem.base + STACK_HEADER_SIZE <= p < self.end
        &&& self.back <= p
        &&& self.back_counter > 0
        &&& header_id(self.mem, p) == self.back_counter
        &&& p + header_offset(self.mem, p) <= self.end
    }

    pub open spec fn dealloc_front(self, p: nat) -> DoubleEndedView {
        DoubleEndedView {
            front: self.mem.base + header_offset(self.mem, p),
            front_counter: (self.front_counter - 1) as nat,
            ..self
        }
    }

    pub open spec fn dealloc_back(self, p: nat) -> DoubleEndedView {
        DoubleEndedView {
            back: (self.end - header_offset(self.mem, p)) as nat,
            back_counter: (self.back_counter - 1) as nat,
            ..self
        }
    }

    pub open spec fn reset_step(self) -> DoubleEndedView {
        DoubleEndedView { front: self.mem.base, back: self.end, front_counter: 0, back_counter: 0, ..self }
    }
}

/// Bytes to skip after `y` so that the position plus `offset` is a multiple
/// of `alignment`.
pub open spec fn front_padding(y: nat, offset: nat, alignment: nat) -> nat {
    let s = ((y + offset) as int) % (alignment as int);
    if s == 0 {
        0
    } else {
        (alignment - s) as nat
    }
}

/// The padding is less than the alignment and makes the position plus the
/// offset aligned.
pub proof fn lemma_front_padding(y: nat, offset: nat, alignment: nat)
    requires
        alignment > 0,
    ensures
        front_padding(y, offset, alignment) < alignment,
        ((y + front_padding(y, offset, alignment) + offset) as int) % (alignment as int) == 0,
{
    let x = (y + offset) as int;
    let m = alignment as int;
    let q = x / m;
    vstd::arithmetic::div_mod::lemma_fundamental_div_mod(x, m);
    if x % m != 0 {
        assert(x + (m - x % m) == (q + 1) * m) by (nonlinear_arith)
            requires
                x == m * q + x % m,
        ;
        vstd::arithmetic::div_mod::lemma_mod_multiples_basic(q + 1, m);
    }
}

/// Front and back allocations never touch each other's bytes: a front
/// block followed by a back block, or the other way round, keep the first
/// block's bytes and leave the two ranges apart.
pub proof fn lemma_double_ended_isolation(
    s: DoubleEndedView,
    size_f: nat,
    alignment_f: nat,
    offset_f: nat,
    size_b: nat,
    alignment_b: nat,
    offset_b: nat,
)
    requires
        s.wf(),
        is_pow2(alignment_f),
        is_pow2(alignment_b),
    ensures
        ({
            let (s1, pf) = s.alloc_front(size_f, alignment_f, offset_f);
            let (s2, pb) = s1.alloc_back(size_b, alignment_b, offset_b);
            pf is Some && pb is Some ==> {
                &&& pf.unwrap() + size_f <= pb.unwrap() - STACK_HEADER_SIZE
                &&& forall|i: int|
                    pf.unwrap() - s.mem.base <= i < pf.unwrap() + size_f - s.mem.base
                        ==> #[trigger] s2.mem.bytes[i] == s1.mem.bytes[i]
            }
        }),
        ({
            let (s1, pb) = s.alloc_back(size_b, alignment_b, offset_b);
            let (s2, pf) = s1.alloc_front(size_f, alignment_f, offset_f);
            pf is Some && pb is Some ==> {
                &&& pf.unwrap() + size_f <= pb.unwrap() - STACK_HEADER_SIZE
                &&& forall|i: int|
                    pb.unwrap() - s.mem.base <= i < pb.unwrap() + size_b - s.mem.base
                        ==> #[trigger] s2.mem.bytes[i] == s1.mem.bytes[i]
            }
        }),
{
    lemma_front_padding((s.front + STACK_HEADER_SIZE) as nat, offset_f, alignment_f);
    lemma_aligned_down((s.back - size_b) as nat, alignment_b);
    let (s1, pf) = s.alloc_front(size_f, alignment_f, offset_f);
    if pf is Some {
        lemma_stack_header(s.mem, pf.unwrap(), (s.front - s.mem.base) as nat, size_f, s.front_counter + 1);
        lemma_aligned_down((s1.back - size_b) as nat, alignment_b);
        let (s2, pb) = s1.alloc_back(size_b, alignment_b, offset_b);
        if pb is Some {
            lemma_stack_header(s1.mem, pb.unwrap(), (s1.end - s1.back) as nat, size_b, s1.back_counter + 1);
        }
    }
    let (t1, qb) = s.alloc_back(size_b, alignment_b, offset_b);
    if qb is Some {
        lemma_stack_header(s.mem, qb.unwrap(), (s.end - s.back) as nat, size_b, s.back_counter + 1);
        lemma_front_padding((t1.front + STACK_HEADER_SIZE) as nat, offset_f, alignment_f);
        let (t2, qf) = t1.alloc_front(size_f, alignment_f, offset_f);
        if qf is Some {
            lemma_stack_header(t1.mem, qf.unwrap(), (t1.front - t1.mem.base) as nat, size_f, t1.front_counter + 1);
        }
    }
}

/// Two stacks in one range: one grows up from the first address, the other
/// down from the end, and allocation fails where they would meet.
pub struct DoubleEndedStackAllocator {
    mem: VirtualMemory,
    end: usize,
    front: usize,
    back: usize,
    front_counter: u32,
    back_counter: u32,
}

impl View for DoubleEndedStackAllocator {
    type V = DoubleEndedView;

    closed spec fn view(&self) -> DoubleEndedView {
        DoubleEndedView {
            mem: self.mem@,
            end: self.end as nat,
            front: self.front as nat,
            back: self.back as nat,
            front_counter: self.front_counter as nat,
            back_counter: self.back_counter as nat,
        }
    }
}

impl DoubleEndedStackAllocator {
    /// An allocator over `size` fresh bytes.
    pub fn new(size: usize) -> (r: DoubleEndedStackAllocator)
        requires
            0 < size <= MAX_RESERVATION,
        ensures
            r@.wf(),
            r@.front == r@.mem.base,
            r@.back == r@.end,
            r@.front_counter == 0,
            r@.back_counter == 0,
            r@.end == r@.mem.base + size,
    {
        let mem = reserve_committed(size);
        let base = mem.base_address();
        DoubleEndedStackAllocator { mem, end: base + size, front: base, back: base + size, front_counter: 0, back_counter: 0 }
    }

    /// Allocates from the back, growing down.
    #[verifier::rlimit(50)]
    pub fn alloc_raw_back(&mut self, size: usize, alignment: usize, offset: usize) -> (r: Option<MemoryBlock>)
        requires
            old(self)@.wf(),
            size > 0,
            is_pow2(alignment as nat),
        ensures
            final(self)@.wf(),
            final(self)@ == old(self)@.alloc_back(size as nat, alignment as nat, offset as nat).0,
            r == as_block(old(self)@.alloc_back(size as nat, alignment as nat, offset as nat).1),
            r matches Some(b) ==> {
                &&& (b.ptr + offset) % (alignment as int) == 0
                &&& b.ptr + size <= old(self)@.back
                &&& final(self)@.mem.in_committed(b.ptr as nat, size as nat)
                &&& final(self)@.may_dealloc_back(b.ptr as nat)
                &&& header_size(final(self)@.mem, b.ptr as nat) == size
            },
    {
        let ghost s = self@;
        if size > u32::MAX as usize || self.back_counter == u32::MAX || size > self.back {
            return None;
        }
        let a = align_bottom(self.back - size, alignment);
        proof {
            lemma_aligned_down((s.back - size) as nat, alignment as nat);
        }
        if a < self.front || offset > a - self.front || a - self.front - offset < STACK_HEADER_SIZE {
            return None;
        }
        let p: usize = a - offset;
        let prev_offset = (self.end - self.back) as u32;
        let id = self.back_counter + 1;
        self.mem.write_u32(p - STACK_HEADER_SIZE, prev_offset);
        self.mem.write_u32(p - 8, size as u32);
        self.mem.write_u32(p - 4, id);
        proof {
            let i = p - STACK_HEADER_SIZE - s.mem.base;
            let b1 = put_u32(s.mem.bytes, i, prev_offset as nat);
            let b2 = put_u32(b1, i + 4, size as nat);
            crate::virtual_mem::lemma_put_u32(s.mem.bytes, i, prev_offset as nat);
            crate::virtual_mem::lemma_put_u32(b1, i + 4, size as nat);
            crate::virtual_mem::lemma_put_u32(b2, i + 8, id as nat);
        }
        self.back = p - STACK_HEADER_SIZE;
        self.back_counter = id;
        Some(MemoryBlock { ptr: p })
    }

    /// Hands back a block of the back side.
    pub fn dealloc_raw_back(&mut self, memory: MemoryBlock)
        requires
            old(self)@.wf(),
            old(self)@.may_dealloc_back(memory.ptr as nat),
        ensures
            final(self)@.wf(),
            final(self)@ == old(self)@.dealloc_back(memory.ptr as nat),
    {
        let prev_offset = self.mem.read_u32(memory.ptr - STACK_HEADER_SIZE);
        self.back = self.end - prev_offset as usize;
        self.back_counter = self.back_counter - 1;
    }

    /// Address of the front cursor.
    pub fn front_cursor(&self) -> (r: usize)
        ensures
            r == self@.front,
    {
        self.front
    }

    /// Address of the back cursor.
    pub fn back_cursor(&self) -> (r: usize)
        ensures
            r == self@.back,
    {
        self.back
    }
}

impl BasicAllocator for DoubleEndedStackAllocator {
    open spec fn fresh(&self, size: nat) -> bool {
        &&& self@.front == self@.mem.base
        &&& self@.back == self@.end
        &&& self@.front_counter == 0
        &&& self@.back_counter == 0
        &&& self@.end == self@.mem.base + size
    }

    fn new(size: usize) -> (r: DoubleEndedStackAllocator) {
        DoubleEndedStackAllocator::new(size)
    }
}

impl Allocator for DoubleEndedStackAllocator {
    open spec fn inv(&self) -> bool {
        self@.wf()
    }

    open spec fn mem(&self) -> MemView {
        self@.mem
    }

    open spec fn admits(&self, size: nat, alignment: nat) -> bool {
        true
    }

    open spec fn honours_offset(&self, offset: nat) -> bool {
        true
    }

    open spec fn header_readable(&self, p: nat) -> bool {
        self@.mem.base + STACK_HEADER_SIZE <= p <= self@.mem.committed_end()
    }

    open spec fn recorded_size(&self, p: nat) -> nat {
        header_size(self@.mem, p)
    }

    open spec fn writable(&self, addr: nat, len: nat) -> bool {
        true
    }

    open spec fn header_span() -> nat {
        12
    }

    open spec fn may_dealloc(&self, p: nat) -> bool {
        self@.may_dealloc_front(p)
    }

    proof fn lemma_inv_mem(&self) {
    }

    proof fn lemma_with_bytes_refl(&self) {
    }

    proof fn lemma_with_bytes_trans(&self, mid: &Self, last: &Self, first_bytes: Seq<u8>, last_bytes: Seq<u8>) {
    }

    proof fn lemma_writable_part(&self, addr: nat, len: nat, part: nat, part_len: nat) {
    }

    open spec fn alloc_result(&self, size: nat, alignment: nat, offset: nat) -> Option<nat> {
        self@.alloc_front(size, alignment, offset).1
    }

    open spec fn alloc_post(&self, next: &Self, size: nat, alignment: nat, offset: nat, r: Option<MemoryBlock>) -> bool {
        next@ == self@.alloc_front(size, alignment, offset).0 && r == as_block(self@.alloc_front(size, alignment, offset).1)
    }

    open spec fn dealloc_post(&self, next: &Self, p: nat) -> bool {
        next@ == self@.dealloc_front(p)
    }

    open spec fn reset_post(&self, next: &Self) -> bool {
        next@ == self@.reset_step()
    }

    open spec fn with_bytes(&self, next: &Self, bytes: Seq<u8>) -> bool {
        next@ == (DoubleEndedView { mem: MemView { bytes, ..self@.mem }, ..self@ })
    }

    #[verifier::rlimit(50)]
    fn alloc_raw(&mut self, size: usize, alignment: usize, offset: usize) -> (r: Option<MemoryBlock>) {
        let ghost s = self@;
        if size > u32::MAX as usize || self.front_counter == u32::MAX || self.back - self.front < STACK_HEADER_SIZE {
            return None;
        }
        let y: usize = self.front + STACK_HEADER_SIZE;
        let rest_y = y % alignment;
        let rest_offset = offset % alignment;
        let rest: usize = if rest_y >= alignment - rest_offset {
            rest_y - (alignment - rest_offset)
        } else {
            rest_y + rest_offset
        };
        let pad: usize = if rest == 0 { 0 } else { alignment - rest };
        proof {
            let m = alignment as int;
            vstd::arithmetic::div_mod::lemma_add_mod_noop(y as int, offset as int, m);
            if rest_y >= alignment - rest_offset {
                vstd::arithmetic::div_mod::lemma_mod_add_multiples_vanish((rest_y + rest_offset - m) as int, m);
                vstd::arithmetic::div_mod::lemma_small_mod((rest_y + rest_offset - m) as nat, m as nat);
            } else {
                vstd::arithmetic::div_mod::lemma_small_mod((rest_y + rest_offset) as nat, m as nat);
            }
            assert(rest == (y + offset) % m);
            assert(pad == front_padding(y as nat, offset as nat, alignment as nat));
            lemma_front_padding(y as nat, offset as nat, alignment as nat);
        }
        if pad > self.back - y || size > self.back - y - pad {
            return None;
        }
        let p: usize = y + pad;
        let base = self.mem.base_address();
        let prev_offset = (self.front - base) as u32;
        let id = self.front_counter + 1;
        self.mem.write_u32(p - STACK_HEADER_SIZE, prev_offset);
        self.mem.write_u32(p - 8, size as u32);
        self.mem.write_u32(p - 4, id);
        proof {
            let i = p - STACK_HEADER_SIZE - s.mem.base;
            let b1 = put_u32(s.mem.bytes, i, prev_offset as nat);
            let b2 = put_u32(b1, i + 4, size as nat);
            crate::virtual_mem::lemma_put_u32(s.mem.bytes, i, prev_offset as nat);
            crate::virtual_mem::lemma_put_u32(b1, i + 4, size as nat);
            crate::virtual_mem::lemma_put_u32(b2, i + 8, id as nat);
        }
        self.front = p + size;
        self.front_counter = id;
        Some(MemoryBlock { ptr: p })
    }

    fn dealloc_raw(&mut self, memory: MemoryBlock) {
        let base = self.mem.base_address();
        let prev_offset = self.mem.read_u32(memory.ptr - STACK_HEADER_SIZE);
        self.front = base + prev_offset as usize;
        self.front_counter = self.front_counter - 1;
    }

    fn reset(&mut self) {
        self.front = self.mem.base_address();
        self.back = self.end;
        self.front_counter = 0;
        self.back_counter = 0;
    }

    fn get_allocation_size(&self, memory: &MemoryBlock) -> (r: usize) {
        self.mem.read_u32(memory.ptr - 8) as usize
    }

    fn read_u8(&self, addr: usize) -> (r: u8) {
        self.mem.read_u8(addr)
    }

    fn write_u8(&mut self, addr: usize, v: u8) {
        self.mem.write_u8(addr, v);
        proof {
            assert forall|p: nat| old(self).header_readable(p) && (addr + 1 <= p - 12 || p <= addr) implies {
                &&& #[trigger] self.may_dealloc(p) == old(self).may_dealloc(p)
                &&& self.header_readable(p) == old(self).header_readable(p)
                &&& self.recorded_size(p) == old(self).recorded_size(p)
            } by {
                let i = p - 12 - old(self)@.mem.base;
                assert forall|j: int| i <= j < i + 12 implies #[trigger] self@.mem.bytes[j] == old(self)@.mem.bytes[j] by {}
                crate::virtual_mem::lemma_u32_same(self@.mem.bytes, old(self)@.mem.bytes, i + 0);
                crate::virtual_mem::lemma_u32_same(self@.mem.bytes, old(self)@.mem.bytes, i + 4);
                crate::virtual_mem::lemma_u32_same(self@.mem.bytes, old(self)@.mem.bytes, i + 8);
            }
        }
    }

    fn read_u32(&self, addr: usize) -> (r: u32) {
        self.mem.read_u32(addr)
    }

    fn write_u32(&mut self, addr: usize, v: u32) {
        proof {
            crate::virtual_mem::lemma_put_u32(self@.mem.bytes, addr - self@.mem.base, v as nat);
        }
        self.mem.write_u32(addr, v);
        proof {
            assert forall|p: nat| old(self).header_readable(p) && (addr + 4 <= p - 12 || p <= addr) implies {
                &&& #[trigger] self.may_dealloc(p) == old(self).may_dealloc(p)
                &&& self.header_readable(p) == old(self).header_readable(p)
                &&& self.recorded_size(p) == old(self).recorded_size(p)
            } by {
                let i = p - 12 - old(self)@.mem.base;
                assert forall|j: int| i <= j < i + 12 implies #[trigger] self@.mem.bytes[j] == old(self)@.mem.bytes[j] by {}
                crate::virtual_mem::lemma_u32_same(self@.mem.bytes, old(self)@.mem.bytes, i + 0);
                crate::virtual_mem::lemma_u32_same(self@.mem.bytes, old(self)@.mem.bytes, i + 4);
                crate::virtual_mem::lemma_u32_same(self@.mem.bytes, old(self)@.mem.bytes, i + 8);
            }
        }
    }
}

} // verus!
