use vstd::prelude::*;
use crate::pointer_util::is_pow2;
use crate::virtual_mem::MemView;

verus! {

/// The user-visible address of one allocation; address 0 stands for none.
#[derive(Clone, Copy, Debug, PartialEq, Eq, Structural)]
pub struct MemoryBlock {
    pub ptr: usize,
}

impl MemoryBlock {
    pub fn new(ptr: usize) -> (r: MemoryBlock)
        requires
            ptr != 0,
        ensures
            r.ptr == ptr,
    {
        MemoryBlock { ptr }
    }

    pub fn empty() -> (r: MemoryBlock)
        ensures
            r.ptr == 0,
    {
        MemoryBlock { ptr: 0 }
    }

    pub fn is_empty(&self) -> (r: bool)
        ensures
            r == (self.ptr == 0),
    {
        self.ptr == 0
    }
}

/// `o` as an optional block.
pub open spec fn as_block(o: Option<nat>) -> Option<MemoryBlock> {
    match o {
        Some(p) => Some(MemoryBlock { ptr: p as usize }),
        None => None,
    }
}

/// What every allocation strategy offers: blocks of raw bytes carved out of
/// its own reservation, each preceded by a header the strategy keeps.
pub trait Allocator: Sized {
    /// The allocator's internal invariant.
    spec fn inv(&self) -> bool;

    /// The allocator's reservation and its committed bytes.
    spec fn mem(&self) -> MemView;

    /// Whether a request of this size and alignment is within what the
    /// allocator admits.
    spec fn admits(&self, size: nat, alignment: nat) -> bool;

    /// Whether blocks handed out for this user offset honour it.
    spec fn honours_offset(&self, offset: nat) -> bool;

    /// Whether the header in front of user pointer `p` lies in committed memory.
    spec fn header_readable(&self, p: nat) -> bool;

    /// The size that the header in front of user pointer `p` records.
    spec fn recorded_size(&self, p: nat) -> nat;

    /// Whether user code may store into `[addr, addr + len)` without
    /// disturbing what the allocator keeps in its free memory.
    spec fn writable(&self, addr: nat, len: nat) -> bool;

    /// Bytes in front of a user pointer that the allocator's header takes.
    spec fn header_span() -> nat;

    /// Whether `p` may be handed back now.
    spec fn may_dealloc(&self, p: nat) -> bool;

    /// The user pointer an allocation request would return, if any.
    spec fn alloc_result(&self, size: nat, alignment: nat, offset: nat) -> Option<nat>;

    /// The exact outcome of an allocation request: the new state and the
    /// user pointer, if any.
    spec fn alloc_post(&self, next: &Self, size: nat, alignment: nat, offset: nat, r: Option<MemoryBlock>) -> bool;

    /// The exact outcome of handing back `p`.
    spec fn dealloc_post(&self, next: &Self, p: nat) -> bool;

    /// The exact outcome of a reset.
    spec fn reset_post(&self, next: &Self) -> bool;

    /// The same allocator with other committed bytes.
    spec fn with_bytes(&self, next: &Self, bytes: Seq<u8>) -> bool;

    /// The invariant keeps the reservation well formed.
    proof fn lemma_inv_mem(&self)
        requires
            self.inv(),
        ensures
            self.mem().wf(),
    ;

    /// A state differs from itself in no more than its bytes.
    proof fn lemma_with_bytes_refl(&self)
        ensures
            self.with_bytes(self, self.mem().bytes),
    ;

    /// Two changes of bytes in a row are one change of bytes.
    proof fn lemma_with_bytes_trans(&self, mid: &Self, last: &Self, first_bytes: Seq<u8>, last_bytes: Seq<u8>)
        requires
            self.with_bytes(mid, first_bytes),
            mid.with_bytes(last, last_bytes),
        ensures
            self.with_bytes(last, last_bytes),
    ;

    /// A part of a writable range is writable.
    proof fn lemma_writable_part(&self, addr: nat, len: nat, part: nat, part_len: nat)
        requires
            self.writable(addr, len),
            addr <= part,
            part + part_len <= addr + len,
        ensures
            self.writable(part, part_len),
    ;

    fn alloc_raw(&mut self, size: usize, alignment: usize, offset: usize) -> (r: Option<MemoryBlock>)
        requires
            old(self).inv(),
            size > 0,
            is_pow2(alignment as nat),
            old(self).admits(size as nat, alignment as nat),
        ensures
            final(self).inv(),
            old(self).alloc_post(final(self), size as nat, alignment as nat, offset as nat, r),
            r == as_block(old(self).alloc_result(size as nat, alignment as nat, offset as nat)),
            forall|s: nat, a: nat| #[trigger] final(self).admits(s, a) == old(self).admits(s, a),
            forall|o: nat| #[trigger] final(self).honours_offset(o) == old(self).honours_offset(o),
            final(self).mem().base == old(self).mem().base,
            r is None ==> final(self).mem() == old(self).mem(),
            r matches Some(b) ==> {
                &&& old(self).alloc_result(size as nat, alignment as nat, offset as nat) == Some(b.ptr as nat)
                &&& old(self).honours_offset(offset as nat) ==> (b.ptr + offset) % (alignment as int) == 0
                &&& final(self).mem().in_committed(b.ptr as nat, size as nat)
                &&& final(self).header_readable(b.ptr as nat)
                &&& final(self).recorded_size(b.ptr as nat) == size
                &&& final(self).may_dealloc(b.ptr as nat)
                &&& final(self).writable(b.ptr as nat, size as nat)
                &&& final(self).mem().bytes.len() == old(self).mem().bytes.len()
                &&& forall|i: int| b.ptr - final(self).mem().base <= i < b.ptr + size - final(self).mem().base
                    ==> #[trigger] final(self).mem().bytes[i] == old(self).mem().bytes[i]
            },
    ;

    fn dealloc_raw(&mut self, memory: MemoryBlock)
        requires
            old(self).inv(),
            old(self).may_dealloc(memory.ptr as nat),
        ensures
            final(self).inv(),
            old(self).dealloc_post(final(self), memory.ptr as nat),
            forall|s: nat, a: nat| #[trigger] final(self).admits(s, a) == old(self).admits(s, a),
            forall|o: nat| #[trigger] final(self).honours_offset(o) == old(self).honours_offset(o),
            final(self).mem().base == old(self).mem().base,
            final(self).mem().bytes.len() == old(self).mem().bytes.len(),
    ;

    fn reset(&mut self)
        requires
            old(self).inv(),
        ensures
            final(self).inv(),
            old(self).reset_post(final(self)),
            forall|s: nat, a: nat| #[trigger] final(self).admits(s, a) == old(self).admits(s, a),
            forall|o: nat| #[trigger] final(self).honours_offset(o) == old(self).honours_offset(o),
    ;

    fn get_allocation_size(&self, memory: &MemoryBlock) -> (r: usize)
        requires
            self.inv(),
            self.header_readable(memory.ptr as nat),
        ensures
            r == self.recorded_size(memory.ptr as nat),
    ;

    /// Byte at `addr`.
    fn read_u8(&self, addr: usize) -> (r: u8)
        requires
            self.inv(),
            self.mem().in_committed(addr as nat, 1),
        ensures
            r == self.mem().byte_at(addr as nat),
    ;

    /// Stores `v` at `addr`, with no regard to who owns the byte.
    fn write_u8(&mut self, addr: usize, v: u8)
        requires
            old(self).inv(),
            old(self).mem().in_committed(addr as nat, 1),
            old(self).writable(addr as nat, 1),
        ensures
            final(self).inv(),
            forall|a: nat, l: nat| #[trigger] final(self).writable(a, l) == old(self).writable(a, l),
            forall|s: nat, a: nat| #[trigger] final(self).admits(s, a) == old(self).admits(s, a),
            forall|o: nat| #[trigger] final(self).honours_offset(o) == old(self).honours_offset(o),
            forall|p: nat| old(self).header_readable(p) && (addr + 1 <= p - Self::header_span() || p <= addr) ==> {
                &&& #[trigger] final(self).may_dealloc(p) == old(self).may_dealloc(p)
                &&& final(self).header_readable(p) == old(self).header_readable(p)
                &&& final(self).recorded_size(p) == old(self).recorded_size(p)
            },
            final(self).mem() == (MemView { bytes: old(self).mem().bytes.update(addr - old(self).mem().base, v), ..old(self).mem() }),
            old(self).with_bytes(final(self), final(self).mem().bytes),
    ;

    /// Little-endian 32-bit word at `addr`.
    fn read_u32(&self, addr: usize) -> (r: u32)
        requires
            self.inv(),
            self.mem().in_committed(addr as nat, 4),
        ensures
            r == self.mem().u32_at(addr as nat),
    ;

    /// Stores `v` little-endian at `addr`, with no regard to who owns the bytes.
    fn write_u32(&mut self, addr: usize, v: u32)
        requires
            old(self).inv(),
            old(self).mem().in_committed(addr as nat, 4),
            old(self).writable(addr as nat, 4),
        ensures
            final(self).inv(),
            forall|a: nat, l: nat| #[trigger] final(self).writable(a, l) == old(self).writable(a, l),
            forall|s: nat, a: nat| #[trigger] final(self).admits(s, a) == old(self).admits(s, a),
            forall|o: nat| #[trigger] final(self).honours_offset(o) == old(self).honours_offset(o),
            forall|p: nat| old(self).header_readable(p) && (addr + 4 <= p - Self::header_span() || p <= addr) ==> {
                &&& #[trigger] final(self).may_dealloc(p) == old(self).may_dealloc(p)
                &&& final(self).header_readable(p) == old(self).header_readable(p)
                &&& final(self).recorded_size(p) == old(self).recorded_size(p)
            },
            final(self).mem() == (MemView { bytes: crate::virtual_mem::put_u32(old(self).mem().bytes, addr - old(self).mem().base, v as nat), ..old(self).mem() }),
            old(self).with_bytes(final(self), final(self).mem().bytes),
    ;
}

/// Allocators built from a byte size alone.
pub trait BasicAllocator: Allocator {
    /// The state of an allocator just built over `size` bytes.
    spec fn fresh(&self, size: nat) -> bool;

    fn new(size: usize) -> (r: Self)
        requires
            0 < size <= crate::virtual_mem::MAX_RESERVATION,
        ensures
            r.inv(),
            r.fresh(size as nat),
    ;
}

/// Allocators of fixed-size elements.
pub trait TypedAllocator: Allocator {
    /// Whether a pool of these parameters can be built.
    spec fn buildable(element_size: nat, element_count: nat, element_alignment: nat, offset: nat) -> bool;

    /// The state of an allocator just built with these parameters.
    spec fn fresh(&self, element_size: nat, element_count: nat, element_alignment: nat, offset: nat) -> bool;

    fn new(element_size: usize, element_count: usize, element_alignment: usize, offset: usize) -> (r: Self)
        requires
            Self::buildable(element_size as nat, element_count as nat, element_alignment as nat, offset as nat),
        ensures
            r.inv(),
            r.fresh(element_size as nat, element_count as nat, element_alignment as nat, offset as nat),
            forall|s: nat, a: nat| s <= element_size && a <= element_alignment ==> #[trigger] r.admits(s, a),
            r.honours_offset(offset as nat),
    ;
}

} // verus!
