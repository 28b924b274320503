use vstd::prelude::*;
use crate::base::{as_block, Allocator, MemoryBlock, TypedAllocator};
use crate::freelist::{links_apart, next_of, FreeList, LINK_SIZE};
use crate::math_util::{next_multiple, round_to_next_multiple};
use crate::pointer_util::{align_top, aligned_up, is_pow2, lemma_pow2_divides};
use crate::virtual_mem::{put_u32, put_u64, reserve_committed, MemView, VirtualMemory, MAX_RESERVATION, RESERVATION_BASE};

verus! {

/// Bytes of the header in front of each block: the size asked for.
pub const POOL_HEADER_SIZE: usize = 4;

/// Size of a block that holds `max_size` bytes and keeps `max_alignment`.
pub open spec fn minimal_block_size(max_size: nat, max_alignment: nat) -> nat {
    if max_size < max_alignment {
        max_alignment
    } else {
        next_multiple(max_size, max_alignment)
    }
}

fn calculate_minimal_block_size(max_size: usize, max_alignment: usize) -> (r: usize)
    requires
        max_alignment > 0,
        max_size + max_alignment <= usize::MAX,
    ensures
        r == minimal_block_size(max_size as nat, max_alignment as nat),
        r % max_alignment == 0,
        r >= max_size,
{
    if max_size < max_alignment {
        proof {
            vstd::arithmetic::div_mod::lemma_mod_self_0(max_alignment as int);
        }
        max_alignment
    } else {
        round_to_next_multiple(max_size, max_alignment)
    }
}

/// Two block starts of one stride are a whole stride apart.
proof fn lemma_blocks_apart(first: nat, stride: nat, x: nat, y: nat)
    requires
        stride > 0,
        first <= x,
        first <= y,
        (x - first) % (stride as int) == 0,
        (y - first) % (stride as int) == 0,
        x != y,
    ensures
        x + stride <= y || y + stride <= x,
{
    let kx = (x - first) / (stride as int);
    let ky = (y - first) / (stride as int);
    vstd::arithmetic::div_mod::lemma_fundamental_div_mod((x - first) as int, stride as int);
    vstd::arithmetic::div_mod::lemma_fundamental_div_mod((y - first) as int, stride as int);
    assert(x + stride <= y || y + stride <= x) by (nonlinear_arith)
        requires
            x - first == stride * kx,
            y - first == stride * ky,
            x != y,
            stride > 0,
    ;
}

/// A multiple of a multiple of `a` is a multiple of `a`.
proof fn lemma_mod_transitive(v: int, m: int, a: int)
    requires
        a > 0,
        m > 0,
        v >= 0,
        v % m == 0,
        m % a == 0,
    ensures
        v % a == 0,
{
    let q = v / m;
    let r = m / a;
    vstd::arithmetic::div_mod::lemma_fundamental_div_mod(v, m);
    vstd::arithmetic::div_mod::lemma_fundamental_div_mod(m, a);
    assert(v == (r * q) * a) by (nonlinear_arith)
        requires
            v == m * q,
            m == a * r,
    ;
    vstd::arithmetic::div_mod::lemma_mod_multiples_basic(r * q, a);
}

/// Block `k` of a pool keeps the pool's alignment.
proof fn lemma_block_aligned(first: int, stride: int, k: int, tail: int, m: int)
    requires
        m > 0,
        k >= 0,
        stride >= 0,
        first + tail >= 0,
        stride % m == 0,
        (first + tail) % m == 0,
    ensures
        (first + stride * k + tail) % m == 0,
{
    let j = stride / m;
    let t = (first + tail) / m;
    vstd::arithmetic::div_mod::lemma_fundamental_div_mod(stride, m);
    vstd::arithmetic::div_mod::lemma_fundamental_div_mod(first + tail, m);
    assert(first + stride * k + tail == (t + j * k) * m) by (nonlinear_arith)
        requires
            stride == m * j,
            first + tail == m * t,
    ;
    vstd::arithmetic::div_mod::lemma_mod_multiples_basic(t + j * k, m);
}

/// Facts about the `k`-th block start of a run of `count` blocks.
proof fn lemma_kth_block(first: int, stride: int, k: int, count: int, end: int)
    requires
        stride > 0,
        0 <= k < count,
        end >= first,
        count == (end - first) / stride,
    ensures
        (first + k * stride - first) % stride == 0,
        first + k * stride + stride <= end,
        first <= first + k * stride,
{
    vstd::arithmetic::div_mod::lemma_mod_multiples_basic(k, stride);
    vstd::arithmetic::div_mod::lemma_fundamental_div_mod(end - first, stride);
    assert(k * stride + stride <= count * stride) by (nonlinear_arith)
        requires
            k < count,
            stride > 0,
    ;
    assert(count * stride <= end - first) by (nonlinear_arith)
        requires
            end - first == stride * count + (end - first) % stride,
            (end - first) % stride >= 0,
    ;
    assert(0 <= k * stride) by (nonlinear_arith)
        requires
            k >= 0,
            stride > 0,
    ;
}

/// Abstract state of a pool allocator.
pub struct PoolView {
    pub mem: MemView,
    pub end: nat,
    pub first: nat,
    pub block_size: nat,
    pub element_count: nat,
    pub max_size: nat,
    pub max_alignment: nat,
    pub offset: nat,
    /// Free blocks, the one handed out next first.
    pub free: Seq<nat>,
}

impl PoolView {
    /// Number of blocks between the first block and the end.
    pub open spec fn block_count(self) -> nat {
        ((self.end - self.first) / (self.block_size as int)) as nat
    }

    /// `b` is the start of one of the pool's blocks.
    pub open spec fn is_block(self, b: nat) -> bool {
        &&& self.first <= b
        &&& (b - self.first) % (self.block_size as int) == 0
        &&& b + self.block_size <= self.end
    }

    /// Number of blocks handed out and not yet handed back.
    pub open spec fn live_count(self) -> int {
        self.block_count() - self.free.len()
    }

    pub open spec fn wf(self) -> bool {
        &&& self.mem.wf()
        &&& self.mem.base <= self.first <= self.end
        &&& self.end <= self.mem.committed_end()
        &&& self.end <= self.mem.base + MAX_RESERVATION
        &&& self.block_size >= LINK_SIZE
        &&& is_pow2(self.max_alignment)
        &&& self.block_size % self.max_alignment == 0
        &&& (self.first + self.offset + POOL_HEADER_SIZE) % (self.max_alignment as int) == 0
        &&& self.max_size + POOL_HEADER_SIZE <= self.block_size
        &&& self.element_count <= self.block_count()
        &&& forall|i: int| 0 <= i < self.free.len() ==> self.is_block(#[trigger] self.free[i])
    }

    /// Outcome of an allocation: the first free block is taken and its
    /// header records `size`.
    pub open spec fn alloc_step(self, size: nat) -> (PoolView, Option<nat>) {
        if self.free.len() == 0 {
            (self, None)
        } else {
            let b = self.free[0];
            (
                PoolView {
                    mem: MemView { bytes: put_u32(self.mem.bytes, b - self.mem.base, size), ..self.mem },
                    free: self.free.drop_first(),
                    ..self
                },
                Some((b + POOL_HEADER_SIZE) as nat),
            )
        }
    }

    /// Whether `p` may be handed back: it is the user pointer of a block
    /// that is not free.
    pub open spec fn may_dealloc(self, p: nat) -> bool {
        &&& p >= POOL_HEADER_SIZE
        &&& self.is_block((p - POOL_HEADER_SIZE) as nat)
        &&& forall|i: int| 0 <= i < self.free.len() ==> #[trigger] self.free[i] != p - POOL_HEADER_SIZE
    }

    /// Outcome of handing back `p`: its block becomes the first free one.
    pub open spec fn dealloc_step(self, p: nat) -> PoolView {
        let b = (p - POOL_HEADER_SIZE) as nat;
        let free = seq![b] + self.free;
        PoolView { mem: MemView { bytes: put_u64(self.mem.bytes, b - self.mem.base, next_of(free, 0)), ..self.mem }, free, ..self }
    }

    /// Every block, lowest address first.
    pub open spec fn all_blocks(self) -> Seq<nat> {
        Seq::new(self.block_count(), |k: int| (self.first + k * self.block_size) as nat)
    }

    /// `[addr, addr + len)` keeps clear of the links of free blocks.
    pub open spec fn writable(self, addr: nat, len: nat) -> bool {
        forall|i: int| 0 <= i < self.free.len() ==> (#[trigger] self.free[i]) + LINK_SIZE <= addr || addr + len <= self.free[i]
    }
}

/// The block an allocation takes lies wholly in the pool's range, and its
/// user pointer plus the pool's offset is a multiple of the largest
/// alignment.
pub proof fn lemma_pool_alloc_placement(s: PoolView, size: nat)
    requires
        s.wf(),
        s.alloc_step(size).1 is Some,
    ensures
        ({
            let p = s.alloc_step(size).1.unwrap();
            &&& (p + s.offset) % s.max_alignment == 0
            &&& s.mem.base <= p - POOL_HEADER_SIZE
            &&& p - POOL_HEADER_SIZE + s.block_size <= s.end
        }),
{
    let b = s.free[0];
    assert(s.is_block(b));
    let k = (b - s.first) / (s.block_size as int);
    vstd::arithmetic::div_mod::lemma_fundamental_div_mod((b - s.first) as int, s.block_size as int);
    lemma_block_aligned(s.first as int, s.block_size as int, k, (s.offset + POOL_HEADER_SIZE) as int, s.max_alignment as int);
}

/// While fewer blocks are live than the pool was built for, an allocation
/// succeeds.
pub proof fn lemma_pool_reuse(s: PoolView, size: nat)
    requires
        s.wf(),
        s.live_count() < s.element_count,
    ensures
        s.alloc_step(size).1 is Some,
{
}

/// Fixed-size blocks threaded on a free list; allocation and release take
/// constant time.
pub struct PoolAllocator {
    mem: VirtualMemory,
    end: usize,
    first: usize,
    block_size: usize,
    element_count: usize,
    max_size: usize,
    max_alignment: usize,
    offset: usize,
    free_list: FreeList,
}

impl View for PoolAllocator {
    type V = PoolView;

    closed spec fn view(&self) -> PoolView {
        PoolView {
            mem: self.mem@,
            end: self.end as nat,
            first: self.first as nat,
            block_size: self.block_size as nat,
            element_count: self.element_count as nat,
            max_size: self.max_size as nat,
            max_alignment: self.max_alignment as nat,
            offset: self.offset as nat,
            free: self.free_list@,
        }
    }
}

impl PoolAllocator {
    /// The view is well formed and the free list threads the free blocks.
    pub closed spec fn inner_wf(&self) -> bool {
        self@.wf() && self.free_list.wf(self.mem@)
    }

    /// A pool of at least `element_count` blocks, each holding up to
    /// `max_element_size` bytes whose address plus `offset` is a multiple
    /// of `max_element_alignment`.
    pub fn new(max_element_size: usize, element_count: usize, max_element_alignment: usize, offset: usize) -> (r: PoolAllocator)
        requires
            <PoolAllocator as TypedAllocator>::buildable(max_element_size as nat, element_count as nat, max_element_alignment as nat, offset as nat),
        ensures
            r.inv(),
            r@.element_count == element_count,
            r@.max_size == max_element_size,
            r@.max_alignment == max_element_alignment,
            r@.offset == offset,
            r@.block_size == minimal_block_size((max_element_size + POOL_HEADER_SIZE) as nat, max_element_alignment as nat),
            r@.free == r@.all_blocks(),
            element_count <= r@.block_count(),
            r@.mem.base == RESERVATION_BASE,
            r@.first == aligned_up((RESERVATION_BASE + offset + POOL_HEADER_SIZE) as nat, max_element_alignment as nat)
                - offset - POOL_HEADER_SIZE,
            r@.end == RESERVATION_BASE + element_count * r@.block_size + max_element_alignment,
    {
        let block_size = calculate_minimal_block_size(max_element_size + POOL_HEADER_SIZE, max_element_alignment);
        let required: usize = element_count * block_size + max_element_alignment;
        let mut mem = reserve_committed(required);
        let base = mem.base_address();
        let x: usize = base + offset + POOL_HEADER_SIZE;
        let aligned = align_top(x, max_element_alignment);
        let first: usize = aligned - offset - POOL_HEADER_SIZE;
        let end: usize = base + required;
        proof {
            assert(element_count <= (end - first) / (block_size as int)) by (nonlinear_arith)
                requires
                    end - first > element_count * block_size,
                    block_size > 0,
            ;
        }
        let free_list = FreeList::new_from(&mut mem, first, end, block_size);
        let r = PoolAllocator {
            mem,
            end,
            first,
            block_size,
            element_count,
            max_size: max_element_size,
            max_alignment: max_element_alignment,
            offset,
            free_list,
        };
        proof {
            assert forall|i: int| 0 <= i < r@.free.len() implies r@.is_block(#[trigger] r@.free[i]) by {
                lemma_kth_block(first as int, block_size as int, i, r@.block_count() as int, end as int);
            }
            assert(r@.free =~= r@.all_blocks());
        }
        r
    }

    /// What the invariant says of the view: blocks are aligned and lie in
    /// the committed range, and the free ones are blocks of the pool.
    pub proof fn lemma_inv(&self)
        requires
            self.inv(),
        ensures
            self@.wf(),
    {
    }

    /// Number of blocks that are free.
    pub fn free_count_is_zero(&self) -> (r: bool)
        requires
            self.inv(),
        ensures
            r == (self@.free.len() == 0),
    {
        self.free_list.is_empty()
    }
}

impl TypedAllocator for PoolAllocator {
    open spec fn buildable(element_size: nat, element_count: nat, element_alignment: nat, offset: nat) -> bool {
        &&& is_pow2(element_alignment)
        &&& element_size + POOL_HEADER_SIZE + element_alignment <= MAX_RESERVATION
        &&& offset <= MAX_RESERVATION
        &&& minimal_block_size((element_size + POOL_HEADER_SIZE) as nat, element_alignment) >= LINK_SIZE
        &&& element_count * minimal_block_size((element_size + POOL_HEADER_SIZE) as nat, element_alignment) + element_alignment
            <= MAX_RESERVATION
    }

    open spec fn fresh(&self, element_size: nat, element_count: nat, element_alignment: nat, offset: nat) -> bool {
        &&& self@.element_count == element_count
        &&& self@.max_size == element_size
        &&& self@.max_alignment == element_alignment
        &&& self@.offset == offset
        &&& self@.block_size == minimal_block_size((element_size + POOL_HEADER_SIZE) as nat, element_alignment)
        &&& self@.free == self@.all_blocks()
        &&& element_count <= self@.block_count()
        &&& self@.mem.base == RESERVATION_BASE
        &&& self@.first == aligned_up((RESERVATION_BASE + offset + POOL_HEADER_SIZE) as nat, element_alignment) - offset
            - POOL_HEADER_SIZE
        &&& self@.end == RESERVATION_BASE + element_count * self@.block_size + element_alignment
    }

    fn new(element_size: usize, element_count: usize, element_alignment: usize, offset: usize) -> (r: PoolAllocator) {
        PoolAllocator::new(element_size, element_count, element_alignment, offset)
    }
}

impl Allocator for PoolAllocator {
    open spec fn inv(&self) -> bool {
        self.inner_wf()
    }

    open spec fn mem(&self) -> MemView {
        self@.mem
    }

    open spec fn admits(&self, size: nat, alignment: nat) -> bool {
        size <= self@.max_size && alignment <= self@.max_alignment
    }

    open spec fn honours_offset(&self, offset: nat) -> bool {
        offset == self@.offset
    }

    open spec fn header_readable(&self, p: nat) -> bool {
        self@.mem.base + POOL_HEADER_SIZE <= p <= self@.mem.committed_end()
    }

    open spec fn recorded_size(&self, p: nat) -> nat {
        self@.mem.u32_at((p - POOL_HEADER_SIZE) as nat)
    }

    open spec fn writable(&self, addr: nat, len: nat) -> bool {
        self@.writable(addr, len)
    }

    open spec fn header_span() -> nat {
        4
    }

    open spec fn may_dealloc(&self, p: nat) -> bool {
        self@.may_dealloc(p)
    }

    proof fn lemma_inv_mem(&self) {
    }

    proof fn lemma_with_bytes_refl(&self) {
    }

    proof fn lemma_with_bytes_trans(&self, mid: &Self, last: &Self, first_bytes: Seq<u8>, last_bytes: Seq<u8>) {
    }

    proof fn lemma_writable_part(&self, addr: nat, len: nat, part: nat, part_len: nat) {
    }

    open spec fn alloc_result(&self, size: nat, alignment: nat, offset: nat) -> Option<nat> {
        self@.alloc_step(size).1
    }

    open spec fn alloc_post(&self, next: &Self, size: nat, alignment: nat, offset: nat, r: Option<MemoryBlock>) -> bool {
        next@ == self@.alloc_step(size).0 && r == as_block(self@.alloc_step(size).1)
    }

    open spec fn dealloc_post(&self, next: &Self, p: nat) -> bool {
        next@ == self@.dealloc_step(p)
    }

    open spec fn reset_post(&self, next: &Self) -> bool {
        &&& next@.free == self@.all_blocks()
        &&& next@ == (PoolView { mem: next@.mem, free: next@.free, ..self@ })
        &&& next@.mem.base == self@.mem.base
        &&& next@.mem.bytes.len() == self@.mem.bytes.len()
    }

    open spec fn with_bytes(&self, next: &Self, bytes: Seq<u8>) -> bool {
        next@ == (PoolView { mem: MemView { bytes, ..self@.mem }, ..self@ })
    }

    #[verifier::rlimit(60)]
    fn alloc_raw(&mut self, size: usize, alignment: usize, offset: usize) -> (r: Option<MemoryBlock>) {
        let ghost s = self@;
        proof {
            self.free_list.lemma_wf_facts(self.mem@);
        }
        let block = self.free_list.get_block(&self.mem);
        if block == 0 {
            proof {
                if s.free.len() > 0 {
                    assert(s.free[0] > 0);
                }
            }
            return None;
        }
        let ghost rest = self.free_list@;
        proof {
            crate::virtual_mem::lemma_put_u32(self.mem@.bytes, block - s.mem.base, size as nat);
            assert forall|i: int| 0 <= i < rest.len() implies block + s.block_size <= #[trigger] rest[i]
                || rest[i] + s.block_size <= block by {
                assert(rest[i] == s.free[i + 1]);
                assert(links_apart(s.free[0], s.free[i + 1]));
                lemma_blocks_apart(s.first, s.block_size, block as nat, rest[i]);
            }
        }
        self.mem.write_u32(block, size as u32);
        proof {
            let fl = self.free_list@;
            assert(fl == rest);
            assert forall|i: int, d: int| 0 <= i < fl.len() && 0 <= d < LINK_SIZE implies
                #[trigger] self.mem@.bytes[fl[i] + d - s.mem.base] == s.mem.bytes[fl[i] + d - s.mem.base] by {
                assert(block + s.block_size <= rest[i] || rest[i] + s.block_size <= block);
            }
            self.free_list.lemma_wf_frame(s.mem, self.mem@);
            let k = (block - s.first) / (s.block_size as int);
            vstd::arithmetic::div_mod::lemma_fundamental_div_mod((block - s.first) as int, s.block_size as int);
            lemma_block_aligned(s.first as int, s.block_size as int, k, (s.offset + POOL_HEADER_SIZE) as int, s.max_alignment as int);
            if offset == s.offset {
                lemma_pow2_divides(alignment as nat, s.max_alignment);
                lemma_mod_transitive((block + POOL_HEADER_SIZE + offset) as int, s.max_alignment as int, alignment as int);
            }
        }
        Some(MemoryBlock { ptr: block + POOL_HEADER_SIZE })
    }

    #[verifier::rlimit(40)]
    fn dealloc_raw(&mut self, memory: MemoryBlock) {
        let ghost s = self@;
        let block = memory.ptr - POOL_HEADER_SIZE;
        proof {
            self.free_list.lemma_wf_facts(self.mem@);
            assert forall|i: int| 0 <= i < s.free.len() implies links_apart(#[trigger] s.free[i], block as nat) by {
                lemma_blocks_apart(s.first, s.block_size, block as nat, s.free[i]);
            }
        }
        self.free_list.return_block(&mut self.mem, block);
    }

    fn reset(&mut self) {
        self.free_list = FreeList::new_from(&mut self.mem, self.first, self.end, self.block_size);
        proof {
            let s = self@;
            assert forall|i: int| 0 <= i < s.free.len() implies s.is_block(#[trigger] s.free[i]) by {
                lemma_kth_block(s.first as int, s.block_size as int, i, s.block_count() as int, s.end as int);
            }
            assert(s.free =~= s.all_blocks());
        }
    }

    fn get_allocation_size(&self, memory: &MemoryBlock) -> (r: usize) {
        self.mem.read_u32(memory.ptr - POOL_HEADER_SIZE) as usize
    }

    fn read_u8(&self, addr: usize) -> (r: u8) {
        self.mem.read_u8(addr)
    }

    fn write_u8(&mut self, addr: usize, v: u8) {
        let ghost m = self.mem@;
        proof {
            self.free_list.lemma_wf_facts(m);
        }
        self.mem.write_u8(addr, v);
        proof {
            let fl = self.free_list@;
            assert forall|i: int, d: int| 0 <= i < fl.len() && 0 <= d < LINK_SIZE implies
                #[trigger] self.mem@.bytes[fl[i] + d - m.base] == m.bytes[fl[i] + d - m.base] by {
                assert(old(self)@.writable(addr as nat, 1));
                assert(old(self)@.free[i] == fl[i]);
                assert(fl[i] + LINK_SIZE <= addr || addr + 1 <= fl[i]);
            }
            self.free_list.lemma_wf_frame(m, self.mem@);
            assert(self@.free == old(self)@.free);
            assert forall|a: nat, l: nat| #[trigger] self.writable(a, l) == old(self).writable(a, l) by {}
            assert forall|p: nat| old(self).header_readable(p) && (addr + 1 <= p - 4 || p <= addr) implies {
                &&& #[trigger] self.may_dealloc(p) == old(self).may_dealloc(p)
                &&& self.header_readable(p) == old(self).header_readable(p)
                &&& self.recorded_size(p) == old(self).recorded_size(p)
            } by {
                let i = p - 4 - m.base;
                assert forall|j: int| i <= j < i + 4 implies #[trigger] self@.mem.bytes[j] == m.bytes[j] by {}
                crate::virtual_mem::lemma_u32_same(self@.mem.bytes, m.bytes, i);
            }
        }
    }

    fn read_u32(&self, addr: usize) -> (r: u32) {
        self.mem.read_u32(addr)
    }

    fn write_u32(&mut self, addr: usize, v: u32) {
        let ghost m = self.mem@;
        proof {
            crate::virtual_mem::lemma_put_u32(m.bytes, addr - m.base, v as nat);
            self.free_list.lemma_wf_facts(m);
        }
        self.mem.write_u32(addr, v);
        proof {
            let fl = self.free_list@;
            assert forall|i: int, d: int| 0 <= i < fl.len() && 0 <= d < LINK_SIZE implies
                #[trigger] self.mem@.bytes[fl[i] + d - m.base] == m.bytes[fl[i] + d - m.base] by {
                assert(old(self)@.writable(addr as nat, 4));
                assert(old(self)@.free[i] == fl[i]);
                assert(fl[i] + LINK_SIZE <= addr || addr + 4 <= fl[i]);
            }
            self.free_list.lemma_wf_frame(m, self.mem@);
            assert(self@.free == old(self)@.free);
            assert forall|a: nat, l: nat| #[trigger] self.writable(a, l) == old(self).writable(a, l) by {}
            assert forall|p: nat| old(self).header_readable(p) && (addr + 4 <= p - 4 || p <= addr) implies {
                &&& #[trigger] self.may_dealloc(p) == old(self).may_dealloc(p)
                &&& self.header_readable(p) == old(self).header_readable(p)
                &&& self.recorded_size(p) == old(self).recorded_size(p)
            } by {
                let i = p - 4 - m.base;
                assert forall|j: int| i <= j < i + 4 implies #[trigger] self@.mem.bytes[j] == m.bytes[j] by {}
                crate::virtual_mem::lemma_u32_same(self@.mem.bytes, m.bytes, i);
            }
        }
    }
}

} // verus!
