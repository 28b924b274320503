use vstd::prelude::*;
use crate::base::{as_block, Allocator, BasicAllocator, MemoryBlock, TypedAllocator};
use crate::bounds_checker::BoundsChecker;
use crate::pointer_util::is_pow2;
use crate::virtual_mem::{put_u32, u32_at, MemView, MAX_RESERVATION};

verus! {

/// A sentinel that was found overwritten when its block was handed back.
#[derive(Clone, Copy, Debug, PartialEq, Eq, Structural)]
pub enum BoundsViolation {
    FrontCanary,
    BackCanary,
}

/// What handing back the block at allocator pointer `p` reports, in `mem`,
/// when the allocator recorded `recorded` bytes for it and sentinels of
/// `canary_size` bytes hold `canary`: the front sentinel sits at `p`, the
/// back one right after the user's bytes.
pub open spec fn canary_check(mem: MemView, p: nat, recorded: nat, canary_size: nat, canary: u32) -> Result<(), BoundsViolation> {
    if canary_size > 0 && mem.u32_at(p) != canary {
        Err(BoundsViolation::FrontCanary)
    } else if canary_size > 0 && mem.u32_at((p + recorded - canary_size) as nat) != canary {
        Err(BoundsViolation::BackCanary)
    } else {
        Ok(())
    }
}

/// A changed byte changes the 32-bit word that holds it.
proof fn lemma_byte_changes_word(s: Seq<u8>, i: int, j: int, v: u8)
    requires
        0 <= i,
        i + 4 <= s.len(),
        i <= j < i + 4,
        s[j] != v,
    ensures
        u32_at(s.update(j, v), i) != u32_at(s, i),
{
    let t = s.update(j, v);
    assert(t[j] == v);
    if j == i {
        assert(t[i + 1] == s[i + 1] && t[i + 2] == s[i + 2] && t[i + 3] == s[i + 3]);
    } else if j == i + 1 {
        assert(t[i] == s[i] && t[i + 2] == s[i + 2] && t[i + 3] == s[i + 3]);
    } else if j == i + 2 {
        assert(t[i] == s[i] && t[i + 1] == s[i + 1] && t[i + 3] == s[i + 3]);
    } else {
        assert(t[i] == s[i] && t[i + 1] == s[i + 1] && t[i + 2] == s[i + 2]);
    }
}

/// Overwriting any byte of either sentinel of a block whose sentinels are
/// intact makes handing it back report a violation.
pub proof fn lemma_canary_detects_stomp(mem: MemView, p: nat, recorded: nat, canary: u32, addr: nat, v: u8)
    requires
        recorded >= 8,
        mem.in_committed(p, recorded),
        canary_check(mem, p, recorded, 4, canary) == Ok::<(), BoundsViolation>(()),
        p <= addr < p + 4 || p + recorded - 4 <= addr < p + recorded,
        mem.byte_at(addr) != v,
    ensures
        canary_check(MemView { bytes: mem.bytes.update(addr - mem.base, v), ..mem }, p, recorded, 4, canary) is Err,
{
    let m2 = MemView { bytes: mem.bytes.update(addr - mem.base, v), ..mem };
    if addr < p + 4 {
        lemma_byte_changes_word(mem.bytes, p - mem.base, addr - mem.base, v);
    } else {
        lemma_byte_changes_word(mem.bytes, p + recorded - 4 - mem.base, addr - mem.base, v);
        let i = p - mem.base;
        assert(m2.bytes[i] == mem.bytes[i] && m2.bytes[i + 1] == mem.bytes[i + 1]);
        assert(m2.bytes[i + 2] == mem.bytes[i + 2] && m2.bytes[i + 3] == mem.bytes[i + 3]);
    }
}

/// A byte stored between the sentinels reads back as stored and leaves the
/// outcome of the sentinel check as it was.
pub proof fn lemma_user_write_round_trip(mem: MemView, p: nat, recorded: nat, canary_size: nat, canary: u32, addr: nat, v: u8)
    requires
        recorded >= 2 * canary_size,
        canary_size == 0 || canary_size == 4,
        mem.in_committed(p, recorded),
        p + canary_size <= addr < p + recorded - canary_size,
    ensures
        (MemView { bytes: mem.bytes.update(addr - mem.base, v), ..mem }).byte_at(addr) == v,
        canary_check(MemView { bytes: mem.bytes.update(addr - mem.base, v), ..mem }, p, recorded, canary_size, canary)
            == canary_check(mem, p, recorded, canary_size, canary),
{
    let m2 = MemView { bytes: mem.bytes.update(addr - mem.base, v), ..mem };
    if canary_size > 0 {
        let i = p - mem.base;
        let k = p + recorded - canary_size - mem.base;
        assert(m2.bytes[i] == mem.bytes[i] && m2.bytes[i + 1] == mem.bytes[i + 1]);
        assert(m2.bytes[i + 2] == mem.bytes[i + 2] && m2.bytes[i + 3] == mem.bytes[i + 3]);
        assert(m2.bytes[k] == mem.bytes[k] && m2.bytes[k + 1] == mem.bytes[k + 1]);
        assert(m2.bytes[k + 2] == mem.bytes[k + 2] && m2.bytes[k + 3] == mem.bytes[k + 3]);
    }
}

/// Bytes of a block of `size` user bytes with sentinels of `canary_size`
/// bytes on both sides.
pub open spec fn padded(size: nat, canary_size: nat) -> nat {
    size + 2 * canary_size
}

/// Asks `allocator` for `size` bytes with sentinels on both sides, and
/// writes the sentinels; the block handed back starts after the front one.
fn realm_alloc<A: Allocator, B: BoundsChecker>(allocator: &mut A, checker: &B, size: usize, alignment: usize) -> (r: Option<MemoryBlock>)
    requires
        old(allocator).inv(),
        size > 0,
        is_pow2(alignment as nat),
        padded(size as nat, B::spec_canary_size()) <= MAX_RESERVATION,
        old(allocator).admits(padded(size as nat, B::spec_canary_size()), alignment as nat),
    ensures
        final(allocator).inv(),
        final(allocator).mem().base == old(allocator).mem().base,
        r is None <==> old(allocator).alloc_result(padded(size as nat, B::spec_canary_size()), alignment as nat, B::spec_canary_size()) is None,
        r is None ==> final(allocator).mem() == old(allocator).mem(),
        forall|s: nat, a: nat| #[trigger] final(allocator).admits(s, a) == old(allocator).admits(s, a),
        forall|o: nat| #[trigger] final(allocator).honours_offset(o) == old(allocator).honours_offset(o),
        exists|mid: A|
            #[trigger] old(allocator).alloc_post(
                &mid,
                padded(size as nat, B::spec_canary_size()),
                alignment as nat,
                B::spec_canary_size(),
                as_block(old(allocator).alloc_result(padded(size as nat, B::spec_canary_size()), alignment as nat, B::spec_canary_size())),
            ) && mid.with_bytes(final(allocator), final(allocator).mem().bytes),
        r matches Some(b) ==> {
            let c = B::spec_canary_size();
            let p = old(allocator).alloc_result(padded(size as nat, c), alignment as nat, c).unwrap();
            &&& b.ptr == p + c
            &&& old(allocator).honours_offset(c) ==> (b.ptr as int) % (alignment as int) == 0
            &&& final(allocator).mem().in_committed(p, padded(size as nat, c))
            &&& final(allocator).writable(p, padded(size as nat, c))
            &&& c > 0 ==> final(allocator).mem().u32_at(p) == B::spec_canary()
            &&& c > 0 ==> final(allocator).mem().u32_at((b.ptr + size) as nat) == B::spec_canary()
            &&& final(allocator).may_dealloc(p)
            &&& final(allocator).header_readable(p)
            &&& final(allocator).recorded_size(p) == padded(size as nat, c)
            &&& final(allocator).mem().bytes.len() == old(allocator).mem().bytes.len()
            &&& forall|i: int| b.ptr - final(allocator).mem().base <= i < b.ptr + size - final(allocator).mem().base
                ==> #[trigger] final(allocator).mem().bytes[i] == old(allocator).mem().bytes[i]
        },
{
    let c = checker.get_canary_size() as usize;
    proof {
        allocator.lemma_inv_mem();
    }
    let block = allocator.alloc_raw(size + 2 * c, alignment, c);
    let ghost mid = *allocator;
    proof {
        mid.lemma_with_bytes_refl();
    }
    match block {
        None => None,
        Some(b) => {
            let p = b.ptr;
            if c > 0 {
                let ghost m0 = allocator.mem();
                let canary = checker.get_canary();
                proof {
                    crate::virtual_mem::lemma_put_u32(m0.bytes, p - m0.base, canary as nat);
                    allocator.lemma_inv_mem();
                    allocator.lemma_writable_part(p as nat, padded(size as nat, c as nat), p as nat, 4);
                    allocator.lemma_writable_part(p as nat, padded(size as nat, c as nat), (p + c + size) as nat, 4);
                }
                let ghost a0 = *allocator;
                allocator.write_u32(p, canary);
                proof {
                    assert(allocator.may_dealloc(p as nat) == a0.may_dealloc(p as nat));
                }
                let ghost a1 = *allocator;
                let ghost m1 = allocator.mem();
                proof {
                    crate::virtual_mem::lemma_put_u32(m1.bytes, p + c + size - m1.base, canary as nat);
                }
                allocator.write_u32(p + c + size, canary);
                proof {
                    assert(allocator.may_dealloc(p as nat) == a1.may_dealloc(p as nat));
                    mid.lemma_with_bytes_trans(&a1, allocator, a1.mem().bytes, allocator.mem().bytes);
                    let m2 = allocator.mem();
                    let q = p - m0.base;
                    assert(m2.bytes[q] == m1.bytes[q]);
                    assert(m2.bytes[q + 1] == m1.bytes[q + 1]);
                    assert(m2.bytes[q + 2] == m1.bytes[q + 2]);
                    assert(m2.bytes[q + 3] == m1.bytes[q + 3]);
                    assert(u32_at(m2.bytes, q) == u32_at(m1.bytes, q));
                }
            }
            Some(MemoryBlock { ptr: p + c })
        },
    }
}

/// Checks the sentinels of `block`, then hands it back to `allocator`.
fn realm_dealloc<A: Allocator, B: BoundsChecker>(allocator: &mut A, checker: &B, block: MemoryBlock) -> (r: Result<(), BoundsViolation>)
    requires
        old(allocator).inv(),
        block.ptr >= B::spec_canary_size(),
        old(allocator).may_dealloc((block.ptr - B::spec_canary_size()) as nat),
        old(allocator).header_readable((block.ptr - B::spec_canary_size()) as nat),
        B::spec_canary_size() > 0 ==> {
            let p = (block.ptr - B::spec_canary_size()) as nat;
            let rec = old(allocator).recorded_size(p);
            &&& old(allocator).mem().in_committed(p, 4)
            &&& rec >= B::spec_canary_size()
            &&& old(allocator).mem().in_committed((p + rec - B::spec_canary_size()) as nat, 4)
        },
    ensures
        final(allocator).inv(),
        old(allocator).dealloc_post(final(allocator), (block.ptr - B::spec_canary_size()) as nat),
        forall|s: nat, a: nat| #[trigger] final(allocator).admits(s, a) == old(allocator).admits(s, a),
        forall|o: nat| #[trigger] final(allocator).honours_offset(o) == old(allocator).honours_offset(o),
        r == canary_check(
            old(allocator).mem(),
            (block.ptr - B::spec_canary_size()) as nat,
            old(allocator).recorded_size((block.ptr - B::spec_canary_size()) as nat),
            B::spec_canary_size(),
            B::spec_canary(),
        ),
{
    let c = checker.get_canary_size() as usize;
    let p = block.ptr - c;
    let allocated = MemoryBlock { ptr: p };
    let mut result: Result<(), BoundsViolation> = Ok(());
    proof {
        allocator.lemma_inv_mem();
    }
    if c > 0 {
        let recorded = allocator.get_allocation_size(&allocated);
        let front = allocator.read_u32(p);
        let back = allocator.read_u32(p + (recorded - c));
        if !checker.validate_front_canary(front) {
            result = Err(BoundsViolation::FrontCanary);
        } else if !checker.validate_back_canary(back) {
            result = Err(BoundsViolation::BackCanary);
        }
    }
    allocator.dealloc_raw(allocated);
    result
}

/// An allocator of any block size composed with a bounds-checking policy.
pub struct BasicMemoryRealm<A, B> {
    allocator: A,
    bounds_checker: B,
}

impl<A: BasicAllocator, B: BoundsChecker> BasicMemoryRealm<A, B> {
    /// The allocator inside the realm.
    pub closed spec fn allocator_view(&self) -> A {
        self.allocator
    }

    /// A realm over `size` fresh bytes.
    pub fn new(size: usize) -> (r: Self)
        requires
            0 < size <= MAX_RESERVATION,
        ensures
            r.allocator_view().inv(),
            r.allocator_view().fresh(size as nat),
    {
        BasicMemoryRealm { allocator: A::new(size), bounds_checker: B::new() }
    }

    /// Hands out `size` bytes, aligned to `alignment`, between two
    /// sentinels.
    pub fn allocate(&mut self, size: usize, alignment: usize) -> (r: Option<MemoryBlock>)
        requires
            old(self).allocator_view().inv(),
            size > 0,
            is_pow2(alignment as nat),
            padded(size as nat, B::spec_canary_size()) <= MAX_RESERVATION,
            old(self).allocator_view().admits(padded(size as nat, B::spec_canary_size()), alignment as nat),
        ensures
            final(self).allocator_view().inv(),
            final(self).allocator_view().mem().base == old(self).allocator_view().mem().base,
            r is None <==> old(self).allocator_view().alloc_result(padded(size as nat, B::spec_canary_size()), alignment as nat, B::spec_canary_size()) is None,
            r is None ==> final(self).allocator_view().mem() == old(self).allocator_view().mem(),
            forall|s: nat, a: nat| #[trigger] final(self).allocator_view().admits(s, a) == old(self).allocator_view().admits(s, a),
            forall|o: nat| #[trigger] final(self).allocator_view().honours_offset(o) == old(self).allocator_view().honours_offset(o),
            exists|mid: A|
                #[trigger] old(self).allocator_view().alloc_post(
                    &mid,
                    padded(size as nat, B::spec_canary_size()),
                    alignment as nat,
                    B::spec_canary_size(),
                    as_block(old(self).allocator_view().alloc_result(padded(size as nat, B::spec_canary_size()), alignment as nat, B::spec_canary_size())),
                ) && mid.with_bytes(&final(self).allocator_view(), final(self).allocator_view().mem().bytes),
            r matches Some(b) ==> {
                let c = B::spec_canary_size();
                let p = old(self).allocator_view().alloc_result(padded(size as nat, c), alignment as nat, c).unwrap();
                &&& b.ptr == p + c
                &&& old(self).allocator_view().honours_offset(c) ==> (b.ptr as int) % (alignment as int) == 0
                &&& final(self).allocator_view().mem().in_committed(p, padded(size as nat, c))
                &&& final(self).allocator_view().writable(p, padded(size as nat, c))
                &&& c > 0 ==> final(self).allocator_view().mem().u32_at(p) == B::spec_canary()
                &&& c > 0 ==> final(self).allocator_view().mem().u32_at((b.ptr + size) as nat) == B::spec_canary()
                &&& final(self).allocator_view().may_dealloc(p)
                &&& final(self).allocator_view().header_readable(p)
                &&& final(self).allocator_view().recorded_size(p) == padded(size as nat, c)
            },
    {
        realm_alloc(&mut self.allocator, &self.bounds_checker, size, alignment)
    }

    /// Checks the sentinels around `mem_block` and hands it back; reports the
    /// first sentinel found overwritten.
    pub fn dealloc(&mut self, mem_block: MemoryBlock) -> (r: Result<(), BoundsViolation>)
        requires
            old(self).allocator_view().inv(),
            mem_block.ptr >= B::spec_canary_size(),
            old(self).allocator_view().may_dealloc((mem_block.ptr - B::spec_canary_size()) as nat),
            old(self).allocator_view().header_readable((mem_block.ptr - B::spec_canary_size()) as nat),
            B::spec_canary_size() > 0 ==> {
                let p = (mem_block.ptr - B::spec_canary_size()) as nat;
                let rec = old(self).allocator_view().recorded_size(p);
                &&& old(self).allocator_view().mem().in_committed(p, 4)
                &&& rec >= B::spec_canary_size()
                &&& old(self).allocator_view().mem().in_committed((p + rec - B::spec_canary_size()) as nat, 4)
            },
        ensures
            final(self).allocator_view().inv(),
            old(self).allocator_view().dealloc_post(&final(self).allocator_view(), (mem_block.ptr - B::spec_canary_size()) as nat),
            forall|s: nat, a: nat| #[trigger] final(self).allocator_view().admits(s, a) == old(self).allocator_view().admits(s, a),
            forall|o: nat| #[trigger] final(self).allocator_view().honours_offset(o) == old(self).allocator_view().honours_offset(o),
            r == canary_check(
                old(self).allocator_view().mem(),
                (mem_block.ptr - B::spec_canary_size()) as nat,
                old(self).allocator_view().recorded_size((mem_block.ptr - B::spec_canary_size()) as nat),
                B::spec_canary_size(),
                B::spec_canary(),
            ),
    {
        realm_dealloc(&mut self.allocator, &self.bounds_checker, mem_block)
    }

    /// Frees every block at once.
    pub fn reset(&mut self)
        requires
            old(self).allocator_view().inv(),
        ensures
            final(self).allocator_view().inv(),
            old(self).allocator_view().reset_post(&final(self).allocator_view()),
            forall|s: nat, a: nat| #[trigger] final(self).allocator_view().admits(s, a) == old(self).allocator_view().admits(s, a),
            forall|o: nat| #[trigger] final(self).allocator_view().honours_offset(o) == old(self).allocator_view().honours_offset(o),
    {
        self.allocator.reset();
    }

    /// Byte at `addr`.
    pub fn read_u8(&self, addr: usize) -> (r: u8)
        requires
            self.allocator_view().inv(),
            self.allocator_view().mem().in_committed(addr as nat, 1),
        ensures
            r == self.allocator_view().mem().byte_at(addr as nat),
    {
        self.allocator.read_u8(addr)
    }

    /// Stores `v` at `addr`.
    pub fn write_u8(&mut self, addr: usize, v: u8)
        requires
            old(self).allocator_view().inv(),
            old(self).allocator_view().mem().in_committed(addr as nat, 1),
            old(self).allocator_view().writable(addr as nat, 1),
        ensures
            final(self).allocator_view().inv(),
            forall|a: nat, l: nat| #[trigger] final(self).allocator_view().writable(a, l) == old(self).allocator_view().writable(a, l),
            forall|p: nat| old(self).allocator_view().header_readable(p) && (addr + 1 <= p - A::header_span() || p <= addr) ==> {
                &&& #[trigger] final(self).allocator_view().may_dealloc(p) == old(self).allocator_view().may_dealloc(p)
                &&& final(self).allocator_view().header_readable(p) == old(self).allocator_view().header_readable(p)
                &&& final(self).allocator_view().recorded_size(p) == old(self).allocator_view().recorded_size(p)
            },
            final(self).allocator_view().mem() == (MemView {
                bytes: old(self).allocator_view().mem().bytes.update(addr - old(self).allocator_view().mem().base, v),
                ..old(self).allocator_view().mem()
            }),
    {
        self.allocator.write_u8(addr, v);
    }

    /// Little-endian 32-bit word at `addr`.
    pub fn read_u32(&self, addr: usize) -> (r: u32)
        requires
            self.allocator_view().inv(),
            self.allocator_view().mem().in_committed(addr as nat, 4),
        ensures
            r == self.allocator_view().mem().u32_at(addr as nat),
    {
        self.allocator.read_u32(addr)
    }

    /// Stores `v` little-endian at `addr`.
    pub fn write_u32(&mut self, addr: usize, v: u32)
        requires
            old(self).allocator_view().inv(),
            old(self).allocator_view().mem().in_committed(addr as nat, 4),
            old(self).allocator_view().writable(addr as nat, 4),
        ensures
            final(self).allocator_view().inv(),
            forall|a: nat, l: nat| #[trigger] final(self).allocator_view().writable(a, l) == old(self).allocator_view().writable(a, l),
            forall|p: nat| old(self).allocator_view().header_readable(p) && (addr + 4 <= p - A::header_span() || p <= addr) ==> {
                &&& #[trigger] final(self).allocator_view().may_dealloc(p) == old(self).allocator_view().may_dealloc(p)
                &&& final(self).allocator_view().header_readable(p) == old(self).allocator_view().header_readable(p)
                &&& final(self).allocator_view().recorded_size(p) == old(self).allocator_view().recorded_size(p)
            },
            final(self).allocator_view().mem() == (MemView {
                bytes: put_u32(old(self).allocator_view().mem().bytes, addr - old(self).allocator_view().mem().base, v as nat),
                ..old(self).allocator_view().mem()
            }),
    {
        self.allocator.write_u32(addr, v);
    }
}

/// A pool of fixed-size elements composed with a bounds-checking policy.
pub struct TypedMemoryRealm<A, B> {
    allocator: A,
    bounds_checker: B,
}

impl<A: TypedAllocator, B: BoundsChecker> TypedMemoryRealm<A, B> {
    /// The allocator inside the realm.
    pub closed spec fn allocator_view(&self) -> A {
        self.allocator
    }

    /// A realm of `element_count` elements of up to `element_size` bytes,
    /// aligned to `element_alignment`; each block also holds the sentinels.
    pub fn new(element_size: usize, element_count: usize, element_alignment: usize) -> (r: Self)
        requires
            padded(element_size as nat, B::spec_canary_size()) <= MAX_RESERVATION,
            A::buildable(
                padded(element_size as nat, B::spec_canary_size()),
                element_count as nat,
                element_alignment as nat,
                B::spec_canary_size(),
            ),
        ensures
            r.allocator_view().inv(),
            forall|s: nat, a: nat| s <= padded(element_size as nat, B::spec_canary_size()) && a <= element_alignment ==> #[trigger] r.allocator_view().admits(s, a),
            r.allocator_view().honours_offset(B::spec_canary_size()),
            r.allocator_view().fresh(
                padded(element_size as nat, B::spec_canary_size()),
                element_count as nat,
                element_alignment as nat,
                B::spec_canary_size(),
            ),
    {
        let bounds_checker = B::new();
        let canary_size = bounds_checker.get_canary_size() as usize;
        TypedMemoryRealm {
            allocator: A::new(element_size + 2 * canary_size, element_count, element_alignment, canary_size),
            bounds_checker,
        }
    }

    /// Hands out `size` bytes, aligned to `alignment`, between two
    /// sentinels.
    pub fn allocate(&mut self, size: usize, alignment: usize) -> (r: Option<MemoryBlock>)
        requires
            old(self).allocator_view().inv(),
            size > 0,
            is_pow2(alignment as nat),
            padded(size as nat, B::spec_canary_size()) <= MAX_RESERVATION,
            old(self).allocator_view().admits(padded(size as nat, B::spec_canary_size()), alignment as nat),
        ensures
            final(self).allocator_view().inv(),
            final(self).allocator_view().mem().base == old(self).allocator_view().mem().base,
            r is None <==> old(self).allocator_view().alloc_result(padded(size as nat, B::spec_canary_size()), alignment as nat, B::spec_canary_size()) is None,
            r is None ==> final(self).allocator_view().mem() == old(self).allocator_view().mem(),
            forall|s: nat, a: nat| #[trigger] final(self).allocator_view().admits(s, a) == old(self).allocator_view().admits(s, a),
            forall|o: nat| #[trigger] final(self).allocator_view().honours_offset(o) == old(self).allocator_view().honours_offset(o),
            exists|mid: A|
                #[trigger] old(self).allocator_view().alloc_post(
                    &mid,
                    padded(size as nat, B::spec_canary_size()),
                    alignment as nat,
                    B::spec_canary_size(),
                    as_block(old(self).allocator_view().alloc_result(padded(size as nat, B::spec_canary_size()), alignment as nat, B::spec_canary_size())),
                ) && mid.with_bytes(&final(self).allocator_view(), final(self).allocator_view().mem().bytes),
            r matches Some(b) ==> {
                let c = B::spec_canary_size();
                let p = old(self).allocator_view().alloc_result(padded(size as nat, c), alignment as nat, c).unwrap();
                &&& b.ptr == p + c
                &&& old(self).allocator_view().honours_offset(c) ==> (b.ptr as int) % (alignment as int) == 0
                &&& final(self).allocator_view().mem().in_committed(p, padded(size as nat, c))
                &&& final(self).allocator_view().writable(p, padded(size as nat, c))
                &&& c > 0 ==> final(self).allocator_view().mem().u32_at(p) == B::spec_canary()
                &&& c > 0 ==> final(self).allocator_view().mem().u32_at((b.ptr + size) as nat) == B::spec_canary()
                &&& final(self).allocator_view().may_dealloc(p)
                &&& final(self).allocator_view().header_readable(p)
                &&& final(self).allocator_view().recorded_size(p) == padded(size as nat, c)
            },
    {
        realm_alloc(&mut self.allocator, &self.bounds_checker, size, alignment)
    }

    /// Checks the sentinels around `mem_block` and hands it back; reports the
    /// first sentinel found overwritten.
    pub fn dealloc(&mut self, mem_block: MemoryBlock) -> (r: Result<(), BoundsViolation>)
        requires
            old(self).allocator_view().inv(),
            mem_block.ptr >= B::spec_canary_size(),
            old(self).allocator_view().may_dealloc((mem_block.ptr - B::spec_canary_size()) as nat),
            old(self).allocator_view().header_readable((mem_block.ptr - B::spec_canary_size()) as nat),
            B::spec_canary_size() > 0 ==> {
                let p = (mem_block.ptr - B::spec_canary_size()) as nat;
                let rec = old(self).allocator_view().recorded_size(p);
                &&& old(self).allocator_view().mem().in_committed(p, 4)
                &&& rec >= B::spec_canary_size()
                &&& old(self).allocator_view().mem().in_committed((p + rec - B::spec_canary_size()) as nat, 4)
            },
        ensures
            final(self).allocator_view().inv(),
            old(self).allocator_view().dealloc_post(&final(self).allocator_view(), (mem_block.ptr - B::spec_canary_size()) as nat),
            forall|s: nat, a: nat| #[trigger] final(self).allocator_view().admits(s, a) == old(self).allocator_view().admits(s, a),
            forall|o: nat| #[trigger] final(self).allocator_view().honours_offset(o) == old(self).allocator_view().honours_offset(o),
            r == canary_check(
                old(self).allocator_view().mem(),
                (mem_block.ptr - B::spec_canary_size()) as nat,
                old(self).allocator_view().recorded_size((mem_block.ptr - B::spec_canary_size()) as nat),
                B::spec_canary_size(),
                B::spec_canary(),
            ),
    {
        realm_dealloc(&mut self.allocator, &self.bounds_checker, mem_block)
    }

    /// Frees every block at once.
    pub fn reset(&mut self)
        requires
            old(self).allocator_view().inv(),
        ensures
            final(self).allocator_view().inv(),
            old(self).allocator_view().reset_post(&final(self).allocator_view()),
            forall|s: nat, a: nat| #[trigger] final(self).allocator_view().admits(s, a) == old(self).allocator_view().admits(s, a),
            forall|o: nat| #[trigger] final(self).allocator_view().honours_offset(o) == old(self).allocator_view().honours_offset(o),
    {
        self.allocator.reset();
    }

    /// Byte at `addr`.
    pub fn read_u8(&self, addr: usize) -> (r: u8)
        requires
            self.allocator_view().inv(),
            self.allocator_view().mem().in_committed(addr as nat, 1),
        ensures
            r == self.allocator_view().mem().byte_at(addr as nat),
    {
        self.allocator.read_u8(addr)
    }

    /// Stores `v` at `addr`.
    pub fn write_u8(&mut self, addr: usize, v: u8)
        requires
            old(self).allocator_view().inv(),
            old(self).allocator_view().mem().in_committed(addr as nat, 1),
            old(self).allocator_view().writable(addr as nat, 1),
        ensures
            final(self).allocator_view().inv(),
            forall|a: nat, l: nat| #[trigger] final(self).allocator_view().writable(a, l) == old(self).allocator_view().writable(a, l),
            forall|p: nat| old(self).allocator_view().header_readable(p) && (addr + 1 <= p - A::header_span() || p <= addr) ==> {
                &&& #[trigger] final(self).allocator_view().may_dealloc(p) == old(self).allocator_view().may_dealloc(p)
                &&& final(self).allocator_view().header_readable(p) == old(self).allocator_view().header_readable(p)
                &&& final(self).allocator_view().recorded_size(p) == old(self).allocator_view().recorded_size(p)
            },
            final(self).allocator_view().mem() == (MemView {
                bytes: old(self).allocator_view().mem().bytes.update(addr - old(self).allocator_view().mem().base, v),
                ..old(self).allocator_view().mem()
            }),
    {
        self.allocator.write_u8(addr, v);
    }

    /// Little-endian 32-bit word at `addr`.
    pub fn read_u32(&self, addr: usize) -> (r: u32)
        requires
            self.allocator_view().inv(),
            self.allocator_view().mem().in_committed(addr as nat, 4),
        ensures
            r == self.allocator_view().mem().u32_at(addr as nat),
    {
        self.allocator.read_u32(addr)
    }

    /// Stores `v` little-endian at `addr`.
    pub fn write_u32(&mut self, addr: usize, v: u32)
        requires
            old(self).allocator_view().inv(),
            old(self).allocator_view().mem().in_committed(addr as nat, 4),
            old(self).allocator_view().writable(addr as nat, 4),
        ensures
            final(self).allocator_view().inv(),
            forall|a: nat, l: nat| #[trigger] final(self).allocator_view().writable(a, l) == old(self).allocator_view().writable(a, l),
            forall|p: nat| old(self).allocator_view().header_readable(p) && (addr + 4 <= p - A::header_span() || p <= addr) ==> {
                &&& #[trigger] final(self).allocator_view().may_dealloc(p) == old(self).allocator_view().may_dealloc(p)
                &&& final(self).allocator_view().header_readable(p) == old(self).allocator_view().header_readable(p)
                &&& final(self).allocator_view().recorded_size(p) == old(self).allocator_view().recorded_size(p)
            },
            final(self).allocator_view().mem() == (MemView {
                bytes: put_u32(old(self).allocator_view().mem().bytes, addr - old(self).allocator_view().mem().base, v as nat),
                ..old(self).allocator_view().mem()
            }),
    {
        self.allocator.write_u32(addr, v);
    }
}

} // verus!
