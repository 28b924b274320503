use vstd::prelude::*;
use crate::math_util::{next_multiple, round_to_next_multiple};

verus! {

/// Granularity of reservations and commits.
pub const PAGE_SIZE: usize = 4096;

/// Address at which every reservation of this address-space model begins.
/// It is page aligned and leaves the null address outside every range.
pub const RESERVATION_BASE: usize = 65536;

/// Largest reservation the address space grants, in bytes.
pub const MAX_RESERVATION: usize = 1073741824;

/// Little-endian value of the four bytes of `s` starting at `i`.
pub open spec fn u32_at(s: Seq<u8>, i: int) -> nat {
    (s[i] + 256 * s[i + 1] + 65536 * s[i + 2] + 16777216 * s[i + 3]) as nat
}

/// Little-endian value of the eight bytes of `s` starting at `i`.
pub open spec fn u64_at(s: Seq<u8>, i: int) -> nat {
    u32_at(s, i) + 4294967296 * u32_at(s, i + 4)
}

/// `s` with the four bytes at `i` replaced by the little-endian encoding of `v`.
pub open spec fn put_u32(s: Seq<u8>, i: int, v: nat) -> Seq<u8> {
    s.update(i, (v % 256) as u8).update(i + 1, ((v / 256) % 256) as u8).update(
        i + 2,
        ((v / 256 / 256) % 256) as u8,
    ).update(i + 3, ((v / 256 / 256 / 256) % 256) as u8)
}

/// `s` with the eight bytes at `i` replaced by the little-endian encoding of `v`.
pub open spec fn put_u64(s: Seq<u8>, i: int, v: nat) -> Seq<u8> {
    put_u32(put_u32(s, i, v % 4294967296), i + 4, v / 4294967296)
}

/// Reading back a written 32-bit word yields the word; other bytes stay.
pub proof fn lemma_put_u32(s: Seq<u8>, i: int, v: nat)
    requires
        0 <= i,
        i + 4 <= s.len(),
        v < 4294967296,
    ensures
        put_u32(s, i, v).len() == s.len(),
        u32_at(put_u32(s, i, v), i) == v,
        forall|j: int| 0 <= j < s.len() && (j < i || j >= i + 4) ==> #[trigger] put_u32(s, i, v)[j] == s[j],
{
    let t = put_u32(s, i, v);
    let q1 = v / 256;
    let q2 = q1 / 256;
    let q3 = q2 / 256;
    assert(v == 256 * q1 + v % 256);
    assert(q1 == 256 * q2 + q1 % 256);
    assert(q2 == 256 * q3 + q2 % 256);
    assert(q3 < 256);
    assert(t[i] == v % 256);
    assert(t[i + 1] == q1 % 256);
    assert(t[i + 2] == q2 % 256);
    assert(t[i + 3] == q3 % 256);
}

/// Reading back a written 64-bit word yields the word; other bytes stay.
pub proof fn lemma_put_u64(s: Seq<u8>, i: int, v: nat)
    requires
        0 <= i,
        i + 8 <= s.len(),
        v < 18446744073709551616,
    ensures
        put_u64(s, i, v).len() == s.len(),
        u64_at(put_u64(s, i, v), i) == v,
        forall|j: int| 0 <= j < s.len() && (j < i || j >= i + 8) ==> #[trigger] put_u64(s, i, v)[j] == s[j],
{
    let lo = v % 4294967296;
    let hi = v / 4294967296;
    let s1 = put_u32(s, i, lo);
    lemma_put_u32(s, i, lo);
    lemma_put_u32(s1, i + 4, hi);
    let s2 = put_u32(s1, i + 4, hi);
    assert forall|j: int| i <= j < i + 4 implies s2[j] == s1[j] by {}
    assert(u32_at(s2, i) == u32_at(s1, i));
}

/// Words whose bytes agree are equal.
pub proof fn lemma_u32_same(a: Seq<u8>, b: Seq<u8>, i: int)
    requires
        forall|j: int| i <= j < i + 4 ==> #[trigger] a[j] == b[j],
    ensures
        u32_at(a, i) == u32_at(b, i),
{
    assert(a[i] == b[i] && a[i + 1] == b[i + 1] && a[i + 2] == b[i + 2] && a[i + 3] == b[i + 3]);
}

/// Abstract state of a reservation: where it begins, how many bytes it
/// spans, and the bytes of its committed prefix.
pub struct MemView {
    pub base: nat,
    pub reserved: nat,
    pub bytes: Seq<u8>,
}

impl MemView {
    /// Address one past the committed prefix.
    pub open spec fn committed_end(self) -> nat {
        self.base + self.bytes.len()
    }

    /// Address one past the reservation.
    pub open spec fn reserved_end(self) -> nat {
        self.base + self.reserved
    }

    /// `[addr, addr + len)` lies in the committed prefix.
    pub open spec fn in_committed(self, addr: nat, len: nat) -> bool {
        self.base <= addr && addr + len <= self.committed_end()
    }

    pub open spec fn wf(self) -> bool {
        &&& self.base == RESERVATION_BASE
        &&& self.reserved % (PAGE_SIZE as nat) == 0
        &&& self.reserved <= MAX_RESERVATION
        &&& self.bytes.len() <= self.reserved
        &&& self.bytes.len() % (PAGE_SIZE as nat) == 0
    }

    /// Little-endian 32-bit word stored at `addr`.
    pub open spec fn u32_at(self, addr: nat) -> nat {
        u32_at(self.bytes, addr - self.base)
    }

    /// Little-endian 64-bit word stored at `addr`.
    pub open spec fn u64_at(self, addr: nat) -> nat {
        u64_at(self.bytes, addr - self.base)
    }

    /// Byte stored at `addr`.
    pub open spec fn byte_at(self, addr: nat) -> u8 {
        self.bytes[addr - self.base]
    }
}

/// A contiguous range of address space, reserved up front and backed page by
/// page on commit. Committed pages start out zeroed.
pub struct VirtualMemory {
    base: usize,
    reserved: usize,
    bytes: Vec<u8>,
}

/// Size of a page of the address space.
pub fn get_page_size() -> (r: usize)
    ensures
        r == PAGE_SIZE,
{
    PAGE_SIZE
}

/// Reserves `mem_size` bytes, rounded up to whole pages, with nothing
/// committed. Fails when the rounded size exceeds what the address space
/// grants.
pub fn reserve_address_space(mem_size: usize) -> (r: Option<VirtualMemory>)
    ensures
        r is None <==> next_multiple(mem_size as nat, PAGE_SIZE as nat) > MAX_RESERVATION,
        r matches Some(m) ==> {
            &&& m@.wf()
            &&& m@.reserved == next_multiple(mem_size as nat, PAGE_SIZE as nat)
            &&& m@.bytes.len() == 0
        },
{
    if mem_size > MAX_RESERVATION {
        return None;
    }
    let reserved = round_to_next_multiple(mem_size, PAGE_SIZE);
    if reserved > MAX_RESERVATION {
        return None;
    }
    Some(VirtualMemory { base: RESERVATION_BASE, reserved, bytes: Vec::new() })
}

/// Reserves `mem_size` bytes and commits all of them at once.
pub fn reserve_committed(mem_size: usize) -> (r: VirtualMemory)
    requires
        mem_size <= MAX_RESERVATION,
    ensures
        r@.wf(),
        r@.base == RESERVATION_BASE,
        mem_size <= r@.bytes.len(),
        r@.bytes.len() == r@.reserved,
{
    proof {
        assert(next_multiple(mem_size as nat, PAGE_SIZE as nat) <= MAX_RESERVATION) by (nonlinear_arith)
            requires
                mem_size <= 1073741824,
                next_multiple(mem_size as nat, 4096) == if mem_size % 4096 == 0 {
                    mem_size as nat
                } else {
                    (mem_size - mem_size % 4096 + 4096) as nat
                },
        ;
    }
    let mut m = reserve_address_space(mem_size).unwrap();
    let base = m.base;
    let _ = m.commit_physical_memory(base, m.reserved);
    m
}

impl View for VirtualMemory {
    type V = MemView;

    closed spec fn view(&self) -> MemView {
        MemView { base: self.base as nat, reserved: self.reserved as nat, bytes: self.bytes@ }
    }
}

impl VirtualMemory {
    /// Backs `[base_address, base_address + mem_size)` with zeroed pages,
    /// extending the committed prefix to the page that holds its last byte.
    /// Fails when the range leaves the reservation.
    pub fn commit_physical_memory(&mut self, base_address: usize, mem_size: usize) -> (r: Option<usize>)
        requires
            old(self)@.wf(),
        ensures
            final(self)@.wf(),
            final(self)@.base == old(self)@.base,
            final(self)@.reserved == old(self)@.reserved,
            r is Some <==> (old(self)@.base <= base_address && base_address + mem_size <= old(self)@.reserved_end()),
            r is Some ==> r == Some(base_address) && final(self)@.bytes.len() == if base_address + mem_size
                <= old(self)@.committed_end() {
                old(self)@.bytes.len()
            } else {
                next_multiple((base_address + mem_size - old(self)@.base) as nat, PAGE_SIZE as nat)
            },
            final(self)@.bytes.len() >= old(self)@.bytes.len(),
            final(self)@.bytes.subrange(0, old(self)@.bytes.len() as int) == old(self)@.bytes,
            forall|i: int| old(self)@.bytes.len() <= i < final(self)@.bytes.len() ==> #[trigger] final(self)@.bytes[i] == 0,
    {
        if base_address < self.base || mem_size > self.reserved || base_address - self.base > self.reserved - mem_size {
            return None;
        }
        let needed: usize = base_address - self.base + mem_size;
        if needed > self.bytes.len() {
            let target = round_to_next_multiple(needed, PAGE_SIZE);
            let ghost before = self.bytes@;
            while self.bytes.len() < target
                invariant
                    self.base == old(self).base,
                    self.reserved == old(self).reserved,
                    target % PAGE_SIZE == 0,
                    self.bytes.len() <= target,
                    target <= self.reserved,
                    before.len() <= self.bytes.len(),
                    self.bytes@.subrange(0, before.len() as int) == before,
                    forall|i: int| before.len() <= i < self.bytes.len() ==> #[trigger] self.bytes@[i] == 0,
                decreases target - self.bytes.len(),
            {
                self.bytes.push(0);
            }
        }
        Some(base_address)
    }

    /// Gives up the backing of the committed pages from the page that holds
    /// `base_address` on, when `[base_address, base_address + mem_size)`
    /// reaches the end of the committed prefix; otherwise nothing changes.
    pub fn decommit_physical_memory(&mut self, base_address: usize, mem_size: usize)
        requires
            old(self)@.wf(),
        ensures
            final(self)@.wf(),
            final(self)@.base == old(self)@.base,
            final(self)@.reserved == old(self)@.reserved,
            final(self)@.bytes == if old(self)@.base <= base_address && base_address <= old(self)@.committed_end()
                && base_address + mem_size >= old(self)@.committed_end() {
                old(self)@.bytes.subrange(0, (base_address - old(self)@.base - (base_address - old(self)@.base) % (PAGE_SIZE as int)))
            } else {
                old(self)@.bytes
            },
    {
        if base_address < self.base || base_address - self.base > self.bytes.len() {
            return;
        }
        let offset: usize = base_address - self.base;
        if mem_size < self.bytes.len() - offset {
            return;
        }
        let keep: usize = offset - offset % PAGE_SIZE;
        proof {
            assert(keep as int % 4096 == 0) by (nonlinear_arith)
                requires keep == offset - offset % 4096;
        }
        self.bytes.truncate(keep);
    }

    /// First address of the reservation.
    pub fn base_address(&self) -> (r: usize)
        ensures
            r == self@.base,
    {
        self.base
    }

    /// Number of committed bytes.
    pub fn committed_size(&self) -> (r: usize)
        ensures
            r == self@.bytes.len(),
    {
        self.bytes.len()
    }

    /// Number of reserved bytes.
    pub fn reserved_size(&self) -> (r: usize)
        ensures
            r == self@.reserved,
    {
        self.reserved
    }

    /// Byte at `addr`.
    pub fn read_u8(&self, addr: usize) -> (r: u8)
        requires
            self@.wf(),
            self@.in_committed(addr as nat, 1),
        ensures
            r == self@.byte_at(addr as nat),
    {
        self.bytes[addr - self.base]
    }

    /// Stores `v` at `addr`.
    pub fn write_u8(&mut self, addr: usize, v: u8)
        requires
            old(self)@.wf(),
            old(self)@.in_committed(addr as nat, 1),
        ensures
            final(self)@ == (MemView { bytes: old(self)@.bytes.update(addr - old(self)@.base, v), ..old(self)@ }),
            final(self)@.wf(),
    {
        let i: usize = addr - self.base;
        self.bytes.set(i, v);
    }

    /// Little-endian 32-bit word at `addr`.
    pub fn read_u32(&self, addr: usize) -> (r: u32)
        requires
            self@.wf(),
            self@.in_committed(addr as nat, 4),
        ensures
            r == self@.u32_at(addr as nat),
    {
        let i: usize = addr - self.base;
        let b0 = self.bytes[i] as u32;
        let b1 = self.bytes[i + 1] as u32;
        let b2 = self.bytes[i + 2] as u32;
        let b3 = self.bytes[i + 3] as u32;
        b0 + 256 * b1 + 65536 * b2 + 16777216 * b3
    }

    /// Stores `v` little-endian at `addr`.
    pub fn write_u32(&mut self, addr: usize, v: u32)
        requires
            old(self)@.wf(),
            old(self)@.in_committed(addr as nat, 4),
        ensures
            final(self)@ == (MemView { bytes: put_u32(old(self)@.bytes, addr - old(self)@.base, v as nat), ..old(self)@ }),
            final(self)@.wf(),
            final(self)@.u32_at(addr as nat) == v,
    {
        proof {
            lemma_put_u32(self@.bytes, addr - self@.base, v as nat);
        }
        let i: usize = addr - self.base;
        self.bytes.set(i, (v % 256) as u8);
        self.bytes.set(i + 1, ((v / 256) % 256) as u8);
        self.bytes.set(i + 2, ((v / 256 / 256) % 256) as u8);
        self.bytes.set(i + 3, ((v / 256 / 256 / 256) % 256) as u8);
    }

    /// Little-endian 64-bit word at `addr`.
    pub fn read_u64(&self, addr: usize) -> (r: u64)
        requires
            self@.wf(),
            self@.in_committed(addr as nat, 8),
        ensures
            r == self@.u64_at(addr as nat),
    {
        let lo = self.read_u32(addr) as u64;
        let hi = self.read_u32(addr + 4) as u64;
        lo + 4294967296 * hi
    }

    /// Stores `v` little-endian at `addr`.
    pub fn write_u64(&mut self, addr: usize, v: u64)
        requires
            old(self)@.wf(),
            old(self)@.in_committed(addr as nat, 8),
        ensures
            final(self)@ == (MemView { bytes: put_u64(old(self)@.bytes, addr - old(self)@.base, v as nat), ..old(self)@ }),
            final(self)@.wf(),
            final(self)@.u64_at(addr as nat) == v,
    {
        proof {
            lemma_put_u64(self@.bytes, addr - self@.base, v as nat);
        }
        self.write_u32(addr, (v % 4294967296) as u32);
        self.write_u32(addr + 4, (v / 4294967296) as u32);
    }
}

} // verus!
