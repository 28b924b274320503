use spark_mem::base::MemoryBlock;
use spark_mem::bounds_checker::{BoundsChecker, EmptyBoundsChecker, SimpleBoundsChecker, CANARY};
use spark_mem::linear_allocator::LinearAllocator;
use spark_mem::memory_realm::{BasicMemoryRealm, BoundsViolation, TypedMemoryRealm};
use spark_mem::pointer_util::is_aligned_to;
use spark_mem::pool_allocator::PoolAllocator;
use spark_mem::stack_allocator::StackAllocator;
use spark_mem::virtual_mem::{get_page_size, reserve_address_space, VirtualMemory};

/// Bytes of a particle: an f32 lifetime and three colour bytes, padded.
const PARTICLE_SIZE: usize = 8;

fn fresh_memory() -> VirtualMemory {
    let mut m = reserve_address_space(4096).unwrap();
    let base = m.base_address();
    m.commit_physical_memory(base, 50).unwrap();
    m
}

#[test]
fn can_write_canary() {
    let bounds_checker: SimpleBoundsChecker = Default::default();
    let mut memory = fresh_memory();
    let ptr = memory.base_address();
    memory.write_u32(ptr, bounds_checker.get_canary());
    let marker: u32 = memory.read_u32(ptr);
    assert_eq!(marker, bounds_checker.get_canary());
}

#[test]
fn can_validate_front_canary() {
    let bounds_checker: SimpleBoundsChecker = Default::default();
    let mut memory = fresh_memory();
    let ptr = memory.base_address();
    memory.write_u32(ptr, bounds_checker.get_canary());
    assert!(bounds_checker.validate_front_canary(memory.read_u32(ptr)));
}

#[test]
fn can_validate_back_canary() {
    let bounds_checker: SimpleBoundsChecker = Default::default();
    let mut memory = fresh_memory();
    let ptr = memory.base_address() + 46;
    memory.write_u32(ptr, bounds_checker.get_canary());
    assert!(bounds_checker.validate_back_canary(memory.read_u32(ptr)));
}

#[test]
fn corrupt_canary_is_reported() {
    let bounds_checker: SimpleBoundsChecker = Default::default();
    let mut memory = fresh_memory();
    let ptr = memory.base_address();
    memory.write_u32(ptr, bounds_checker.get_canary());
    memory.write_u32(ptr, 0xCC);
    assert!(!bounds_checker.validate_front_canary(memory.read_u32(ptr)));
    assert!(!bounds_checker.validate_back_canary(memory.read_u32(ptr)));
}

#[test]
fn checker_sizes() {
    let simple = SimpleBoundsChecker::new();
    let empty = EmptyBoundsChecker::new();
    assert_eq!(simple.get_canary_size(), 4);
    assert_eq!(simple.get_canary(), 0xCA);
    assert_eq!(CANARY, 0xCA);
    assert_eq!(empty.get_canary_size(), 0);
    assert!(empty.validate_front_canary(0xCC));
    assert!(empty.validate_back_canary(0));
}

#[test]
fn linear_alloc_simple_bounds_checking_realm() {
    let mut realm: BasicMemoryRealm<LinearAllocator, SimpleBoundsChecker> = BasicMemoryRealm::new(100);
    let ptr = realm.allocate(4, 1).unwrap().ptr;
    let front_marker = realm.read_u32(ptr - 4);
    assert_eq!(front_marker, 0xCA);
    let back_marker = realm.read_u32(ptr + 4);
    assert_eq!(back_marker, 0xCA);
}

#[test]
fn realm_canary_trip() {
    let mut realm: BasicMemoryRealm<LinearAllocator, SimpleBoundsChecker> = BasicMemoryRealm::new(100);
    let p = realm.allocate(4, 1).unwrap();
    realm.write_u32(p.ptr - 4, 0);
    assert_eq!(realm.dealloc(p), Err(BoundsViolation::FrontCanary));
}

#[test]
fn realm_back_canary_trip() {
    let mut realm: BasicMemoryRealm<StackAllocator, SimpleBoundsChecker> = BasicMemoryRealm::new(1024);
    let p = realm.allocate(16, 8).unwrap();
    realm.write_u8(p.ptr + 16, 7);
    assert_eq!(realm.dealloc(p), Err(BoundsViolation::BackCanary));
}

#[test]
fn realm_round_trip_keeps_bytes_and_canaries() {
    let mut realm: BasicMemoryRealm<StackAllocator, SimpleBoundsChecker> = BasicMemoryRealm::new(1024);
    let p = realm.allocate(32, 16).unwrap();
    assert!(is_aligned_to(p.ptr, 16));
    for i in 0..32usize {
        realm.write_u8(p.ptr + i, (i * 7) as u8);
    }
    for i in 0..32usize {
        assert_eq!(realm.read_u8(p.ptr + i), (i * 7) as u8);
    }
    assert_eq!(realm.dealloc(p), Ok(()));
}

#[test]
fn realm_without_canaries() {
    let mut realm: BasicMemoryRealm<LinearAllocator, EmptyBoundsChecker> = BasicMemoryRealm::new(100);
    let p = realm.allocate(8, 4).unwrap();
    assert!(is_aligned_to(p.ptr, 4));
    realm.write_u32(p.ptr, 5);
    assert_eq!(realm.dealloc(p), Ok(()));
    realm.reset();
    let q = realm.allocate(8, 4).unwrap();
    assert_eq!(q.ptr, p.ptr);
}

#[test]
fn typed_realm_with_pool_alloc_and_bounds_checking() {
    let mut typed_pool: TypedMemoryRealm<PoolAllocator, SimpleBoundsChecker> = TypedMemoryRealm::new(PARTICLE_SIZE, 10, 4);
    let mut particles: Vec<MemoryBlock> = Vec::new();
    for i in 0..10usize {
        let mem = typed_pool.allocate(PARTICLE_SIZE, 4);
        assert!(mem.is_some(), "Allocator mem block was none!");
        let mem_block = mem.unwrap();
        assert!(is_aligned_to(mem_block.ptr, 4), "Allocated block was not properly aligned to 4 byte-boundary");
        typed_pool.write_u32(mem_block.ptr, 1.0f32.to_bits());
        typed_pool.write_u8(mem_block.ptr + 4, i as u8);
        typed_pool.write_u8(mem_block.ptr + 5, i as u8);
        typed_pool.write_u8(mem_block.ptr + 6, i as u8);
        particles.push(mem_block);
    }
    for i in 0..10usize {
        let p = particles[i].ptr;
        assert_eq!(f32::from_bits(typed_pool.read_u32(p)), 1.0);
        assert_eq!(typed_pool.read_u8(p + 4), i as u8);
        assert_eq!(typed_pool.read_u8(p + 5), i as u8);
        assert_eq!(typed_pool.read_u8(p + 6), i as u8);
    }
    for particle_mem in particles {
        assert_eq!(typed_pool.dealloc(particle_mem), Ok(()));
    }
}

#[test]
fn ensure_proper_page_size() {
    let page_size: usize = get_page_size();
    assert_eq!(page_size, 4096);
}

#[test]
fn reserve_virtual_address_space() {
    let page_size: usize = get_page_size();
    let quadruple_page_size: usize = page_size * 4;
    let v_mem = reserve_address_space(quadruple_page_size).unwrap();
    assert_eq!(quadruple_page_size, v_mem.reserved_size());
    assert_eq!(0, v_mem.committed_size());
    assert_ne!(0, v_mem.base_address());
}

#[test]
fn commit_physical_address_space() {
    let page_size: usize = get_page_size();
    let quadruple_page_size: usize = page_size * 4;
    let mut v_mem = reserve_address_space(quadruple_page_size).unwrap();
    let base = v_mem.base_address();
    let p_mem_ptr = v_mem.commit_physical_memory(base, quadruple_page_size).unwrap();
    assert_eq!(p_mem_ptr, base);
    assert_eq!(quadruple_page_size, v_mem.committed_size());
    assert_eq!(v_mem.read_u8(base + quadruple_page_size - 1), 0);
}

#[test]
fn decommit_physical_address_space() {
    let page_size: usize = get_page_size();
    let quadruple_page_size: usize = page_size * 4;
    let mut v_mem = reserve_address_space(quadruple_page_size).unwrap();
    let base = v_mem.base_address();
    let p_mem_ptr = v_mem.commit_physical_memory(base, quadruple_page_size).unwrap();
    v_mem.decommit_physical_memory(p_mem_ptr, quadruple_page_size);
    assert_eq!(0, v_mem.committed_size());
    assert_eq!(quadruple_page_size, v_mem.reserved_size());
}

#[test]
fn commit_physical_address_space_multiple_times() {
    let page_size: usize = get_page_size();
    let quadruple_page_size: usize = page_size * 4;
    let double_page_size: usize = page_size * 2;
    let mut v_mem = reserve_address_space(quadruple_page_size).unwrap();
    let base = v_mem.base_address();
    let p_mem_ptr_0 = v_mem.commit_physical_memory(base, double_page_size).unwrap();
    assert_eq!(p_mem_ptr_0, base);
    assert_eq!(double_page_size, v_mem.committed_size());
    let p_mem_ptr_1 = v_mem.commit_physical_memory(base + double_page_size, double_page_size).unwrap();
    assert_eq!(p_mem_ptr_1, base + double_page_size);
    assert_eq!(quadruple_page_size, v_mem.committed_size());
    assert!(v_mem.commit_physical_memory(base + double_page_size, quadruple_page_size).is_none());
}

#[test]
fn reserve_rounds_to_pages_and_refuses_too_much() {
    let v_mem = reserve_address_space(5000).unwrap();
    assert_eq!(v_mem.reserved_size(), 8192);
    assert!(reserve_address_space(usize::MAX).is_none());
}

#[test]
fn words_are_little_endian() {
    let mut memory = fresh_memory();
    let base = memory.base_address();
    memory.write_u32(base, 0x11223344);
    assert_eq!(memory.read_u8(base), 0x44);
    assert_eq!(memory.read_u8(base + 3), 0x11);
    memory.write_u64(base + 8, 0x0102030405060708);
    assert_eq!(memory.read_u64(base + 8), 0x0102030405060708);
    assert_eq!(memory.read_u32(base + 12), 0x01020304);
}
