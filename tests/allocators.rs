use spark_mem::base::{Allocator, MemoryBlock};
use spark_mem::double_ended_stack_allocator::DoubleEndedStackAllocator;
use spark_mem::linear_allocator::LinearAllocator;
use spark_mem::pointer_util::is_aligned_to;
use spark_mem::pool_allocator::PoolAllocator;
use spark_mem::stack_allocator::StackAllocator;

const KB: usize = 1024;
const MB: usize = KB * 1024;

/// Bytes of a record of a float and a machine word.
const PARTICLE_SIZE: usize = 16;

/// Bytes of a record of two machine words.
const SOME_DATA_SIZE: usize = 16;

fn write_word<A: Allocator>(a: &mut A, addr: usize, v: u64) {
    a.write_u32(addr, (v & 0xFFFF_FFFF) as u32);
    a.write_u32(addr + 4, (v >> 32) as u32);
}

fn read_word<A: Allocator>(a: &A, addr: usize) -> u64 {
    a.read_u32(addr) as u64 | ((a.read_u32(addr + 4) as u64) << 32)
}

#[test]
fn linear_allocator_single_allocation() {
    let mut linear_alloc = LinearAllocator::new(10 * MB);
    let mem_raw = linear_alloc.alloc_raw(MB, 1, 0);
    assert!(mem_raw.is_some());
}

#[test]
fn linear_allocator_single_allocation_aligned() {
    let mut linear_alloc = LinearAllocator::new(10 * MB);
    let mem_raw_aligned = linear_alloc.alloc_raw(MB, 16, 0);
    assert!(mem_raw_aligned.is_some());
    assert!(is_aligned_to(mem_raw_aligned.unwrap().ptr, 16));
}

#[test]
fn linear_allocator_single_allocation_aligned_with_offset() {
    let mut linear_alloc = LinearAllocator::new(10 * MB);
    let mem_raw_aligned = linear_alloc.alloc_raw(MB + 8, 16, 4);
    assert!(mem_raw_aligned.is_some());
    let ptr = mem_raw_aligned.unwrap().ptr;
    assert!(!is_aligned_to(ptr, 16), "Pointer without offset applied was aligned");
    assert!(is_aligned_to(ptr + 4, 16), "User pointer was not properly aligned");
}

#[test]
fn linear_allocator_multiple_allocations() {
    let mut linear_alloc = LinearAllocator::new(10 * MB);
    assert!(linear_alloc.alloc_raw(MB, 4, 0).is_some());
    assert!(linear_alloc.alloc_raw(MB, 4, 0).is_some());
    assert!(linear_alloc.alloc_raw(MB, 4, 0).is_some());
}

#[test]
fn linear_allocator_reset_whole_allocator() {
    let mut linear_alloc = LinearAllocator::new(10 * MB);
    let mem_raw_0 = linear_alloc.alloc_raw(MB, 4, 0).unwrap();
    linear_alloc.reset();
    let mem_raw_1 = linear_alloc.alloc_raw(MB, 4, 0).unwrap();
    assert_eq!(mem_raw_0.ptr, mem_raw_1.ptr);
}

#[test]
fn linear_allocator_return_right_allocation_size() {
    let mut linear_alloc = LinearAllocator::new(10 * MB);
    let mem_raw_0 = linear_alloc.alloc_raw(MB * 2, 1, 0).unwrap();
    assert_eq!(linear_alloc.get_allocation_size(&mem_raw_0) == MB * 2, true);
    let mem_raw_1 = linear_alloc.alloc_raw(MB * 3, 1, 0).unwrap();
    assert_eq!(linear_alloc.get_allocation_size(&mem_raw_1) == MB * 3, true);
    let mem_raw_2 = linear_alloc.alloc_raw(MB * 4, 1, 0).unwrap();
    assert_eq!(linear_alloc.get_allocation_size(&mem_raw_2) == MB * 4, true);
}

#[test]
fn allocate_safely() {
    // A record of an f32 and a machine word: 16 bytes.
    let mut linear_alloc = LinearAllocator::new(16 + 4);
    {
        let data = linear_alloc.alloc_raw(16, 1, 0).unwrap();
        linear_alloc.write_u32(data.ptr, 1.0f32.to_bits());
        write_word(&mut linear_alloc, data.ptr + 8, 1);
        assert_eq!(f32::from_bits(linear_alloc.read_u32(data.ptr)), 1.0);
        assert_eq!(read_word(&linear_alloc, data.ptr + 8), 1);
        linear_alloc.write_u32(data.ptr, 2.0f32.to_bits());
        write_word(&mut linear_alloc, data.ptr + 8, 2);
        assert_eq!(f32::from_bits(linear_alloc.read_u32(data.ptr)), 2.0);
        assert_eq!(read_word(&linear_alloc, data.ptr + 8), 2);
        linear_alloc.dealloc_raw(data);
    }
    let data_box = linear_alloc.alloc_raw(16, 1, 0);
    assert!(data_box.is_none(), "Second allocation did not fail, LinearAllocator does not allow freeing hence should be OOM");
}

#[test]
fn linear_cursor_never_moves_back() {
    let mut linear_alloc = LinearAllocator::new(MB);
    let start = linear_alloc.cursor();
    let mut last = start;
    for size in [10usize, 1, 300, 7] {
        let b = linear_alloc.alloc_raw(size, 8, 0).unwrap();
        assert!(linear_alloc.cursor() >= last);
        last = linear_alloc.cursor();
        linear_alloc.dealloc_raw(b);
        assert_eq!(linear_alloc.cursor(), last);
    }
    assert!(linear_alloc.alloc_raw(2 * MB, 1, 0).is_none());
    assert_eq!(linear_alloc.cursor(), last);
    linear_alloc.reset();
    assert_eq!(linear_alloc.cursor(), start);
}

#[test]
fn linear_allocation_fails_past_end() {
    let mut linear_alloc = LinearAllocator::new(100);
    // The header takes 4 bytes in front of the user pointer.
    assert!(linear_alloc.alloc_raw(97, 1, 0).is_none());
    assert!(linear_alloc.alloc_raw(96, 1, 0).is_some());
}

#[test]
fn stack_allocator_single_allocation() {
    let mut stack_allocator = StackAllocator::new(10 * MB);
    assert!(stack_allocator.alloc_raw(256, 1, 0).is_some());
}

#[test]
fn stack_allocator_single_allocation_aligned() {
    let mut stack_allocator = StackAllocator::new(10 * MB);
    let raw_mem = stack_allocator.alloc_raw(256, 16, 0);
    assert!(raw_mem.is_some());
    assert!(is_aligned_to(raw_mem.unwrap().ptr, 16));
}

#[test]
fn stack_allocator_single_allocation_aligned_with_offset() {
    let mut stack_allocator = StackAllocator::new(10 * MB);
    let raw_mem = stack_allocator.alloc_raw(MB + 8, 16, 4);
    assert!(raw_mem.is_some());
    let ptr = raw_mem.unwrap().ptr;
    assert!(!is_aligned_to(ptr, 16), "Pointer without offset applied was already aligned");
    assert!(is_aligned_to(ptr + 4, 16), "User pointer was not properly aligned");
}

#[test]
fn stack_allocator_multiple_allocations() {
    let mut stack_allocator = StackAllocator::new(10 * MB);
    assert!(stack_allocator.alloc_raw(1 * MB, 1, 0).is_some());
    assert!(stack_allocator.alloc_raw(1 * MB, 1, 0).is_some());
    assert!(stack_allocator.alloc_raw(1 * MB, 1, 0).is_some());
    assert!(stack_allocator.alloc_raw(1 * MB, 1, 0).is_some());
}

#[test]
fn returns_none_on_oom() {
    let mut stack_allocator = StackAllocator::new(10 * MB);
    let raw_mem_0 = stack_allocator.alloc_raw(6 * MB, 1, 0);
    assert!(raw_mem_0.is_some());
    let raw_mem_1 = stack_allocator.alloc_raw(6 * MB, 1, 0);
    assert!(raw_mem_1.is_none());
}

#[test]
fn deallocate_mem() {
    let mut stack_allocator = StackAllocator::new(10 * MB);
    let raw_mem_0 = stack_allocator.alloc_raw(256, 1, 0).unwrap();
    stack_allocator.write_u32(raw_mem_0.ptr, 0xDEADBEEF);
    stack_allocator.dealloc_raw(raw_mem_0);
    let raw_mem_1 = stack_allocator.alloc_raw(256, 1, 0).unwrap();
    let marker = stack_allocator.read_u32(raw_mem_1.ptr);
    assert!(marker == 0xDEADBEEF, "Previously placed marker was not there after deallocation");
}

#[test]
fn stack_allocator_reset_whole_allocator() {
    let mut stack_allocator = StackAllocator::new(10 * MB);
    let mem_raw_0 = stack_allocator.alloc_raw(MB, 4, 0).unwrap();
    stack_allocator.reset();
    let mem_raw_1 = stack_allocator.alloc_raw(MB, 4, 0).unwrap();
    assert_eq!(mem_raw_0.ptr, mem_raw_1.ptr);
}

#[test]
fn stack_allocator_return_right_allocation_size() {
    let mut stack_allocator = StackAllocator::new(10 * MB);
    let mem_raw_0 = stack_allocator.alloc_raw(MB * 2, 1, 0).unwrap();
    assert_eq!(stack_allocator.get_allocation_size(&mem_raw_0) == MB * 2, true);
    let mem_raw_1 = stack_allocator.alloc_raw(MB * 3, 1, 0).unwrap();
    assert_eq!(stack_allocator.get_allocation_size(&mem_raw_1) == MB * 3, true);
    let mem_raw_2 = stack_allocator.alloc_raw(MB * 4, 1, 0).unwrap();
    assert_eq!(stack_allocator.get_allocation_size(&mem_raw_2) == MB * 4, true);
}

#[test]
fn stack_allocator_allocation_do_not_invalidate_prev_ones() {
    let mut stack_allocator = StackAllocator::new(10 * MB);
    let mem_0 = stack_allocator.alloc_raw(SOME_DATA_SIZE, 1, 0).unwrap();
    write_word(&mut stack_allocator, mem_0.ptr, 101);
    write_word(&mut stack_allocator, mem_0.ptr + 8, 111);
    let mem_1 = stack_allocator.alloc_raw(SOME_DATA_SIZE, 1, 0).unwrap();
    write_word(&mut stack_allocator, mem_1.ptr, 202);
    write_word(&mut stack_allocator, mem_1.ptr + 8, 222);
    assert_eq!(read_word(&stack_allocator, mem_0.ptr), 101);
    assert_eq!(read_word(&stack_allocator, mem_0.ptr + 8), 111);
    assert_eq!(read_word(&stack_allocator, mem_1.ptr), 202);
    assert_eq!(read_word(&stack_allocator, mem_1.ptr + 8), 222);
}

#[test]
fn stack_lifo_round_trip_restores_state() {
    let mut stack_allocator = StackAllocator::new(MB);
    let cursor = stack_allocator.cursor();
    let a = stack_allocator.alloc_raw(100, 8, 0).unwrap();
    let b = stack_allocator.alloc_raw(50, 16, 4).unwrap();
    assert_eq!(stack_allocator.allocation_count(), 2);
    stack_allocator.dealloc_raw(b);
    stack_allocator.dealloc_raw(a);
    assert_eq!(stack_allocator.cursor(), cursor);
    assert_eq!(stack_allocator.allocation_count(), 0);
}

#[test]
fn single_allocation_front() {
    let mut de_stack_alloc = DoubleEndedStackAllocator::new(10 * MB);
    assert!(de_stack_alloc.alloc_raw(MB, 1, 0).is_some());
}

#[test]
fn single_allocation_back() {
    let mut de_stack_alloc = DoubleEndedStackAllocator::new(10 * MB);
    assert!(de_stack_alloc.alloc_raw_back(MB, 1, 0).is_some());
}

#[test]
fn single_allocation_front_aligned() {
    let mut de_stack_alloc = DoubleEndedStackAllocator::new(10 * MB);
    let mem = de_stack_alloc.alloc_raw(MB, 16, 0);
    assert!(mem.is_some());
    assert!(is_aligned_to(mem.unwrap().ptr, 16));
}

#[test]
fn single_allocation_front_aligned_with_offset() {
    let mut de_stack_alloc = DoubleEndedStackAllocator::new(10 * MB);
    let raw_mem = de_stack_alloc.alloc_raw(MB + 8, 16, 4);
    assert!(raw_mem.is_some());
    let ptr = raw_mem.unwrap().ptr;
    assert!(!is_aligned_to(ptr, 16), "Pointer without offset applied was already aligned");
    assert!(is_aligned_to(ptr + 4, 16), "User pointer was not properly aligned");
}

#[test]
fn single_allocation_back_aligned() {
    let mut de_stack_alloc = DoubleEndedStackAllocator::new(10 * MB);
    let mem = de_stack_alloc.alloc_raw_back(MB, 16, 0);
    assert!(mem.is_some());
    assert!(is_aligned_to(mem.unwrap().ptr, 16));
}

#[test]
fn single_allocation_back_aligned_with_offset() {
    let mut de_stack_alloc = DoubleEndedStackAllocator::new(10 * MB);
    let raw_mem = de_stack_alloc.alloc_raw_back(MB + 8, 16, 4);
    assert!(raw_mem.is_some());
    let ptr = raw_mem.unwrap().ptr;
    assert!(!is_aligned_to(ptr, 16), "Pointer without offset applied was already aligned");
    assert!(is_aligned_to(ptr + 4, 16), "User pointer was not properly aligned");
}

#[test]
fn multiple_allocations_front() {
    let mut de_stack_alloc = DoubleEndedStackAllocator::new(10 * MB);
    assert!(de_stack_alloc.alloc_raw(MB, 1, 0).is_some());
    assert!(de_stack_alloc.alloc_raw(MB, 1, 0).is_some());
    assert!(de_stack_alloc.alloc_raw(MB, 1, 0).is_some());
    assert!(de_stack_alloc.alloc_raw(MB, 1, 0).is_some());
}

#[test]
fn multiple_allocations_back() {
    let mut de_stack_alloc = DoubleEndedStackAllocator::new(10 * MB);
    assert!(de_stack_alloc.alloc_raw_back(MB, 1, 0).is_some());
    assert!(de_stack_alloc.alloc_raw_back(MB, 1, 0).is_some());
    assert!(de_stack_alloc.alloc_raw_back(MB, 1, 0).is_some());
    assert!(de_stack_alloc.alloc_raw_back(MB, 1, 0).is_some());
}

#[test]
fn dealloc_front() {
    let mut de_stack_alloc = DoubleEndedStackAllocator::new(10 * MB);
    let mem_0 = de_stack_alloc.alloc_raw(MB, 1, 0).unwrap();
    de_stack_alloc.write_u32(mem_0.ptr, 0xDEADBEEF);
    de_stack_alloc.dealloc_raw(mem_0);
    let mem_1 = de_stack_alloc.alloc_raw(MB, 1, 0).unwrap();
    let marker = de_stack_alloc.read_u32(mem_1.ptr);
    assert!(marker == 0xDEADBEEF, "Previously placed marker was not there after deallocation");
}

#[test]
fn dealloc_back() {
    let mut de_stack_alloc = DoubleEndedStackAllocator::new(10 * MB);
    let mem_0 = de_stack_alloc.alloc_raw_back(MB, 1, 0).unwrap();
    de_stack_alloc.write_u32(mem_0.ptr, 0xDEADBEEF);
    de_stack_alloc.dealloc_raw_back(mem_0);
    let mem_1 = de_stack_alloc.alloc_raw_back(MB, 1, 0).unwrap();
    let marker = de_stack_alloc.read_u32(mem_1.ptr);
    assert!(marker == 0xDEADBEEF, "Previously placed marker was not there after deallocation");
}

#[test]
fn return_none_on_back_overlap() {
    let mut de_stack_alloc = DoubleEndedStackAllocator::new(10 * MB);
    let mem_back = de_stack_alloc.alloc_raw_back(6 * MB, 1, 0);
    assert!(mem_back.is_some());
    let mem_front = de_stack_alloc.alloc_raw(6 * MB, 1, 0);
    assert!(mem_front.is_none());
}

#[test]
fn return_none_on_front_overlap() {
    let mut de_stack_alloc = DoubleEndedStackAllocator::new(10 * MB);
    let _mem_front = de_stack_alloc.alloc_raw(6 * MB, 1, 0);
    let mem_back = de_stack_alloc.alloc_raw_back(6 * MB, 1, 0);
    assert!(mem_back.is_none());
}

#[test]
fn double_ended_stack_allocator_reset_whole_allocator() {
    let mut de_stack_alloc = DoubleEndedStackAllocator::new(10 * MB);
    let mem_front_0 = de_stack_alloc.alloc_raw(MB, 4, 0).unwrap();
    let mem_back_0 = de_stack_alloc.alloc_raw_back(MB, 4, 0).unwrap();
    de_stack_alloc.reset();
    let mem_front_1 = de_stack_alloc.alloc_raw(MB, 4, 0).unwrap();
    let mem_back_1 = de_stack_alloc.alloc_raw_back(MB, 4, 0).unwrap();
    assert_eq!(mem_front_0.ptr, mem_front_1.ptr);
    assert_eq!(mem_back_0.ptr, mem_back_1.ptr);
}

#[test]
fn get_right_allocation_size() {
    let mut de_stack_alloc = DoubleEndedStackAllocator::new(10 * MB);
    let mem_raw_0 = de_stack_alloc.alloc_raw(MB * 2, 1, 0).unwrap();
    assert_eq!(de_stack_alloc.get_allocation_size(&mem_raw_0) == MB * 2, true);
    let mem_raw_1 = de_stack_alloc.alloc_raw(MB * 3, 1, 0).unwrap();
    assert_eq!(de_stack_alloc.get_allocation_size(&mem_raw_1) == MB * 3, true);
    let mem_raw_2 = de_stack_alloc.alloc_raw(MB * 4, 1, 0).unwrap();
    assert_eq!(de_stack_alloc.get_allocation_size(&mem_raw_2) == MB * 4, true);
}

#[test]
fn front_allocation_do_not_invalidate_prev_ones() {
    let mut de_stack_alloc = DoubleEndedStackAllocator::new(10 * MB);
    let mem_0 = de_stack_alloc.alloc_raw(SOME_DATA_SIZE, 1, 0).unwrap();
    write_word(&mut de_stack_alloc, mem_0.ptr, 101);
    write_word(&mut de_stack_alloc, mem_0.ptr + 8, 111);
    let mem_1 = de_stack_alloc.alloc_raw(SOME_DATA_SIZE, 1, 0).unwrap();
    write_word(&mut de_stack_alloc, mem_1.ptr, 202);
    write_word(&mut de_stack_alloc, mem_1.ptr + 8, 222);
    assert_eq!(read_word(&de_stack_alloc, mem_0.ptr), 101);
    assert_eq!(read_word(&de_stack_alloc, mem_0.ptr + 8), 111);
    assert_eq!(read_word(&de_stack_alloc, mem_1.ptr), 202);
    assert_eq!(read_word(&de_stack_alloc, mem_1.ptr + 8), 222);
}

#[test]
fn back_allocation_do_not_invalidate_prev_ones() {
    let mut de_stack_alloc = DoubleEndedStackAllocator::new(10 * MB);
    let mem_0 = de_stack_alloc.alloc_raw_back(SOME_DATA_SIZE, 1, 0).unwrap();
    write_word(&mut de_stack_alloc, mem_0.ptr, 101);
    write_word(&mut de_stack_alloc, mem_0.ptr + 8, 111);
    let mem_1 = de_stack_alloc.alloc_raw_back(SOME_DATA_SIZE, 1, 0).unwrap();
    write_word(&mut de_stack_alloc, mem_1.ptr, 202);
    write_word(&mut de_stack_alloc, mem_1.ptr + 8, 222);
    assert_eq!(read_word(&de_stack_alloc, mem_0.ptr), 101);
    assert_eq!(read_word(&de_stack_alloc, mem_0.ptr + 8), 111);
    assert_eq!(read_word(&de_stack_alloc, mem_1.ptr), 202);
    assert_eq!(read_word(&de_stack_alloc, mem_1.ptr + 8), 222);
}

#[test]
fn front_and_back_payloads_stay_apart() {
    let mut de_stack_alloc = DoubleEndedStackAllocator::new(4096);
    let front = de_stack_alloc.alloc_raw(1000, 8, 0).unwrap();
    for i in 0..1000 {
        de_stack_alloc.write_u8(front.ptr + i, 0x11);
    }
    let back = de_stack_alloc.alloc_raw_back(1000, 8, 0).unwrap();
    for i in 0..1000 {
        de_stack_alloc.write_u8(back.ptr + i, 0x22);
    }
    assert!(front.ptr + 1000 <= back.ptr);
    for i in 0..1000 {
        assert_eq!(de_stack_alloc.read_u8(front.ptr + i), 0x11);
        assert_eq!(de_stack_alloc.read_u8(back.ptr + i), 0x22);
    }
    assert!(de_stack_alloc.front_cursor() <= de_stack_alloc.back_cursor());
}

#[test]
fn pool_allocator_single_allocation() {
    let mut pool_alloc = PoolAllocator::new(PARTICLE_SIZE, 10, 1, 0);
    let obj_0 = pool_alloc.alloc_raw(PARTICLE_SIZE, 1, 0);
    assert!(obj_0.is_some());
}

#[test]
fn pool_allocator_single_allocation_aligned() {
    let mut pool_alloc = PoolAllocator::new(PARTICLE_SIZE, 10, 16, 0);
    let obj_0 = pool_alloc.alloc_raw(PARTICLE_SIZE, 16, 0);
    assert!(obj_0.is_some());
    assert!(is_aligned_to(obj_0.unwrap().ptr, 16));
}

#[test]
fn pool_allocator_single_allocation_aligned_with_offset() {
    let mut pool_alloc = PoolAllocator::new(PARTICLE_SIZE + 8, 10, 32, 4);
    let obj_0 = pool_alloc.alloc_raw(PARTICLE_SIZE + 8, 32, 4);
    assert!(obj_0.is_some());
    let mem_block = obj_0.unwrap();
    assert!(!is_aligned_to(mem_block.ptr, 32));
    assert!(is_aligned_to(mem_block.ptr + 4, 32));
}

#[test]
fn pool_allocator_multiple_allocations() {
    let mut pool_alloc = PoolAllocator::new(PARTICLE_SIZE, 10, 1, 0);
    for _ in 0..3 {
        assert!(pool_alloc.alloc_raw(PARTICLE_SIZE, 1, 0).is_some());
    }
}

#[test]
fn multiple_allocations_aligned() {
    let mut pool_alloc = PoolAllocator::new(PARTICLE_SIZE, 10, 16, 0);
    for _ in 0..3 {
        let obj = pool_alloc.alloc_raw(PARTICLE_SIZE, 16, 0);
        assert!(obj.is_some());
        assert!(is_aligned_to(obj.unwrap().ptr, 16));
    }
}

#[test]
fn return_none_on_oom() {
    let mut pool_alloc = PoolAllocator::new(PARTICLE_SIZE, 10, 16, 0);
    for _ in 0..10 {
        let obj_0 = pool_alloc.alloc_raw(PARTICLE_SIZE, 16, 0);
        assert!(obj_0.is_some());
    }
    let obj_1 = pool_alloc.alloc_raw(PARTICLE_SIZE, 16, 0);
    assert!(obj_1.is_none());
}

#[test]
fn pool_allocator_allocation_do_not_invalidate_prev_ones() {
    let mut pool_alloc = PoolAllocator::new(PARTICLE_SIZE, 10, 16, 0);
    let mut part_vec_0: Vec<MemoryBlock> = Vec::new();
    for i in 0..5usize {
        let part_mem = pool_alloc.alloc_raw(PARTICLE_SIZE, 1, 0).unwrap();
        pool_alloc.write_u32(part_mem.ptr, (i as f32).to_bits());
        write_word(&mut pool_alloc, part_mem.ptr + 8, i as u64);
        part_vec_0.push(part_mem);
    }
    let mut part_vec_1: Vec<MemoryBlock> = Vec::new();
    for i in 5..10usize {
        let part_mem = pool_alloc.alloc_raw(PARTICLE_SIZE, 1, 0).unwrap();
        pool_alloc.write_u32(part_mem.ptr, (i as f32).to_bits());
        write_word(&mut pool_alloc, part_mem.ptr + 8, i as u64);
        part_vec_1.push(part_mem);
    }
    for idx in 0..5usize {
        let p0 = part_vec_0[idx].ptr;
        let p1 = part_vec_1[idx].ptr;
        assert!(f32::from_bits(pool_alloc.read_u32(p0)) == idx as f32, "Particle lifetime from vec 0 was corrupted");
        assert!(read_word(&pool_alloc, p0 + 8) == idx as u64, "Particle speed from vec 0 was corrupted");
        assert!(f32::from_bits(pool_alloc.read_u32(p1)) == (idx + 5) as f32, "Particle lifetime from vec 1 was corrupted");
        assert!(read_word(&pool_alloc, p1 + 8) == (idx + 5) as u64, "Particle speed from vec 1 was corrupted");
    }
}

#[test]
fn pool_exhaustion_and_recovery() {
    let mut pool_alloc = PoolAllocator::new(PARTICLE_SIZE, 10, 16, 0);
    let mut blocks: Vec<MemoryBlock> = Vec::new();
    for _ in 0..10 {
        let b = pool_alloc.alloc_raw(PARTICLE_SIZE, 16, 0).unwrap();
        assert!(is_aligned_to(b.ptr, 16));
        blocks.push(b);
    }
    assert!(pool_alloc.alloc_raw(PARTICLE_SIZE, 16, 0).is_none());
    let first = blocks[0];
    pool_alloc.dealloc_raw(first);
    let again = pool_alloc.alloc_raw(PARTICLE_SIZE, 16, 0).unwrap();
    assert_eq!(again.ptr, first.ptr);
}

#[test]
fn pool_reuse_keeps_allocating_while_under_count() {
    let mut pool_alloc = PoolAllocator::new(PARTICLE_SIZE, 4, 8, 0);
    let mut live: Vec<MemoryBlock> = Vec::new();
    for round in 0..50usize {
        if live.len() == 4 || (round % 3 == 2 && !live.is_empty()) {
            let b = live.remove(round % live.len());
            pool_alloc.dealloc_raw(b);
        } else {
            let b = pool_alloc.alloc_raw(PARTICLE_SIZE, 8, 0);
            assert!(b.is_some());
            live.push(b.unwrap());
        }
    }
}

#[test]
fn pool_records_size_and_resets() {
    let mut pool_alloc = PoolAllocator::new(PARTICLE_SIZE, 2, 8, 0);
    let a = pool_alloc.alloc_raw(12, 8, 0).unwrap();
    assert_eq!(pool_alloc.get_allocation_size(&a), 12);
    let _b = pool_alloc.alloc_raw(16, 8, 0).unwrap();
    assert!(pool_alloc.free_count_is_zero());
    pool_alloc.reset();
    assert!(!pool_alloc.free_count_is_zero());
    let c = pool_alloc.alloc_raw(4, 8, 0).unwrap();
    assert_eq!(c.ptr, a.ptr);
}

#[test]
fn memory_block_empty_and_new() {
    assert!(MemoryBlock::empty().is_empty());
    let b = MemoryBlock::new(64);
    assert!(!b.is_empty());
    assert_eq!(b.ptr, 64);
}

#[test]
fn front_allocation_counts_only_the_block() {
    // The block fits below the back cursor although its aligned position
    // plus the offset does not.
    let mut de_stack_alloc = DoubleEndedStackAllocator::new(4096);
    let back = de_stack_alloc.alloc_raw_back(4096 - 64, 1, 0).unwrap();
    let room = de_stack_alloc.back_cursor() - de_stack_alloc.front_cursor() - 12;
    let front = de_stack_alloc.alloc_raw(room, 1, 32);
    assert!(front.is_some());
    assert!(front.unwrap().ptr + room <= back.ptr - 12);
    assert!(de_stack_alloc.alloc_raw(1, 1, 0).is_none());
}
