//! Allocation strategies over a reserved range of address space (linear,
//! stack, double-ended stack and pool), bounds-checking policies that put
//! sentinel words around each block, realms that compose the two, and
//! containers built on reserved memory: a growable vector, a generational
//! handle map and a ring buffer.
//!
//! Memory is modelled as a reservation whose committed pages are plain bytes;
//! every allocator hands out addresses inside its own reservation.

pub mod math_util;
pub mod pointer_util;
pub mod virtual_mem;
pub mod base;
pub mod linear_allocator;
pub mod stack_allocator;
pub mod double_ended_stack_allocator;
pub mod freelist;
pub mod pool_allocator;
pub mod bounds_checker;
pub mod memory_realm;
pub mod ringbuffer;
pub mod vector;
pub mod handlemap;
