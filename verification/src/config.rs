//! Platform configuration shared across the kernel core.

use vstd::prelude::*;

use crate::address::PAGE_SIZE;

verus! {

/// Bytes reserved for the kernel heap.
pub const KERNEL_HEAP_SIZE: u64 = 0x100_0000;

/// Exclusive top of usable physical memory.
pub const MEMORY_END: u64 = 0x8800_0000;

/// Boot stack bytes per hart.
pub const PER_STACK_SIZE: u64 = 4096 * 8;

/// Largest number of harts the boot stack provides for.
pub const NCPU: u64 = 16;

/// Highest virtual page, kept for a trampoline mapping.
pub const TRAMPOLINE: u64 = u64::MAX - PAGE_SIZE + 1;

} // verus!
