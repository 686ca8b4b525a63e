//! Hardware-facing core of a multi-core RISC-V supervisor-mode kernel:
//! Sv39 address types and page tables, physical frame allocation, trap
//! cause decoding and dispatch policy, and the platform-level interrupt
//! controller (PLIC) protocol.
//!
//! Machine registers and raw physical memory are reached only from the
//! unverified shell around this crate; here every structure owns its
//! state outright, so each operation carries a full functional contract.
//! Register-sized machine values are held as `u64`, the width of the
//! target architecture.

pub mod address;
pub mod board;
pub mod boot;
pub mod chardev;
pub mod config;
pub mod frame_allocator;
pub mod hal;
pub mod kvm;
pub mod page_table;
pub mod plic;
pub mod pte;
pub mod trap;
