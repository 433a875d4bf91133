//! A verified model of a minimal cooperative RISC-V Sv32 kernel: address
//! primitives, a bump frame allocator, two-level page tables, a fixed process
//! table with callee-saved context switching, a round-robin scheduler, an SBI
//! debug console, supervisor trap and syscall dispatch, a legacy VirtIO block
//! driver, and a tar-formatted file store.
//!
//! Hardware effects (MMIO registers, the block device, the console, CPU
//! registers and kernel stacks) are modelled as plain values held by the
//! kernel state, so that every decision the kernel makes is a verified
//! function over that state.

pub mod address;
pub mod allocator;
pub mod kernel;
pub mod page;
pub mod process;
pub mod sbi;
pub mod scheduler;
pub mod tar;
pub mod trap;
pub mod user;
pub mod virtio;
