//! Memory-management core of a small x86_64 kernel: the address-space layout,
//! the physical frame allocator, the planning of page-table mappings and the
//! size-class heap allocator, each with a machine-checked contract.

pub mod meta;
pub mod memory;
pub mod allocator;
pub mod exceptions;
pub mod gdt;
pub mod idt;
pub mod arch;
pub mod multiboot;
