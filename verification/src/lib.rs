//! Memory-management core of a small x86-64 kernel: a physical frame
//! allocator, the partition of the virtual address space, a record of the
//! active page mappings, demand paging of kernel memory, and the
//! interrupt-aware locking discipline that guards them.

pub mod kernel;
pub mod util;
