//! Reaching physical memory through the kernel's linear mapping.

use crate::kernel::memory::addr::{is_canonical, PhysAddr, VirtAddr};
use vstd::prelude::*;

verus! {

/// Converts a physical address into the virtual address at which the kernel
/// sees it. All of physical memory is mapped linearly, starting at a fixed
/// offset chosen at boot.
pub struct AddressTranslator {
    physical_memory_offset: VirtAddr,
}

impl AddressTranslator {
    /// The virtual address at which physical address 0 is mapped.
    pub closed spec fn offset(&self) -> u64 {
        self.physical_memory_offset@
    }

    /// Whether the linear mapping reaches physical address `addr`: the sum
    /// of offset and address is a canonical virtual address.
    pub open spec fn reaches(&self, addr: u64) -> bool {
        self.offset() + addr <= u64::MAX && is_canonical((self.offset() + addr) as u64)
    }

    /// A translator for the linear mapping that starts at
    /// `physical_memory_offset`.
    pub fn new(physical_memory_offset: VirtAddr) -> (r: Self)
        ensures
            r.offset() == physical_memory_offset@,
    {
        Self { physical_memory_offset }
    }

    /// Whether `addr` can be translated.
    pub fn can_translate(&self, addr: PhysAddr) -> (r: bool)
        ensures
            r == self.reaches(addr@),
    {
        let offset: u64 = self.physical_memory_offset.as_u64();
        let a: u64 = addr.as_u64();
        if offset > u64::MAX - a {
            false
        } else {
            let sum: u64 = offset + a;
            sum < 0x8000_0000_0000 || sum >= 0xffff_8000_0000_0000
        }
    }

    /// The virtual address of physical address `addr`: offset plus address.
    pub fn physical_to_virtual(&self, addr: PhysAddr) -> (r: VirtAddr)
        requires
            self.reaches(addr@),
        ensures
            r@ == self.offset() + addr@,
    {
        VirtAddr::new(self.physical_memory_offset.as_u64() + addr.as_u64())
    }
}

} // verus!
