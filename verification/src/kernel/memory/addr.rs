//! Physical and virtual addresses, and the 4 KiB frames and pages that hold
//! them.

use vstd::prelude::*;

verus! {

/// Size of a physical frame and of a virtual page, in bytes.
pub const PAGE_SIZE: u64 = 4096;

/// A physical address uses at most 52 bits.
pub open spec fn is_physical(addr: u64) -> bool {
    addr < 0x10_0000_0000_0000
}

/// A virtual address is canonical when bits 48 to 63 repeat bit 47.
pub open spec fn is_canonical(addr: u64) -> bool {
    addr < 0x8000_0000_0000 || addr >= 0xffff_8000_0000_0000
}

/// `addr` rounded down to a multiple of the page size.
pub open spec fn page_floor(addr: u64) -> u64 {
    (addr - addr % PAGE_SIZE) as u64
}

/// Rounding a canonical address down to a page boundary keeps it canonical,
/// and rounding a physical address down keeps it physical.
pub proof fn lemma_page_floor_valid(addr: u64)
    ensures
        page_floor(addr) <= addr,
        page_floor(addr) % PAGE_SIZE == 0,
        is_canonical(addr) ==> is_canonical(page_floor(addr)),
        is_physical(addr) ==> is_physical(page_floor(addr)),
{
    assert(0x8000_0000_0000u64 % 4096 == 0);
    assert(0xffff_8000_0000_0000u64 % 4096 == 0);
    if addr >= 0xffff_8000_0000_0000 {
        assert(addr - addr % 4096 >= 0xffff_8000_0000_0000) by (nonlinear_arith)
            requires
                addr >= 0xffff_8000_0000_0000,
                0xffff_8000_0000_0000u64 % 4096 == 0,
        ;
    }
}

/// A physical memory address.
#[derive(Clone, Copy, Debug, PartialEq, Eq, Structural)]
pub struct PhysAddr(u64);

impl View for PhysAddr {
    type V = u64;

    closed spec fn view(&self) -> u64 {
        self.0
    }
}

impl PhysAddr {
    #[verifier::type_invariant]
    closed spec fn valid(self) -> bool {
        is_physical(self.0)
    }

    /// The physical address `addr`, which must fit in 52 bits.
    pub fn new(addr: u64) -> (r: PhysAddr)
        requires
            is_physical(addr),
        ensures
            r@ == addr,
    {
        PhysAddr(addr)
    }

    /// The address as a number.
    pub fn as_u64(self) -> (r: u64)
        ensures
            r == self@,
            is_physical(r),
    {
        proof {
            use_type_invariant(&self);
        }
        self.0
    }
}

/// A canonical virtual memory address.
#[derive(Clone, Copy, Debug, PartialEq, Eq, Structural)]
pub struct VirtAddr(u64);

impl View for VirtAddr {
    type V = u64;

    closed spec fn view(&self) -> u64 {
        self.0
    }
}

impl VirtAddr {
    #[verifier::type_invariant]
    closed spec fn valid(self) -> bool {
        is_canonical(self.0)
    }

    /// The virtual address `addr`, which must be canonical.
    pub fn new(addr: u64) -> (r: VirtAddr)
        requires
            is_canonical(addr),
        ensures
            r@ == addr,
    {
        VirtAddr(addr)
    }

    /// The address as a number.
    pub fn as_u64(self) -> (r: u64)
        ensures
            r == self@,
            is_canonical(r),
    {
        proof {
            use_type_invariant(&self);
        }
        self.0
    }
}

/// A 4 KiB frame of physical memory, known by the address of its first byte.
#[derive(Clone, Copy, Debug, PartialEq, Eq, Structural)]
pub struct PhysFrame {
    start_address: PhysAddr,
}

impl PhysFrame {
    #[verifier::type_invariant]
    closed spec fn valid(self) -> bool {
        self.start_address@ % PAGE_SIZE == 0 && is_physical(self.start_address@)
    }

    /// The address of the first byte of the frame.
    pub closed spec fn start(self) -> u64 {
        self.start_address@
    }

    /// The frame that holds `address`.
    pub fn containing_address(address: PhysAddr) -> (r: PhysFrame)
        ensures
            r.start() == page_floor(address@),
    {
        let a: u64 = address.as_u64();
        proof {
            lemma_page_floor_valid(a);
        }
        PhysFrame { start_address: PhysAddr::new(a - a % PAGE_SIZE) }
    }

    /// The address of the first byte of the frame.
    pub fn start_address(self) -> (r: PhysAddr)
        ensures
            r@ == self.start(),
            r@ % PAGE_SIZE == 0,
            is_physical(r@),
    {
        proof {
            use_type_invariant(&self);
        }
        self.start_address
    }
}

/// A 4 KiB page of virtual memory, known by the address of its first byte.
#[derive(Clone, Copy, Debug, PartialEq, Eq, Structural)]
pub struct Page {
    start_address: VirtAddr,
}

impl Page {
    #[verifier::type_invariant]
    closed spec fn valid(self) -> bool {
        self.start_address@ % PAGE_SIZE == 0 && is_canonical(self.start_address@)
    }

    /// The address of the first byte of the page.
    pub closed spec fn start(self) -> u64 {
        self.start_address@
    }

    /// The number of the page: its start address divided by the page size.
    pub open spec fn number(self) -> u64 {
        self.start() / PAGE_SIZE
    }

    /// The page that holds `address`.
    pub fn containing_address(address: VirtAddr) -> (r: Page)
        ensures
            r.start() == page_floor(address@),
    {
        let a: u64 = address.as_u64();
        proof {
            lemma_page_floor_valid(a);
        }
        Page { start_address: VirtAddr::new(a - a % PAGE_SIZE) }
    }

    /// The address of the first byte of the page.
    pub fn start_address(self) -> (r: VirtAddr)
        ensures
            r@ == self.start(),
            r@ % PAGE_SIZE == 0,
            is_canonical(r@),
    {
        proof {
            use_type_invariant(&self);
        }
        self.start_address
    }

    /// The page `count` pages after this one. The result must still be a
    /// canonical address.
    pub fn offset(self, count: u64) -> (r: Page)
        requires
            self.start() + count * PAGE_SIZE <= u64::MAX,
            is_canonical((self.start() + count * PAGE_SIZE) as u64),
        ensures
            r.start() == self.start() + count * PAGE_SIZE,
    {
        proof {
            use_type_invariant(&self);
        }
        let a: u64 = self.start_address.as_u64();
        assert(count * PAGE_SIZE <= u64::MAX) by (nonlinear_arith)
            requires
                a + count * PAGE_SIZE <= u64::MAX,
        ;
        let b: u64 = a + count * PAGE_SIZE;
        assert(b % PAGE_SIZE == 0) by (nonlinear_arith)
            requires
                b == a + count * 4096,
                a % 4096 == 0,
                PAGE_SIZE == 4096,
        ;
        Page { start_address: VirtAddr::new(b) }
    }
}

/// A run of consecutive pages, from `start` up to but not including `end`.
#[derive(Clone, Copy, Debug, PartialEq, Eq, Structural)]
pub struct PageRange {
    /// The first page of the range.
    pub start: Page,
    /// The page just past the last page of the range.
    pub end: Page,
}

} // verus!
