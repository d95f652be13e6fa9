//! Virtual addresses and page permissions.

use vstd::prelude::*;

verus! {

/// Bytes in one page.
pub const PAGE_SIZE: usize = 4096;

/// An address in a task's address space.
#[derive(Clone, Copy, PartialEq, Eq, Structural, Debug)]
pub struct VirtAddr(pub usize);

impl From<usize> for VirtAddr {
    fn from(v: usize) -> (addr: Self) {
        VirtAddr(v)
    }
}

impl vstd::std_specs::convert::FromSpecImpl<usize> for VirtAddr {
    open spec fn obeys_from_spec() -> bool {
        true
    }

    open spec fn from_spec(v: usize) -> Self {
        VirtAddr(v)
    }
}

impl VirtAddr {
    /// Distance from the start of the page.
    pub fn page_offset(&self) -> (offset: usize)
        ensures
            offset == self.0 % PAGE_SIZE,
    {
        self.0 % PAGE_SIZE
    }
}

/// What a mapping allows: reading (bit 1), writing (bit 2), executing (bit 3) and
/// access from user mode (bit 4).
#[derive(Clone, Copy, PartialEq, Eq, Structural, Debug)]
pub struct MapPermission {
    pub bits: u8,
}

impl MapPermission {
    pub open spec fn readable(self) -> bool {
        self.bits & 2 != 0
    }

    pub open spec fn writable(self) -> bool {
        self.bits & 4 != 0
    }

    pub open spec fn executable(self) -> bool {
        self.bits & 8 != 0
    }

    pub open spec fn user(self) -> bool {
        self.bits & 16 != 0
    }
}

} // verus!
