use vstd::prelude::*;

use crate::memory::{
    pages_free, range_mappings, PageTableWrapper, PAGE_SIZE, PRESENT, WRITABLE,
};

verus! {

/// Start of the kernel heap.
pub const HEAP_BASE: u64 = 0x4444_0000_0000;

/// Number of pages of the kernel heap (32 MiB).
pub const HEAP_PAGES: usize = 8192;

/// Size in bytes of the kernel heap.
pub const HEAP_SIZE: u64 = 0x200_0000;

/// Flags of the kernel heap's pages.
pub const HEAP_FLAGS: u64 = 0x3;

/// The kernel heap: its region, and whether it is mapped and ready to hand
/// to the allocator.
pub struct KernelHeap {
    base: u64,
    size: u64,
    ready: bool,
}

impl KernelHeap {
    pub closed spec fn ready_spec(&self) -> bool {
        self.ready
    }

    pub closed spec fn base_spec(&self) -> u64 {
        self.base
    }

    pub closed spec fn size_spec(&self) -> u64 {
        self.size
    }

    /// Start of the heap region.
    pub fn base(&self) -> (r: u64)
        ensures
            r == self.base_spec(),
    {
        self.base
    }

    /// Size in bytes of the heap region.
    pub fn size(&self) -> (r: u64)
        ensures
            r == self.size_spec(),
    {
        self.size
    }

    /// A heap not set up yet.
    pub fn new() -> (r: Self)
        ensures
            !r.ready_spec(),
            r.base_spec() == HEAP_BASE,
            r.size_spec() == HEAP_SIZE,
    {
        KernelHeap { base: HEAP_BASE, size: HEAP_SIZE, ready: false }
    }
}

/// Maps the kernel heap in the kernel's address space, its pages on
/// `frames` (one each, in order) as present and writable, and marks it
/// ready.
pub fn init(kernel: &mut PageTableWrapper, frames: &Vec<u64>, heap: &mut KernelHeap)
    requires
        old(kernel).wf(),
        frames@.len() == HEAP_PAGES,
        pages_free(
            old(kernel).mappings_spec(),
            (HEAP_BASE / PAGE_SIZE) as int,
            (HEAP_BASE / PAGE_SIZE) + HEAP_PAGES,
        ),
    ensures
        final(kernel).wf(),
        final(kernel).root_spec() == old(kernel).root_spec(),
        final(kernel).is_user_spec() == old(kernel).is_user_spec(),
        final(kernel).mappings_spec() == old(kernel).mappings_spec() + range_mappings(
            (HEAP_BASE / PAGE_SIZE) as int,
            frames@,
            HEAP_FLAGS,
        ),
        final(heap).ready_spec(),
        final(heap).base_spec() == old(heap).base_spec(),
        final(heap).size_spec() == old(heap).size_spec(),
{
    assert(PRESENT | WRITABLE == HEAP_FLAGS) by (bit_vector);
    kernel.map_range(HEAP_BASE / PAGE_SIZE, frames, HEAP_PAGES, PRESENT | WRITABLE);
    assert(frames@.take(HEAP_PAGES as int) =~= frames@);
    heap.ready = true;
}

/// Whether the kernel heap is set up.
pub fn initialized(heap: &KernelHeap) -> (r: bool)
    ensures
        r == heap.ready_spec(),
{
    heap.ready
}

} // verus!
