use vstd::prelude::*;

verus! {

/// Size of a page and of a physical frame.
pub const PAGE_SIZE: u64 = 4096;

/// Entry flag: the mapping is present.
pub const PRESENT: u64 = 0x1;

/// Entry flag: the page may be written.
pub const WRITABLE: u64 = 0x2;

/// Entry flag: the page may be accessed at user privilege.
pub const USER_ACCESSIBLE: u64 = 0x4;

/// Entry flag: no instruction may be fetched from the page.
pub const NO_EXECUTE: u64 = 0x8000_0000_0000_0000;

/// Flags of every page the kernel maps for a user task's data.
pub const USER_DATA_FLAGS: u64 = 0x8000_0000_0000_0007;

/// `a` rounded up to the next multiple of the page size.
pub open spec fn align_up_spec(a: int) -> int {
    if a % (PAGE_SIZE as int) == 0 {
        a
    } else {
        a - a % (PAGE_SIZE as int) + PAGE_SIZE
    }
}

/// One installed translation: virtual page number to physical frame number.
#[derive(Debug, Clone, Copy, PartialEq, Eq, Structural)]
pub struct Mapping {
    pub page: u64,
    pub frame: u64,
    pub flags: u64,
}

/// One past the last page of the lower canonical half (addresses below
/// 2^47).
pub const LOWER_HALF_PAGES: u64 = 0x8_0000_0000;

/// First page of the upper canonical half (addresses from
/// 0xffff_8000_0000_0000).
pub const UPPER_HALF_FIRST_PAGE: u64 = 0xf_fff8_0000_0000;

/// Whether page `page` holds canonical addresses.
pub open spec fn canonical_page(page: int) -> bool {
    (0 <= page < LOWER_HALF_PAGES) || (UPPER_HALF_FIRST_PAGE <= page < 0x10_0000_0000_0000)
}

/// Whether every mapping translates a canonical page.
pub open spec fn pages_canonical(m: Seq<Mapping>) -> bool {
    forall|i: int| 0 <= i < m.len() ==> canonical_page((#[trigger] m[i]).page as int)
}

/// Whether every page from `first` up to (not including) `last` is
/// canonical.
pub open spec fn range_canonical(first: int, last: int) -> bool {
    forall|p: int| first <= p < last ==> #[trigger] canonical_page(p)
}

/// Whether `flags` grant user-privilege access.
pub open spec fn is_user_flags(flags: u64) -> bool {
    flags & USER_ACCESSIBLE != 0
}

/// Whether some mapping translates `page`.
pub open spec fn is_mapped(m: Seq<Mapping>, page: int) -> bool {
    exists|i: int| 0 <= i < m.len() && m[i].page == page
}

/// Whether `page` is mapped, and its mapping grants user access.
pub open spec fn page_user_accessible(m: Seq<Mapping>, page: int) -> bool {
    exists|i: int| 0 <= i < m.len() && m[i].page == page && is_user_flags(m[i].flags)
}

/// Whether every byte of `[base, base + len)` lies in the user-accessible
/// mapped pages of `m`.
pub open spec fn range_user_accessible(m: Seq<Mapping>, base: int, len: int) -> bool {
    len == 0 || (base + len - 1 <= u64::MAX && forall|p: int|
        base / (PAGE_SIZE as int) <= p <= (base + len - 1) / (PAGE_SIZE as int)
            ==> #[trigger] page_user_accessible(m, p))
}

/// Whether no page is translated twice.
pub open spec fn pages_distinct(m: Seq<Mapping>) -> bool {
    forall|i: int, j: int| 0 <= i < j < m.len() ==> m[i].page != m[j].page
}

/// Whether no page from `first` up to (not including) `last` is mapped.
pub open spec fn pages_free(m: Seq<Mapping>, first: int, last: int) -> bool {
    forall|p: int| first <= p < last ==> !#[trigger] is_mapped(m, p)
}

/// The mappings that give the pages from `first` on the frames `frames`,
/// one each, with `flags`.
pub open spec fn range_mappings(first: int, frames: Seq<u64>, flags: u64) -> Seq<Mapping> {
    Seq::new(frames.len(), |k: int| Mapping { page: (first + k) as u64, frame: frames[k], flags })
}

/// An address space: the frame of its top-level table, the translations it
/// holds, and, for a user address space, every frame issued to it (released
/// together with it).
pub struct PageTableWrapper {
    root_frame: u64,
    user: bool,
    mappings: Vec<Mapping>,
    allocated: Vec<u64>,
}

impl PageTableWrapper {
    pub closed spec fn root_spec(&self) -> u64 {
        self.root_frame
    }

    pub closed spec fn is_user_spec(&self) -> bool {
        self.user
    }

    pub closed spec fn mappings_spec(&self) -> Seq<Mapping> {
        self.mappings@
    }

    /// The frames issued to this address space, which it releases when it is
    /// dropped; always empty for the kernel's.
    pub closed spec fn allocated_spec(&self) -> Seq<u64> {
        self.allocated@
    }

    pub open spec fn wf(&self) -> bool {
        &&& pages_distinct(self.mappings_spec())
        &&& pages_canonical(self.mappings_spec())
        &&& !self.is_user_spec() ==> self.allocated_spec().len() == 0
    }

    /// The kernel's address space, rooted at the table the CPU runs on at
    /// boot, with the translations the boot loader installed. Its frames are
    /// permanent.
    pub fn kernel(root_frame: u64, boot_mappings: &Vec<Mapping>) -> (r: Self)
        requires
            pages_distinct(boot_mappings@),
            pages_canonical(boot_mappings@),
        ensures
            r.wf(),
            r.root_spec() == root_frame,
            !r.is_user_spec(),
            r.mappings_spec() == boot_mappings@,
    {
        let mappings = copy_mappings(boot_mappings);
        PageTableWrapper { root_frame, user: false, mappings, allocated: Vec::new() }
    }

    /// A fresh user address space whose top-level table sits in `root_frame`
    /// and starts as a copy of the kernel's, so that every kernel mapping is
    /// shared. The root frame is released with the address space.
    pub fn new_user(root_frame: u64, kernel: &PageTableWrapper) -> (r: Self)
        requires
            kernel.wf(),
        ensures
            r.wf(),
            r.root_spec() == root_frame,
            r.is_user_spec(),
            r.mappings_spec() == kernel.mappings_spec(),
            r.allocated_spec() == seq![root_frame],
    {
        let mappings = copy_mappings(&kernel.mappings);
        let mut allocated: Vec<u64> = Vec::new();
        allocated.push(root_frame);
        PageTableWrapper { root_frame, user: true, mappings, allocated }
    }

    /// The frame of the top-level table, which loading this address space
    /// writes to the page-table register.
    pub fn root_frame(&self) -> (r: u64)
        ensures
            r == self.root_spec(),
    {
        self.root_frame
    }

    pub fn is_user(&self) -> (r: bool)
        ensures
            r == self.is_user_spec(),
    {
        self.user
    }

    /// The frames this address space releases when it is dropped.
    pub fn into_allocated(self) -> (r: Vec<u64>)
        ensures
            r@ == self.allocated_spec(),
    {
        self.allocated
    }

    /// Whether `page` is translated.
    pub fn is_page_mapped(&self, page: u64) -> (r: bool)
        ensures
            r == is_mapped(self.mappings_spec(), page as int),
    {
        let mut i: usize = 0;
        while i < self.mappings.len()
            invariant
                0 <= i <= self.mappings@.len(),
                forall|j: int| 0 <= j < i ==> self.mappings@[j].page != page,
            decreases self.mappings@.len() - i,
        {
            if self.mappings[i].page == page {
                return true;
            }
            i = i + 1;
        }
        false
    }

    /// Whether `page` is translated with user access.
    pub fn is_page_user_accessible(&self, page: u64) -> (r: bool)
        ensures
            r == page_user_accessible(self.mappings_spec(), page as int),
    {
        let mut i: usize = 0;
        while i < self.mappings.len()
            invariant
                0 <= i <= self.mappings@.len(),
                forall|j: int|
                    0 <= j < i ==> !(self.mappings@[j].page == page && is_user_flags(
                        self.mappings@[j].flags,
                    )),
            decreases self.mappings@.len() - i,
        {
            let m = self.mappings[i];
            if m.page == page && m.flags & USER_ACCESSIBLE != 0 {
                return true;
            }
            i = i + 1;
        }
        false
    }

    /// Installs the translation of `page` to `frame`.
    pub fn map_to(&mut self, page: u64, frame: u64, flags: u64)
        requires
            old(self).wf(),
            !is_mapped(old(self).mappings_spec(), page as int),
            canonical_page(page as int),
        ensures
            final(self).wf(),
            final(self).mappings_spec() == old(self).mappings_spec().push(
                Mapping { page, frame, flags },
            ),
            final(self).root_spec() == old(self).root_spec(),
            final(self).is_user_spec() == old(self).is_user_spec(),
            final(self).allocated_spec() == old(self).allocated_spec(),
    {
        self.mappings.push(Mapping { page, frame, flags });
        assert forall|i: int| 0 <= i < self.mappings@.len() implies canonical_page(
            (#[trigger] self.mappings@[i]).page as int,
        ) by {
            if i < old(self).mappings@.len() {
                assert(canonical_page(old(self).mappings@[i].page as int));
            }
        }
    }

    /// Maps `page` to a frame just taken from the frame allocator; `frame`
    /// is what the allocator handed out, `None` when it had no frame left.
    /// A user address space records the frame so that it is released with
    /// it. Returns the frame used, or `None` (nothing changed) on `None`.
    pub fn allocate_and_map_to(&mut self, page: u64, flags: u64, frame: Option<u64>) -> (r: Option<
        u64,
    >)
        requires
            old(self).wf(),
            !is_mapped(old(self).mappings_spec(), page as int),
            canonical_page(page as int),
        ensures
            final(self).wf(),
            r == frame,
            final(self).root_spec() == old(self).root_spec(),
            final(self).is_user_spec() == old(self).is_user_spec(),
            match frame {
                None => *final(self) == *old(self),
                Some(f) => {
                    &&& final(self).mappings_spec() == old(self).mappings_spec().push(
                        Mapping { page, frame: f, flags },
                    )
                    &&& final(self).allocated_spec() == if old(self).is_user_spec() {
                        old(self).allocated_spec().push(f)
                    } else {
                        old(self).allocated_spec()
                    }
                },
            },
    {
        match frame {
            None => None,
            Some(f) => {
                if self.user {
                    self.allocated.push(f);
                }
                self.map_to(page, f, flags);
                Some(f)
            },
        }
    }

    /// Maps `count` pages from page `first` on the first `count` frames of
    /// `frames`, which the frame allocator handed out, with `flags`.
    pub fn map_range(&mut self, first: u64, frames: &Vec<u64>, count: usize, flags: u64)
        requires
            old(self).wf(),
            count <= frames@.len(),
            first + count <= u64::MAX,
            pages_free(old(self).mappings_spec(), first as int, first + count),
            range_canonical(first as int, first + count),
        ensures
            final(self).wf(),
            final(self).is_user_spec() == old(self).is_user_spec(),
            final(self).root_spec() == old(self).root_spec(),
            final(self).mappings_spec() == old(self).mappings_spec() + range_mappings(
                first as int,
                frames@.take(count as int),
                flags,
            ),
            final(self).allocated_spec() == if old(self).is_user_spec() {
                old(self).allocated_spec() + frames@.take(count as int)
            } else {
                old(self).allocated_spec()
            },
    {
        let mut k: usize = 0;
        while k < count
            invariant
                k <= count,
                count <= frames@.len(),
                first + count <= u64::MAX,
                self.wf(),
                self.is_user_spec() == old(self).is_user_spec(),
                self.root_spec() == old(self).root_spec(),
                self.mappings_spec() == old(self).mappings_spec() + range_mappings(
                    first as int,
                    frames@.take(k as int),
                    flags,
                ),
                self.allocated_spec() == if old(self).is_user_spec() {
                    old(self).allocated_spec() + frames@.take(k as int)
                } else {
                    old(self).allocated_spec()
                },
                pages_free(old(self).mappings_spec(), first as int, first + count),
                range_canonical(first as int, first + count),
            decreases count - k,
        {
            let ghost m = self.mappings_spec();
            let page = first + k as u64;
            assert(!is_mapped(m, page as int)) by {
                assert(!is_mapped(old(self).mappings_spec(), page as int));
                if is_mapped(m, page as int) {
                    let i = choose|i: int| 0 <= i < m.len() && m[i].page == page as int;
                    if i >= old(self).mappings_spec().len() {
                        let j = i - old(self).mappings_spec().len();
                        assert(m[i] == range_mappings(first as int, frames@.take(k as int), flags)[j]);
                    }
                }
            }
            let f = frames[k];
            assert(canonical_page(page as int));
            let _ = self.allocate_and_map_to(page, flags, Some(f));
            k = k + 1;
            assert(self.mappings_spec() =~= old(self).mappings_spec() + range_mappings(
                first as int,
                frames@.take(k as int),
                flags,
            ));
            assert(old(self).is_user_spec() ==> self.allocated_spec() =~= old(self).allocated_spec()
                + frames@.take(k as int));
        }
    }

    /// Whether every byte of `[base, base + len)` is mapped with user access;
    /// always true for an empty range.
    pub fn check_user_accessible(&self, base: u64, len: u64) -> (r: bool)
        ensures
            r == range_user_accessible(self.mappings_spec(), base as int, len as int),
            r ==> forall|a: int|
                base <= a < base + len ==> #[trigger] page_user_accessible(
                    self.mappings_spec(),
                    a / (PAGE_SIZE as int),
                ),
            self.wf() && r ==> forall|a: int|
                base <= a < base + len ==> #[trigger] canonical_page(a / (PAGE_SIZE as int)),
    {
        if len == 0 {
            return true;
        }
        if base > u64::MAX - (len - 1) {
            return false;
        }
        let first = base / PAGE_SIZE;
        let last = (base + (len - 1)) / PAGE_SIZE;
        let mut p = first;
        while p <= last
            invariant
                first <= p <= last + 1,
                last < u64::MAX,
                len > 0,
                first == base / PAGE_SIZE,
                base + (len - 1) <= u64::MAX,
                last as int == (base + (len - 1)) / (PAGE_SIZE as int),
                forall|q: int| first <= q < p ==> page_user_accessible(self.mappings_spec(), q),
            decreases last + 1 - p,
        {
            if !self.is_page_user_accessible(p) {
                assert(!page_user_accessible(self.mappings_spec(), p as int));
                return false;
            }
            p = p + 1;
        }
        assert forall|a: int| base <= a < base + len implies #[trigger] page_user_accessible(
            self.mappings_spec(),
            a / (PAGE_SIZE as int),
        ) by {
            assert(first <= a / (PAGE_SIZE as int) <= last) by (nonlinear_arith)
                requires
                    base <= a <= base + len - 1,
                    first == base / 4096,
                    last == (base + len - 1) / 4096,
            ;
        }
        assert forall|a: int| self.wf() && base <= a < base + len implies #[trigger] canonical_page(
            a / (PAGE_SIZE as int),
        ) by {
            let p = a / (PAGE_SIZE as int);
            assert(page_user_accessible(self.mappings_spec(), p));
            let i = choose|i: int|
                0 <= i < self.mappings_spec().len() && self.mappings_spec()[i].page == p
                    && is_user_flags(self.mappings_spec()[i].flags);
            assert(canonical_page(self.mappings_spec()[i].page as int));
        }
        true
    }
}

fn copy_mappings(src: &Vec<Mapping>) -> (r: Vec<Mapping>)
    ensures
        r@ == src@,
{
    let mut r: Vec<Mapping> = Vec::new();
    let mut i: usize = 0;
    while i < src.len()
        invariant
            0 <= i <= src@.len(),
            r@ == src@.take(i as int),
        decreases src@.len() - i,
    {
        r.push(src[i]);
        i = i + 1;
        assert(r@ =~= src@.take(i as int));
    }
    assert(src@.take(src@.len() as int) =~= src@);
    r
}

/// `addr` rounded up to the next page boundary; `None` when that would pass
/// the end of the address space.
pub fn align_up(addr: u64) -> (r: Option<u64>)
    ensures
        match r {
            Some(a) => a as int == align_up_spec(addr as int),
            None => align_up_spec(addr as int) > u64::MAX,
        },
{
    let rem = addr % PAGE_SIZE;
    if rem == 0 {
        Some(addr)
    } else if addr - rem > u64::MAX - PAGE_SIZE {
        None
    } else {
        Some(addr - rem + PAGE_SIZE)
    }
}

} // verus!
