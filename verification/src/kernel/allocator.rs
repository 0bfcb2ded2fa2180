//! The physical page allocator: a bitmap over a pool of 4 KiB pages.
use vstd::prelude::*;

verus! {

/// The first address of the page pool (QEMU `virt` RAM starts at 0x8000_0000 and
/// the kernel is loaded at 0x8020_0000).
pub const POOL_START: usize = 0x8800_0000;
/// The size of the pool: 4 MiB.
pub const POOL_SIZE: usize = 0x40_0000;
pub const PAGE_SIZE: usize = 4096;
/// The number of pages in the pool.
pub const NUM_PAGES: usize = 1024;
/// The number of bytes of the bitmap, one bit per page.
pub const BITMAP_SIZE: usize = 128;

/// Bit `k` of byte `b`.
pub open spec fn bit_of(b: u8, k: u8) -> bool {
    (b >> k) & 1u8 == 1u8
}

/// The address of page `i` of the pool.
pub open spec fn page_addr(i: int) -> int {
    POOL_START + i * PAGE_SIZE
}

/// The lowest free page at index `i` or above, if any.
pub open spec fn first_free_from(v: Seq<bool>, i: int) -> Option<int>
    decreases v.len() - i,
{
    if i < 0 || i >= v.len() {
        None
    } else if !v[i] {
        Some(i)
    } else {
        first_free_from(v, i + 1)
    }
}

/// What allocating one page does to the set of used pages: the lowest free page
/// becomes used and is handed out; when every page is used nothing changes.
pub open spec fn spec_allocate(v: Seq<bool>) -> (Option<int>, Seq<bool>) {
    match first_free_from(v, 0) {
        Some(i) => (Some(i), v.update(i, true)),
        None => (None, v),
    }
}

/// What freeing the page at `addr` does: a page-pool address frees the page that
/// holds it; any other address changes nothing.
pub open spec fn spec_deallocate(v: Seq<bool>, addr: int) -> Seq<bool> {
    if addr < POOL_START || addr >= POOL_START + POOL_SIZE {
        v
    } else {
        v.update((addr - POOL_START) / PAGE_SIZE as int, false)
    }
}

/// A bitmap allocator of the pages of the pool.
pub struct BitmapAllocator {
    /// Bit `i % 8` of byte `i / 8` is set when page `i` is in use.
    bitmap: [u8; 128],
    initialized: bool,
}

impl View for BitmapAllocator {
    /// Which pages are in use.
    type V = Seq<bool>;

    closed spec fn view(&self) -> Seq<bool> {
        Seq::new(1024, |i: int| bit_of(self.bitmap@[i / 8], (i % 8) as u8))
    }
}

proof fn lemma_set_bit(b: u8, k: u8)
    requires
        k < 8,
    ensures
        bit_of(b | (1u8 << k), k),
        forall|m: u8| m < 8 && m != k ==> bit_of(b | (1u8 << k), m) == bit_of(b, m),
{
    assert(bit_of(b | (1u8 << k), k)) by (bit_vector)
        requires
            k < 8,
    ;
    assert forall|m: u8| m < 8 && m != k implies bit_of(b | (1u8 << k), m) == bit_of(b, m) by {
        assert(bit_of(b | (1u8 << k), m) == bit_of(b, m)) by (bit_vector)
            requires
                k < 8,
                m < 8,
                m != k,
        ;
    }
}

proof fn lemma_clear_bit(b: u8, k: u8)
    requires
        k < 8,
    ensures
        !bit_of(b & !(1u8 << k), k),
        forall|m: u8| m < 8 && m != k ==> bit_of(b & !(1u8 << k), m) == bit_of(b, m),
{
    assert(!bit_of(b & !(1u8 << k), k)) by (bit_vector)
        requires
            k < 8,
    ;
    assert forall|m: u8| m < 8 && m != k implies bit_of(b & !(1u8 << k), m) == bit_of(b, m) by {
        assert(bit_of(b & !(1u8 << k), m) == bit_of(b, m)) by (bit_vector)
            requires
                k < 8,
                m < 8,
                m != k,
        ;
    }
}

proof fn lemma_zero_bits()
    ensures
        forall|m: u8| m < 8 ==> !bit_of(0u8, m),
{
    assert forall|m: u8| m < 8 implies !bit_of(0u8, m) by {
        assert(!bit_of(0u8, m)) by (bit_vector);
    }
}

impl BitmapAllocator {
    /// An allocator tracks exactly the pages of the pool: its view has one entry
    /// per page.
    pub proof fn lemma_view_len(&self)
        ensures
            self@.len() == NUM_PAGES,
    {
    }

    /// Whether `init` has run.
    pub closed spec fn is_initialized(&self) -> bool {
        self.initialized
    }

    /// An allocator that has not been initialized: it hands out no memory.
    pub fn new() -> (r: Self)
        ensures
            !r.is_initialized(),
            r@ == Seq::new(1024, |i: int| false),
    {
        let r = BitmapAllocator { bitmap: [0u8; 128], initialized: false };
        proof {
            lemma_zero_bits();
        }
        assert(r@ =~= Seq::new(1024, |i: int| false));
        r
    }

    /// Marks every page free and enables allocation.
    pub fn init(&mut self)
        ensures
            final(self).is_initialized(),
            final(self)@ == Seq::new(1024, |i: int| false),
    {
        self.bitmap = [0u8; 128];
        self.initialized = true;
        proof {
            lemma_zero_bits();
        }
        assert(self@ =~= Seq::new(1024, |i: int| false));
    }

    fn page_is_used(&self, i: usize) -> (r: bool)
        requires
            i < NUM_PAGES,
        ensures
            r == self@[i as int],
    {
        let byte = self.bitmap[i / 8];
        let bit = (i % 8) as u8;
        (byte >> bit) & 1u8 == 1u8
    }

    /// Takes the lowest free page and returns its address; `None` when every page is
    /// in use.
    pub fn allocate_page(&mut self) -> (r: Option<usize>)
        ensures
            final(self).is_initialized() == old(self).is_initialized(),
            ({
                let (idx, after) = spec_allocate(old(self)@);
                &&& final(self)@ == after
                &&& match (r, idx) {
                    (Some(addr), Some(i)) => addr == page_addr(i),
                    (None, None) => true,
                    _ => false,
                }
            }),
    {
        let ghost v = self@;
        let mut i: usize = 0;
        while i < NUM_PAGES
            invariant
                i <= NUM_PAGES,
                v == self@,
                v == old(self)@,
                self.initialized == old(self).initialized,
                first_free_from(v, 0) == first_free_from(v, i as int),
            decreases NUM_PAGES - i,
        {
            if !self.page_is_used(i) {
                let byte_idx = i / 8;
                let bit = (i % 8) as u8;
                let old_byte = self.bitmap[byte_idx];
                proof {
                    lemma_set_bit(old_byte, bit);
                }
                self.bitmap[byte_idx] = old_byte | (1u8 << bit);
                assert(self@ =~= v.update(i as int, true)) by {
                    assert forall|j: int| 0 <= j < 1024 implies #[trigger] self@[j] == v.update(i as int, true)[j] by {
                        if j / 8 == byte_idx as int {
                            assert((j % 8) as u8 != bit || j == i);
                        }
                    }
                }
                assert(POOL_START + i * PAGE_SIZE <= 0x8840_0000) by (nonlinear_arith)
                    requires
                        i < 1024,
                ;
                return Some(POOL_START + i * PAGE_SIZE);
            }
            i = i + 1;
        }
        None
    }

    /// Frees the page that holds `addr`; an address outside the pool is ignored.
    pub fn deallocate_page(&mut self, addr: usize)
        ensures
            final(self).is_initialized() == old(self).is_initialized(),
            final(self)@ == spec_deallocate(old(self)@, addr as int),
    {
        if addr < POOL_START || addr >= POOL_START + POOL_SIZE {
            return;
        }
        let ghost v = self@;
        let page_idx = (addr - POOL_START) / PAGE_SIZE;
        let byte_idx = page_idx / 8;
        let bit = (page_idx % 8) as u8;
        let old_byte = self.bitmap[byte_idx];
        proof {
            lemma_clear_bit(old_byte, bit);
        }
        self.bitmap[byte_idx] = old_byte & !(1u8 << bit);
        assert(self@ =~= v.update(page_idx as int, false)) by {
            assert forall|j: int| 0 <= j < 1024 implies #[trigger] self@[j] == v.update(page_idx as int, false)[j] by {
                if j / 8 == byte_idx as int {
                    assert((j % 8) as u8 != bit || j == page_idx);
                }
            }
        }
    }

    /// Allocates memory for `size` bytes: one page when `size` is at most a page and
    /// the allocator is initialized; otherwise, or when no page is free, returns 0
    /// (the null address) and changes nothing.
    pub fn allocate(&mut self, size: usize) -> (r: usize)
        ensures
            final(self).is_initialized() == old(self).is_initialized(),
            ({
                let (idx, after) = spec_allocate(old(self)@);
                if old(self).is_initialized() && size <= PAGE_SIZE {
                    &&& final(self)@ == after
                    &&& match idx {
                        Some(i) => r == page_addr(i),
                        None => r == 0,
                    }
                } else {
                    r == 0 && final(self)@ == old(self)@
                }
            }),
    {
        if !self.initialized {
            return 0;
        }
        if size <= PAGE_SIZE {
            match self.allocate_page() {
                Some(addr) => {
                    return addr;
                },
                None => {},
            }
        }
        0
    }

    /// Frees the memory at `addr`, as `deallocate_page` does.
    pub fn free(&mut self, addr: usize)
        ensures
            final(self).is_initialized() == old(self).is_initialized(),
            final(self)@ == spec_deallocate(old(self)@, addr as int),
    {
        self.deallocate_page(addr);
    }
}

// ---------------------------------------------------------------------------
// Laws of the allocator
// ---------------------------------------------------------------------------

proof fn lemma_first_free_from(v: Seq<bool>, i: int)
    requires
        0 <= i,
    ensures
        match first_free_from(v, i) {
            Some(k) => i <= k < v.len() && !v[k] && forall|j: int| i <= j < k ==> v[j],
            None => forall|j: int| i <= j < v.len() ==> v[j],
        },
    decreases v.len() - i,
{
    if i < v.len() && v[i] {
        lemma_first_free_from(v, i + 1);
    }
}

/// The page that an allocation hands out was free, every page below it was in
/// use, and its address is page-aligned inside the pool.
pub proof fn law_allocation_takes_lowest_free_page(v: Seq<bool>)
    requires
        v.len() == NUM_PAGES,
    ensures
        match spec_allocate(v).0 {
            Some(i) => {
                &&& 0 <= i < NUM_PAGES
                &&& !v[i]
                &&& forall|j: int| 0 <= j < i ==> v[j]
                &&& spec_allocate(v).1[i]
                &&& POOL_START <= page_addr(i) < POOL_START + POOL_SIZE
                &&& (page_addr(i) - POOL_START) % (PAGE_SIZE as int) == 0
            },
            None => forall|j: int| 0 <= j < NUM_PAGES ==> v[j],
        },
{
    lemma_first_free_from(v, 0);
    if let Some(i) = spec_allocate(v).0 {
        assert(POOL_START <= page_addr(i) < POOL_START + POOL_SIZE) by (nonlinear_arith)
            requires
                0 <= i < 1024,
        ;
        assert((page_addr(i) - POOL_START) % (PAGE_SIZE as int) == 0) by (nonlinear_arith)
            requires
                0 <= i,
        ;
    }
}

/// Freeing the page that an allocation handed out gives back the state before
/// the allocation.
pub proof fn law_free_undoes_allocation(v: Seq<bool>)
    requires
        v.len() == NUM_PAGES,
        spec_allocate(v).0 is Some,
    ensures
        spec_deallocate(spec_allocate(v).1, page_addr(spec_allocate(v).0->0)) == v,
{
    lemma_first_free_from(v, 0);
    let i = spec_allocate(v).0->0;
    assert(POOL_START <= page_addr(i) < POOL_START + POOL_SIZE) by (nonlinear_arith)
        requires
            0 <= i < 1024,
    ;
    assert((page_addr(i) - POOL_START) / PAGE_SIZE as int == i) by (nonlinear_arith)
        requires
            0 <= i,
    ;
    assert(spec_allocate(v).1.update(i, false) =~= v);
}

/// On any allocator: freeing the page that an allocation handed out gives back
/// the pages in use before the allocation.
pub proof fn law_allocator_free_undoes_allocation(a: &BitmapAllocator)
    requires
        spec_allocate(a@).0 is Some,
    ensures
        spec_deallocate(spec_allocate(a@).1, page_addr(spec_allocate(a@).0->0)) == a@,
{
    a.lemma_view_len();
    law_free_undoes_allocation(a@);
}

/// Two allocations in a row never hand out the same page.
pub proof fn law_allocations_are_distinct(v: Seq<bool>)
    requires
        v.len() == NUM_PAGES,
    ensures
        spec_allocate(v).0 is Some && spec_allocate(spec_allocate(v).1).0 is Some ==> spec_allocate(
            v,
        ).0->0 != spec_allocate(spec_allocate(v).1).0->0,
{
    lemma_first_free_from(v, 0);
    if let Some(i) = spec_allocate(v).0 {
        let w = spec_allocate(v).1;
        lemma_first_free_from(w, 0);
    }
}

/// Freeing an address outside the pool changes nothing.
pub proof fn law_free_outside_pool_is_ignored(v: Seq<bool>, addr: int)
    requires
        addr < POOL_START || addr >= POOL_START + POOL_SIZE,
    ensures
        spec_deallocate(v, addr) == v,
{
}

} // verus!
