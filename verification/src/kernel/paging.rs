//! Sv39 page tables and the identity mapping that the kernel boots with.
use vstd::prelude::*;

verus! {

pub const PTE_V: usize = 1;
pub const PTE_R: usize = 2;
pub const PTE_W: usize = 4;
pub const PTE_X: usize = 8;
pub const PTE_A: usize = 64;
pub const PTE_D: usize = 128;

/// Valid, readable, writable, executable, accessed and dirty: a leaf entry.
pub const LEAF_FLAGS: usize = 0xCF;

/// One Sv39 page-table entry.
#[derive(Debug, Clone, Copy)]
pub struct PageTableEntry(pub usize);

/// A page table of 512 entries.
#[derive(Debug, Clone, Copy)]
pub struct PageTable {
    pub entries: [PageTableEntry; 512],
}

impl PageTable {
    /// A table with every entry zero (invalid).
    pub fn new() -> (r: Self)
        ensures
            r.entries@.len() == 512,
            forall|i: int| 0 <= i < 512 ==> #[trigger] r.entries@[i].0 == 0,
    {
        Self { entries: [PageTableEntry(0); 512] }
    }
}

/// The physical page number field of an entry: the bits from 10 up.
pub open spec fn pte_ppn(pte: usize) -> usize {
    pte >> 10usize
}

/// A leaf entry that maps the gigapage at physical address `pa` with all
/// permissions: the page number `pa >> 12` placed at bit 10, and the flags V, R,
/// W, X, A and D.
pub fn gigapage_entry(pa: usize) -> (r: PageTableEntry)
    ensures
        r.0 == ((pa >> 12usize) << 10usize) | 0xCFusize,
        r.0 & 0x3FFusize == 0xCFusize,
        pte_ppn(r.0) == pa >> 12usize,
{
    let v: usize = ((pa >> 12usize) << 10usize) | 0xCFusize;
    assert(v & 0x3FFusize == 0xCFusize && v >> 10usize == pa >> 12usize) by (bit_vector)
        requires
            v == ((pa >> 12usize) << 10usize) | 0xCFusize,
    ;
    PageTableEntry(v)
}

/// The value of `satp` (a 64-bit register) that turns on Sv39 with the root table
/// at physical address `root_pa`: MODE 8 in bits 60 to 63 and the root's page
/// number below.
pub fn satp_value(root_pa: u64) -> (r: u64)
    requires
        root_pa < 0x100_0000_0000_0000u64,
    ensures
        r == (8u64 << 60u64) | (root_pa >> 12u64),
        r >> 60u64 == 8,
        r & 0xFFF_FFFF_FFFFu64 == root_pa >> 12u64,
{
    let r = (8u64 << 60u64) | (root_pa >> 12u64);
    assert(r >> 60u64 == 8 && r & 0xFFF_FFFF_FFFFu64 == root_pa >> 12u64) by (bit_vector)
        requires
            r == (8u64 << 60u64) | (root_pa >> 12u64),
            root_pa < 0x100_0000_0000_0000u64,
    ;
    r
}

/// Fills in the boot identity mapping: entry 0 maps the gigapage at 0 (the
/// devices, such as the UART at 0x1000_0000) and entry 2 maps the gigapage at
/// 0x8000_0000 (RAM); no other entry changes.
pub fn map_boot_gigapages(table: &mut PageTable)
    ensures
        final(table).entries@[0].0 == 0xCF,
        final(table).entries@[2].0 == 0x2000_00CF,
        forall|i: int| 0 <= i < 512 && i != 0 && i != 2 ==> #[trigger] final(table).entries@[i]
            == old(table).entries@[i],
{
    let e0 = gigapage_entry(0);
    let e2 = gigapage_entry(0x8000_0000);
    assert(((0usize >> 12usize) << 10usize) | 0xCFusize == 0xCFusize) by (bit_vector);
    assert(((0x8000_0000usize >> 12usize) << 10usize) | 0xCFusize == 0x2000_00CFusize) by (bit_vector);
    table.entries[0] = e0;
    table.entries[2] = e2;
}

} // verus!
