//! Identity paging with 2 MiB pages: one PML4, one page-directory-pointer table and
//! up to 64 page directories, mapping every physical address below the mapped limit
//! to itself.

use vstd::prelude::*;

verus! {

pub const PAGE_PRESENT: u64 = 0x1;

pub const PAGE_WRITABLE: u64 = 0x2;

pub const PAGE_LARGE: u64 = 0x80;

pub const PAGE_SIZE_2M: u64 = 0x20_0000;

pub const ONE_GIB: u64 = 0x4000_0000;

/// Page directories available, hence the largest number of GiB that can be mapped.
pub const MAX_MAPPED_GIB: usize = 64;

/// Entries in every table of the hierarchy.
pub const TABLE_ENTRIES: usize = 512;

/// Bytes taken by one table (`TABLE_ENTRIES` entries of eight bytes).
pub const TABLE_BYTES: u64 = 0x1000;

/// Entries in all page directories together.
pub const DIRECTORY_ENTRIES: usize = 32768;

/// Bits 12..=51 of an entry: the address of the next table or of a 4 KiB frame.
pub const TABLE_ADDR_MASK: u64 = 0x000F_FFFF_FFFF_F000;

/// Bits 21..=51 of a directory entry with `PAGE_LARGE`: the address of a 2 MiB frame.
pub const LARGE_ADDR_MASK: u64 = 0x000F_FFFF_FFE0_0000;

/// Bits 30..=51 of a pointer-table entry with `PAGE_LARGE`: the address of a 1 GiB frame.
pub const HUGE_ADDR_MASK: u64 = 0x000F_FFFF_C000_0000;

/// Contents of the three levels of tables: the PML4, the page-directory-pointer table,
/// and all page directories one after another (directory `g` is
/// `directories[g * 512 .. g * 512 + 512]`).
pub struct PageTablesView {
    pub pml4: Seq<u64>,
    pub pdp: Seq<u64>,
    pub directories: Seq<u64>,
}

/// Physical addresses at which the tables lie: the pointer table, and the first of the
/// page directories, which follow each other every `TABLE_BYTES` bytes.
#[derive(Clone, Copy)]
pub struct TableLayout {
    pub pdp_addr: u64,
    pub directories_addr: u64,
}

impl TableLayout {
    /// Where the tables can lie: on 4 KiB boundaries, below the 52-bit physical address
    /// limit, and without the pointer table overlapping a directory.
    pub open spec fn wf(self) -> bool {
        &&& self.pdp_addr % 0x1000 == 0
        &&& self.pdp_addr < 0x10_0000_0000_0000
        &&& self.directories_addr % 0x1000 == 0
        &&& self.directories_addr + 64 * 0x1000 <= 0x10_0000_0000_0000
        &&& (self.pdp_addr < self.directories_addr || self.pdp_addr >= self.directories_addr
            + 64 * 0x1000)
    }

    /// Physical address of page directory `gib`.
    pub open spec fn directory_addr(self, gib: int) -> int {
        self.directories_addr + gib * 0x1000
    }
}

/// The GiB count that covers `memory_top`: `memory_top` divided by 1 GiB, rounded up.
pub open spec fn gib_needed(memory_top: u64) -> int {
    (memory_top + 0x3FFF_FFFF) / 0x4000_0000
}

/// The GiB count that the identity mapping covers: `gib_needed` clamped to `1..=64`.
pub open spec fn mapped_gib_for(memory_top: u64) -> int {
    let needed = gib_needed(memory_top);
    if needed < 1 {
        1
    } else if needed > 64 {
        64
    } else {
        needed
    }
}

/// Entry that points at a next-level table: present and writable.
pub open spec fn table_entry(addr: u64) -> u64 {
    addr | PAGE_PRESENT | PAGE_WRITABLE
}

/// Directory entry that maps a 2 MiB frame: present, writable, large.
pub open spec fn large_page_entry(addr: u64) -> u64 {
    addr | PAGE_PRESENT | PAGE_WRITABLE | PAGE_LARGE
}

/// The tables that map the first `mapped_gib` GiB to themselves, laid out as `layout`.
pub open spec fn identity_tables(layout: TableLayout, mapped_gib: int) -> PageTablesView {
    PageTablesView {
        pml4: Seq::new(
            512,
            |i: int|
                if i == 0 {
                    table_entry(layout.pdp_addr)
                } else {
                    0u64
                },
        ),
        pdp: Seq::new(
            512,
            |i: int|
                if i < mapped_gib {
                    table_entry(layout.directory_addr(i) as u64)
                } else {
                    0u64
                },
        ),
        directories: Seq::new(
            32768,
            |k: int|
                if k < mapped_gib * 512 {
                    large_page_entry((k * 0x20_0000) as u64)
                } else {
                    0u64
                },
        ),
    }
}

/// PML4 index of a virtual address: bits 39..=47.
pub open spec fn l4_index(va: u64) -> int {
    ((va >> 39u64) & 0x1FFu64) as int
}

/// Pointer-table index of a virtual address: bits 30..=38.
pub open spec fn l3_index(va: u64) -> int {
    ((va >> 30u64) & 0x1FFu64) as int
}

/// Directory index of a virtual address: bits 21..=29.
pub open spec fn l2_index(va: u64) -> int {
    ((va >> 21u64) & 0x1FFu64) as int
}

/// Page-table index of a virtual address: bits 12..=20.
pub open spec fn l1_index(va: u64) -> int {
    ((va >> 12u64) & 0x1FFu64) as int
}

/// The table that lies at physical address `addr`, if one of ours does.
pub open spec fn table_at(v: PageTablesView, layout: TableLayout, addr: u64) -> Option<Seq<u64>> {
    if addr == layout.pdp_addr {
        Some(v.pdp)
    } else if layout.directories_addr <= addr < layout.directories_addr + 64 * 0x1000 && (addr
        - layout.directories_addr) % 0x1000 == 0 {
        let g = (addr - layout.directories_addr) / 0x1000;
        Some(v.directories.subrange(g * 512, g * 512 + 512))
    } else {
        None
    }
}

/// Whether an entry has its present bit set.
pub open spec fn present(entry: u64) -> bool {
    entry & PAGE_PRESENT != 0
}

/// Whether an entry has its page-size bit set.
pub open spec fn large(entry: u64) -> bool {
    entry & PAGE_LARGE != 0
}

/// The physical address that the processor's 4-level walk from `v.pml4` gives for the
/// lower-half virtual address `va`, or `None` where the walk faults. A walk that reaches a
/// table address where none of ours lies is counted as a fault. Addresses at or above
/// 2^48 (the upper canonical half and non-canonical addresses) give `None`.
pub open spec fn translate(v: PageTablesView, layout: TableLayout, va: u64) -> Option<u64> {
    if va >= 0x1_0000_0000_0000 {
        None
    } else {
        let e4 = v.pml4[l4_index(va)];
        if !present(e4) {
            None
        } else {
            match table_at(v, layout, e4 & TABLE_ADDR_MASK) {
                None => None,
                Some(pdpt) => {
                    let e3 = pdpt[l3_index(va)];
                    if !present(e3) {
                        None
                    } else if large(e3) {
                        Some((e3 & HUGE_ADDR_MASK) | (va & 0x3FFF_FFFFu64))
                    } else {
                        match table_at(v, layout, e3 & TABLE_ADDR_MASK) {
                            None => None,
                            Some(pd) => {
                                let e2 = pd[l2_index(va)];
                                if !present(e2) {
                                    None
                                } else if large(e2) {
                                    Some((e2 & LARGE_ADDR_MASK) | (va & 0x1F_FFFFu64))
                                } else {
                                    match table_at(v, layout, e2 & TABLE_ADDR_MASK) {
                                        None => None,
                                        Some(pt) => {
                                            let e1 = pt[l1_index(va)];
                                            if !present(e1) {
                                                None
                                            } else {
                                                Some((e1 & TABLE_ADDR_MASK) | (va & 0xFFFu64))
                                            }
                                        },
                                    }
                                }
                            },
                        }
                    }
                },
            }
        }
    }
}

proof fn lemma_table_entry_bits(addr: u64)
    requires
        addr % 0x1000 == 0,
        addr < 0x10_0000_0000_0000,
    ensures
        present(table_entry(addr)),
        !large(table_entry(addr)),
        table_entry(addr) & TABLE_ADDR_MASK == addr,
{
    assert((addr | 1u64 | 2u64) & 1u64 != 0) by (bit_vector);
    assert((addr | 1u64 | 2u64) & 0x80u64 == 0) by (bit_vector)
        requires
            addr % 0x1000 == 0,
    ;
    assert((addr | 1u64 | 2u64) & 0x000F_FFFF_FFFF_F000u64 == addr) by (bit_vector)
        requires
            addr % 0x1000 == 0,
            addr < 0x10_0000_0000_0000,
    ;
}

proof fn lemma_large_entry_bits(k: u64)
    requires
        k < 32768,
    ensures
        present(large_page_entry((k * 0x20_0000) as u64)),
        large(large_page_entry((k * 0x20_0000) as u64)),
        large_page_entry((k * 0x20_0000) as u64) & LARGE_ADDR_MASK == k * 0x20_0000,
{
    let a: u64 = (k * 0x20_0000) as u64;
    assert(a == k * 0x20_0000);
    assert((a | 1u64 | 2u64 | 0x80u64) & 1u64 != 0) by (bit_vector);
    assert((a | 1u64 | 2u64 | 0x80u64) & 0x80u64 != 0) by (bit_vector);
    assert((a | 1u64 | 2u64 | 0x80u64) & 0x000F_FFFF_FFE0_0000u64 == a) by (bit_vector)
        requires
            a == k * 0x20_0000,
            k < 32768,
    ;
}

proof fn lemma_low_address_indices(va: u64)
    requires
        va < 0x80_0000_0000,
    ensures
        l4_index(va) == 0,
        l3_index(va) == va / 0x4000_0000,
        0 <= l2_index(va) < 512,
        ((va / 0x4000_0000 * 512 + l2_index(va)) * 0x20_0000) as u64 | (va & 0x1F_FFFFu64) == va,
{
    assert((va >> 39u64) & 0x1FFu64 == 0) by (bit_vector)
        requires
            va < 0x80_0000_0000,
    ;
    assert((va >> 30u64) & 0x1FFu64 == va / 0x4000_0000) by (bit_vector)
        requires
            va < 0x80_0000_0000,
    ;
    assert((va >> 21u64) & 0x1FFu64 < 512) by (bit_vector);
    assert(((((va / 0x4000_0000) * 512 + ((va >> 21u64) & 0x1FFu64)) * 0x20_0000) as u64) | (
    va & 0x1F_FFFFu64) == va) by (bit_vector)
        requires
            va < 0x80_0000_0000,
    ;
}

proof fn lemma_high_address_index(va: u64)
    requires
        0x80_0000_0000 <= va < 0x1_0000_0000_0000,
    ensures
        0 < l4_index(va) < 512,
{
    assert(0 < (va >> 39u64) & 0x1FFu64) by (bit_vector)
        requires
            0x80_0000_0000 <= va < 0x1_0000_0000_0000,
    ;
    assert((va >> 39u64) & 0x1FFu64 < 512) by (bit_vector);
}

/// The identity mapping translates every address below `mapped_gib` GiB to itself and
/// faults on every other address.
pub proof fn lemma_identity_translation(layout: TableLayout, mapped_gib: int, va: u64)
    requires
        layout.wf(),
        1 <= mapped_gib <= 64,
    ensures
        translate(identity_tables(layout, mapped_gib), layout, va) == if va < mapped_gib
            * 0x4000_0000 {
            Some(va)
        } else {
            None::<u64>
        },
{
    let v = identity_tables(layout, mapped_gib);
    if va >= 0x1_0000_0000_0000 {
    } else if va >= 0x80_0000_0000 {
        lemma_high_address_index(va);
        assert(v.pml4[l4_index(va)] == 0u64);
        assert(0u64 & 1u64 == 0) by (bit_vector);
    } else {
        lemma_low_address_indices(va);
        lemma_table_entry_bits(layout.pdp_addr);
        let e4 = v.pml4[0];
        assert(table_at(v, layout, e4 & TABLE_ADDR_MASK) == Some(v.pdp));
        let g = va / 0x4000_0000;
        assert(g < 512);
        if g < mapped_gib {
            assert(va < mapped_gib * 0x4000_0000);
            let daddr = layout.directory_addr(g as int) as u64;
            assert(daddr % 0x1000 == 0);
            lemma_table_entry_bits(daddr);
            let e3 = v.pdp[g as int];
            assert(e3 == table_entry(daddr));
            assert(daddr != layout.pdp_addr);
            assert((daddr - layout.directories_addr) / 0x1000 == g);
            let pd = v.directories.subrange(g * 512, g * 512 + 512);
            assert(table_at(v, layout, e3 & TABLE_ADDR_MASK) == Some(pd));
            let i2 = l2_index(va);
            let k = g * 512 + i2;
            assert(pd[i2] == v.directories[k]);
            assert(k < mapped_gib * 512);
            lemma_large_entry_bits(k as u64);
            assert(v.directories[k] == large_page_entry((k * 0x20_0000) as u64));
        } else {
            assert(va >= mapped_gib * 0x4000_0000);
            assert(v.pdp[g as int] == 0u64);
            assert(0u64 & 1u64 == 0) by (bit_vector);
        }
    }
}

/// The identity mapping installed for `memory_top` covers every address below it,
/// whenever the memory top does not exceed the `MAX_MAPPED_GIB` GiB limit.
pub proof fn lemma_mapping_covers_memory(memory_top: u64, va: u64)
    requires
        va < memory_top,
        memory_top <= 64 * 0x4000_0000,
    ensures
        va < mapped_gib_for(memory_top) * 0x4000_0000,
{
    let needed = gib_needed(memory_top);
    assert(needed * 0x4000_0000 >= memory_top) by (nonlinear_arith)
        requires
            needed == (memory_top + 0x3FFF_FFFF) / 0x4000_0000,
    ;
    assert(needed <= 64) by (nonlinear_arith)
        requires
            needed == (memory_top + 0x3FFF_FFFF) / 0x4000_0000,
            memory_top <= 64 * 0x4000_0000,
    ;
}

/// The GiB count mapped never falls as the memory top grows, and always lies in
/// `1..=MAX_MAPPED_GIB`.
pub proof fn lemma_mapped_gib_monotonic(a: u64, b: u64)
    requires
        a <= b,
    ensures
        mapped_gib_for(a) <= mapped_gib_for(b),
        1 <= mapped_gib_for(a) <= 64,
{
    assert(gib_needed(a) <= gib_needed(b)) by (nonlinear_arith)
        requires
            a <= b,
    {
        vstd::arithmetic::div_mod::lemma_div_is_ordered(
            a + 0x3FFF_FFFF,
            b + 0x3FFF_FFFF,
            0x4000_0000,
        );
    }
}

/// The GiB count mapped for `memory_top` is the least count in `1..=MAX_MAPPED_GIB`
/// whose GiBs cover the memory top: it covers every memory top up to 64 GiB, one GiB
/// fewer would not (unless it is already 1), and above 64 GiB it is 64.
pub proof fn lemma_mapped_gib_is_least_cover(memory_top: u64)
    ensures
        1 <= mapped_gib_for(memory_top) <= 64,
        memory_top <= 64 * 0x4000_0000 ==> memory_top <= mapped_gib_for(memory_top)
            * 0x4000_0000,
        mapped_gib_for(memory_top) > 1 ==> (mapped_gib_for(memory_top) - 1) * 0x4000_0000
            < memory_top,
        memory_top > 64 * 0x4000_0000 ==> mapped_gib_for(memory_top) == 64,
{
    let t = memory_top as int;
    let needed = gib_needed(memory_top);
    assert(needed * 0x4000_0000 >= t && (needed - 1) * 0x4000_0000 < t) by (nonlinear_arith)
        requires
            needed == (t + 0x3FFF_FFFF) / 0x4000_0000,
            t >= 0,
    ;
}

/// Computes `mapped_gib_for`: the GiB count of memory below `memory_top`, rounded up and
/// clamped to `1..=MAX_MAPPED_GIB`.
pub fn mapped_gib(memory_top: u64) -> (gib: usize)
    ensures
        gib == mapped_gib_for(memory_top),
        1 <= gib <= MAX_MAPPED_GIB,
{
    let requested: u64 = memory_top / ONE_GIB + if memory_top % ONE_GIB != 0 {
        1
    } else {
        0
    };
    assert(requested == gib_needed(memory_top));
    let clamped: u64 = if requested < 1 {
        1
    } else if requested > 64 {
        64
    } else {
        requested
    };
    clamped as usize
}

/// Fills the tables with the identity mapping of the memory below `memory_top` (at
/// least 1 GiB, at most `MAX_MAPPED_GIB` GiB) and returns the GiB count mapped. Every
/// entry that the mapping does not use is zero.
pub fn install_identity_mapping(
    pml4: &mut [u64; 512],
    pdp: &mut [u64; 512],
    directories: &mut [u64; 32768],
    memory_top: u64,
    layout: TableLayout,
) -> (mapped: usize)
    requires
        layout.directories_addr + 64 * 0x1000 <= u64::MAX,
    ensures
        mapped == mapped_gib_for(memory_top),
        (PageTablesView {
            pml4: final(pml4)@,
            pdp: final(pdp)@,
            directories: final(directories)@,
        }) == identity_tables(layout, mapped as int),
{
    let mapped = mapped_gib(memory_top);
    let ghost want = identity_tables(layout, mapped as int);

    let mut i: usize = 0;
    while i < TABLE_ENTRIES
        invariant
            i <= 512,
            pml4@.len() == 512,
            want == identity_tables(layout, mapped as int),
            forall|j: int| 0 <= j < i ==> pml4@[j] == want.pml4[j],
        decreases 512 - i,
    {
        if i == 0 {
            pml4[i] = layout.pdp_addr | PAGE_PRESENT | PAGE_WRITABLE;
        } else {
            pml4[i] = 0;
        }
        i = i + 1;
    }

    let mut gib: usize = 0;
    while gib < TABLE_ENTRIES
        invariant
            gib <= 512,
            1 <= mapped <= 64,
            layout.directories_addr + 64 * 0x1000 <= u64::MAX,
            pdp@.len() == 512,
            want == identity_tables(layout, mapped as int),
            forall|j: int| 0 <= j < gib ==> pdp@[j] == want.pdp[j],
        decreases 512 - gib,
    {
        if gib < mapped {
            let directory: u64 = layout.directories_addr + (gib as u64) * TABLE_BYTES;
            pdp[gib] = directory | PAGE_PRESENT | PAGE_WRITABLE;
        } else {
            pdp[gib] = 0;
        }
        gib = gib + 1;
    }

    let limit: usize = mapped * TABLE_ENTRIES;
    let mut k: usize = 0;
    while k < DIRECTORY_ENTRIES
        invariant
            k <= 32768,
            1 <= mapped <= 64,
            limit == mapped * 512,
            directories@.len() == 32768,
            want == identity_tables(layout, mapped as int),
            forall|j: int| 0 <= j < k ==> directories@[j] == want.directories[j],
        decreases 32768 - k,
    {
        if k < limit {
            let physical: u64 = (k as u64) * PAGE_SIZE_2M;
            directories[k] = physical | PAGE_PRESENT | PAGE_WRITABLE | PAGE_LARGE;
        } else {
            directories[k] = 0;
        }
        k = k + 1;
    }

    assert(pml4@ =~= want.pml4);
    assert(pdp@ =~= want.pdp);
    assert(directories@ =~= want.directories);
    mapped
}

} // verus!
