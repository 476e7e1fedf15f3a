use rust_boot_test::paging::{install_identity_mapping, mapped_gib, TableLayout, DIRECTORY_ENTRIES};

const GIB: u64 = 0x4000_0000;

struct Tables {
    pml4: [u64; 512],
    pdp: [u64; 512],
    directories: Box<[u64; 32768]>,
}

fn empty_tables() -> Tables {
    Tables { pml4: [0; 512], pdp: [0; 512], directories: Box::new([0; 32768]) }
}

fn install(t: &mut Tables, memory_top: u64, l: TableLayout) -> usize {
    install_identity_mapping(&mut t.pml4, &mut t.pdp, &mut t.directories, memory_top, l)
}

fn layout() -> TableLayout {
    TableLayout { pdp_addr: 0x0010_0000, directories_addr: 0x0020_0000 }
}

/// Walks the tables as the processor does for a lower-half address, with the tables
/// found at the addresses of `layout`.
fn walk(t: &Tables, l: &TableLayout, va: u64) -> Option<u64> {
    if va >= 1u64 << 48 {
        return None;
    }
    let e4 = t.pml4[((va >> 39) & 0x1FF) as usize];
    if e4 & 1 == 0 {
        return None;
    }
    assert_eq!(e4 & 0x000F_FFFF_FFFF_F000, l.pdp_addr);
    let e3 = t.pdp[((va >> 30) & 0x1FF) as usize];
    if e3 & 1 == 0 {
        return None;
    }
    assert_eq!(e3 & 0x80, 0);
    let dir = ((e3 & 0x000F_FFFF_FFFF_F000) - l.directories_addr) / 0x1000;
    let e2 = t.directories[dir as usize * 512 + ((va >> 21) & 0x1FF) as usize];
    if e2 & 1 == 0 {
        return None;
    }
    assert_ne!(e2 & 0x80, 0);
    Some((e2 & 0x000F_FFFF_FFE0_0000) | (va & 0x1F_FFFF))
}

#[test]
fn mapped_gib_rounds_up_and_clamps() {
    assert_eq!(mapped_gib(0), 1);
    assert_eq!(mapped_gib(1), 1);
    assert_eq!(mapped_gib(GIB), 1);
    assert_eq!(mapped_gib(GIB + 1), 2);
    assert_eq!(mapped_gib(3 * GIB + 0x1000), 4);
    assert_eq!(mapped_gib(64 * GIB), 64);
    assert_eq!(mapped_gib(65 * GIB), 64);
    assert_eq!(mapped_gib(u64::MAX), 64);
}

#[test]
fn identity_mapping_entries() {
    let mut t = empty_tables();
    let l = layout();
    let mapped = install(&mut t, 2 * GIB + 5, l);
    assert_eq!(mapped, 3);
    assert_eq!(t.pml4[0], 0x0010_0003);
    assert!(t.pml4[1..].iter().all(|&e| e == 0));
    assert_eq!(t.pdp[0], 0x0020_0003);
    assert_eq!(t.pdp[1], 0x0020_1003);
    assert_eq!(t.pdp[2], 0x0020_2003);
    assert_eq!(t.pdp[3], 0);
    assert_eq!(t.directories[0], 0x83);
    assert_eq!(t.directories[1], 0x0020_0083);
    assert_eq!(t.directories[3 * 512 - 1], (3 * 512 - 1) * 0x20_0000 | 0x83);
    assert_eq!(t.directories[3 * 512], 0);
}

#[test]
fn identity_mapping_translates_to_itself() {
    let mut t = empty_tables();
    let l = layout();
    let mapped = install(&mut t, 5 * GIB, l);
    assert_eq!(mapped, 5);
    for va in [0u64, 0x1234, 0x20_0000, 0x3FFF_FFFF, GIB, 4 * GIB + 0xABC_DEF0, 5 * GIB - 1] {
        assert_eq!(walk(&t, &l, va), Some(va));
    }
    for va in [5 * GIB, 64 * GIB, 512 * GIB, 1u64 << 47, u64::MAX] {
        assert_eq!(walk(&t, &l, va), None);
    }
}

#[test]
fn identity_mapping_replaces_previous_contents() {
    let mut t = Tables { pml4: [7; 512], pdp: [9; 512], directories: Box::new([1; 32768]) };
    let mapped = install(&mut t, 0, layout());
    assert_eq!(mapped, 1);
    assert_eq!(t.pml4[1], 0);
    assert_eq!(t.pdp[1], 0);
    assert!(t.directories[512..].iter().all(|&e| e == 0));
    assert_eq!(t.directories[511], 511 * 0x20_0000 | 0x83);
    assert_eq!(t.directories[512], 0);
}

#[test]
fn identity_mapping_caps_at_64_gib() {
    let mut t = empty_tables();
    let mapped = install(&mut t, 100 * GIB, layout());
    assert_eq!(mapped, 64);
    assert_eq!(t.pdp[63], (0x0020_0000 + 63 * 0x1000) | 3);
    assert_eq!(t.pdp[64], 0);
    assert_eq!(t.directories[DIRECTORY_ENTRIES - 1], (DIRECTORY_ENTRIES as u64 - 1) * 0x20_0000 | 0x83);
}

#[test]
fn mapped_gib_never_falls() {
    let tops = [0u64, 1, GIB - 1, GIB, GIB + 1, 7 * GIB, 63 * GIB + 1, 64 * GIB, 64 * GIB + 1, u64::MAX];
    for w in tops.windows(2) {
        assert!(mapped_gib(w[0]) <= mapped_gib(w[1]));
    }
}

#[test]
fn second_install_leaves_no_trace_of_the_first() {
    let l = layout();
    let mut used = empty_tables();
    install(&mut used, 40 * GIB, l);
    let mapped = install(&mut used, 2 * GIB, l);
    let mut fresh = empty_tables();
    assert_eq!(install(&mut fresh, 2 * GIB, l), mapped);
    assert_eq!(used.pml4, fresh.pml4);
    assert_eq!(used.pdp, fresh.pdp);
    assert_eq!(used.directories, fresh.directories);
}
