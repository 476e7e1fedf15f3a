use rust_boot_test::memory_map::{descriptor_count, highest_mapped_address, memory_map_ends_fit};

fn descriptor(start: u64, pages: u64, size: usize) -> Vec<u8> {
    let mut d = vec![0u8; size];
    d[0..4].copy_from_slice(&7u32.to_le_bytes());
    d[8..16].copy_from_slice(&start.to_le_bytes());
    d[16..24].copy_from_slice(&0xDEAD_BEEFu64.to_le_bytes());
    d[24..32].copy_from_slice(&pages.to_le_bytes());
    d[32..40].copy_from_slice(&0xFu64.to_le_bytes());
    d
}

fn map(entries: &[(u64, u64)], size: usize) -> Vec<u8> {
    let mut buf = Vec::new();
    for &(s, p) in entries {
        buf.extend(descriptor(s, p, size));
    }
    buf
}

#[test]
fn descriptor_count_uses_at_least_forty_bytes() {
    assert_eq!(descriptor_count(480, 48), 10);
    assert_eq!(descriptor_count(400, 40), 10);
    assert_eq!(descriptor_count(400, 0), 10);
    assert_eq!(descriptor_count(400, 16), 10);
    assert_eq!(descriptor_count(479, 48), 9);
    assert_eq!(descriptor_count(0, 48), 0);
}

#[test]
fn highest_address_of_sample_map() {
    let buf = map(&[(0, 0xA0), (0x10_0000, 0x700), (0x8000_0000, 0x10), (0x1000, 1)], 48);
    assert!(memory_map_ends_fit(&buf, buf.len(), 48));
    assert_eq!(highest_mapped_address(&buf, buf.len(), 48), 0x8001_0000);
}

#[test]
fn highest_address_of_empty_map_is_zero() {
    let buf = vec![0u8; 64];
    assert_eq!(highest_mapped_address(&buf, 0, 48), 0);
    assert_eq!(highest_mapped_address(&buf, 39, 0), 0);
}

#[test]
fn highest_address_only_counts_full_strides() {
    // Two descriptors in the buffer, but map_size covers one of them.
    let buf = map(&[(0x1000, 1), (0x4000_0000, 1)], 48);
    assert_eq!(highest_mapped_address(&buf, 95, 48), 0x2000);
    assert_eq!(highest_mapped_address(&buf, 96, 48), 0x4000_1000);
}

#[test]
fn descriptors_closer_than_forty_bytes_overlap() {
    // With a 16-byte stride the reads overlap, exactly as the firmware layout is read.
    let buf = map(&[(0x5000, 2)], 40);
    // count = 40 / 40 = 1: only the first descriptor is read.
    assert_eq!(highest_mapped_address(&buf, 40, 16), 0x7000);
}

#[test]
fn ends_that_overflow_are_detected() {
    let buf = map(&[(u64::MAX - 0xFFF, 1)], 40);
    assert!(!memory_map_ends_fit(&buf, 40, 40));
    let buf = map(&[(0, u64::MAX / 1000)], 40);
    assert!(!memory_map_ends_fit(&buf, 40, 40));
    let buf = map(&[(u64::MAX - 0xFFF, 1)], 40);
    assert!(memory_map_ends_fit(&buf, 39, 40));
    let buf = map(&[(u64::MAX - 0x2000, 2)], 40);
    assert!(memory_map_ends_fit(&buf, 40, 40));
    assert_eq!(highest_mapped_address(&buf, 40, 40), u64::MAX);
}
