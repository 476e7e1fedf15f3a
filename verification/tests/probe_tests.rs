use rust_boot_test::probe::{probe_checksum, probe_pattern};

fn reference(base: u64) -> u64 {
    (0..64u64).fold(0, |acc, i| acc ^ base.wrapping_add(i))
}

#[test]
fn probe_pattern_counts_up_from_base() {
    let words = probe_pattern(1000);
    for (i, w) in words.iter().enumerate() {
        assert_eq!(*w, 1000 + i as u64);
    }
}

#[test]
fn probe_pattern_wraps() {
    let words = probe_pattern(u64::MAX - 1);
    assert_eq!(words[0], u64::MAX - 1);
    assert_eq!(words[1], u64::MAX);
    assert_eq!(words[2], 0);
    assert_eq!(words[63], 61);
}

#[test]
fn checksum_of_sound_memory() {
    assert_eq!(probe_checksum(&probe_pattern(1000)), reference(1000));
    assert_eq!(probe_checksum(&probe_pattern(u64::MAX - 1)), reference(u64::MAX - 1));
    // 0 ^ 1 ^ ... ^ 63 is 0: every bit is set in exactly 32 of the values.
    assert_eq!(probe_checksum(&probe_pattern(0)), 0);
}

#[test]
fn checksum_sees_a_flipped_bit() {
    let mut read = probe_pattern(0x1234_5678);
    read[17] ^= 1 << 40;
    assert_eq!(probe_checksum(&read), reference(0x1234_5678) ^ (1 << 40));
}
