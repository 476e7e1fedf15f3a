use rust_boot_test::tsc::{
    busy_work, extended_feature_leaf_available, rdtscp_supported, read_tsc, runtime_loop,
    tsc_from_parts, warmup, LoopStats, TscInstruction,
};

#[test]
fn counter_halves_join() {
    assert_eq!(tsc_from_parts(0, 0), 0);
    assert_eq!(tsc_from_parts(0, 0xFFFF_FFFF), 0xFFFF_FFFF);
    assert_eq!(tsc_from_parts(1, 0), 0x1_0000_0000);
    assert_eq!(tsc_from_parts(0x1234_5678, 0x9ABC_DEF0), 0x1234_5678_9ABC_DEF0);
    assert_eq!(tsc_from_parts(u32::MAX, u32::MAX), u64::MAX);
}

#[test]
fn counter_halves_round_trip() {
    for v in [0u64, 1, 0xFFFF_FFFF, 0x1_0000_0000, 0xDEAD_BEEF_0BAD_F00D, u64::MAX] {
        assert_eq!(tsc_from_parts((v >> 32) as u32, v as u32), v);
    }
}

#[test]
fn rdtscp_detection() {
    assert!(!extended_feature_leaf_available(0x8000_0000));
    assert!(extended_feature_leaf_available(0x8000_0001));
    assert!(extended_feature_leaf_available(0x8000_0008));
    assert!(!extended_feature_leaf_available(0x1F));
    assert!(rdtscp_supported(0x8000_0008, 1 << 27));
    assert!(rdtscp_supported(0x8000_0001, 0xFFFF_FFFF));
    assert!(!rdtscp_supported(0x8000_0008, !(1u32 << 27)));
    assert!(!rdtscp_supported(0x8000_0000, 1 << 27));
    assert!(!rdtscp_supported(0, 0xFFFF_FFFF));
}

#[test]
fn counter_instruction_choice() {
    assert_eq!(read_tsc(true), TscInstruction::Rdtscp);
    assert_eq!(read_tsc(false), TscInstruction::Rdtsc);
}

#[test]
fn spins_return() {
    warmup();
    busy_work();
}

#[test]
fn loop_statistics() {
    let mut s = LoopStats::new();
    assert_eq!((s.last(), s.min(), s.max(), s.iterations()), (0, u64::MAX, 0, 0));
    assert!(!runtime_loop(&mut s, 100, 150));
    assert_eq!((s.last(), s.min(), s.max(), s.iterations()), (50, 50, 50, 1));
    assert!(!runtime_loop(&mut s, 200, 230));
    assert_eq!((s.last(), s.min(), s.max(), s.iterations()), (30, 30, 50, 2));
    assert!(!runtime_loop(&mut s, 300, 390));
    assert_eq!((s.last(), s.min(), s.max(), s.iterations()), (90, 30, 90, 3));
    assert!(!runtime_loop(&mut s, 400, 440));
    assert_eq!((s.last(), s.min(), s.max(), s.iterations()), (40, 30, 90, 4));
}

#[test]
fn loop_duration_wraps_when_counter_goes_back() {
    let mut s = LoopStats::new();
    runtime_loop(&mut s, 10, 5);
    assert_eq!(s.last(), u64::MAX - 4);
    assert_eq!(s.max(), u64::MAX - 4);
    assert_eq!(s.min(), u64::MAX - 4);
}

#[test]
fn loop_reports_every_ten_thousand_turns() {
    let mut s = LoopStats::new();
    let mut reports = Vec::new();
    for i in 0..25_000u64 {
        if runtime_loop(&mut s, i, i + 7) {
            reports.push(s.iterations());
        }
    }
    assert_eq!(reports, vec![10_000, 20_000]);
    assert_eq!(s.min(), 7);
    assert_eq!(s.max(), 7);
    assert_eq!(s.last(), 7);
}
