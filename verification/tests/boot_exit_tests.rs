use rust_boot_test::boot_exit::{BootExit, ExitStep, EFI_SUCCESS};

const NOT_READY: usize = 0x8000_0000_0000_0006;
const INVALID_PARAMETER: usize = 0x8000_0000_0000_0002;

fn one_descriptor(start: u64, pages: u64) -> Vec<u8> {
    let mut d = vec![0u8; 48];
    d[8..16].copy_from_slice(&start.to_le_bytes());
    d[24..32].copy_from_slice(&pages.to_le_bytes());
    d
}

#[test]
fn first_round_succeeds() {
    let (mut exit, step) = BootExit::new();
    assert!(matches!(step, ExitStep::GetMemoryMap));
    let buf = one_descriptor(0x10_0000, 0x100);
    let step = exit.memory_map_returned(EFI_SUCCESS, 77, &buf, 48, 48);
    assert!(matches!(step, ExitStep::ExitBootServices { map_key: 77 }));
    let step = exit.exit_returned(EFI_SUCCESS);
    assert!(matches!(step, ExitStep::Exited { memory_top: 0x20_0000, descriptor_count: 1 }));
}

#[test]
fn stale_key_retries_with_fresh_map() {
    let (mut exit, _) = BootExit::new();
    let buf = one_descriptor(0, 1);
    let step = exit.memory_map_returned(EFI_SUCCESS, 1, &buf, 48, 48);
    assert!(matches!(step, ExitStep::ExitBootServices { map_key: 1 }));
    let step = exit.exit_returned(INVALID_PARAMETER);
    assert!(matches!(step, ExitStep::GetMemoryMap));
    let buf = one_descriptor(0x1000, 2);
    let step = exit.memory_map_returned(EFI_SUCCESS, 2, &buf, 48, 48);
    assert!(matches!(step, ExitStep::ExitBootServices { map_key: 2 }));
    let step = exit.exit_returned(EFI_SUCCESS);
    assert!(matches!(step, ExitStep::Exited { memory_top: 0x3000, descriptor_count: 1 }));
}

#[test]
fn two_failed_memory_maps_fail_with_last_status() {
    let (mut exit, _) = BootExit::new();
    let step = exit.memory_map_returned(NOT_READY, 0, &[], 0, 0);
    assert!(matches!(step, ExitStep::GetMemoryMap));
    let step = exit.memory_map_returned(INVALID_PARAMETER, 0, &[], 0, 0);
    assert!(matches!(step, ExitStep::Failed { status: INVALID_PARAMETER }));
}

#[test]
fn failed_exit_after_failed_map_gives_exit_status() {
    let (mut exit, _) = BootExit::new();
    let step = exit.memory_map_returned(NOT_READY, 0, &[], 0, 0);
    assert!(matches!(step, ExitStep::GetMemoryMap));
    let buf = one_descriptor(0, 1);
    let step = exit.memory_map_returned(EFI_SUCCESS, 5, &buf, 48, 48);
    assert!(matches!(step, ExitStep::ExitBootServices { map_key: 5 }));
    let step = exit.exit_returned(NOT_READY);
    assert!(matches!(step, ExitStep::Failed { status: NOT_READY }));
}
