//! Verified core of a single-core x86_64 bare-metal runtime booted directly by UEFI:
//! the interactive start, memory-map scanning, the boot-services exit protocol,
//! identity paging with 2 MiB pages, the memory probe, time-stamp-counter bookkeeping
//! and console encoding.

pub mod tsc;
pub mod paging;
pub mod memory_map;
pub mod boot_exit;
pub mod probe;
pub mod console;
pub mod boot_console;
