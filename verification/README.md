# rust_boot_test

The verified core of a single-core x86_64 runtime that UEFI firmware loads directly:
it leaves boot services, installs an identity mapping of up to 64 GiB with 2 MiB pages,
probes memory and spins in a loop measured with the time-stamp counter.

- `src/` — the library, verified with Verus:
  - `memory_map` reads the firmware's memory map and finds the highest address it describes;
  - `boot_console` picks the largest text mode and decides when the interactive start
    ends (Enter, or an idle window without keys);
  - `boot_exit` decides the `GetMemoryMap` / `ExitBootServices` rounds;
  - `paging` builds the page tables and proves that they map every address below the
    mapped limit to itself and fault above it;
  - `probe` gives the memory-probe pattern and folds what reads back (the volatile
    accesses themselves are in `app/`);
  - `tsc` joins counter halves, detects RDTSCP, spins, and keeps the loop statistics;
  - `console` encodes text for the `debugcon` port and, through a fixed 128-unit buffer,
    for the firmware console; nothing in the library allocates.
- `app/` — the firmware entry, firmware calls, privileged instructions and port output.
- `tests/` — tests of the library on concrete values.
