//! Leaving UEFI boot services: fetch the memory map, then call `ExitBootServices` with
//! its key; when either call fails, start over, at most twice in all. The firmware calls
//! are made by the caller, which hands each status back to `BootExit` and performs the
//! step it answers with.

use vstd::prelude::*;
use crate::memory_map::{
    descriptor_count,
    ends_fit,
    highest_end,
    highest_mapped_address,
    spec_descriptor_count,
};

verus! {

/// Status of a firmware call that succeeded.
pub const EFI_SUCCESS: usize = 0;

/// Rounds of memory map and exit before giving up.
pub const EXIT_ATTEMPTS: usize = 2;

/// What the caller does next.
pub enum ExitStep {
    /// Call `GetMemoryMap` into the map buffer and report with `memory_map_returned`.
    GetMemoryMap,
    /// Call `ExitBootServices` with this map key and report with `exit_returned`.
    ExitBootServices { map_key: usize },
    /// Boot services are left: the memory top and the descriptor count of the map that
    /// the successful exit used.
    Exited { memory_top: u64, descriptor_count: usize },
    /// Both rounds failed: the status of the last failed call.
    Failed { status: usize },
}

/// Progress of the exit protocol, as its view shows it.
pub struct BootExitView {
    /// Round in progress, counted from 1.
    pub attempt: nat,
    /// Status of the most recent failed call, `EFI_SUCCESS` while none failed.
    pub last_error: usize,
    /// Memory top of the most recently fetched map.
    pub memory_top: u64,
    /// Descriptor count of the most recently fetched map.
    pub descriptor_count: usize,
}

/// Progress of the exit protocol.
pub struct BootExit {
    attempt: usize,
    last_error: usize,
    memory_top: u64,
    descriptor_count: usize,
}

impl BootExit {
    pub closed spec fn view(&self) -> BootExitView {
        BootExitView {
            attempt: self.attempt as nat,
            last_error: self.last_error,
            memory_top: self.memory_top,
            descriptor_count: self.descriptor_count,
        }
    }

    /// The round counter stays within `1..=EXIT_ATTEMPTS`.
    pub open spec fn wf(&self) -> bool {
        1 <= self@.attempt <= EXIT_ATTEMPTS
    }

    /// The first round, which starts by fetching the memory map.
    pub fn new() -> (res: (BootExit, ExitStep))
        ensures
            res.0.wf(),
            res.0@ == (BootExitView {
                attempt: 1,
                last_error: EFI_SUCCESS,
                memory_top: 0,
                descriptor_count: 0,
            }),
            res.1 is GetMemoryMap,
    {
        (
            BootExit { attempt: 1, last_error: EFI_SUCCESS, memory_top: 0, descriptor_count: 0 },
            ExitStep::GetMemoryMap,
        )
    }

    /// After a failed call with status `status`: another round if one is left, else the
    /// failure with that status.
    fn fail(&mut self, status: usize) -> (step: ExitStep)
        requires
            old(self).wf(),
            status != EFI_SUCCESS,
        ensures
            final(self).wf(),
            final(self)@.last_error == status,
            final(self)@.memory_top == old(self)@.memory_top,
            final(self)@.descriptor_count == old(self)@.descriptor_count,
            old(self)@.attempt < EXIT_ATTEMPTS ==> step is GetMemoryMap && final(self)@.attempt
                == old(self)@.attempt + 1,
            old(self)@.attempt == EXIT_ATTEMPTS ==> step == (ExitStep::Failed { status })
                && final(self)@.attempt == old(self)@.attempt,
    {
        self.last_error = status;
        if self.attempt < EXIT_ATTEMPTS {
            self.attempt = self.attempt + 1;
            ExitStep::GetMemoryMap
        } else {
            ExitStep::Failed { status: self.last_error }
        }
    }

    /// `GetMemoryMap` returned `status`, with `map_key`, and on success the map in the
    /// first `map_size` bytes of `buf`, descriptors `descriptor_size` bytes apart. On
    /// success the map's memory top and descriptor count are kept and the exit is due;
    /// on failure the next round starts, or the protocol fails with `status`.
    pub fn memory_map_returned(
        &mut self,
        status: usize,
        map_key: usize,
        buf: &[u8],
        map_size: usize,
        descriptor_size: usize,
    ) -> (step: ExitStep)
        requires
            old(self).wf(),
            status == EFI_SUCCESS ==> map_size <= buf@.len() && ends_fit(
                buf@,
                map_size as int,
                descriptor_size as int,
            ),
        ensures
            final(self).wf(),
            status == EFI_SUCCESS ==> {
                &&& step == (ExitStep::ExitBootServices { map_key })
                &&& final(self)@ == (BootExitView {
                    memory_top: highest_end(
                        buf@,
                        descriptor_size as int,
                        spec_descriptor_count(map_size as int, descriptor_size as int) as nat,
                    ) as u64,
                    descriptor_count: spec_descriptor_count(
                        map_size as int,
                        descriptor_size as int,
                    ) as usize,
                    ..old(self)@
                })
            },
            status != EFI_SUCCESS ==> {
                &&& final(self)@.last_error == status
                &&& final(self)@.memory_top == old(self)@.memory_top
                &&& final(self)@.descriptor_count == old(self)@.descriptor_count
                &&& old(self)@.attempt < EXIT_ATTEMPTS ==> step is GetMemoryMap
                    && final(self)@.attempt == old(self)@.attempt + 1
                &&& old(self)@.attempt == EXIT_ATTEMPTS ==> step == (ExitStep::Failed { status })
                    && final(self)@.attempt == old(self)@.attempt
            },
    {
        if status != EFI_SUCCESS {
            return self.fail(status);
        }
        self.memory_top = highest_mapped_address(buf, map_size, descriptor_size);
        self.descriptor_count = descriptor_count(map_size, descriptor_size);
        ExitStep::ExitBootServices { map_key }
    }

    /// `ExitBootServices` returned `status`. On success the protocol is done with the
    /// kept memory top and descriptor count; on failure the next round starts, or the
    /// protocol fails with `status`.
    pub fn exit_returned(&mut self, status: usize) -> (step: ExitStep)
        requires
            old(self).wf(),
        ensures
            final(self).wf(),
            final(self)@.memory_top == old(self)@.memory_top,
            final(self)@.descriptor_count == old(self)@.descriptor_count,
            status == EFI_SUCCESS ==> step == (ExitStep::Exited {
                memory_top: old(self)@.memory_top,
                descriptor_count: old(self)@.descriptor_count,
            }) && final(self)@ == old(self)@,
            status != EFI_SUCCESS ==> {
                &&& final(self)@.last_error == status
                &&& old(self)@.attempt < EXIT_ATTEMPTS ==> step is GetMemoryMap
                    && final(self)@.attempt == old(self)@.attempt + 1
                &&& old(self)@.attempt == EXIT_ATTEMPTS ==> step == (ExitStep::Failed { status })
                    && final(self)@.attempt == old(self)@.attempt
            },
    {
        if status == EFI_SUCCESS {
            ExitStep::Exited { memory_top: self.memory_top, descriptor_count: self.descriptor_count }
        } else {
            self.fail(status)
        }
    }
}

} // verus!
