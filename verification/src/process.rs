//! Process control: what the kernel's answers to the process syscalls mean.
//!
//! The kernel answers a `spawn` with the child's id, or with one of its
//! error codes, which lie at or above the spawn error bound; a `wait` with
//! the reaped child's id and status, or a bad-id or timeout code; a `kill`
//! and a priority change with a status code.  The codes themselves belong
//! to the kernel's ABI and are handed in as a [`SyscallCodes`].

use vstd::prelude::*;

verus! {

/// The kernel ABI's answer codes for the process syscalls.
#[derive(Clone, Copy, Debug, PartialEq, Eq, Structural)]
pub struct SyscallCodes {
    /// `spawn`: the image index is not in the registry.
    pub spawn_bad_index: u64,
    /// `spawn`: the process table has no free slot.
    pub spawn_no_slot: u64,
    /// `spawn`: the child state or the priority is malformed.
    pub spawn_bad_state: u64,
    /// `spawn`: the least value that is not a process id.
    pub spawn_err_min: u64,
    /// `wait`: the id is not a child that can be reaped.
    pub wait_bad_id: u64,
    /// `wait`: no child finished in time.
    pub wait_timeout: u64,
    /// `kill`: the id is not a live process.
    pub kill_bad_id: u64,
    /// priority change: the level is the idle sentinel.
    pub setprio_bad_prio: u64,
}

/// A process id: an index into the kernel's process table.
#[derive(Clone, Copy, Debug, PartialEq, Eq, Structural)]
pub struct ProcessId(usize);

impl ProcessId {
    pub closed spec fn index(&self) -> usize {
        self.0
    }

    /// The id as a table index.
    pub fn as_usize(self) -> (r: usize)
        ensures
            r == self.index(),
    {
        self.0
    }
}

/// The id the kernel named by `id`, as a table index.
pub open spec fn id_of(id: u64) -> usize {
    id as usize
}

/// An error from a spawn: recoverable, not a fault.
#[derive(Clone, Copy, Debug, PartialEq, Eq, Structural)]
pub enum SpawnErr {
    /// The image index is not in the registry.
    BadIndex,
    /// The process table is full.
    NoSlot,
    /// The child state or the priority is malformed.
    BadState,
}

/// The result of a wait.
#[derive(Clone, Copy, Debug, PartialEq, Eq, Structural)]
pub enum WaitResult {
    /// A child was reaped: its id and exit status.
    Reaped(ProcessId, u64),
    /// No child was available.
    Timeout,
    /// The given child id is not a zombie.
    BadId,
}

/// An error from a wait.
#[derive(Clone, Copy, Debug, PartialEq, Eq, Structural)]
pub enum WaitError {
    /// No zombie was available.
    Timeout,
    /// The given child id is not a zombie.
    BadId,
}

/// An error from a kill.
#[derive(Clone, Copy, Debug, PartialEq, Eq, Structural)]
pub enum KillError {
    /// The target is not a live or zombie process.
    BadId,
}

/// An error from a priority change.
#[derive(Clone, Copy, Debug, PartialEq, Eq, Structural)]
pub enum SetPrioError {
    /// The target is not a live process.
    BadId,
    /// The level is the idle sentinel.
    BadPrio,
}

/// A process's priority level: 0 is most urgent, 254 the least urgent
/// schedulable level, 255 the idle sentinel.
#[derive(Clone, Copy, Debug, PartialEq, Eq, Structural, PartialOrd, Ord)]
pub struct Priority(u8);

/// The priority a thread (a child process) is spawned at.
pub const THREAD_PRIORITY: u64 = 128;

impl Priority {
    pub closed spec fn value(&self) -> u8 {
        self.0
    }

    /// The priority at `level` (255, the idle sentinel, is refused by a
    /// priority change).
    pub fn new(level: u8) -> (r: Priority)
        ensures
            r.value() == level,
    {
        Priority(level)
    }

    /// The numeric level.
    pub fn level(self) -> (r: u8)
        ensures
            r == self.value(),
    {
        self.0
    }

    /// The most urgent level.
    pub fn min_level() -> (r: Priority)
        ensures
            r.value() == 0,
    {
        Priority(0)
    }

    /// The least urgent schedulable level.
    pub fn max_level() -> (r: Priority)
        ensures
            r.value() == 254,
    {
        Priority(254)
    }

    /// The idle sentinel: not settable; a process at it is never scheduled.
    pub fn idle() -> (r: Priority)
        ensures
            r.value() == 255,
    {
        Priority(255)
    }
}

/// What a spawn's answer `id` means: the three error codes (in this
/// order), a process id below the error bound, and any other code at or
/// above it taken as a bad state rather than a bogus id.
pub open spec fn spawn_outcome(id: u64, c: SyscallCodes) -> Result<usize, SpawnErr> {
    if id == c.spawn_bad_index {
        Err(SpawnErr::BadIndex)
    } else if id == c.spawn_no_slot {
        Err(SpawnErr::NoSlot)
    } else if id == c.spawn_bad_state {
        Err(SpawnErr::BadState)
    } else if id < c.spawn_err_min {
        Ok(id_of(id))
    } else {
        Err(SpawnErr::BadState)
    }
}

/// Read a spawn's answer.
pub fn spawn_result(id: u64, c: &SyscallCodes) -> (r: Result<ProcessId, SpawnErr>)
    ensures
        match spawn_outcome(id, *c) {
            Ok(i) => r matches Ok(p) && p.index() == i,
            Err(e) => r == Err::<ProcessId, SpawnErr>(e),
        },
{
    if id == c.spawn_bad_index {
        Err(SpawnErr::BadIndex)
    } else if id == c.spawn_no_slot {
        Err(SpawnErr::NoSlot)
    } else if id == c.spawn_bad_state {
        Err(SpawnErr::BadState)
    } else if id < c.spawn_err_min {
        Ok(ProcessId(id as usize))
    } else {
        Err(SpawnErr::BadState)
    }
}

/// What a wait's answer means: the bad-id code, then the timeout code,
/// then a reaped child.
pub open spec fn wait_outcome(id: u64, c: SyscallCodes) -> Result<(), WaitError> {
    if id == c.wait_bad_id {
        Err(WaitError::BadId)
    } else if id == c.wait_timeout {
        Err(WaitError::Timeout)
    } else {
        Ok(())
    }
}

/// Read a wait for one child: its exit status, or the error.
pub fn wait_result(id: u64, status: u64, c: &SyscallCodes) -> (r: Result<u64, WaitError>)
    ensures
        match wait_outcome(id, *c) {
            Ok(_) => r == Ok::<u64, WaitError>(status),
            Err(e) => r == Err::<u64, WaitError>(e),
        },
{
    if id == c.wait_bad_id {
        Err(WaitError::BadId)
    } else if id == c.wait_timeout {
        Err(WaitError::Timeout)
    } else {
        Ok(status)
    }
}

/// Read a wait for any child: the reaped child's id and exit status, or
/// the error.
pub fn wait_any_result(id: u64, status: u64, c: &SyscallCodes) -> (r: Result<(ProcessId, u64), WaitError>)
    ensures
        match wait_outcome(id, *c) {
            Ok(_) => r matches Ok((p, s)) && p.index() == id_of(id) && s == status,
            Err(e) => r == Err::<(ProcessId, u64), WaitError>(e),
        },
{
    if id == c.wait_bad_id {
        Err(WaitError::BadId)
    } else if id == c.wait_timeout {
        Err(WaitError::Timeout)
    } else {
        Ok((ProcessId(id as usize), status))
    }
}

/// Read a kill's answer: the bad-id code, or success.
pub fn kill_result(result: u64, c: &SyscallCodes) -> (r: Result<(), KillError>)
    ensures
        r == (if result == c.kill_bad_id { Err(KillError::BadId) } else { Ok::<(), KillError>(()) }),
{
    if result == c.kill_bad_id {
        Err(KillError::BadId)
    } else {
        Ok(())
    }
}

/// Read a priority change's answer: 0 is success, the bad-priority code a
/// refused level, anything else a bad target.
pub fn set_priority_result(result: u64, c: &SyscallCodes) -> (r: Result<(), SetPrioError>)
    ensures
        r == (if result == 0 {
            Ok::<(), SetPrioError>(())
        } else if result == c.setprio_bad_prio {
            Err(SetPrioError::BadPrio)
        } else {
            Err(SetPrioError::BadId)
        }),
{
    if result == 0 {
        Ok(())
    } else if result == c.setprio_bad_prio {
        Err(SetPrioError::BadPrio)
    } else {
        Err(SetPrioError::BadId)
    }
}

} // verus!
