//! Leaving QEMU with a status on x86-64, for integration tests: the
//! isa-debug-exit device at `IOBASE` exits QEMU with `(value << 1) | 1`, so
//! the status is always odd and the harness has to know which status this
//! arch calls success.

use vstd::prelude::*;
use crate::steps::{IOBASE, PASS, PASS_STATUS};

verus! {
/// The port and value the x86-64 kernel writes to stop the machine with
/// `code`: the code itself, at the isa-debug-exit device.
pub fn exit(code: u32) -> (r: (u16, u32))
    ensures
        r == (IOBASE, code),
{
    (IOBASE, code)
}

/// The exit status QEMU takes from a value written to isa-debug-exit.
pub open spec fn debug_exit_status(value: u32) -> int {
    2 * value + 1
}

/// The x86-64 pass code is the one that QEMU turns into the status the
/// harness calls success, and no status of the device is zero.
pub proof fn lemma_x86_pass_status(code: u32)
    ensures
        debug_exit_status(code) != 0,
        debug_exit_status(code) == PASS_STATUS <==> code == PASS,
{
}

} // verus!
