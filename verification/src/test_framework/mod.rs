//! How the kernel's test runs end: a 32-bit exit code written to QEMU's `isa-debug-exit`
//! device, which QEMU turns into its own exit status. The port write is done outside this
//! library.
use crate::utils::{Port, PortWriteLong};
use vstd::prelude::*;

verus! {

/// The I/O port of QEMU's `isa-debug-exit` device.
pub const QEMU_EXIT_PORT: u16 = 0xf4;

/// How a test run ends.
#[derive(Debug, Clone, Copy, PartialEq, Eq)]
pub enum QEMUExitCode {
    Success,
    Failure,
}

impl QEMUExitCode {
    pub open spec fn spec_code(self) -> u32 {
        match self {
            QEMUExitCode::Success => 0x10,
            QEMUExitCode::Failure => 0x11,
        }
    }

    /// The code written to the device.
    pub fn code(self) -> (r: u32)
        ensures
            r == self.spec_code(),
    {
        match self {
            QEMUExitCode::Success => 0x10,
            QEMUExitCode::Failure => 0x11,
        }
    }
}

/// The write that makes QEMU exit with `exit_code`.
pub fn exit_qemu(exit_code: QEMUExitCode) -> (r: PortWriteLong)
    ensures
        r == (PortWriteLong { port: Port { addr: QEMU_EXIT_PORT }, value: exit_code.spec_code() }),
{
    PortWriteLong { port: Port::new(QEMU_EXIT_PORT), value: exit_code.code() }
}

} // verus!
