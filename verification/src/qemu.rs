use vstd::prelude::*;

verus! {

/// Exit statuses that the kernel reports through QEMU's isa-debug-exit
/// device; QEMU exits with status `2 * code + 1`.
#[derive(Debug, Clone, Copy, PartialEq, Eq, Structural)]
pub enum QemuExitCode {
    Success,
    Failed,
}

/// The value written to the debug-exit port for `c`.
pub open spec fn exit_code_value(c: QemuExitCode) -> u32 {
    match c {
        QemuExitCode::Success => 0x10,
        QemuExitCode::Failed => 0x11,
    }
}

impl QemuExitCode {
    /// The value to write to the debug-exit port.
    pub fn code(self) -> (r: u32)
        ensures
            r == exit_code_value(self),
    {
        match self {
            QemuExitCode::Success => 0x10,
            QemuExitCode::Failed => 0x11,
        }
    }
}

/// Under QEMU's mapping `2 * code + 1`, success leaves the emulator with
/// status 33 and failure with status 35.
pub proof fn lemma_exit_statuses()
    ensures
        2 * exit_code_value(QemuExitCode::Success) + 1 == 33,
        2 * exit_code_value(QemuExitCode::Failed) + 1 == 35,
{
}

} // verus!
