//! Trust/strength hierarchy and kernel services of a small weight-governed
//! operating system: every subsystem is a node with a weight, the kernel is
//! the strongest node, and every conflict is settled by weight alone.
pub mod strmap;
pub mod sort;
pub mod ts;
pub mod fs;
pub mod net;
pub mod elf_loader;
pub mod uptime;
pub mod task;
pub mod drivers;
pub mod status_screen;
pub mod syscall;
pub mod shell;
pub mod boot_display;

use vstd::prelude::*;

verus! {

/// Exit codes reported to the emulator through its debug-exit port.
#[derive(Debug, Clone, Copy, PartialEq, Eq, Structural)]
pub enum QemuExitCode {
    Success,
    Failed,
}

impl QemuExitCode {
    /// The value written to the debug-exit port.
    pub fn code(self) -> (r: u32)
        ensures
            self == QemuExitCode::Success ==> r == 0x10,
            self == QemuExitCode::Failed ==> r == 0x11,
    {
        match self {
            QemuExitCode::Success => 0x10,
            QemuExitCode::Failed => 0x11,
        }
    }
}

} // verus!
