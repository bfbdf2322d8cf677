//! Memory- and task-management core of a freestanding kernel, with verified
//! contracts: physical frame accounting, virtual-memory mapping, a family of
//! heap allocators, a cooperative task executor, and the scancode stream that
//! bridges the keyboard interrupt to an async consumer.
use vstd::prelude::*;

pub mod allocator;
pub mod memory;
pub mod paging;
pub mod task;
pub mod vga;

verus! {

/// Exit codes reported to the emulator the kernel's test harness runs under.
#[derive(Clone, Copy, Debug, PartialEq, Eq, Structural)]
pub enum QemuExitCode {
    /// Every test passed.
    Success,
    /// A test failed or panicked.
    Failed,
}

impl QemuExitCode {
    /// The value written to the emulator's exit port for this code.
    pub fn code(&self) -> (r: u32)
        ensures
            *self is Success ==> r == 0x10,
            *self is Failed ==> r == 0x11,
    {
        match self {
            QemuExitCode::Success => 0x10,
            QemuExitCode::Failed => 0x11,
        }
    }
}

/// Run every test of a suite, in order, each exactly once. Reporting and the
/// exit of the emulator stay with the harness around this.
pub fn test_runner<F: Fn()>(tests: &Vec<F>)
    requires
        forall|i: int| 0 <= i < tests@.len() ==> call_requires(#[trigger] tests@[i], ()),
{
    let mut i: usize = 0;
    while i < tests.len()
        invariant
            i <= tests@.len(),
            forall|j: int| 0 <= j < tests@.len() ==> call_requires(#[trigger] tests@[j], ()),
        decreases tests@.len() - i,
    {
        let test = &tests[i];
        test();
        i = i + 1;
    }
}

} // verus!
