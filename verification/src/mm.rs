//! Page faults.
use crate::signal::ctypes::SIGSEGV;
use vstd::prelude::*;

verus! {

/// What is done about a page fault.
#[derive(Debug, Clone, Copy, PartialEq, Eq, Structural)]
pub enum FaultStep {
    /// The fault is the kernel's own: it is not handled here.
    NotHandled,
    /// Try to map a page of a file.
    MapFile,
    /// Let the address space handle it.
    AskAddressSpace,
    /// The fault is handled.
    Handled,
    /// The process exits with this code.
    Exit(i32),
}

/// What came of a step.
#[derive(Debug, Clone, Copy, PartialEq, Eq, Structural)]
pub enum FaultEvent {
    /// The fault came from user mode, or while the kernel used user memory.
    Raised { is_user: bool, accessing_user_memory: bool },
    /// Whether a page of a file was mapped.
    FileMapped(bool),
    /// Whether the address space handled it.
    SpaceHandled(bool),
}

/// What is done about a page fault after `event`.
pub open spec fn fault_step(event: FaultEvent) -> FaultStep {
    match event {
        FaultEvent::Raised { is_user, accessing_user_memory } => if is_user {
            FaultStep::MapFile
        } else if accessing_user_memory {
            FaultStep::AskAddressSpace
        } else {
            FaultStep::NotHandled
        },
        FaultEvent::FileMapped(true) => FaultStep::Handled,
        FaultEvent::FileMapped(false) => FaultStep::AskAddressSpace,
        FaultEvent::SpaceHandled(true) => FaultStep::Handled,
        FaultEvent::SpaceHandled(false) => FaultStep::Exit(11),
    }
}

/// Returns what is done about a page fault. A fault in user memory is first
/// offered to the mapped files if it comes from user mode, then to the address
/// space; one that neither handles ends the process.
pub fn handle_page_fault(event: FaultEvent) -> (r: FaultStep)
    ensures
        r == fault_step(event),
{
    match event {
        FaultEvent::Raised { is_user, accessing_user_memory } => {
            if !is_user && !accessing_user_memory {
                return FaultStep::NotHandled;
            }
            if is_user {
                FaultStep::MapFile
            } else {
                FaultStep::AskAddressSpace
            }
        },
        FaultEvent::FileMapped(mapped) => if mapped {
            FaultStep::Handled
        } else {
            FaultStep::AskAddressSpace
        },
        FaultEvent::SpaceHandled(handled) => if handled {
            FaultStep::Handled
        } else {
            FaultStep::Exit(SIGSEGV as i32)
        },
    }
}

/// What is done about a fault: one of the kernel's own is left alone. One from user mode is
/// first offered to the mapped files, one of the kernel on user memory to the address
/// space, and so is what the files do not take. What nobody takes ends the process with the
/// number of `SIGSEGV`.
pub proof fn law_faults_are_offered_in_turn(is_user: bool, accessing: bool, mapped: bool, handled: bool)
    ensures
        ({
            let raised = fault_step(
                FaultEvent::Raised { is_user, accessing_user_memory: accessing },
            );
            &&& raised is NotHandled <==> !is_user && !accessing
            &&& raised is MapFile <==> is_user
            &&& raised is AskAddressSpace <==> !is_user && accessing
        }),
        fault_step(FaultEvent::FileMapped(mapped)) is Handled <==> mapped,
        fault_step(FaultEvent::FileMapped(mapped)) is AskAddressSpace <==> !mapped,
        fault_step(FaultEvent::SpaceHandled(handled)) is Handled <==> handled,
        !handled ==> fault_step(FaultEvent::SpaceHandled(handled)) == FaultStep::Exit(11),
{
}

} // verus!
