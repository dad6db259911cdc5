//! Becoming the process that the system holds responsible for its own audio
//! permissions, where the system attributes them to an ancestor: the program
//! starts itself again once, and ends as that child ends.

use vstd::prelude::*;

verus! {

/// Whether the program is to start itself again: only where the system asks for
/// it, and not in the child, which finds its mark in the environment.
pub fn maybe_reexec_disclaimed(attributed: bool, marked: bool) -> (r: bool)
    ensures
        r == (attributed && !marked),
{
    attributed && !marked
}

/// How a child process ended.
#[derive(Debug, Clone, Copy, PartialEq, Eq, Structural)]
pub enum ChildEnd {
    /// It could not be waited for.
    Lost,
    /// It was ended by a signal.
    Signaled(i32),
    /// It ended with a status.
    Exited(i32),
}

/// The status that stands for a child's end.
pub open spec fn exit_status(end: ChildEnd) -> int {
    match end {
        ChildEnd::Lost => 1,
        ChildEnd::Signaled(n) => 128 + n,
        ChildEnd::Exited(n) => n as int,
    }
}

/// The status that the program ends with after its child has ended.
pub fn exit_code(end: ChildEnd) -> (r: i32)
    requires
        exit_status(end) <= i32::MAX,
    ensures
        r == exit_status(end),
{
    match end {
        ChildEnd::Lost => 1,
        ChildEnd::Signaled(n) => 128 + n,
        ChildEnd::Exited(n) => n,
    }
}

/// The program ends with the status that its child ended with; a signal stands
/// for a status beyond 128, and a child that was lost for a failure.
pub proof fn the_program_ends_as_its_child(n: i32)
    ensures
        exit_status(ChildEnd::Exited(n)) == n,
        exit_status(ChildEnd::Signaled(n)) - exit_status(ChildEnd::Exited(n)) == 128,
        exit_status(ChildEnd::Lost) != exit_status(ChildEnd::Exited(0)),
{
}

} // verus!
