//! The shutdown orchestrator: in which order the remaining processes are
//! terminated when the application exits, and what the log says of each.

use crate::registry::{ranked, ProcessView};
use vstd::prelude::*;
use vstd::string::*;

verus! {

/// The log line for an attempt to terminate the named service.
pub open spec fn termination_note_of(name: Seq<char>, outcome: Result<(), Seq<char>>) -> Seq<char> {
    match outcome {
        Ok(_) => name + " sidecar stopped"@,
        Err(reason) => name + " sidecar kill failed: "@ + reason,
    }
}

/// The log line for an attempt to terminate the named service.  A process
/// that could not be terminated is logged and otherwise passed over: the
/// processes behind it are still terminated.
pub fn termination_note(name: &str, outcome: Result<(), String>) -> (note: String)
    ensures
        note@ == termination_note_of(
            name@,
            match outcome {
                Ok(_) => Ok(()),
                Err(reason) => Err(reason@),
            },
        ),
{
    let mut note = String::from_str(name);
    match outcome {
        Ok(_) => {
            note.append(" sidecar stopped");
        },
        Err(reason) => {
            note.append(" sidecar kill failed: ");
            note.append(reason.as_str());
        },
    }
    note
}

/// The log line for a shutdown that could not reach the registry.
pub fn shutdown_lock_note() -> (note: String)
    ensures
        note@ == "failed to lock sidecar state during shutdown"@,
{
    String::from_str("failed to lock sidecar state during shutdown")
}

/// Shutdown order: a registry that is drained hands its processes out in
/// the reverse of the startup order, so that a service is terminated
/// before the services of lower rank on which it may depend.
pub proof fn lemma_drain_order<H>(processes: Seq<ProcessView<H>>)
    requires
        ranked(processes),
    ensures
        forall|i: int, j: int|
            0 <= i <= j < processes.len() ==> (#[trigger] processes.reverse()[i]).rank >= (
            #[trigger] processes.reverse()[j]).rank,
{
}

} // verus!
