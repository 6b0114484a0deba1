//! Services that are started on request: their names, the record of their
//! process ids, and the command that stops one.

use crate::registry::{
    find, lemma_placed, lemma_without, without, ManagedProcess, ProcessView, SupervisorRegistry,
};
use crate::text::{decimal, decimal_string, push_decimal, trim, trimmed};
use vstd::prelude::*;
use vstd::string::*;

verus! {

/// The text that `str::to_lowercase` makes of a text: its lowercase
/// equivalent by the rules of Unicode.
pub uninterp spec fn lowercase(text: Seq<char>) -> Seq<char>;

/// Calls `str::to_lowercase`.  The result is a function of the text alone.
#[verifier::external_body]
fn to_lowercase(text: &str) -> (lower: String)
    ensures
        lower@ == lowercase(text@),
{
    text.to_lowercase()
}

/// The name is one under which a service can be started on request.
pub open spec fn is_service_name(name: Seq<char>) -> bool {
    name == "hub"@ || name == "runtime"@
}

/// The error for a name that is not a service's.
pub open spec fn service_name_error() -> Seq<char> {
    "service must be 'hub' or 'runtime'"@
}

/// Accepts a name that is already trimmed and in lowercase if it is the
/// name of a service.
pub fn checked_service_name(normalized: String) -> (name: Result<String, String>)
    ensures
        match name {
            Ok(accepted) => is_service_name(normalized@) && accepted@ == normalized@,
            Err(error) => !is_service_name(normalized@) && error@ == service_name_error(),
        },
{
    let hub = String::from_str("hub");
    let runtime = String::from_str("runtime");
    if normalized == hub || normalized == runtime {
        return Ok(normalized);
    }
    Err(String::from_str("service must be 'hub' or 'runtime'"))
}

/// Brings the name of a service into its one form: trimmed and in
/// lowercase.  Only `hub` and `runtime` are names of services.
pub fn normalize_service_name(value: &str) -> (name: Result<String, String>)
    ensures
        match name {
            Ok(accepted) => is_service_name(accepted@) && accepted@ == lowercase(
                trimmed(value@),
            ),
            Err(error) => !is_service_name(lowercase(trimmed(value@))) && error@
                == service_name_error(),
        },
{
    let normalized = to_lowercase(trim(value));
    checked_service_name(normalized)
}

/// The command that stops a process: the program and its arguments.
pub struct KillCommand {
    pub program: String,
    pub arguments: Vec<String>,
}

/// The content of a [`KillCommand`].
pub struct KillCommandView {
    pub program: Seq<char>,
    pub arguments: Seq<Seq<char>>,
}

impl View for KillCommand {
    type V = KillCommandView;

    open spec fn view(&self) -> KillCommandView {
        KillCommandView { program: self.program@, arguments: self.arguments.deep_view() }
    }
}

/// The command that stops the process `pid`: on Windows the process and
/// its children are ended by force, elsewhere the process is sent the
/// signal to terminate.
pub open spec fn kill_command_of(pid: u32, windows: bool) -> KillCommandView {
    if windows {
        KillCommandView {
            program: "taskkill"@,
            arguments: seq!["/PID"@, decimal(pid as nat), "/T"@, "/F"@],
        }
    } else {
        KillCommandView { program: "kill"@, arguments: seq!["-TERM"@, decimal(pid as nat)] }
    }
}

/// Builds the command that stops the process `pid`.
pub fn kill_command(pid: u32, windows: bool) -> (command: KillCommand)
    ensures
        command@ == kill_command_of(pid, windows),
{
    let mut arguments: Vec<String> = Vec::new();
    if windows {
        arguments.push(String::from_str("/PID"));
        arguments.push(decimal_string(pid as u64));
        arguments.push(String::from_str("/T"));
        arguments.push(String::from_str("/F"));
        assert(arguments.deep_view() =~= seq!["/PID"@, decimal(pid as nat), "/T"@, "/F"@]);
        KillCommand { program: String::from_str("taskkill"), arguments }
    } else {
        arguments.push(String::from_str("-TERM"));
        arguments.push(decimal_string(pid as u64));
        assert(arguments.deep_view() =~= seq!["-TERM"@, decimal(pid as nat)]);
        KillCommand { program: String::from_str("kill"), arguments }
    }
}

/// The error for a process that the command did not stop.
pub open spec fn kill_error(pid: u32) -> Seq<char> {
    "failed to stop process "@ + decimal(pid as nat)
}

/// Judges the command that was to stop the process `pid` by whether it
/// ended in success.
pub fn kill_outcome(pid: u32, success: bool) -> (outcome: Result<(), String>)
    ensures
        match outcome {
            Ok(_) => success,
            Err(error) => !success && error@ == kill_error(pid),
        },
{
    if success {
        Ok(())
    } else {
        let mut error = String::from_str("failed to stop process ");
        push_decimal(&mut error, pid as u64);
        Err(error)
    }
}

/// The process ids that a list of processes records, by the name of the service.
pub open spec fn pids_of(processes: Seq<ProcessView<u32>>) -> Map<Seq<char>, u32> {
    Map::new(
        |name: Seq<char>| find(processes, name) is Some,
        |name: Seq<char>| find(processes, name)->0.handle,
    )
}

/// The record of the services that were started on request: the process id
/// of each, by the name of the service.
pub struct RuntimeState {
    service_pid: SupervisorRegistry<u32>,
}

impl View for RuntimeState {
    type V = Map<Seq<char>, u32>;

    closed spec fn view(&self) -> Map<Seq<char>, u32> {
        pids_of(self.service_pid.processes())
    }
}

impl RuntimeState {
    /// The record is in order: it holds at most one process id under each name.
    pub closed spec fn wf(&self) -> bool {
        self.service_pid.wf()
    }

    /// Tells whether the record is in order.  A record that was made by
    /// `new` and changed only through its own operations always is.
    pub fn is_in_order(&self) -> (ok: bool)
        ensures
            ok == self.wf(),
    {
        self.service_pid.is_in_order()
    }

    /// A record that holds no process id.
    pub fn new() -> (state: RuntimeState)
        ensures
            state.wf(),
            state@ == Map::<Seq<char>, u32>::empty(),
    {
        let state = RuntimeState { service_pid: SupervisorRegistry::new() };
        assert(state@ =~= Map::<Seq<char>, u32>::empty());
        state
    }

    /// Records that `service` runs as the process `pid`, and gives the
    /// process id that was recorded for it before, if there was one: that
    /// process is the caller's to terminate.
    pub fn insert(&mut self, service: String, pid: u32) -> (prior: Option<u32>)
        requires
            old(self).wf(),
        ensures
            final(self).wf(),
            final(self)@ == old(self)@.insert(service@, pid),
            prior == if old(self)@.dom().contains(service@) {
                Some(old(self)@[service@])
            } else {
                None
            },
    {
        let ghost before = self.service_pid.processes();
        let process = ManagedProcess { name: service, rank: 0, handle: pid };
        proof {
            lemma_without(before, service@);
            lemma_placed(without(before, service@), process@);
        }
        let prior = self.service_pid.register(process);
        assert(self@ =~= old(self)@.insert(service@, pid));
        match prior {
            Some(process) => Some(process.handle),
            None => None,
        }
    }

    /// The process id that is recorded for `service`, if there is one.
    pub fn get(&self, service: &String) -> (pid: Option<u32>)
        requires
            self.wf(),
        ensures
            pid == if self@.dom().contains(service@) {
                Some(self@[service@])
            } else {
                None
            },
    {
        match self.service_pid.get(service) {
            Some(process) => Some(process.handle),
            None => None,
        }
    }

    /// Removes what is recorded for `service`, and gives the process id
    /// that was recorded, if there was one.  Where none was recorded the
    /// record stays as it is.
    pub fn remove(&mut self, service: &String) -> (pid: Option<u32>)
        requires
            old(self).wf(),
        ensures
            final(self).wf(),
            final(self)@ == old(self)@.remove(service@),
            pid == if old(self)@.dom().contains(service@) {
                Some(old(self)@[service@])
            } else {
                None
            },
    {
        proof {
            lemma_without(self.service_pid.processes(), service@);
        }
        let taken = self.service_pid.take(service);
        assert(self@ =~= old(self)@.remove(service@));
        match taken {
            Some(process) => Some(process.handle),
            None => None,
        }
    }
}

impl Default for RuntimeState {
    fn default() -> (state: RuntimeState)
        ensures
            state.wf(),
            state@ == Map::<Seq<char>, u32>::empty(),
    {
        RuntimeState::new()
    }
}

} // verus!
