//! The startup orchestrator: services are launched one after another in
//! the order of their ranks, each is health-checked before the next is
//! launched, and a failure takes down everything the attempt has started.
//!
//! The orchestrator performs no I/O.  It is a state machine: the program
//! around it carries out each action and reports what happened as the next
//! event.

use crate::descriptor::{DescriptorView, ServiceDescriptor};
use crate::plan::{by_rank, in_rank_order, sort_by_rank};
use crate::registry::{in_reverse, ManagedProcess, ProcessView};
use vstd::prelude::*;
use vstd::string::*;

verus! {

/// Where one service stands in a startup attempt.
#[derive(Clone, Copy, Debug, PartialEq, Eq, Structural)]
pub enum ServiceState {
    /// The attempt has not reached the service yet.
    NotStarted,
    /// The service is being launched.
    Spawning,
    /// The process runs, and its health is awaited.
    HealthPending,
    /// The service answered its health probe.
    Healthy,
    /// The service could not be launched, or did not become healthy in time.
    Failed,
}

/// Where a startup attempt stands.
#[derive(Clone, Copy, Debug, PartialEq, Eq, Structural)]
pub enum Phase {
    /// The service at the cursor is being launched.
    Spawning,
    /// The service at the cursor runs, and its health is awaited.
    HealthPending,
    /// Every service is healthy, and the processes were handed over.
    Finished,
    /// The service at the cursor failed, and the processes were handed back.
    Failed,
}

/// What the program around the orchestrator reports.
pub enum StartupEvent<H> {
    /// The service at the cursor was launched; this is its handle.
    Spawned(H),
    /// The executable of the service at the cursor was not found.
    ResolveFailed(String),
    /// The operating system refused to launch the service at the cursor.
    SpawnFailed(String),
    /// The service at the cursor answered its health probe.
    Healthy,
    /// The service at the cursor did not become healthy; the text says why.
    Unhealthy(String),
}

/// The content of a [`StartupEvent`].
pub enum EventView<H> {
    Spawned(H),
    ResolveFailed(Seq<char>),
    SpawnFailed(Seq<char>),
    Healthy,
    Unhealthy(Seq<char>),
}

impl<H> View for StartupEvent<H> {
    type V = EventView<H>;

    open spec fn view(&self) -> EventView<H> {
        match *self {
            StartupEvent::Spawned(handle) => EventView::Spawned(handle),
            StartupEvent::ResolveFailed(reason) => EventView::ResolveFailed(reason@),
            StartupEvent::SpawnFailed(reason) => EventView::SpawnFailed(reason@),
            StartupEvent::Healthy => EventView::Healthy,
            StartupEvent::Unhealthy(reason) => EventView::Unhealthy(reason@),
        }
    }
}

/// What the orchestrator asks the program around it to do next.
pub enum StartupAction<H> {
    /// Launch the service at this index of the plan, and report `Spawned`,
    /// `ResolveFailed` or `SpawnFailed`.
    Spawn { index: usize },
    /// Wait for the service at this index of the plan to answer its health
    /// probe, and report `Healthy` or `Unhealthy`.
    AwaitHealth { index: usize },
    /// The attempt failed: terminate these processes in this order, then
    /// report the error to the user.
    Rollback { terminate: Vec<ManagedProcess<H>>, error: String },
    /// Every service is healthy: put these processes into the registry.
    Commit { started: Vec<ManagedProcess<H>> },
    /// The event does not fit the phase.  Nothing has changed, and the event
    /// is handed back.
    Rejected { event: StartupEvent<H> },
}

/// The content of a [`StartupAction`].
pub enum ActionView<H> {
    Spawn { index: int },
    AwaitHealth { index: int },
    Rollback { terminate: Seq<ProcessView<H>>, error: Seq<char> },
    Commit { started: Seq<ProcessView<H>> },
    Rejected { event: EventView<H> },
}

impl<H> View for StartupAction<H> {
    type V = ActionView<H>;

    open spec fn view(&self) -> ActionView<H> {
        match *self {
            StartupAction::Spawn { index } => ActionView::Spawn { index: index as int },
            StartupAction::AwaitHealth { index } => ActionView::AwaitHealth { index: index as int },
            StartupAction::Rollback { terminate, error } => ActionView::Rollback {
                terminate: terminate.deep_view(),
                error: error@,
            },
            StartupAction::Commit { started } => ActionView::Commit {
                started: started.deep_view(),
            },
            StartupAction::Rejected { event } => ActionView::Rejected { event: event@ },
        }
    }
}

/// The content of a startup attempt.
pub struct StartupView<H> {
    /// The descriptors of the services, in the order in which they start.
    pub plan: Seq<DescriptorView>,
    /// The index of the service that the attempt works on.
    pub cursor: int,
    /// Where the attempt stands.
    pub phase: Phase,
    /// The processes that the attempt has started and still holds.
    pub started: Seq<ProcessView<H>>,
}

/// One step of a startup attempt: the attempt after the step, a line for
/// the log, and what to do next.
pub struct TransitionView<H> {
    pub next: StartupView<H>,
    pub note: Option<Seq<char>>,
    pub action: ActionView<H>,
}

/// What holds of every startup attempt: the plan stands in rank order, and
/// the attempt holds one process for each service before the cursor, and one
/// for the service at the cursor once it was launched; when the attempt is
/// over it holds none.
pub open spec fn inv<H>(s: StartupView<H>) -> bool {
    &&& in_rank_order(s.plan)
    &&& 0 <= s.cursor <= s.plan.len()
    &&& match s.phase {
        Phase::Spawning => s.cursor < s.plan.len() && s.started.len() == s.cursor,
        Phase::HealthPending => s.cursor < s.plan.len() && s.started.len() == s.cursor + 1,
        Phase::Finished => s.cursor == s.plan.len() && s.started.len() == 0,
        Phase::Failed => s.started.len() == 0,
    }
    &&& forall|i: int|
        0 <= i < s.started.len() ==> (#[trigger] s.started[i]).name == s.plan[i].name
            && s.started[i].rank == s.plan[i].rank
}

/// The line that opens the log of an attempt.
pub open spec fn opening_note() -> Seq<char> {
    "initializing sidecar runtime"@
}

/// The line that closes the log of an attempt that succeeded.
pub open spec fn closing_note() -> Seq<char> {
    "sidecar runtime initialized successfully"@
}

/// The log line for a service that was launched.
pub open spec fn spawned_note(name: Seq<char>) -> Seq<char> {
    name + " sidecar spawned"@
}

/// The log line for a service that answered its health probe.
pub open spec fn healthy_note(name: Seq<char>) -> Seq<char> {
    name + " sidecar healthy"@
}

/// The log line for a service that did not become healthy.
pub open spec fn unhealthy_note(name: Seq<char>, reason: Seq<char>) -> Seq<char> {
    name + " health probe failed, shutting down sidecars: "@ + reason
}

/// The error for a service whose executable was not found.
pub open spec fn resolve_error(name: Seq<char>, reason: Seq<char>) -> Seq<char> {
    "failed to resolve "@ + name + " sidecar: "@ + reason
}

/// The error for a service that the operating system refused to launch.
pub open spec fn spawn_error(name: Seq<char>, reason: Seq<char>) -> Seq<char> {
    "failed to spawn "@ + name + " sidecar: "@ + reason
}

/// The attempt before its first step.
pub open spec fn initial<H>(descriptors: Seq<DescriptorView>) -> TransitionView<H> {
    let plan = by_rank(descriptors);
    if plan.len() == 0 {
        TransitionView {
            next: StartupView { plan, cursor: 0, phase: Phase::Finished, started: Seq::empty() },
            note: Some(opening_note()),
            action: ActionView::Commit { started: Seq::empty() },
        }
    } else {
        TransitionView {
            next: StartupView { plan, cursor: 0, phase: Phase::Spawning, started: Seq::empty() },
            note: Some(opening_note()),
            action: ActionView::Spawn { index: 0 },
        }
    }
}

/// The step that ends an attempt in failure: every process that the attempt
/// holds is handed back, the one started last first.
pub open spec fn fail<H>(s: StartupView<H>, error: Seq<char>, note: Option<Seq<char>>) -> TransitionView<H> {
    TransitionView {
        next: StartupView { phase: Phase::Failed, started: Seq::empty(), ..s },
        note,
        action: ActionView::Rollback { terminate: s.started.reverse(), error },
    }
}

/// The step that an attempt takes on an event.
pub open spec fn step<H>(s: StartupView<H>, event: EventView<H>) -> TransitionView<H> {
    let name = s.plan[s.cursor].name;
    match (s.phase, event) {
        (Phase::Spawning, EventView::Spawned(handle)) => TransitionView {
            next: StartupView {
                phase: Phase::HealthPending,
                started: s.started.push(
                    ProcessView { name, rank: s.plan[s.cursor].rank, handle },
                ),
                ..s
            },
            note: Some(spawned_note(name)),
            action: ActionView::AwaitHealth { index: s.cursor },
        },
        (Phase::Spawning, EventView::ResolveFailed(reason)) => fail(
            s,
            resolve_error(name, reason),
            None,
        ),
        (Phase::Spawning, EventView::SpawnFailed(reason)) => fail(
            s,
            spawn_error(name, reason),
            None,
        ),
        (Phase::HealthPending, EventView::Healthy) => if s.cursor + 1 < s.plan.len() {
            TransitionView {
                next: StartupView { phase: Phase::Spawning, cursor: s.cursor + 1, ..s },
                note: Some(healthy_note(name)),
                action: ActionView::Spawn { index: s.cursor + 1 },
            }
        } else {
            TransitionView {
                next: StartupView {
                    phase: Phase::Finished,
                    cursor: s.cursor + 1,
                    started: Seq::empty(),
                    ..s
                },
                note: Some(healthy_note(name)),
                action: ActionView::Commit { started: s.started },
            }
        },
        (Phase::HealthPending, EventView::Unhealthy(reason)) => fail(
            s,
            reason,
            Some(unhealthy_note(name, reason)),
        ),
        _ => TransitionView { next: s, note: None, action: ActionView::Rejected { event } },
    }
}

/// The state of the service at `index` of the plan.
pub open spec fn service_state<H>(s: StartupView<H>, index: int) -> ServiceState {
    if index < s.cursor {
        ServiceState::Healthy
    } else if index > s.cursor {
        ServiceState::NotStarted
    } else {
        match s.phase {
            Phase::Spawning => ServiceState::Spawning,
            Phase::HealthPending => ServiceState::HealthPending,
            Phase::Finished => ServiceState::NotStarted,
            Phase::Failed => ServiceState::Failed,
        }
    }
}

/// A startup attempt.
pub struct Startup<H> {
    plan: Vec<ServiceDescriptor>,
    cursor: usize,
    phase: Phase,
    started: Vec<ManagedProcess<H>>,
}

impl<H> View for Startup<H> {
    type V = StartupView<H>;

    closed spec fn view(&self) -> StartupView<H> {
        StartupView {
            plan: self.plan.deep_view(),
            cursor: self.cursor as int,
            phase: self.phase,
            started: self.started.deep_view(),
        }
    }
}

/// One step of a startup attempt: the attempt after the step, a line for
/// the log where the step has one, and what to do next.
pub struct Transition<H> {
    pub next: Startup<H>,
    pub note: Option<String>,
    pub action: StartupAction<H>,
}

impl<H> View for Transition<H> {
    type V = TransitionView<H>;

    open spec fn view(&self) -> TransitionView<H> {
        TransitionView { next: self.next@, note: self.note.deep_view(), action: self.action@ }
    }
}

/// Joins two texts.
fn joined(first: &str, second: &str) -> (text: String)
    ensures
        text@ == first@ + second@,
{
    let mut text = String::from_str(first);
    text.append(second);
    text
}

/// Joins four texts.
fn joined4(first: &str, second: &str, third: &str, fourth: &str) -> (text: String)
    ensures
        text@ == first@ + second@ + third@ + fourth@,
{
    let mut text = String::from_str(first);
    text.append(second);
    text.append(third);
    text.append(fourth);
    text
}

impl<H> Startup<H> {
    #[verifier::type_invariant]
    spec fn well_formed(&self) -> bool {
        inv(self@)
    }

    /// Opens an attempt to start the services that `descriptors` describe,
    /// in the order of their ranks.
    pub fn begin(descriptors: Vec<ServiceDescriptor>) -> (first: Transition<H>)
        ensures
            first@ == initial::<H>(descriptors.deep_view()),
            inv(first.next@),
    {
        let plan = sort_by_rank(descriptors);
        let note = Some(String::from_str("initializing sidecar runtime"));
        let started: Vec<ManagedProcess<H>> = Vec::new();
        assert(started.deep_view() =~= Seq::<ProcessView<H>>::empty());
        if plan.len() == 0 {
            let handed: Vec<ManagedProcess<H>> = Vec::new();
            assert(handed.deep_view() =~= Seq::<ProcessView<H>>::empty());
            Transition {
                next: Startup { plan, cursor: 0, phase: Phase::Finished, started },
                note,
                action: StartupAction::Commit { started: handed },
            }
        } else {
            Transition {
                next: Startup { plan, cursor: 0, phase: Phase::Spawning, started },
                note,
                action: StartupAction::Spawn { index: 0 },
            }
        }
    }

    /// Where the attempt stands.
    pub fn phase(&self) -> (phase: Phase)
        ensures
            phase == self@.phase,
    {
        self.phase
    }

    /// The index of the service that the attempt works on.
    pub fn cursor(&self) -> (cursor: usize)
        ensures
            cursor == self@.cursor,
    {
        self.cursor
    }

    /// The number of services in the plan.
    pub fn plan_len(&self) -> (n: usize)
        ensures
            n == self@.plan.len(),
    {
        self.plan.len()
    }

    /// The number of processes that the attempt holds.
    pub fn held(&self) -> (n: usize)
        ensures
            n == self@.started.len(),
    {
        self.started.len()
    }

    /// The descriptor of the service at `index` of the plan, if the plan is
    /// that long.
    pub fn descriptor(&self, index: usize) -> (descriptor: Option<&ServiceDescriptor>)
        ensures
            match descriptor {
                Some(d) => index < self@.plan.len() && d@ == self@.plan[index as int],
                None => index >= self@.plan.len(),
            },
    {
        if index < self.plan.len() {
            Some(&self.plan[index])
        } else {
            None
        }
    }

    /// The state of the service at `index` of the plan.
    pub fn service_state(&self, index: usize) -> (state: ServiceState)
        ensures
            state == service_state(self@, index as int),
    {
        if index < self.cursor {
            ServiceState::Healthy
        } else if index > self.cursor {
            ServiceState::NotStarted
        } else {
            match self.phase {
                Phase::Spawning => ServiceState::Spawning,
                Phase::HealthPending => ServiceState::HealthPending,
                Phase::Finished => ServiceState::NotStarted,
                Phase::Failed => ServiceState::Failed,
            }
        }
    }

    /// Ends the attempt in failure.
    fn failed(self, error: String, note: Option<String>) -> (t: Transition<H>)
        ensures
            t@ == fail(self@, error@, note.deep_view()),
            inv(t.next@),
    {
        proof {
            use_type_invariant(&self);
        }
        let Startup { plan, cursor, phase, started } = self;
        let terminate = in_reverse(started);
        let held: Vec<ManagedProcess<H>> = Vec::new();
        assert(held.deep_view() =~= Seq::<ProcessView<H>>::empty());
        Transition {
            next: Startup { plan, cursor, phase: Phase::Failed, started: held },
            note,
            action: StartupAction::Rollback { terminate, error },
        }
    }

    /// Takes the step that the event asks for.
    pub fn advance(self, event: StartupEvent<H>) -> (t: Transition<H>)
        ensures
            t@ == step(self@, event@),
            inv(self@),
            inv(t.next@),
    {
        proof {
            use_type_invariant(&self);
        }
        match self.phase {
            Phase::Spawning => match event {
                StartupEvent::Spawned(handle) => {
                    let Startup { plan, cursor, phase, started } = self;
                    let ghost before = started.deep_view();
                    let name = plan[cursor].name.clone();
                    let note = joined(name.as_str(), " sidecar spawned");
                    let process = ManagedProcess { name, rank: plan[cursor].rank, handle };
                    let mut started = started;
                    started.push(process);
                    assert(started.deep_view() =~= before.push(process@));
                    Transition {
                        next: Startup { plan, cursor, phase: Phase::HealthPending, started },
                        note: Some(note),
                        action: StartupAction::AwaitHealth { index: cursor },
                    }
                },
                StartupEvent::ResolveFailed(reason) => {
                    let error = joined4(
                        "failed to resolve ",
                        self.plan[self.cursor].name.as_str(),
                        " sidecar: ",
                        reason.as_str(),
                    );
                    self.failed(error, None)
                },
                StartupEvent::SpawnFailed(reason) => {
                    let error = joined4(
                        "failed to spawn ",
                        self.plan[self.cursor].name.as_str(),
                        " sidecar: ",
                        reason.as_str(),
                    );
                    self.failed(error, None)
                },
                other => Transition {
                    next: self,
                    note: None,
                    action: StartupAction::Rejected { event: other },
                },
            },
            Phase::HealthPending => match event {
                StartupEvent::Healthy => {
                    let Startup { plan, cursor, phase, started } = self;
                    let note = joined(plan[cursor].name.as_str(), " sidecar healthy");
                    assert(plan.deep_view().len() == plan.len());
                    if cursor + 1 < plan.len() {
                        Transition {
                            next: Startup {
                                plan,
                                cursor: cursor + 1,
                                phase: Phase::Spawning,
                                started,
                            },
                            note: Some(note),
                            action: StartupAction::Spawn { index: cursor + 1 },
                        }
                    } else {
                        let held: Vec<ManagedProcess<H>> = Vec::new();
                        assert(held.deep_view() =~= Seq::<ProcessView<H>>::empty());
                        Transition {
                            next: Startup {
                                plan,
                                cursor: cursor + 1,
                                phase: Phase::Finished,
                                started: held,
                            },
                            note: Some(note),
                            action: StartupAction::Commit { started },
                        }
                    }
                },
                StartupEvent::Unhealthy(reason) => {
                    let mut note = joined(
                        self.plan[self.cursor].name.as_str(),
                        " health probe failed, shutting down sidecars: ",
                    );
                    note.append(reason.as_str());
                    self.failed(reason, Some(note))
                },
                other => Transition {
                    next: self,
                    note: None,
                    action: StartupAction::Rejected { event: other },
                },
            },
            _ => Transition {
                next: self,
                note: None,
                action: StartupAction::Rejected { event },
            },
        }
    }
}

/// The event reports that the service at the cursor failed, in a phase in
/// which that can happen.
pub open spec fn is_failure<H>(s: StartupView<H>, event: EventView<H>) -> bool {
    match (s.phase, event) {
        (Phase::Spawning, EventView::ResolveFailed(_)) => true,
        (Phase::Spawning, EventView::SpawnFailed(_)) => true,
        (Phase::HealthPending, EventView::Unhealthy(_)) => true,
        _ => false,
    }
}

/// The handles that an event brings in.
pub open spec fn handles_in<H>(event: EventView<H>) -> Seq<H> {
    match event {
        EventView::Spawned(handle) => seq![handle],
        _ => Seq::empty(),
    }
}

/// The handles of the processes.
pub open spec fn handles_of<H>(processes: Seq<ProcessView<H>>) -> Seq<H> {
    processes.map_values(|p: ProcessView<H>| p.handle)
}

/// The handles that an action hands out.
pub open spec fn handles_out<H>(action: ActionView<H>) -> Seq<H> {
    match action {
        ActionView::Rollback { terminate, .. } => handles_of(terminate),
        ActionView::Commit { started } => handles_of(started),
        ActionView::Rejected { event } => handles_in(event),
        _ => Seq::empty(),
    }
}

/// Every step keeps what holds of every attempt.
pub proof fn lemma_step_keeps_inv<H>(s: StartupView<H>, event: EventView<H>)
    requires
        inv(s),
    ensures
        inv(step(s, event).next),
{
}

/// The first step of an attempt establishes what holds of every attempt.
pub proof fn lemma_initial_inv<H>(descriptors: Seq<DescriptorView>)
    ensures
        inv(initial::<H>(descriptors).next),
{
    crate::plan::lemma_by_rank(descriptors);
}

/// Rollback completeness: when the service at the cursor fails, whether at
/// launch or at its health check, the step hands back every process that the
/// attempt has started, the one started last first, for termination: one
/// for each service before the cursor, and one for the service at the cursor
/// if it was launched.  The attempt holds none afterwards.
pub proof fn lemma_rollback_is_complete<H>(s: StartupView<H>, event: EventView<H>)
    requires
        inv(s),
        is_failure(s, event),
    ensures
        step(s, event).next.phase == Phase::Failed,
        step(s, event).next.started.len() == 0,
        step(s, event).action is Rollback,
        step(s, event).action->terminate == s.started.reverse(),
        step(s, event).action->terminate.len() == if s.phase == Phase::HealthPending {
            s.cursor + 1
        } else {
            s.cursor
        },
        forall|i: int|
            0 <= i < s.started.len() ==> {
                let p = #[trigger] step(s, event).action->terminate[s.started.len() - 1 - i];
                p == s.started[i] && p.name == s.plan[i].name && p.rank == s.plan[i].rank
            },
{
}

/// Processes are handed back for termination in the reverse of the order
/// in which their services were started: ranks never rise along the list.
pub proof fn lemma_rollback_order<H>(s: StartupView<H>, event: EventView<H>)
    requires
        inv(s),
        is_failure(s, event),
    ensures
        forall|i: int, j: int|
            0 <= i <= j < s.started.len() ==> (#[trigger] step(
                s,
                event,
            ).action->terminate[i]).rank >= (#[trigger] step(s, event).action->terminate[j]).rank,
{
    let n = s.started.len();
    let terminate = step(s, event).action->terminate;
    assert forall|i: int, j: int| 0 <= i <= j < n implies (#[trigger] terminate[i]).rank >= (
    #[trigger] terminate[j]).rank by {
        assert(terminate[i] == s.started[n - 1 - i]);
        assert(terminate[j] == s.started[n - 1 - j]);
    }
}

/// Startup is all or nothing: processes are handed over for the registry
/// only by the step that finds the last service healthy, and then there is
/// one for every service of the plan, in the order of the plan.
pub proof fn lemma_commit_is_whole<H>(s: StartupView<H>, event: EventView<H>)
    requires
        inv(s),
        step(s, event).action is Commit,
    ensures
        s.phase == Phase::HealthPending,
        event is Healthy,
        step(s, event).next.phase == Phase::Finished,
        step(s, event).action->started.len() == s.plan.len(),
        forall|i: int|
            0 <= i < s.plan.len() ==> (#[trigger] step(s, event).action->started[i]).name
                == s.plan[i].name,
{
}

/// Services start strictly one after another in the order of the plan: a
/// step asks for a launch only of the service that follows the one that was
/// just found healthy, and no service of lower rank is left unstarted.
pub proof fn lemma_spawn_in_order<H>(s: StartupView<H>, event: EventView<H>)
    requires
        inv(s),
        step(s, event).action is Spawn,
    ensures
        s.phase == Phase::HealthPending,
        event is Healthy,
        step(s, event).action->Spawn_index == s.cursor + 1,
        step(s, event).next.cursor == s.cursor + 1,
        step(s, event).next.started.len() == s.cursor + 1,
        forall|i: int|
            0 <= i <= s.cursor ==> (#[trigger] s.plan[i]).rank <= s.plan[s.cursor + 1].rank,
{
}

/// No step loses or doubles a handle: the handles that the attempt holds
/// after a step, with those that the step hands out, are the handles that
/// it held before, with the one that the event brought in.
pub proof fn lemma_handles_conserved<H>(s: StartupView<H>, event: EventView<H>)
    requires
        inv(s),
    ensures
        (handles_of(step(s, event).next.started) + handles_out(
            step(s, event).action,
        )).to_multiset() == (handles_of(s.started) + handles_in(event)).to_multiset(),
{
    let t = step(s, event);
    let held = handles_of(s.started);
    match t.action {
        ActionView::Rollback { terminate, .. } => {
            assert(handles_of(terminate) =~= held.reverse());
            held.lemma_reverse_to_multiset();
            assert(handles_of(t.next.started) + handles_out(t.action) =~= held.reverse());
            assert(held + handles_in(event) =~= held);
        },
        ActionView::Commit { .. } | ActionView::Spawn { .. } => {
            assert(handles_of(t.next.started) + handles_out(t.action) =~= held);
            assert(held + handles_in(event) =~= held);
        },
        ActionView::AwaitHealth { .. } => {
            assert(handles_of(t.next.started) + handles_out(t.action) =~= held + handles_in(
                event,
            ));
        },
        ActionView::Rejected { .. } => {},
    }
}

/// The error of a startup that could not find the application's data directory.
pub fn data_dir_error(reason: &str) -> (error: String)
    ensures
        error@ == "failed to resolve app_data_dir: "@ + reason@,
{
    joined("failed to resolve app_data_dir: ", reason)
}

/// The error of a startup that could not create the application's data directory.
pub fn create_dir_error(path: &str, reason: &str) -> (error: String)
    ensures
        error@ == "failed to create app data dir "@ + path@ + ": "@ + reason@,
{
    joined4("failed to create app data dir ", path, ": ", reason)
}

/// What becomes of the processes of an attempt that found every service
/// healthy and then could not reach the registry: they are handed back,
/// the one started last first, to be terminated before the error is
/// reported.  No attempt leaves processes behind that the registry does
/// not hold.
pub fn commit_refused<H>(started: Vec<ManagedProcess<H>>) -> (refused: (
    Vec<ManagedProcess<H>>,
    String,
))
    ensures
        refused.0.deep_view() == started.deep_view().reverse(),
        refused.1@ == "failed to lock sidecar state"@,
{
    (in_reverse(started), lock_error())
}

/// The error of a startup that could not reach the registry.
pub fn lock_error() -> (error: String)
    ensures
        error@ == "failed to lock sidecar state"@,
{
    String::from_str("failed to lock sidecar state")
}

/// The line that closes the log of an attempt that succeeded.
pub fn closing_line() -> (note: String)
    ensures
        note@ == closing_note(),
{
    String::from_str("sidecar runtime initialized successfully")
}

/// The attempt after a run of events, one step for each.
pub open spec fn run<H>(s: StartupView<H>, events: Seq<EventView<H>>) -> StartupView<H>
    decreases events.len(),
{
    if events.len() == 0 {
        s
    } else {
        step(run(s, events.drop_last()), events.last()).next
    }
}

/// The handles that a run of events brings in.
pub open spec fn brought_in<H>(events: Seq<EventView<H>>) -> Seq<H>
    decreases events.len(),
{
    if events.len() == 0 {
        Seq::empty()
    } else {
        brought_in(events.drop_last()) + handles_in(events.last())
    }
}

/// The handles that the steps of a run hand out.
pub open spec fn handed_out<H>(s: StartupView<H>, events: Seq<EventView<H>>) -> Seq<H>
    decreases events.len(),
{
    if events.len() == 0 {
        Seq::empty()
    } else {
        handed_out(s, events.drop_last()) + handles_out(
            step(run(s, events.drop_last()), events.last()).action,
        )
    }
}

/// What holds of every attempt holds after every run of events.
pub proof fn lemma_run_keeps_inv<H>(s: StartupView<H>, events: Seq<EventView<H>>)
    requires
        inv(s),
    ensures
        inv(run(s, events)),
    decreases events.len(),
{
    if events.len() > 0 {
        lemma_run_keeps_inv(s, events.drop_last());
        lemma_step_keeps_inv(run(s, events.drop_last()), events.last());
    }
}

/// Over a whole run no handle is lost or doubled: the handles that the
/// attempt holds at the end, with all that its steps handed out, are the
/// handles that it held at the start, with all that the events brought in.
pub proof fn lemma_run_conserves_handles<H>(s: StartupView<H>, events: Seq<EventView<H>>)
    requires
        inv(s),
    ensures
        (handles_of(run(s, events).started) + handed_out(s, events)).to_multiset() == (handles_of(
            s.started,
        ) + brought_in(events)).to_multiset(),
    decreases events.len(),
{
    broadcast use vstd::seq_lib::lemma_multiset_commutative;

    if events.len() > 0 {
        let front = events.drop_last();
        let before = run(s, front);
        let t = step(before, events.last());
        // By induction for the run up to the last event, and by the step's
        // own conservation for the last event.
        lemma_run_conserves_handles(s, front);
        lemma_run_keeps_inv(s, front);
        lemma_handles_conserved(before, events.last());
        let after = handles_of(t.next.started).to_multiset();
        let held = handles_of(before.started).to_multiset();
        let out_now = handles_out(t.action).to_multiset();
        let out_before = handed_out(s, front).to_multiset();
        let in_now = handles_in(events.last()).to_multiset();
        // after + out_now == held + in_now, and held + out_before is what
        // the run began with and was brought; the rest is rearrangement.
        assert((handles_of(t.next.started) + handed_out(s, events)).to_multiset() =~= after.add(
            out_now,
        ).add(out_before));
        assert(held.add(in_now).add(out_before) =~= held.add(out_before).add(in_now));
    }
}

/// Rollback completeness over a whole attempt: whatever events led up to
/// it, when a service then fails, the step hands back every process that
/// the attempt holds, the one started last first; it holds one for each
/// service before the failed one, and one for the failed service itself if
/// that was launched; and none remains with the attempt.
pub proof fn lemma_rollback_after_any_run<H>(
    descriptors: Seq<DescriptorView>,
    events: Seq<EventView<H>>,
    failure: EventView<H>,
)
    requires
        is_failure(run(initial::<H>(descriptors).next, events), failure),
    ensures
        ({
            let s = run(initial::<H>(descriptors).next, events);
            let t = step(s, failure);
            &&& inv(s)
            &&& t.action is Rollback
            &&& t.action->terminate == s.started.reverse()
            &&& s.started.len() == if s.phase == Phase::HealthPending {
                s.cursor + 1
            } else {
                s.cursor
            }
            &&& forall|i: int|
                0 <= i < s.started.len() ==> (#[trigger] s.started[i]).name == s.plan[i].name
            &&& t.next.phase == Phase::Failed
            &&& t.next.started.len() == 0
        }),
{
    lemma_initial_inv::<H>(descriptors);
    lemma_run_keeps_inv(initial::<H>(descriptors).next, events);
}

} // verus!
