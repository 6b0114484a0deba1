use goyais_desktop::descriptor::{hub_descriptor, worker_descriptor, ServiceDescriptor};
use goyais_desktop::registry::{in_reverse, ManagedProcess, SupervisorRegistry};
use goyais_desktop::shutdown::termination_note;
use goyais_desktop::startup::{
    closing_line, commit_refused, create_dir_error, data_dir_error, lock_error, Phase,
    ServiceState,
    Startup, StartupAction, StartupEvent, Transition,
};

fn two_services() -> Vec<ServiceDescriptor> {
    vec![
        worker_descriptor("token".to_string(), Vec::new()),
        hub_descriptor("/data/hub.sqlite3".to_string(), "token".to_string(), Vec::new()),
    ]
}

fn service(name: &str, rank: u32, port: u16) -> ServiceDescriptor {
    ServiceDescriptor {
        name: name.to_string(),
        executable: format!("binaries/{}", name),
        fixed_env: Vec::new(),
        pass_through: Vec::new(),
        port,
        rank,
    }
}

fn handles(processes: &[ManagedProcess<u32>]) -> Vec<(String, u32)> {
    processes.iter().map(|p| (p.name.clone(), p.handle)).collect()
}

#[test]
fn attempt_opens_with_the_service_of_lowest_rank() {
    let first: Transition<u32> = Startup::begin(two_services());
    assert_eq!(first.note.as_deref(), Some("initializing sidecar runtime"));
    assert!(matches!(first.action, StartupAction::Spawn { index: 0 }));
    assert_eq!(first.next.phase(), Phase::Spawning);
    assert_eq!(first.next.cursor(), 0);
    assert_eq!(first.next.plan_len(), 2);
    assert_eq!(first.next.held(), 0);
    assert_eq!(first.next.descriptor(0).map(|d| d.name.as_str()), Some("hub"));
    assert_eq!(first.next.descriptor(1).map(|d| d.name.as_str()), Some("worker"));
    assert!(first.next.descriptor(2).is_none());
    assert_eq!(first.next.service_state(0), ServiceState::Spawning);
    assert_eq!(first.next.service_state(1), ServiceState::NotStarted);
}

#[test]
fn attempt_without_services_commits_at_once() {
    let first: Transition<u32> = Startup::begin(Vec::new());
    match first.action {
        StartupAction::Commit { started } => assert!(started.is_empty()),
        _ => panic!("expected a commit"),
    }
    assert_eq!(first.next.phase(), Phase::Finished);
}

#[test]
fn both_services_healthy_commits_both_in_startup_order() {
    let first: Transition<u32> = Startup::begin(two_services());
    let step = first.next.advance(StartupEvent::Spawned(101));
    assert_eq!(step.note.as_deref(), Some("hub sidecar spawned"));
    assert!(matches!(step.action, StartupAction::AwaitHealth { index: 0 }));
    assert_eq!(step.next.service_state(0), ServiceState::HealthPending);
    assert_eq!(step.next.held(), 1);

    let step = step.next.advance(StartupEvent::Healthy);
    assert_eq!(step.note.as_deref(), Some("hub sidecar healthy"));
    assert!(matches!(step.action, StartupAction::Spawn { index: 1 }));
    assert_eq!(step.next.service_state(0), ServiceState::Healthy);
    assert_eq!(step.next.service_state(1), ServiceState::Spawning);

    let step = step.next.advance(StartupEvent::Spawned(102));
    assert_eq!(step.note.as_deref(), Some("worker sidecar spawned"));
    assert!(matches!(step.action, StartupAction::AwaitHealth { index: 1 }));

    let step = step.next.advance(StartupEvent::Healthy);
    assert_eq!(step.note.as_deref(), Some("worker sidecar healthy"));
    match step.action {
        StartupAction::Commit { started } => assert_eq!(
            handles(&started),
            vec![("hub".to_string(), 101), ("worker".to_string(), 102)]
        ),
        _ => panic!("expected a commit"),
    }
    assert_eq!(step.next.phase(), Phase::Finished);
    assert_eq!(step.next.held(), 0);
    assert_eq!(step.next.service_state(0), ServiceState::Healthy);
    assert_eq!(step.next.service_state(1), ServiceState::Healthy);
}

#[test]
fn second_service_unhealthy_rolls_back_both_last_started_first() {
    let first: Transition<u32> = Startup::begin(two_services());
    let step = first.next.advance(StartupEvent::Spawned(101));
    let step = step.next.advance(StartupEvent::Healthy);
    let step = step.next.advance(StartupEvent::Spawned(102));
    let step = step.next.advance(StartupEvent::Unhealthy(
        "health check timeout on 127.0.0.1:8788: connect error: refused".to_string(),
    ));
    assert_eq!(
        step.note.as_deref(),
        Some(
            "worker health probe failed, shutting down sidecars: health check timeout on 127.0.0.1:8788: connect error: refused"
        )
    );
    match step.action {
        StartupAction::Rollback { terminate, error } => {
            assert_eq!(
                handles(&terminate),
                vec![("worker".to_string(), 102), ("hub".to_string(), 101)]
            );
            assert_eq!(error, "health check timeout on 127.0.0.1:8788: connect error: refused");
        },
        _ => panic!("expected a rollback"),
    }
    assert_eq!(step.next.phase(), Phase::Failed);
    assert_eq!(step.next.held(), 0);
    assert_eq!(step.next.service_state(0), ServiceState::Healthy);
    assert_eq!(step.next.service_state(1), ServiceState::Failed);
}

#[test]
fn first_service_unhealthy_rolls_back_the_one_process() {
    let first: Transition<u32> = Startup::begin(two_services());
    let step = first.next.advance(StartupEvent::Spawned(101));
    let step = step.next.advance(StartupEvent::Unhealthy("never ready".to_string()));
    assert_eq!(
        step.note.as_deref(),
        Some("hub health probe failed, shutting down sidecars: never ready")
    );
    match step.action {
        StartupAction::Rollback { terminate, error } => {
            assert_eq!(handles(&terminate), vec![("hub".to_string(), 101)]);
            assert_eq!(error, "never ready");
        },
        _ => panic!("expected a rollback"),
    }
    assert_eq!(step.next.service_state(0), ServiceState::Failed);
    assert_eq!(step.next.service_state(1), ServiceState::NotStarted);
}

#[test]
fn launch_failure_of_the_second_service_rolls_back_the_first() {
    let first: Transition<u32> = Startup::begin(two_services());
    let step = first.next.advance(StartupEvent::Spawned(101));
    let step = step.next.advance(StartupEvent::Healthy);
    let step = step.next.advance(StartupEvent::SpawnFailed("permission denied".to_string()));
    assert!(step.note.is_none());
    match step.action {
        StartupAction::Rollback { terminate, error } => {
            assert_eq!(handles(&terminate), vec![("hub".to_string(), 101)]);
            assert_eq!(error, "failed to spawn worker sidecar: permission denied");
        },
        _ => panic!("expected a rollback"),
    }
    assert_eq!(step.next.phase(), Phase::Failed);
}

#[test]
fn missing_executable_of_the_first_service_rolls_back_nothing() {
    let first: Transition<u32> = Startup::begin(two_services());
    let step = first.next.advance(StartupEvent::ResolveFailed("not found".to_string()));
    match step.action {
        StartupAction::Rollback { terminate, error } => {
            assert!(terminate.is_empty());
            assert_eq!(error, "failed to resolve hub sidecar: not found");
        },
        _ => panic!("expected a rollback"),
    }
    assert_eq!(step.next.service_state(0), ServiceState::Failed);
}

#[test]
fn event_that_does_not_fit_the_phase_is_handed_back() {
    let first: Transition<u32> = Startup::begin(two_services());
    let step = first.next.advance(StartupEvent::Healthy);
    assert!(step.note.is_none());
    assert!(matches!(step.action, StartupAction::Rejected { event: StartupEvent::Healthy }));
    assert_eq!(step.next.phase(), Phase::Spawning);
    assert_eq!(step.next.held(), 0);

    let step = step.next.advance(StartupEvent::Spawned(7));
    let step = step.next.advance(StartupEvent::Spawned(8));
    assert!(matches!(step.action, StartupAction::Rejected { event: StartupEvent::Spawned(8) }));
    assert_eq!(step.next.phase(), Phase::HealthPending);
    assert_eq!(step.next.held(), 1);
}

#[test]
fn attempt_that_is_over_accepts_no_event() {
    let first: Transition<u32> = Startup::begin(vec![service("only", 0, 9000)]);
    let step = first.next.advance(StartupEvent::Spawned(1));
    let step = step.next.advance(StartupEvent::Healthy);
    assert_eq!(step.next.phase(), Phase::Finished);
    let step = step.next.advance(StartupEvent::Spawned(2));
    assert!(matches!(step.action, StartupAction::Rejected { event: StartupEvent::Spawned(2) }));
    assert_eq!(step.next.phase(), Phase::Finished);

    let first: Transition<u32> = Startup::begin(vec![service("only", 0, 9000)]);
    let step = first.next.advance(StartupEvent::SpawnFailed("no".to_string()));
    assert_eq!(step.next.phase(), Phase::Failed);
    let step = step.next.advance(StartupEvent::Healthy);
    assert!(matches!(step.action, StartupAction::Rejected { .. }));
    assert_eq!(step.next.phase(), Phase::Failed);
}

#[test]
fn three_services_fail_at_the_third() {
    let plan = vec![service("c", 7, 9003), service("a", 1, 9001), service("b", 4, 9002)];
    let first: Transition<u32> = Startup::begin(plan);
    let step = first.next.advance(StartupEvent::Spawned(1));
    let step = step.next.advance(StartupEvent::Healthy);
    let step = step.next.advance(StartupEvent::Spawned(2));
    let step = step.next.advance(StartupEvent::Healthy);
    assert!(matches!(step.action, StartupAction::Spawn { index: 2 }));
    let step = step.next.advance(StartupEvent::Spawned(3));
    let step = step.next.advance(StartupEvent::Unhealthy("late".to_string()));
    match step.action {
        StartupAction::Rollback { terminate, .. } => assert_eq!(
            handles(&terminate),
            vec![("c".to_string(), 3), ("b".to_string(), 2), ("a".to_string(), 1)]
        ),
        _ => panic!("expected a rollback"),
    }
}

#[test]
fn failed_attempt_leaves_nothing_registered() {
    let mut registry: SupervisorRegistry<u32> = SupervisorRegistry::new();
    let first: Transition<u32> = Startup::begin(vec![service("hub", 0, 8787)]);
    let step = first.next.advance(StartupEvent::Spawned(5));
    let step = step.next.advance(StartupEvent::Unhealthy("timeout".to_string()));
    match step.action {
        StartupAction::Rollback { terminate, .. } => assert_eq!(terminate.len(), 1),
        _ => panic!("expected a rollback"),
    }
    assert!(!registry.is_running(&"hub".to_string()));
    assert_eq!(registry.len(), 0);
    assert!(registry.drain_all().is_empty());
}

#[test]
fn committed_attempt_replaces_the_registry() {
    let mut registry: SupervisorRegistry<u32> = SupervisorRegistry::new();
    registry.register(ManagedProcess { name: "hub".to_string(), rank: 0, handle: 1 });
    let first: Transition<u32> = Startup::begin(two_services());
    let step = first.next.advance(StartupEvent::Spawned(101));
    let step = step.next.advance(StartupEvent::Healthy);
    let step = step.next.advance(StartupEvent::Spawned(102));
    let step = step.next.advance(StartupEvent::Healthy);
    match step.action {
        StartupAction::Commit { started } => {
            let displaced = registry.replace_all(started);
            assert_eq!(handles(&displaced), vec![("hub".to_string(), 1)]);
        },
        _ => panic!("expected a commit"),
    }
    assert_eq!(handles(&registry.drain_all()), vec![
        ("worker".to_string(), 102),
        ("hub".to_string(), 101)
    ]);
}

#[test]
fn in_reverse_turns_the_order_round() {
    let processes = vec![
        ManagedProcess { name: "a".to_string(), rank: 0, handle: 1u32 },
        ManagedProcess { name: "b".to_string(), rank: 1, handle: 2u32 },
        ManagedProcess { name: "c".to_string(), rank: 2, handle: 3u32 },
    ];
    assert_eq!(
        handles(&in_reverse(processes)),
        vec![("c".to_string(), 3), ("b".to_string(), 2), ("a".to_string(), 1)]
    );
    assert!(in_reverse(Vec::<ManagedProcess<u32>>::new()).is_empty());
}

#[test]
fn startup_messages() {
    assert_eq!(data_dir_error("unknown path"), "failed to resolve app_data_dir: unknown path");
    assert_eq!(
        create_dir_error("/data/app", "read-only file system"),
        "failed to create app data dir /data/app: read-only file system"
    );
    assert_eq!(lock_error(), "failed to lock sidecar state");
    assert_eq!(closing_line(), "sidecar runtime initialized successfully");
}

/// A stand-in for the operating system: the processes that are alive, and
/// from when on each service answers its health probe.
struct World {
    now_ms: u64,
    next_pid: u32,
    alive: Vec<u32>,
    ready_at: Vec<(u16, Option<u64>)>,
    log: Vec<String>,
}

impl World {
    fn new(ready_at: Vec<(u16, Option<u64>)>) -> World {
        World { now_ms: 0, next_pid: 100, alive: Vec::new(), ready_at, log: Vec::new() }
    }

    fn spawn(&mut self) -> u32 {
        self.next_pid += 1;
        self.alive.push(self.next_pid);
        self.next_pid
    }

    fn kill(&mut self, pid: u32) {
        self.alive.retain(|alive| *alive != pid);
    }

    fn probe(&mut self, port: u16) -> Result<bool, String> {
        let ready_at = self.ready_at.iter().find(|(p, _)| *p == port).and_then(|(_, at)| *at);
        match ready_at {
            Some(at) if self.now_ms >= at => goyais_desktop::health::probe_result(Ok(
                b"HTTP/1.1 200 OK\r\n\r\n{\"ok\":true}".to_vec(),
            )),
            _ => goyais_desktop::health::probe_result(Err(
                goyais_desktop::health::ProbeFailure::Connect("refused".to_string()),
            )),
        }
    }

    fn wait_for_health(&mut self, port: u16, timeout_ms: u64) -> Result<(), String> {
        let began = self.now_ms;
        let mut wait = goyais_desktop::health::HealthWait::new(port, timeout_ms);
        let mut event = goyais_desktop::health::WaitEvent::Clock(0);
        loop {
            let (next, action) = wait.step(event);
            wait = next;
            event = match action {
                goyais_desktop::health::WaitAction::Probe => {
                    goyais_desktop::health::WaitEvent::Probed(self.probe(port))
                },
                goyais_desktop::health::WaitAction::Sleep(ms) => {
                    self.now_ms += ms;
                    goyais_desktop::health::WaitEvent::Clock(self.now_ms - began)
                },
                goyais_desktop::health::WaitAction::Healthy => return Ok(()),
                goyais_desktop::health::WaitAction::TimedOut(message) => return Err(message),
            };
        }
    }

    /// Runs a whole startup attempt, as the shell around the library does.
    fn start(
        &mut self,
        registry: &mut SupervisorRegistry<u32>,
        descriptors: Vec<ServiceDescriptor>,
        timeout_ms: u64,
    ) -> Result<(), String> {
        let mut step: Transition<u32> = Startup::begin(descriptors);
        loop {
            if let Some(note) = &step.note {
                self.log.push(note.clone());
            }
            let event = match step.action {
                StartupAction::Spawn { .. } => StartupEvent::Spawned(self.spawn()),
                StartupAction::AwaitHealth { index } => {
                    let port = step.next.descriptor(index).map(|d| d.port).unwrap();
                    match self.wait_for_health(port, timeout_ms) {
                        Ok(()) => StartupEvent::Healthy,
                        Err(error) => StartupEvent::Unhealthy(error),
                    }
                },
                StartupAction::Rollback { terminate, error } => {
                    for process in terminate {
                        self.kill(process.handle);
                        self.log.push(termination_note(&process.name, Ok(())));
                    }
                    return Err(error);
                },
                StartupAction::Commit { started } => {
                    for process in registry.replace_all(started) {
                        self.kill(process.handle);
                        self.log.push(termination_note(&process.name, Ok(())));
                    }
                    self.log.push(closing_line());
                    return Ok(());
                },
                StartupAction::Rejected { .. } => panic!("event out of turn"),
            };
            step = step.next.advance(event);
        }
    }
}

#[test]
fn whole_attempt_with_both_services_ready() {
    let mut world = World::new(vec![(8787, Some(500)), (8788, Some(2000))]);
    let mut registry = SupervisorRegistry::new();
    assert_eq!(world.start(&mut registry, two_services(), 10_000), Ok(()));
    assert_eq!(world.alive, vec![101, 102]);
    assert_eq!(registry.get(&"hub".to_string()).map(|p| p.handle), Some(101));
    assert_eq!(registry.get(&"worker".to_string()).map(|p| p.handle), Some(102));
    assert_eq!(
        world.log,
        vec![
            "initializing sidecar runtime",
            "hub sidecar spawned",
            "hub sidecar healthy",
            "worker sidecar spawned",
            "worker sidecar healthy",
            "sidecar runtime initialized successfully",
        ]
    );
    assert_eq!(world.now_ms, 2000);
}

#[test]
fn whole_attempt_rolls_back_when_the_second_service_never_answers() {
    let mut world = World::new(vec![(8787, Some(0)), (8788, None)]);
    let mut registry = SupervisorRegistry::new();
    let outcome = world.start(&mut registry, two_services(), 1000);
    assert_eq!(
        outcome,
        Err("health check timeout on 127.0.0.1:8788: connect error: refused".to_string())
    );
    assert!(world.alive.is_empty());
    assert_eq!(registry.len(), 0);
    assert!(!registry.is_running(&"hub".to_string()));
    assert!(!registry.is_running(&"worker".to_string()));
    assert_eq!(
        world.log,
        vec![
            "initializing sidecar runtime",
            "hub sidecar spawned",
            "hub sidecar healthy",
            "worker sidecar spawned",
            "worker health probe failed, shutting down sidecars: health check timeout on 127.0.0.1:8788: connect error: refused",
            "worker sidecar stopped",
            "hub sidecar stopped",
        ]
    );
}

#[test]
fn second_attempt_replaces_the_processes_of_the_first() {
    let mut world = World::new(vec![(8787, Some(0)), (8788, Some(0))]);
    let mut registry = SupervisorRegistry::new();
    assert_eq!(world.start(&mut registry, two_services(), 1000), Ok(()));
    assert_eq!(world.start(&mut registry, two_services(), 1000), Ok(()));
    assert_eq!(world.alive, vec![103, 104]);
    assert_eq!(registry.get(&"hub".to_string()).map(|p| p.handle), Some(103));
    assert_eq!(registry.get(&"worker".to_string()).map(|p| p.handle), Some(104));
    for process in registry.drain_all() {
        world.kill(process.handle);
    }
    assert!(world.alive.is_empty());
}

#[test]
fn commit_that_cannot_reach_the_registry_hands_everything_back() {
    let first: Transition<u32> = Startup::begin(two_services());
    let step = first.next.advance(StartupEvent::Spawned(101));
    let step = step.next.advance(StartupEvent::Healthy);
    let step = step.next.advance(StartupEvent::Spawned(102));
    let step = step.next.advance(StartupEvent::Healthy);
    match step.action {
        StartupAction::Commit { started } => {
            let (terminate, error) = commit_refused(started);
            assert_eq!(
                handles(&terminate),
                vec![("worker".to_string(), 102), ("hub".to_string(), 101)]
            );
            assert_eq!(error, "failed to lock sidecar state");
        },
        _ => panic!("expected a commit"),
    }
    let (terminate, error) = commit_refused(Vec::<ManagedProcess<u32>>::new());
    assert!(terminate.is_empty());
    assert_eq!(error, "failed to lock sidecar state");
}
