use goyais_desktop::runtime_process::{
    checked_service_name, kill_command, kill_outcome, normalize_service_name, RuntimeState,
};

#[test]
fn service_names_are_accepted_in_any_case_and_with_whitespace_around() {
    assert_eq!(normalize_service_name("hub"), Ok("hub".to_string()));
    assert_eq!(normalize_service_name("runtime"), Ok("runtime".to_string()));
    assert_eq!(normalize_service_name("  HUB\n"), Ok("hub".to_string()));
    assert_eq!(normalize_service_name("RunTime"), Ok("runtime".to_string()));
    assert_eq!(normalize_service_name("\tRUNTIME "), Ok("runtime".to_string()));
}

#[test]
fn other_names_are_refused() {
    let refused = Err("service must be 'hub' or 'runtime'".to_string());
    assert_eq!(normalize_service_name(""), refused);
    assert_eq!(normalize_service_name("   "), refused);
    assert_eq!(normalize_service_name("worker"), refused);
    assert_eq!(normalize_service_name("hub runtime"), refused);
    assert_eq!(normalize_service_name("h ub"), refused);
    assert_eq!(normalize_service_name("hubs"), refused);
    assert_eq!(normalize_service_name("runt\u{130}me"), refused);
}

#[test]
fn checked_service_name_wants_the_exact_form() {
    assert_eq!(checked_service_name("hub".to_string()), Ok("hub".to_string()));
    assert_eq!(checked_service_name("runtime".to_string()), Ok("runtime".to_string()));
    assert_eq!(
        checked_service_name("HUB".to_string()),
        Err("service must be 'hub' or 'runtime'".to_string())
    );
    assert_eq!(
        checked_service_name(" hub".to_string()),
        Err("service must be 'hub' or 'runtime'".to_string())
    );
}

#[test]
fn kill_command_elsewhere_sends_the_signal_to_terminate() {
    let command = kill_command(4242, false);
    assert_eq!(command.program, "kill");
    assert_eq!(command.arguments, vec!["-TERM".to_string(), "4242".to_string()]);
}

#[test]
fn kill_command_on_windows_ends_the_tree_by_force() {
    let command = kill_command(4242, true);
    assert_eq!(command.program, "taskkill");
    assert_eq!(
        command.arguments,
        vec!["/PID".to_string(), "4242".to_string(), "/T".to_string(), "/F".to_string()]
    );
}

#[test]
fn kill_outcome_reports_the_process() {
    assert_eq!(kill_outcome(4242, true), Ok(()));
    assert_eq!(kill_outcome(4242, false), Err("failed to stop process 4242".to_string()));
    assert_eq!(kill_outcome(0, false), Err("failed to stop process 0".to_string()));
    assert_eq!(
        kill_outcome(u32::MAX, false),
        Err("failed to stop process 4294967295".to_string())
    );
}

#[test]
fn record_starts_empty() {
    let state = RuntimeState::new();
    assert_eq!(state.get(&"hub".to_string()), None);
    let state = RuntimeState::default();
    assert_eq!(state.get(&"runtime".to_string()), None);
}

#[test]
fn record_keeps_the_latest_pid_of_a_service() {
    let mut state = RuntimeState::new();
    assert_eq!(state.insert("hub".to_string(), 100), None);
    assert_eq!(state.insert("runtime".to_string(), 200), None);
    assert_eq!(state.get(&"hub".to_string()), Some(100));
    assert_eq!(state.get(&"runtime".to_string()), Some(200));
    assert_eq!(state.insert("hub".to_string(), 101), Some(100));
    assert_eq!(state.get(&"hub".to_string()), Some(101));
    assert_eq!(state.get(&"runtime".to_string()), Some(200));
}

#[test]
fn stopping_a_service_twice_finds_nothing_the_second_time() {
    let mut state = RuntimeState::new();
    state.insert("hub".to_string(), 100);
    assert_eq!(state.remove(&"hub".to_string()), Some(100));
    assert_eq!(state.remove(&"hub".to_string()), None);
    assert_eq!(state.get(&"hub".to_string()), None);
    assert_eq!(state.remove(&"runtime".to_string()), None);
}

#[test]
fn record_stays_in_order() {
    let mut state = RuntimeState::new();
    assert!(state.is_in_order());
    state.insert("hub".to_string(), 1);
    state.insert("runtime".to_string(), 2);
    state.insert("hub".to_string(), 3);
    assert!(state.is_in_order());
    state.remove(&"hub".to_string());
    assert!(state.is_in_order());
}
