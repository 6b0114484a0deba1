use goyais_desktop::registry::{ManagedProcess, SupervisorRegistry};

fn process(name: &str, rank: u32, handle: u32) -> ManagedProcess<u32> {
    ManagedProcess { name: name.to_string(), rank, handle }
}

fn summary(processes: &[ManagedProcess<u32>]) -> Vec<(String, u32, u32)> {
    processes.iter().map(|p| (p.name.clone(), p.rank, p.handle)).collect()
}

#[test]
fn new_registry_is_empty() {
    let registry: SupervisorRegistry<u32> = SupervisorRegistry::new();
    assert_eq!(registry.len(), 0);
    assert!(!registry.is_running(&"hub".to_string()));
    assert!(registry.get(&"hub".to_string()).is_none());
}

#[test]
fn register_then_take_hands_the_process_out_once() {
    let mut registry = SupervisorRegistry::new();
    assert!(registry.register(process("hub", 0, 11)).is_none());
    assert!(registry.is_running(&"hub".to_string()));
    assert_eq!(registry.get(&"hub".to_string()).map(|p| p.handle), Some(11));
    let taken = registry.take(&"hub".to_string());
    assert_eq!(taken.map(|p| p.handle), Some(11));
    assert!(!registry.is_running(&"hub".to_string()));
    assert_eq!(registry.len(), 0);
}

#[test]
fn take_of_an_absent_service_changes_nothing() {
    let mut registry = SupervisorRegistry::new();
    registry.register(process("hub", 0, 11));
    assert!(registry.take(&"worker".to_string()).is_none());
    assert_eq!(registry.len(), 1);
    assert!(registry.is_running(&"hub".to_string()));
}

#[test]
fn take_twice_yields_nothing_the_second_time() {
    let mut registry = SupervisorRegistry::new();
    registry.register(process("hub", 0, 11));
    registry.register(process("worker", 1, 12));
    assert!(registry.take(&"worker".to_string()).is_some());
    assert!(registry.take(&"worker".to_string()).is_none());
    assert!(registry.take(&"worker".to_string()).is_none());
    assert_eq!(registry.len(), 1);
    assert_eq!(registry.get(&"hub".to_string()).map(|p| p.handle), Some(11));
}

#[test]
fn register_replaces_and_hands_back_the_prior_process() {
    let mut registry = SupervisorRegistry::new();
    assert!(registry.register(process("hub", 0, 11)).is_none());
    let prior = registry.register(process("hub", 0, 21));
    assert_eq!(prior.map(|p| p.handle), Some(11));
    assert_eq!(registry.len(), 1);
    assert_eq!(registry.get(&"hub".to_string()).map(|p| p.handle), Some(21));
}

#[test]
fn register_and_take_in_either_order_leave_one_holder() {
    // register first
    let mut registry = SupervisorRegistry::new();
    registry.register(process("hub", 0, 1));
    let displaced = registry.register(process("hub", 0, 2)).map(|p| p.handle);
    let taken = registry.take(&"hub".to_string()).map(|p| p.handle);
    assert_eq!(displaced, Some(1));
    assert_eq!(taken, Some(2));
    assert_eq!(registry.len(), 0);
    // take first
    let mut registry = SupervisorRegistry::new();
    registry.register(process("hub", 0, 1));
    let taken = registry.take(&"hub".to_string()).map(|p| p.handle);
    let displaced = registry.register(process("hub", 0, 2)).map(|p| p.handle);
    assert_eq!(taken, Some(1));
    assert_eq!(displaced, None);
    assert_eq!(registry.get(&"hub".to_string()).map(|p| p.handle), Some(2));
}

#[test]
fn names_are_told_apart_exactly() {
    let mut registry = SupervisorRegistry::new();
    registry.register(process("hub", 0, 1));
    assert!(!registry.is_running(&"Hub".to_string()));
    assert!(!registry.is_running(&"hub ".to_string()));
    assert!(!registry.is_running(&"".to_string()));
}

#[test]
fn drain_hands_out_highest_rank_first() {
    let mut registry = SupervisorRegistry::new();
    registry.register(process("worker", 1, 12));
    registry.register(process("hub", 0, 11));
    registry.register(process("indexer", 2, 13));
    let drained = registry.drain_all();
    assert_eq!(
        summary(&drained),
        vec![
            ("indexer".to_string(), 2, 13),
            ("worker".to_string(), 1, 12),
            ("hub".to_string(), 0, 11),
        ]
    );
    assert_eq!(registry.len(), 0);
}

#[test]
fn drain_of_an_empty_registry_yields_nothing() {
    let mut registry: SupervisorRegistry<u32> = SupervisorRegistry::new();
    assert!(registry.drain_all().is_empty());
    assert!(registry.drain_all().is_empty());
    assert_eq!(registry.len(), 0);
}

#[test]
fn equal_ranks_keep_the_order_of_registration() {
    let mut registry = SupervisorRegistry::new();
    registry.register(process("a", 1, 1));
    registry.register(process("b", 1, 2));
    registry.register(process("c", 0, 3));
    let drained = registry.drain_all();
    assert_eq!(
        summary(&drained),
        vec![("b".to_string(), 1, 2), ("a".to_string(), 1, 1), ("c".to_string(), 0, 3)]
    );
}

#[test]
fn replace_all_hands_back_what_was_registered() {
    let mut registry = SupervisorRegistry::new();
    registry.register(process("hub", 0, 1));
    registry.register(process("worker", 1, 2));
    let displaced = registry.replace_all(vec![process("hub", 0, 3), process("worker", 1, 4)]);
    assert_eq!(
        summary(&displaced),
        vec![("worker".to_string(), 1, 2), ("hub".to_string(), 0, 1)]
    );
    assert_eq!(registry.len(), 2);
    assert_eq!(registry.get(&"hub".to_string()).map(|p| p.handle), Some(3));
    assert_eq!(registry.get(&"worker".to_string()).map(|p| p.handle), Some(4));
}

#[test]
fn replace_all_on_an_empty_registry_displaces_nothing() {
    let mut registry = SupervisorRegistry::new();
    let displaced = registry.replace_all(vec![process("hub", 0, 3), process("worker", 1, 4)]);
    assert!(displaced.is_empty());
    let drained = registry.drain_all();
    assert_eq!(
        summary(&drained),
        vec![("worker".to_string(), 1, 4), ("hub".to_string(), 0, 3)]
    );
}

#[test]
fn replace_all_with_a_name_twice_keeps_the_later_process() {
    let mut registry = SupervisorRegistry::new();
    let displaced = registry.replace_all(vec![process("hub", 0, 3), process("hub", 0, 4)]);
    assert_eq!(summary(&displaced), vec![("hub".to_string(), 0, 3)]);
    assert_eq!(registry.len(), 1);
    assert_eq!(registry.get(&"hub".to_string()).map(|p| p.handle), Some(4));
}

#[test]
fn registry_stays_in_order() {
    let mut registry = SupervisorRegistry::new();
    assert!(registry.is_in_order());
    registry.register(process("worker", 1, 12));
    registry.register(process("hub", 0, 11));
    registry.register(process("worker", 3, 13));
    assert!(registry.is_in_order());
    registry.take(&"hub".to_string());
    assert!(registry.is_in_order());
    registry.replace_all(vec![process("b", 5, 1), process("a", 2, 2), process("b", 0, 3)]);
    assert!(registry.is_in_order());
    registry.drain_all();
    assert!(registry.is_in_order());
}
