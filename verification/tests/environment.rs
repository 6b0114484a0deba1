use goyais_desktop::descriptor::{
    build_environment, hub_descriptor, lookup_variable, worker_descriptor, ServiceDescriptor,
    HUB_DB_FILE, HUB_PORT, WORKER_PORT,
};
use goyais_desktop::plan::sort_by_rank;

fn pair(name: &str, value: &str) -> (String, String) {
    (name.to_string(), value.to_string())
}

fn descriptor(fixed: Vec<(String, String)>, allow: &[&str]) -> ServiceDescriptor {
    ServiceDescriptor {
        name: "svc".to_string(),
        executable: "binaries/svc".to_string(),
        fixed_env: fixed,
        pass_through: allow.iter().map(|s| s.to_string()).collect(),
        port: 9000,
        rank: 0,
    }
}

#[test]
fn ports_and_files() {
    assert_eq!(HUB_PORT, 8787);
    assert_eq!(WORKER_PORT, 8788);
    assert_eq!(HUB_DB_FILE, "hub.sqlite3");
}

#[test]
fn hub_descriptor_has_the_fixed_variables() {
    let d = hub_descriptor(
        "/data/hub.sqlite3".to_string(),
        "goyais-internal-1-2".to_string(),
        vec!["HTTPS_PROXY".to_string()],
    );
    assert_eq!(d.name, "hub");
    assert_eq!(d.executable, "binaries/goyais-hub");
    assert_eq!(
        d.fixed_env,
        vec![
            pair("PORT", "8787"),
            pair("HUB_DB_PATH", "/data/hub.sqlite3"),
            pair("HUB_INTERNAL_TOKEN", "goyais-internal-1-2"),
        ]
    );
    assert_eq!(d.pass_through, vec!["HTTPS_PROXY".to_string()]);
    assert_eq!(d.port, 8787);
    assert_eq!(d.rank, 0);
}

#[test]
fn worker_descriptor_points_at_the_hub() {
    let d = worker_descriptor("goyais-internal-1-2".to_string(), Vec::new());
    assert_eq!(d.name, "worker");
    assert_eq!(d.executable, "binaries/goyais-worker");
    assert_eq!(
        d.fixed_env,
        vec![
            pair("PORT", "8788"),
            pair("HUB_BASE_URL", "http://127.0.0.1:8787"),
            pair("HUB_INTERNAL_TOKEN", "goyais-internal-1-2"),
        ]
    );
    assert!(d.pass_through.is_empty());
    assert_eq!(d.port, 8788);
    assert_eq!(d.rank, 1);
}

#[test]
fn lookup_finds_the_first_variable_of_the_name() {
    let env = vec![pair("A", "1"), pair("B", "2"), pair("A", "3")];
    assert_eq!(lookup_variable(&env, &"A".to_string()), Some(&"1".to_string()));
    assert_eq!(lookup_variable(&env, &"B".to_string()), Some(&"2".to_string()));
    assert_eq!(lookup_variable(&env, &"C".to_string()), None);
    assert_eq!(lookup_variable(&env, &"a".to_string()), None);
    assert_eq!(lookup_variable(&Vec::new(), &"A".to_string()), None);
}

#[test]
fn listed_variable_with_a_value_is_forwarded_as_it_is() {
    let d = descriptor(vec![pair("PORT", "9000")], &["HTTPS_PROXY"]);
    let current = vec![pair("HTTPS_PROXY", " http://proxy:3128 ")];
    assert_eq!(
        build_environment(&d, &current),
        vec![pair("PORT", "9000"), pair("HTTPS_PROXY", " http://proxy:3128 ")]
    );
}

#[test]
fn listed_variable_that_is_empty_is_not_forwarded() {
    let d = descriptor(vec![pair("PORT", "9000")], &["HTTPS_PROXY"]);
    let current = vec![pair("HTTPS_PROXY", "")];
    assert_eq!(build_environment(&d, &current), vec![pair("PORT", "9000")]);
}

#[test]
fn listed_variable_that_is_only_whitespace_is_not_forwarded() {
    let d = descriptor(vec![pair("PORT", "9000")], &["HTTPS_PROXY", "NO_PROXY"]);
    let current = vec![pair("HTTPS_PROXY", "  \t "), pair("NO_PROXY", "\n")];
    assert_eq!(build_environment(&d, &current), vec![pair("PORT", "9000")]);
}

#[test]
fn listed_variable_that_is_not_set_is_not_forwarded() {
    let d = descriptor(Vec::new(), &["SSL_CERT_FILE"]);
    assert!(build_environment(&d, &vec![pair("HOME", "/root")]).is_empty());
}

#[test]
fn unlisted_variable_is_never_forwarded() {
    let d = descriptor(vec![pair("PORT", "9000")], &["HTTPS_PROXY"]);
    let current = vec![
        pair("HOME", "/root"),
        pair("SECRET", "hunter2"),
        pair("https_proxy", "http://lower:1"),
        pair("HTTPS_PROXY", "http://proxy:3128"),
    ];
    assert_eq!(
        build_environment(&d, &current),
        vec![pair("PORT", "9000"), pair("HTTPS_PROXY", "http://proxy:3128")]
    );
}

#[test]
fn forwarded_variables_follow_the_order_of_the_list() {
    let d = descriptor(Vec::new(), &["C", "A", "B"]);
    let current = vec![pair("A", "1"), pair("B", " "), pair("C", "3")];
    assert_eq!(build_environment(&d, &current), vec![pair("C", "3"), pair("A", "1")]);
}

#[test]
fn empty_list_forwards_nothing() {
    let d = descriptor(vec![pair("PORT", "9000")], &[]);
    let current = vec![pair("HTTPS_PROXY", "http://proxy:3128")];
    assert_eq!(build_environment(&d, &current), vec![pair("PORT", "9000")]);
}

#[test]
fn sort_by_rank_is_stable() {
    let mut plan = Vec::new();
    for (name, rank) in [("d", 2u32), ("a", 1), ("e", 2), ("b", 1), ("c", 0)] {
        let mut d = descriptor(Vec::new(), &[]);
        d.name = name.to_string();
        d.rank = rank;
        plan.push(d);
    }
    let sorted = sort_by_rank(plan);
    let names: Vec<&str> = sorted.iter().map(|d| d.name.as_str()).collect();
    assert_eq!(names, vec!["c", "a", "b", "d", "e"]);
    assert!(sort_by_rank(Vec::new()).is_empty());
}
