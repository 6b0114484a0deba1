//! Service descriptors and the environment handed to a child process.

use crate::text::{decimal, decimal_string, is_blank, push_decimal, str_is_blank};
use vstd::prelude::*;
use vstd::string::*;

verus! {

/// The port on which the hub listens.
pub const HUB_PORT: u16 = 8787;

/// The port on which the worker listens.
pub const WORKER_PORT: u16 = 8788;

/// The name of the hub's database file in the application's data directory.
pub const HUB_DB_FILE: &'static str = "hub.sqlite3";

/// One environment variable: its name and its value.
pub type EnvPair = (String, String);

/// The mathematical content of an environment: names and values as
/// character sequences, in order.
pub type EnvView = Seq<(Seq<char>, Seq<char>)>;

/// What is needed to launch one supervised service.
pub struct ServiceDescriptor {
    /// The logical name under which the service is registered.
    pub name: String,
    /// The bundled executable to run.
    pub executable: String,
    /// Variables that the child always receives.
    pub fixed_env: Vec<EnvPair>,
    /// Names of the variables that are copied from the parent's environment.
    pub pass_through: Vec<String>,
    /// The local TCP port on which the service answers health probes.
    pub port: u16,
    /// The position of the service in the startup order; lower starts first.
    pub rank: u32,
}

/// The content of a [`ServiceDescriptor`].
pub struct DescriptorView {
    pub name: Seq<char>,
    pub executable: Seq<char>,
    pub fixed_env: EnvView,
    pub pass_through: Seq<Seq<char>>,
    pub port: u16,
    pub rank: u32,
}

impl View for ServiceDescriptor {
    type V = DescriptorView;

    open spec fn view(&self) -> DescriptorView {
        DescriptorView {
            name: self.name@,
            executable: self.executable@,
            fixed_env: self.fixed_env.deep_view(),
            pass_through: self.pass_through.deep_view(),
            port: self.port,
            rank: self.rank,
        }
    }
}

impl DeepView for ServiceDescriptor {
    type V = DescriptorView;

    open spec fn deep_view(&self) -> DescriptorView {
        self@
    }
}

/// The value of the first variable called `name` in `env`, if there is one.
pub open spec fn lookup(env: EnvView, name: Seq<char>) -> Option<Seq<char>>
    decreases env.len(),
{
    if env.len() == 0 {
        None
    } else if env[0].0 == name {
        Some(env[0].1)
    } else {
        lookup(env.drop_first(), name)
    }
}

/// The variables that are copied from `current`: for each allow-listed name,
/// in the order of the list, the name with its value in `current`, unless the
/// variable is missing there or its value is blank.
pub open spec fn forwarded(allow: Seq<Seq<char>>, current: EnvView) -> EnvView
    decreases allow.len(),
{
    if allow.len() == 0 {
        Seq::empty()
    } else {
        let rest = forwarded(allow.drop_last(), current);
        match lookup(current, allow.last()) {
            Some(value) => if is_blank(value) {
                rest
            } else {
                rest.push((allow.last(), value))
            },
            None => rest,
        }
    }
}

/// The environment of a child: the fixed variables of its descriptor, followed
/// by the variables forwarded from `current`.
pub open spec fn child_environment(descriptor: DescriptorView, current: EnvView) -> EnvView {
    descriptor.fixed_env + forwarded(descriptor.pass_through, current)
}

/// Finds the value of the first variable called `name` in `env`.
pub fn lookup_variable<'a>(env: &'a Vec<EnvPair>, name: &String) -> (found: Option<&'a String>)
    ensures
        found.deep_view() == lookup(env.deep_view(), name@),
{
    let mut i: usize = 0;
    assert(env.deep_view().skip(0) =~= env.deep_view());
    while i < env.len()
        invariant
            i <= env.len(),
            lookup(env.deep_view(), name@) == lookup(env.deep_view().skip(i as int), name@),
        decreases env.len() - i,
    {
        let ghost rest = env.deep_view().skip(i as int);
        assert(rest.drop_first() =~= env.deep_view().skip(i + 1));
        if env[i].0 == *name {
            return Some(&env[i].1);
        }
        i += 1;
    }
    None
}

/// Builds the environment of a child of `descriptor` when the parent's own
/// environment is `current`.
pub fn build_environment(descriptor: &ServiceDescriptor, current: &Vec<EnvPair>) -> (env: Vec<
    EnvPair,
>)
    ensures
        env.deep_view() == child_environment(descriptor@, current.deep_view()),
{
    let mut env: Vec<EnvPair> = Vec::new();
    let mut i: usize = 0;
    while i < descriptor.fixed_env.len()
        invariant
            i <= descriptor.fixed_env.len(),
            env.deep_view() == descriptor.fixed_env.deep_view().take(i as int),
        decreases descriptor.fixed_env.len() - i,
    {
        let pair = &descriptor.fixed_env[i];
        let ghost before = env.deep_view();
        let copy = (pair.0.clone(), pair.1.clone());
        env.push(copy);
        assert(env.deep_view() =~= before.push(copy.deep_view()));
        i += 1;
        assert(env.deep_view() =~= descriptor.fixed_env.deep_view().take(i as int));
    }
    assert(descriptor.fixed_env.deep_view().take(i as int) =~= descriptor.fixed_env.deep_view());
    let mut j: usize = 0;
    assert(descriptor.pass_through.deep_view().take(0) =~= Seq::<Seq<char>>::empty());
    assert(env.deep_view() =~= descriptor@.fixed_env + Seq::<(Seq<char>, Seq<char>)>::empty());
    while j < descriptor.pass_through.len()
        invariant
            j <= descriptor.pass_through.len(),
            env.deep_view() == descriptor@.fixed_env + forwarded(
                descriptor.pass_through.deep_view().take(j as int),
                current.deep_view(),
            ),
        decreases descriptor.pass_through.len() - j,
    {
        let name = &descriptor.pass_through[j];
        let ghost before = descriptor.pass_through.deep_view().take(j as int);
        let ghost after = descriptor.pass_through.deep_view().take(j + 1);
        assert(after.drop_last() =~= before);
        match lookup_variable(current, name) {
            Some(value) => {
                if !str_is_blank(value.as_str()) {
                    let ghost so_far = env.deep_view();
                    let copy = (name.clone(), value.clone());
                    env.push(copy);
                    assert(env.deep_view() =~= so_far.push((name@, value@)));
                }
            },
            None => {},
        }
        j += 1;
    }
    assert(descriptor.pass_through.deep_view().take(j as int)
        =~= descriptor.pass_through.deep_view());
    env
}

/// Every forwarded variable is on the allow-list, and it carries the value
/// that the parent's environment has for it, which is not blank.
pub proof fn lemma_forwarded_is_listed_and_set(allow: Seq<Seq<char>>, current: EnvView, i: int)
    requires
        0 <= i < forwarded(allow, current).len(),
    ensures
        allow.contains(forwarded(allow, current)[i].0),
        lookup(current, forwarded(allow, current)[i].0) == Some(forwarded(allow, current)[i].1),
        !is_blank(forwarded(allow, current)[i].1),
    decreases allow.len(),
{
    if allow.len() > 0 {
        let rest = forwarded(allow.drop_last(), current);
        if i < rest.len() {
            lemma_forwarded_is_listed_and_set(allow.drop_last(), current, i);
            let k = choose|k: int|
                0 <= k < allow.drop_last().len() && allow.drop_last()[k] == rest[i].0;
            assert(allow[k] == rest[i].0);
        }
    }
}

/// Pass-through filtering: a variable that is not on the allow-list is never
/// forwarded, whatever its value; and a variable on the list whose value is
/// empty or holds only whitespace, or which is not set, is not forwarded either.
pub proof fn lemma_pass_through_filtering(allow: Seq<Seq<char>>, current: EnvView, name: Seq<char>)
    requires
        !allow.contains(name) || match lookup(current, name) {
            Some(value) => is_blank(value),
            None => true,
        },
    ensures
        forall|i: int|
            0 <= i < forwarded(allow, current).len() ==> (#[trigger] forwarded(
                allow,
                current,
            )[i]).0 != name,
{
    assert forall|i: int| 0 <= i < forwarded(allow, current).len() implies (#[trigger] forwarded(
        allow,
        current,
    )[i]).0 != name by {
        lemma_forwarded_is_listed_and_set(allow, current, i);
    }
}

/// A variable on the allow-list that is set to a value that is not blank is
/// forwarded with that value.
pub proof fn lemma_listed_and_set_is_forwarded(
    allow: Seq<Seq<char>>,
    current: EnvView,
    name: Seq<char>,
    value: Seq<char>,
)
    requires
        allow.contains(name),
        lookup(current, name) == Some(value),
        !is_blank(value),
    ensures
        forwarded(allow, current).contains((name, value)),
    decreases allow.len(),
{
    let all = forwarded(allow, current);
    let rest = forwarded(allow.drop_last(), current);
    if allow.last() == name {
        assert(all[all.len() - 1] == (name, value));
    } else {
        let k = choose|k: int| 0 <= k < allow.len() && allow[k] == name;
        assert(allow.drop_last()[k] == name);
        lemma_listed_and_set_is_forwarded(allow.drop_last(), current, name, value);
        let at = choose|at: int| 0 <= at < rest.len() && rest[at] == (name, value);
        assert(all[at] == (name, value));
    }
}

/// The descriptor of the hub: it listens on [`HUB_PORT`], keeps its database
/// at `db_path`, and starts first.
pub fn hub_descriptor(db_path: String, token: String, pass_through: Vec<String>) -> (d:
    ServiceDescriptor)
    ensures
        d@ == (DescriptorView {
            name: "hub"@,
            executable: "binaries/goyais-hub"@,
            fixed_env: seq![
                ("PORT"@, decimal(HUB_PORT as nat)),
                ("HUB_DB_PATH"@, db_path@),
                ("HUB_INTERNAL_TOKEN"@, token@),
            ],
            pass_through: pass_through.deep_view(),
            port: HUB_PORT,
            rank: 0,
        }),
{
    let mut fixed_env: Vec<EnvPair> = Vec::new();
    fixed_env.push((String::from_str("PORT"), decimal_string(HUB_PORT as u64)));
    fixed_env.push((String::from_str("HUB_DB_PATH"), db_path));
    fixed_env.push((String::from_str("HUB_INTERNAL_TOKEN"), token));
    let d = ServiceDescriptor {
        name: String::from_str("hub"),
        executable: String::from_str("binaries/goyais-hub"),
        fixed_env,
        pass_through,
        port: HUB_PORT,
        rank: 0,
    };
    assert(d@.fixed_env =~= seq![
        ("PORT"@, decimal(HUB_PORT as nat)),
        ("HUB_DB_PATH"@, db_path@),
        ("HUB_INTERNAL_TOKEN"@, token@),
    ]);
    d
}

/// The address at which the worker reaches the hub.
pub open spec fn hub_base_url() -> Seq<char> {
    "http://127.0.0.1:"@ + decimal(HUB_PORT as nat)
}

/// The descriptor of the worker: it listens on [`WORKER_PORT`], calls back
/// into the hub, and starts after it.
pub fn worker_descriptor(token: String, pass_through: Vec<String>) -> (d: ServiceDescriptor)
    ensures
        d@ == (DescriptorView {
            name: "worker"@,
            executable: "binaries/goyais-worker"@,
            fixed_env: seq![
                ("PORT"@, decimal(WORKER_PORT as nat)),
                ("HUB_BASE_URL"@, hub_base_url()),
                ("HUB_INTERNAL_TOKEN"@, token@),
            ],
            pass_through: pass_through.deep_view(),
            port: WORKER_PORT,
            rank: 1,
        }),
{
    let mut url = String::from_str("http://127.0.0.1:");
    push_decimal(&mut url, HUB_PORT as u64);
    let mut fixed_env: Vec<EnvPair> = Vec::new();
    fixed_env.push((String::from_str("PORT"), decimal_string(WORKER_PORT as u64)));
    fixed_env.push((String::from_str("HUB_BASE_URL"), url));
    fixed_env.push((String::from_str("HUB_INTERNAL_TOKEN"), token));
    let d = ServiceDescriptor {
        name: String::from_str("worker"),
        executable: String::from_str("binaries/goyais-worker"),
        fixed_env,
        pass_through,
        port: WORKER_PORT,
        rank: 1,
    };
    assert(d@.fixed_env =~= seq![
        ("PORT"@, decimal(WORKER_PORT as nat)),
        ("HUB_BASE_URL"@, hub_base_url()),
        ("HUB_INTERNAL_TOKEN"@, token@),
    ]);
    d
}

/// The names of the variables by which a host states its proxies and the
/// certificates it trusts, in both spellings in use.
pub open spec fn proxy_and_trust_names() -> Seq<Seq<char>> {
    seq![
        "HTTP_PROXY"@,
        "HTTPS_PROXY"@,
        "ALL_PROXY"@,
        "NO_PROXY"@,
        "http_proxy"@,
        "https_proxy"@,
        "all_proxy"@,
        "no_proxy"@,
        "SSL_CERT_FILE"@,
        "SSL_CERT_DIR"@,
    ]
}

/// The allow-list that lets a child inherit the network policy of the
/// host: its proxies and the certificates it trusts.
pub fn proxy_and_trust_variables() -> (names: Vec<String>)
    ensures
        names.deep_view() == proxy_and_trust_names(),
{
    let mut names: Vec<String> = Vec::new();
    names.push(String::from_str("HTTP_PROXY"));
    names.push(String::from_str("HTTPS_PROXY"));
    names.push(String::from_str("ALL_PROXY"));
    names.push(String::from_str("NO_PROXY"));
    names.push(String::from_str("http_proxy"));
    names.push(String::from_str("https_proxy"));
    names.push(String::from_str("all_proxy"));
    names.push(String::from_str("no_proxy"));
    names.push(String::from_str("SSL_CERT_FILE"));
    names.push(String::from_str("SSL_CERT_DIR"));
    assert(names.deep_view() =~= proxy_and_trust_names());
    names
}

} // verus!
