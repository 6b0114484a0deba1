//! The local process configuration and its defaults.

use std::collections::HashMap;
use vstd::prelude::*;
use vstd::string::*;

verus! {

/// The name of the configuration file in the application's configuration directory.
pub const LOCAL_CONFIG_FILE_NAME: &'static str = "local-process-config.v1.json";

/// How the hub is run.
#[derive(Debug, Clone)]
pub struct LocalHubConfig {
    pub port: String,
    pub auth_mode: String,
    pub db_driver: String,
    pub db_path: String,
    pub database_url: String,
    pub worker_base_url: String,
    pub max_concurrent_executions: String,
    pub log_level: String,
    pub advanced_env: HashMap<String, String>,
}

/// How the runtime is run.
#[derive(Debug, Clone)]
pub struct LocalRuntimeConfig {
    pub host: String,
    pub port: String,
    pub agent_mode: String,
    pub hub_base_url: String,
    pub require_hub_auth: bool,
    pub workspace_id: String,
    pub workspace_root: String,
    pub sync_server_url: String,
    pub sync_device_id: String,
    pub advanced_env: HashMap<String, String>,
}

/// Where the shell finds the hub.
#[derive(Debug, Clone)]
pub struct LocalConnectionConfig {
    pub local_hub_url: String,
    pub default_remote_server_url: String,
}

/// Which services wait for a restart to take up a changed configuration.
#[derive(Debug, Clone)]
pub struct LocalPendingApplyConfig {
    pub hub: bool,
    pub runtime: bool,
}

/// The local process configuration, in its first version.
#[derive(Debug, Clone)]
pub struct LocalProcessConfigV1 {
    pub version: u8,
    pub hub: LocalHubConfig,
    pub runtime: LocalRuntimeConfig,
    pub connections: LocalConnectionConfig,
    pub pending_apply: LocalPendingApplyConfig,
}

/// The hub's configuration is the default one.
pub open spec fn is_default_hub(hub: LocalHubConfig) -> bool {
    &&& hub.port@ == "8787"@
    &&& hub.auth_mode@ == "local_open"@
    &&& hub.db_driver@ == "sqlite"@
    &&& hub.db_path@ == "./data/hub.db"@
    &&& hub.database_url@ == ""@
    &&& hub.worker_base_url@ == "http://127.0.0.1:8040"@
    &&& hub.max_concurrent_executions@ == "5"@
    &&& hub.log_level@ == "info"@
    &&& hub.advanced_env@ == Map::<String, String>::empty()
}

/// The runtime's configuration is the default one.
pub open spec fn is_default_runtime(runtime: LocalRuntimeConfig) -> bool {
    &&& runtime.host@ == "127.0.0.1"@
    &&& runtime.port@ == "8040"@
    &&& runtime.agent_mode@ == "vanilla"@
    &&& runtime.hub_base_url@ == "http://127.0.0.1:8787"@
    &&& runtime.require_hub_auth
    &&& runtime.workspace_id@ == "local"@
    &&& runtime.workspace_root@ == "."@
    &&& runtime.sync_server_url@ == "http://127.0.0.1:8140"@
    &&& runtime.sync_device_id@ == "local-device"@
    &&& runtime.advanced_env@ == Map::<String, String>::empty()
}

/// The configuration is the default one.
pub open spec fn is_default_config(config: LocalProcessConfigV1) -> bool {
    &&& config.version == 1
    &&& is_default_hub(config.hub)
    &&& is_default_runtime(config.runtime)
    &&& config.connections.local_hub_url@ == "http://127.0.0.1:8787"@
    &&& config.connections.default_remote_server_url@ == "http://127.0.0.1:8787"@
    &&& !config.pending_apply.hub
    &&& !config.pending_apply.runtime
}

impl Default for LocalProcessConfigV1 {
    fn default() -> (config: Self)
        ensures
            is_default_config(config),
    {
        proof {
            reveal_strlit("");
        }
        let config = LocalProcessConfigV1 {
            version: 1,
            hub: LocalHubConfig {
                port: String::from_str("8787"),
                auth_mode: String::from_str("local_open"),
                db_driver: String::from_str("sqlite"),
                db_path: String::from_str("./data/hub.db"),
                database_url: String::new(),
                worker_base_url: String::from_str("http://127.0.0.1:8040"),
                max_concurrent_executions: String::from_str("5"),
                log_level: String::from_str("info"),
                advanced_env: HashMap::new(),
            },
            runtime: LocalRuntimeConfig {
                host: String::from_str("127.0.0.1"),
                port: String::from_str("8040"),
                agent_mode: String::from_str("vanilla"),
                hub_base_url: String::from_str("http://127.0.0.1:8787"),
                require_hub_auth: true,
                workspace_id: String::from_str("local"),
                workspace_root: String::from_str("."),
                sync_server_url: String::from_str("http://127.0.0.1:8140"),
                sync_device_id: String::from_str("local-device"),
                advanced_env: HashMap::new(),
            },
            connections: LocalConnectionConfig {
                local_hub_url: String::from_str("http://127.0.0.1:8787"),
                default_remote_server_url: String::from_str("http://127.0.0.1:8787"),
            },
            pending_apply: LocalPendingApplyConfig { hub: false, runtime: false },
        };
        assert(config.hub.database_url@ =~= ""@);
        config
    }
}

/// What was found where the configuration file is kept.
pub enum ConfigFile {
    /// There is no file.
    Absent,
    /// There is a file, and it could not be read; the text says why.
    Unreadable(String),
    /// There is a file, and it does not hold a configuration.
    Unparsable,
    /// There is a file, and it holds this configuration.
    Parsed(LocalProcessConfigV1),
}

/// The configuration to work with: the one in the file, or the default
/// one where there is no file or the file holds no configuration.  A file
/// that could not be read is an error.
pub fn loaded_config(file: ConfigFile) -> (loaded: Result<LocalProcessConfigV1, String>)
    ensures
        match file {
            ConfigFile::Absent => loaded is Ok && is_default_config(loaded->Ok_0),
            ConfigFile::Unparsable => loaded is Ok && is_default_config(loaded->Ok_0),
            ConfigFile::Unreadable(reason) => loaded == Err::<LocalProcessConfigV1, String>(
                reason,
            ),
            ConfigFile::Parsed(config) => loaded == Ok::<LocalProcessConfigV1, String>(config),
        },
{
    match file {
        ConfigFile::Absent => Ok(LocalProcessConfigV1::default()),
        ConfigFile::Unparsable => Ok(LocalProcessConfigV1::default()),
        ConfigFile::Unreadable(reason) => Err(reason),
        ConfigFile::Parsed(config) => Ok(config),
    }
}

} // verus!
