//! The command line of the proxy.

use vstd::prelude::*;
use vstd::string::StringExecFns;

verus! {

/// The command line.
pub struct Cli {
    /// What is to be done.
    pub command: Commands,
}

/// What the proxy can be told to do.
pub enum Commands {
    /// Write a template of the configuration file.
    Init,
    /// Run the proxy in the foreground.
    Run {
        /// The path of the configuration file.
        config: String,
    },
    /// Run the proxy in the background.
    Start {
        /// The path of the configuration file.
        config: String,
    },
    /// Stop the proxy in the background.
    Stop,
    /// Ask the administrative API for the health of the cluster.
    Status {
        /// The base URL of the API.
        admin_url: String,
    },
    /// Check the configuration file.
    Check {
        /// The path of the configuration file.
        config: String,
    },
}

/// The path of the configuration file where none is given.
pub const DEFAULT_CONFIG_PATH: &'static str = "iron-proxy.toml";

/// The base URL of the administrative API where none is given.
pub const DEFAULT_ADMIN_URL: &'static str = "http://127.0.0.1:9090";

/// The template of the configuration file.
pub const DEFAULT_CONFIG: &'static str = "# Iron-Proxy Enterprise Configuration
# -----------------------------------
# This file is hot-reloadable. Changes made here will be applied automatically without dropping connections.

[server]
bind_addr = \"127.0.0.1\"
port = 8080

[admin]
bind_addr = \"127.0.0.1\"
port = 9090

# -----------------------------------
# Layer 7: HTTP Reverse Proxy (Peak EWMA & Sticky Sessions)
# -----------------------------------
[[clusters]]
name = \"web_backend\"
mode = \"http\"
# Enable deterministic IP Hashing for stateful legacy apps
sticky_sessions = false
# Automatically retry requests on 5xx errors before returning to the client
max_retries = 3
targets = [
    \"127.0.0.1:8081\",
    \"127.0.0.1:8082\",
    \"127.0.0.1:8083\"
]

# -----------------------------------
# Layer 4: Raw TCP Proxy (Least Connections)
# -----------------------------------
[[tcp_servers]]
name = \"database_cluster\"
bind_addr = \"127.0.0.1\"
port = 6000
targets = [
    \"127.0.0.1:9000\",
    \"127.0.0.1:9001\"
]
";

/// The configuration file that a command serves with, if it serves.
pub open spec fn serving_config(command: Commands) -> Option<String> {
    match command {
        Commands::Run { config } => Some(config),
        Commands::Start { config } => Some(config),
        _ => None,
    }
}

impl Commands {
    /// The configuration file that the command serves with, if it serves.
    pub fn config_path(&self) -> (r: Option<String>)
        ensures
            r == serving_config(*self),
    {
        match self {
            Commands::Run { config } => Some(config.clone()),
            Commands::Start { config } => Some(config.clone()),
            _ => None,
        }
    }

    /// Whether the command puts the proxy into the background before it serves.
    pub fn detaches(&self) -> (r: bool)
        ensures
            r == (*self is Start),
    {
        match self {
            Commands::Start { .. } => true,
            _ => false,
        }
    }
}

/// The URL of the health summary below the base URL of the administrative API.
pub fn health_url(admin_url: &str) -> (r: String)
    ensures
        r@ == admin_url@ + crate::admin::HEALTH_PATH@,
{
    let mut url = admin_url.to_owned();
    url.append(crate::admin::HEALTH_PATH);
    url
}

/// The commands that serve are those that run the proxy, in the foreground or in the
/// background, each with the file it was given; only the latter detaches.
pub proof fn run_and_start_serve(command: Commands, path: Option<String>, detaches: bool)
    requires
        call_ensures(Commands::config_path, (&command,), path),
        call_ensures(Commands::detaches, (&command,), detaches),
    ensures
        path is Some <==> command is Run || command is Start,
        command matches Commands::Run { config } ==> path == Some(config) && !detaches,
        command matches Commands::Start { config } ==> path == Some(config) && detaches,
        detaches ==> path is Some,
{
}

/// The health summary is asked for at its path below the base URL.
pub proof fn health_is_asked_for_at_its_path(admin_url: &str, url: String)
    requires
        call_ensures(health_url, (admin_url,), url),
    ensures
        url@ == admin_url@ + "/api/v1/health"@,
{
}

} // verus!
