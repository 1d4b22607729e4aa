//! The settings of the gateway.

use crate::text;
use crate::text::parse_u64;
use vstd::prelude::*;

verus! {

/// The environment variable that holds the address to listen on.
pub const BIND_ADDRESS_VARIABLE: &'static str = "GATEWAY_BIND_ADDRESS";

/// The environment variable that holds the number of requests allowed per minute.
pub const RATE_LIMIT_VARIABLE: &'static str = "GATEWAY_RATE_LIMIT";

/// The address to listen on where none is set.
pub const DEFAULT_BIND_ADDRESS: &'static str = "127.0.0.1:8080";

/// The number of requests allowed per minute where none is set.
pub const DEFAULT_RATE_LIMIT: u64 = 100;

/// The settings of the gateway.
#[derive(Debug)]
pub struct Config {
    pub server: ServerConfig,
    pub rate_limiting: RateLimitConfig,
}

/// Where the gateway listens.
#[derive(Debug)]
pub struct ServerConfig {
    pub bind_address: String,
}

/// How many requests a client may make.
#[derive(Debug)]
pub struct RateLimitConfig {
    pub max_requests_per_minute: u64,
}

/// The limit that a setting stands for: the default where there is none, and where
/// it is no number.
pub open spec fn limit_of(setting: Option<Seq<char>>) -> u64 {
    match setting {
        Some(s) => match text::parsed_u64(s) {
            Some(n) => n,
            None => DEFAULT_RATE_LIMIT,
        },
        None => DEFAULT_RATE_LIMIT,
    }
}

/// The settings, from the values of the two environment variables. A variable that
/// is not set, or not Unicode, is `None`.
pub fn load_config(bind_address: Option<String>, rate_limit: Option<String>) -> (r: Config)
    ensures
        r.server.bind_address@ == match bind_address {
            Some(address) => address@,
            None => DEFAULT_BIND_ADDRESS@,
        },
        r.rate_limiting.max_requests_per_minute == limit_of(
            match rate_limit {
                Some(limit) => Some(limit@),
                None => None,
            },
        ),
{
    let bind_address = match bind_address {
        Some(address) => address,
        None => DEFAULT_BIND_ADDRESS.to_owned(),
    };
    let max_requests_per_minute: u64 = match rate_limit {
        Some(limit) => match parse_u64(limit.as_str()) {
            Some(n) => n,
            None => DEFAULT_RATE_LIMIT,
        },
        None => DEFAULT_RATE_LIMIT,
    };
    Config {
        server: ServerConfig { bind_address },
        rate_limiting: RateLimitConfig { max_requests_per_minute },
    }
}

/// A limit that is set to a number is that number, and any other setting leaves the
/// default of 100.
pub proof fn limit_is_the_number_that_is_set(n: u64, setting: Seq<char>)
    ensures
        limit_of(Some(text::decimal(n as nat))) == n,
        limit_of(None) == 100,
        text::parsed_u64(setting) is None ==> limit_of(Some(setting)) == 100,
{
    text::decimal_is_read_back(n);
}

/// The settings are those of the environment: the address that is set, or the local one at
/// port 8080; the limit that is set to a number, or 100.
pub proof fn settings_are_those_of_the_environment(
    bind_address: Option<String>,
    rate_limit: Option<String>,
    config: Config,
)
    requires
        call_ensures(load_config, (bind_address, rate_limit), config),
    ensures
        bind_address matches Some(address) ==> config.server.bind_address@ == address@,
        bind_address is None ==> config.server.bind_address@ == "127.0.0.1:8080"@,
        rate_limit is None ==> config.rate_limiting.max_requests_per_minute == 100,
        rate_limit matches Some(limit) ==> config.rate_limiting.max_requests_per_minute == (
        match text::parsed_u64(limit@) {
            Some(n) => n,
            None => 100,
        }),
{
}

} // verus!
