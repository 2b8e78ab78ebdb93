//! Configuration shared by the gateway and the admin plane.

use vstd::prelude::*;
use crate::routing::{is_chosen_route, longest_prefix_match, route_applies};

verus! {

/// Listening ports and the upstream timeout.
#[derive(Debug)]
pub struct ServerConfig {
    pub admin_port: u16,
    pub gateway_port: u16,
    pub timeout_seconds: u64,
}

/// Upstream timeout used when the configuration names none.
pub fn default_timeout() -> (r: u64)
    ensures
        r == 30,
{
    30
}

/// Locator of the persistent store.
#[derive(Debug)]
pub struct DatabaseConfig {
    pub url: String,
}

/// Per-client sliding-window admission limits.
#[derive(Debug)]
pub struct RateLimitConfig {
    pub max_requests: u64,
    pub window_secs: u64,
}

/// Whether API keys are checked, and the fingerprints that are accepted.
#[derive(Debug)]
pub struct AuthConfig {
    pub enabled: bool,
    pub api_keys: Vec<ApiKey>,
}

/// The bearer token that guards the admin plane.
#[derive(Debug)]
pub struct AdminConfig {
    pub token: String,
}

/// A named API-key fingerprint (lower-case hex SHA-256 of the key).
#[derive(Debug)]
pub struct ApiKey {
    pub name: String,
    pub key_hash: String,
}

/// A path prefix and the origin that requests under it are sent to.
#[derive(Debug)]
pub struct Route {
    pub path: String,
    pub upstream: String,
}

/// The whole configuration, with the route table the gateway serves.
#[derive(Debug)]
pub struct Config {
    pub server: ServerConfig,
    pub database: DatabaseConfig,
    pub rate_limit: RateLimitConfig,
    pub auth: AuthConfig,
    pub admin: AdminConfig,
    pub routes: Vec<Route>,
}

impl Config {
    /// The rate limit must admit at least one request over a window of at
    /// least one second.
    pub fn validate(&self) -> (r: Result<(), String>)
        ensures
            r is Ok <==> (self.rate_limit.max_requests > 0 && self.rate_limit.window_secs > 0),
            self.rate_limit.max_requests == 0 ==> (r matches Err(m) && m@
                == "max_requests cannot be 0"@),
            self.rate_limit.max_requests > 0 && self.rate_limit.window_secs == 0 ==> (r matches Err(
                m,
            ) && m@ == "window_secs cannot be 0"@),
    {
        if self.rate_limit.max_requests == 0 {
            return Err(String::from_str("max_requests cannot be 0"));
        }
        if self.rate_limit.window_secs == 0 {
            return Err(String::from_str("window_secs cannot be 0"));
        }
        Ok(())
    }

    /// The route whose path is the longest prefix of `request_path`.
    pub fn find_route(&self, request_path: &str) -> (r: Option<&Route>)
        ensures
            match r {
                Some(route) => exists|i: int|
                    is_chosen_route(self.routes@, i, request_path@) && *route == self.routes@[i],
                None => forall|j: int| !route_applies(self.routes@, j, request_path@),
            },
    {
        match longest_prefix_match(&self.routes, request_path) {
            Some(i) => Some(&self.routes[i]),
            None => None,
        }
    }
}

} // verus!
