//! Request-handling core of a two-plane HTTP reverse proxy: upstream and
//! path validation, longest-prefix routing, API-key authentication,
//! per-client sliding-window rate limiting, the gateway's forwarding
//! pipeline and the admin plane's request handling.

pub mod text;
pub mod validation;
pub mod config;
pub mod routing;
pub mod auth;
pub mod rate_limit;
pub mod metrics;
pub mod storage;
pub mod error;
pub mod proxy;
pub mod admin;
