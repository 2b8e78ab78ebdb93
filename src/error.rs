//! Errors of the gateway's request pipeline and their HTTP status codes.

use vstd::prelude::*;

verus! {

/// Why the gateway did not forward a request, or forwarding failed.
#[derive(Debug)]
pub enum GatewayError {
    /// The upstream exchange failed; the detail says how.
    UpstreamRequest(String),
    UpstreamTimeout,
    /// The request method, which the gateway does not forward.
    UnsupportedMethod(String),
    /// The request path, which no route matches.
    RouteNotFound(String),
    RateLimitExceeded,
    Unauthorized,
}

/// The status code each error is answered with.
pub open spec fn status_of(e: GatewayError) -> u16 {
    match e {
        GatewayError::UpstreamRequest(_) => 502,
        GatewayError::UpstreamTimeout => 504,
        GatewayError::UnsupportedMethod(_) => 405,
        GatewayError::RouteNotFound(_) => 404,
        GatewayError::RateLimitExceeded => 429,
        GatewayError::Unauthorized => 401,
    }
}

/// The text each error is answered with.
pub open spec fn message_of(e: GatewayError) -> Seq<char> {
    match e {
        GatewayError::UpstreamRequest(d) => "Upstream request failed: "@ + d@,
        GatewayError::UpstreamTimeout => "Upstream timeout"@,
        GatewayError::UnsupportedMethod(m) => "Method not supported: "@ + m@,
        GatewayError::RouteNotFound(p) => "Route not found: "@ + p@,
        GatewayError::RateLimitExceeded => "Rate limit exceeded"@,
        GatewayError::Unauthorized => "Unauthorized"@,
    }
}

fn prefixed(prefix: &str, detail: &String) -> (r: String)
    ensures
        r@ == prefix@ + detail@,
{
    let mut r = String::from_str(prefix);
    r.append(detail.as_str());
    r
}

impl GatewayError {
    pub fn status_code(&self) -> (r: u16)
        ensures
            r == status_of(*self),
    {
        match self {
            GatewayError::UpstreamRequest(_) => 502,
            GatewayError::UpstreamTimeout => 504,
            GatewayError::UnsupportedMethod(_) => 405,
            GatewayError::RouteNotFound(_) => 404,
            GatewayError::RateLimitExceeded => 429,
            GatewayError::Unauthorized => 401,
        }
    }

    pub fn message(&self) -> (r: String)
        ensures
            r@ == message_of(*self),
    {
        match self {
            GatewayError::UpstreamRequest(d) => prefixed("Upstream request failed: ", d),
            GatewayError::UpstreamTimeout => String::from_str("Upstream timeout"),
            GatewayError::UnsupportedMethod(m) => prefixed("Method not supported: ", m),
            GatewayError::RouteNotFound(p) => prefixed("Route not found: ", p),
            GatewayError::RateLimitExceeded => String::from_str("Rate limit exceeded"),
            GatewayError::Unauthorized => String::from_str("Unauthorized"),
        }
    }
}

} // verus!
