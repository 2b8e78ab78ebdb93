//! The gateway's per-request pipeline: authentication, rate limiting,
//! routing, upstream request construction, and the handling of what the
//! upstream answered. Sending and receiving are left to the caller.

use vstd::prelude::*;
use crate::auth::{admits, AuthValidator};
use crate::config::Config;
use crate::error::GatewayError;
use crate::metrics::{bump, Metrics};
use crate::rate_limit::RateLimiter;
use crate::routing::{is_chosen_route, longest_prefix_match, route_applies};
use crate::text::{chars_of, decimal, decimal_of, equals, lower_of, seq_starts_with, starts_with, to_lower};
use vstd::utf8::encode_utf8;

verus! {

/// An HTTP header: its name and its value as raw bytes.
#[derive(Debug)]
pub struct Header {
    pub name: String,
    pub value: Vec<u8>,
}

pub struct HeaderView {
    pub name: Seq<char>,
    pub value: Seq<u8>,
}

impl View for Header {
    type V = HeaderView;

    open spec fn view(&self) -> HeaderView {
        HeaderView { name: self.name@, value: self.value@ }
    }
}

pub open spec fn header_views(hs: Seq<Header>) -> Seq<HeaderView> {
    hs.map_values(|h: Header| h@)
}

/// A query-string parameter.
#[derive(Debug)]
pub struct QueryParam {
    pub key: String,
    pub value: String,
}

pub open spec fn query_views(ps: Seq<QueryParam>) -> Seq<(Seq<char>, Seq<char>)> {
    ps.map_values(|p: QueryParam| (p.key@, p.value@))
}

/// The methods the gateway forwards.
#[derive(Clone, Copy, Debug, PartialEq, Eq, Structural)]
pub enum Method {
    Get,
    Post,
    Put,
    Delete,
    Patch,
    Head,
    Options,
}

pub open spec fn method_of(m: Seq<char>) -> Option<Method> {
    if m == "GET"@ {
        Some(Method::Get)
    } else if m == "POST"@ {
        Some(Method::Post)
    } else if m == "PUT"@ {
        Some(Method::Put)
    } else if m == "DELETE"@ {
        Some(Method::Delete)
    } else if m == "PATCH"@ {
        Some(Method::Patch)
    } else if m == "HEAD"@ {
        Some(Method::Head)
    } else if m == "OPTIONS"@ {
        Some(Method::Options)
    } else {
        None
    }
}

fn is_word(s: &Vec<char>, w: &str) -> (r: bool)
    ensures
        r == (s@ == w@),
{
    equals(s, &chars_of(w))
}

/// The forwarded method named `m`, if the gateway forwards it.
pub fn parse_method(m: &str) -> (r: Option<Method>)
    ensures
        r == method_of(m@),
{
    let s = chars_of(m);
    if is_word(&s, "GET") {
        Some(Method::Get)
    } else if is_word(&s, "POST") {
        Some(Method::Post)
    } else if is_word(&s, "PUT") {
        Some(Method::Put)
    } else if is_word(&s, "DELETE") {
        Some(Method::Delete)
    } else if is_word(&s, "PATCH") {
        Some(Method::Patch)
    } else if is_word(&s, "HEAD") {
        Some(Method::Head)
    } else if is_word(&s, "OPTIONS") {
        Some(Method::Options)
    } else {
        None
    }
}

/// Headers that apply to a single connection and are never forwarded.
pub open spec fn hop_by_hop(n: Seq<char>) -> bool {
    ||| n == "connection"@
    ||| n == "keep-alive"@
    ||| n == "proxy-authenticate"@
    ||| n == "proxy-authorization"@
    ||| n == "te"@
    ||| n == "trailers"@
    ||| n == "transfer-encoding"@
    ||| n == "upgrade"@
}

/// Whether a header crosses the gateway: never a hop-by-hop header, and on
/// the way to the upstream neither `host` nor `content-length` (names
/// compared case-insensitively).
pub open spec fn keeps_header(h: HeaderView, to_upstream: bool) -> bool {
    let l = lower_of(h.name);
    !hop_by_hop(l) && (!to_upstream || (l != "host"@ && l != "content-length"@))
}

/// The headers of `hs` that cross the gateway, in order.
pub open spec fn kept_headers(hs: Seq<HeaderView>, to_upstream: bool) -> Seq<HeaderView>
    decreases hs.len(),
{
    if hs.len() == 0 {
        hs
    } else if keeps_header(hs.last(), to_upstream) {
        kept_headers(hs.drop_last(), to_upstream).push(hs.last())
    } else {
        kept_headers(hs.drop_last(), to_upstream)
    }
}

/// Whether `name` is a hop-by-hop header, ignoring case.
pub fn is_hop_by_hop(name: &str) -> (r: bool)
    ensures
        r == hop_by_hop(lower_of(name@)),
{
    let l = chars_of(to_lower(name).as_str());
    is_word(&l, "connection") || is_word(&l, "keep-alive") || is_word(&l, "proxy-authenticate")
        || is_word(&l, "proxy-authorization") || is_word(&l, "te") || is_word(&l, "trailers")
        || is_word(&l, "transfer-encoding") || is_word(&l, "upgrade")
}

fn header_crosses(h: &Header, to_upstream: bool) -> (r: bool)
    ensures
        r == keeps_header(h@, to_upstream),
{
    if is_hop_by_hop(h.name.as_str()) {
        return false;
    }
    if !to_upstream {
        return true;
    }
    let l = chars_of(to_lower(h.name.as_str()).as_str());
    !is_word(&l, "host") && !is_word(&l, "content-length")
}

fn copy_bytes(v: &Vec<u8>) -> (r: Vec<u8>)
    ensures
        r@ == v@,
{
    let mut r: Vec<u8> = Vec::new();
    let mut i: usize = 0;
    while i < v.len()
        invariant
            i <= v@.len(),
            r@ == v@.subrange(0, i as int),
        decreases v.len() - i,
    {
        r.push(v[i]);
        i = i + 1;
    }
    assert(v@.subrange(0, v@.len() as int) =~= v@);
    r
}

/// The headers of `hs` that cross the gateway in the given direction.
pub fn filter_headers(hs: &Vec<Header>, to_upstream: bool) -> (r: Vec<Header>)
    ensures
        header_views(r@) == kept_headers(header_views(hs@), to_upstream),
{
    let mut r: Vec<Header> = Vec::new();
    let mut i: usize = 0;
    while i < hs.len()
        invariant
            i <= hs@.len(),
            header_views(r@) == kept_headers(header_views(hs@.subrange(0, i as int)), to_upstream),
        decreases hs.len() - i,
    {
        let ghost before = r@;
        let h = &hs[i];
        let keep = header_crosses(h, to_upstream);
        if keep {
            r.push(Header { name: h.name.clone(), value: copy_bytes(&h.value) });
            assert(header_views(r@) =~= header_views(before).push(h@));
        }
        assert(header_views(hs@.subrange(0, i + 1)).drop_last() =~= header_views(
            hs@.subrange(0, i as int),
        ));
        assert(header_views(hs@.subrange(0, i + 1)).last() == h@);
        i = i + 1;
    }
    assert(hs@.subrange(0, hs@.len() as int) =~= hs@);
    r
}

/// No header that crosses the gateway is a hop-by-hop header.
pub proof fn kept_headers_have_no_hop_by_hop(hs: Seq<HeaderView>, to_upstream: bool)
    ensures
        forall|i: int|
            0 <= i < kept_headers(hs, to_upstream).len() ==> !hop_by_hop(
                lower_of(#[trigger] kept_headers(hs, to_upstream)[i].name),
            ),
    decreases hs.len(),
{
    if hs.len() > 0 {
        let p = hs.drop_last();
        kept_headers_have_no_hop_by_hop(p, to_upstream);
        let k = kept_headers(hs, to_upstream);
        assert forall|i: int| 0 <= i < k.len() implies !hop_by_hop(lower_of(#[trigger] k[i].name)) by {
            if keeps_header(hs.last(), to_upstream) && i == k.len() - 1 {
                assert(k[i] == hs.last());
            } else {
                assert(k[i] == kept_headers(p, to_upstream)[i]);
            }
        }
    }
}

/// `?k1=v1&k2=v2...` for the parameters in order; empty when there are none.
pub open spec fn query_text(ps: Seq<(Seq<char>, Seq<char>)>) -> Seq<char>
    decreases ps.len(),
{
    if ps.len() == 0 {
        Seq::empty()
    } else if ps.len() == 1 {
        "?"@ + ps[0].0 + "="@ + ps[0].1
    } else {
        query_text(ps.drop_last()) + "&"@ + ps.last().0 + "="@ + ps.last().1
    }
}

/// The query string sent upstream.
pub fn query_string(ps: &Vec<QueryParam>) -> (r: String)
    ensures
        r@ == query_text(query_views(ps@)),
{
    let mut r = String::new();
    let mut i: usize = 0;
    while i < ps.len()
        invariant
            i <= ps@.len(),
            r@ == query_text(query_views(ps@.subrange(0, i as int))),
        decreases ps.len() - i,
    {
        let ghost before = r@;
        if i == 0 {
            r.append("?");
        } else {
            r.append("&");
        }
        r.append(ps[i].key.as_str());
        r.append("=");
        r.append(ps[i].value.as_str());
        proof {
            let qs = query_views(ps@.subrange(0, i + 1));
            assert(qs.drop_last() =~= query_views(ps@.subrange(0, i as int)));
            assert(qs.last() == (ps@[i as int].key@, ps@[i as int].value@));
            if i == 0 {
                assert(before =~= Seq::<char>::empty());
                assert(r@ =~= "?"@ + qs[0].0 + "="@ + qs[0].1);
            } else {
                assert(r@ =~= before + "&"@ + qs.last().0 + "="@ + qs.last().1);
            }
        }
        i = i + 1;
    }
    assert(ps@.subrange(0, ps@.len() as int) =~= ps@);
    r
}

/// `s` without one leading `/`.
pub open spec fn trim_slash(s: Seq<char>) -> Seq<char> {
    if s.len() > 0 && s[0] == '/' {
        s.subrange(1, s.len() as int)
    } else {
        s
    }
}

/// The upstream URL for request path `full` under a route with path
/// `prefix`: the upstream, one `/`, the rest of the path after the prefix
/// (less a leading `/`), and the query string.
pub open spec fn upstream_url_of(
    upstream: Seq<char>,
    full: Seq<char>,
    prefix: Seq<char>,
    query: Seq<(Seq<char>, Seq<char>)>,
) -> Seq<char> {
    upstream + "/"@ + trim_slash(full.subrange(prefix.len() as int, full.len() as int))
        + query_text(query)
}

/// Builds the upstream URL; `prefix` is a prefix of `full`.
pub fn build_upstream_url(upstream: &str, full: &str, prefix: &str, query: &Vec<QueryParam>) -> (r:
    String)
    requires
        seq_starts_with(full@, prefix@),
    ensures
        r@ == upstream_url_of(upstream@, full@, prefix@, query_views(query@)),
{
    let n = full.unicode_len();
    let mut start = prefix.unicode_len();
    if start < n && full.get_char(start) == '/' {
        start = start + 1;
    }
    let rest = full.substring_char(start, n);
    let mut r = String::from_str(upstream);
    r.append("/");
    r.append(rest);
    let q = query_string(query);
    r.append(q.as_str());
    assert(r@ =~= upstream_url_of(upstream@, full@, prefix@, query_views(query@)));
    r
}

/// `u` without its `http://` or `https://` scheme.
pub open spec fn after_scheme(u: Seq<char>) -> Seq<char> {
    if seq_starts_with(u, "https://"@) {
        u.subrange(8, u.len() as int)
    } else if seq_starts_with(u, "http://"@) {
        u.subrange(7, u.len() as int)
    } else {
        u
    }
}

/// `a` is the authority of upstream `u`: what follows the scheme, up to the
/// first `/`.
pub open spec fn is_authority_of(a: Seq<char>, u: Seq<char>) -> bool {
    let rest = after_scheme(u);
    &&& seq_starts_with(rest, a)
    &&& !a.contains('/')
    &&& (a.len() == rest.len() || rest[a.len() as int] == '/')
}

/// The host authority of an upstream, sent as the `Host` header.
pub fn upstream_host(upstream: &str) -> (r: String)
    ensures
        is_authority_of(r@, upstream@),
{
    let u = chars_of(upstream);
    let n = u.len();
    proof {
        reveal_strlit("https://");
        reveal_strlit("http://");
    }
    let https = chars_of("https://");
    let http = chars_of("http://");
    let start: usize = if starts_with(&u, &https) {
        8
    } else if starts_with(&u, &http) {
        7
    } else {
        0
    };
    assert(after_scheme(upstream@) =~= u@.subrange(start as int, n as int));
    let mut end: usize = start;
    while end < n && u[end] != '/'
        invariant
            start <= end <= n,
            n == u@.len(),
            forall|k: int| start <= k < end ==> u@[k] != '/',
        decreases n - end,
    {
        end = end + 1;
    }
    let r = String::from_str(upstream.substring_char(start, end));
    proof {
        let rest = u@.subrange(start as int, n as int);
        assert(rest.subrange(0, r@.len() as int) =~= r@);
        assert forall|k: int| 0 <= k < r@.len() implies r@[k] != '/' by {
            assert(r@[k] == u@[start + k]);
        }
    }
    r
}

/// The `/health` path, which the gateway answers itself.
pub fn is_health_path(path: &str) -> (r: bool)
    ensures
        r == (path@ == "/health"@),
{
    is_word(&chars_of(path), "/health")
}

/// A request as the gateway received it.
pub struct InboundRequest {
    /// The method as sent.
    pub method: String,
    /// The request path without its leading `/`.
    pub path: String,
    pub query: Vec<QueryParam>,
    pub headers: Vec<Header>,
    /// The `x-api-key` header, where present and readable as text.
    pub api_key: Option<String>,
    pub body: Vec<u8>,
    /// The client's address, when it is known.
    pub client_ip: Option<u128>,
}

/// What to send upstream.
pub struct ForwardPlan {
    pub method: Method,
    pub url: String,
    /// Value for the `Host` header.
    pub host: String,
    pub headers: Vec<Header>,
    /// The body, forwarded only when non-empty.
    pub body: Option<Vec<u8>>,
}

pub open spec fn key_of(req: &InboundRequest) -> Option<Seq<char>> {
    match req.api_key {
        Some(k) => Some(k@),
        None => None,
    }
}

/// The full request path: `/` followed by the path as received.
pub open spec fn full_path_of(req: &InboundRequest) -> Seq<char> {
    "/"@ + req.path@
}

pub open spec fn with_total(m: Metrics) -> Metrics {
    Metrics { total_requests: bump(m.total_requests), ..m }
}

/// Runs a request through authentication, rate limiting, routing and
/// method mapping, counting it in `metrics`, and says what to send upstream.
pub fn plan_forward(
    config: &Config,
    auth: &AuthValidator,
    limiter: &mut RateLimiter,
    metrics: &mut Metrics,
    req: &InboundRequest,
    now: u64,
) -> (r: Result<ForwardPlan, GatewayError>)
    requires
        old(limiter).wf(),
    ensures
        final(limiter).wf(),
        !admits(auth@, key_of(req)) ==> {
            &&& r matches Err(GatewayError::Unauthorized)
            &&& *final(metrics) == (Metrics {
                unauthorized_requests: bump(old(metrics).unauthorized_requests),
                ..with_total(*old(metrics))
            })
            &&& *final(limiter) == *old(limiter)
        },
        admits(auth@, key_of(req)) && (req.client_ip is None || !old(limiter)@.would_admit(
            req.client_ip->0,
            now,
        )) ==> {
            &&& r matches Err(GatewayError::RateLimitExceeded)
            &&& *final(metrics) == (Metrics {
                rate_limited_requests: bump(old(metrics).rate_limited_requests),
                ..with_total(*old(metrics))
            })
        },
        admits(auth@, key_of(req)) && req.client_ip is Some && old(limiter)@.would_admit(
            req.client_ip->0,
            now,
        ) ==> {
            let ip = req.client_ip->0;
            let full = full_path_of(req);
            &&& final(limiter)@.admitted_of(ip) == old(limiter)@.admitted_of(ip).push(
                old(limiter)@.effective_now(now),
            )
            &&& (forall|j: int| !route_applies(config.routes@, j, full)) ==> {
                &&& r matches Err(GatewayError::RouteNotFound(p))
                &&& p@ == full
                &&& *final(metrics) == with_total(*old(metrics))
            }
            &&& (exists|j: int| route_applies(config.routes@, j, full)) && method_of(req.method@)
                is None ==> {
                &&& r matches Err(GatewayError::UnsupportedMethod(m))
                &&& m@ == req.method@
                &&& *final(metrics) == (Metrics {
                    failed_requests: bump(old(metrics).failed_requests),
                    ..with_total(*old(metrics))
                })
            }
            &&& (exists|j: int| route_applies(config.routes@, j, full)) && method_of(req.method@)
                is Some ==> {
                &&& r is Ok
                &&& *final(metrics) == with_total(*old(metrics))
            }
        },
        r matches Ok(plan) ==> {
            let full = full_path_of(req);
            &&& Some(plan.method) == method_of(req.method@)
            &&& exists|i: int|
                #![trigger config.routes@[i]]
                {
                    &&& is_chosen_route(config.routes@, i, full)
                    &&& plan.url@ == upstream_url_of(
                        config.routes@[i].upstream@,
                        full,
                        config.routes@[i].path@,
                        query_views(req.query@),
                    )
                    &&& is_authority_of(plan.host@, config.routes@[i].upstream@)
                }
            &&& header_views(plan.headers@) == kept_headers(header_views(req.headers@), true)
            &&& match plan.body {
                Some(b) => req.body@.len() > 0 && b@ == req.body@,
                None => req.body@.len() == 0,
            }
        },
{
    metrics.increment_total();
    let key = match &req.api_key {
        Some(k) => Some(k.as_str()),
        None => None,
    };
    if !auth.admits_request(key) {
        metrics.increment_unauthorized();
        return Err(GatewayError::Unauthorized);
    }
    let ip = match req.client_ip {
        Some(ip) => ip,
        None => {
            metrics.increment_rate_limited();
            return Err(GatewayError::RateLimitExceeded);
        },
    };
    if !limiter.check_at(ip, now) {
        metrics.increment_rate_limited();
        return Err(GatewayError::RateLimitExceeded);
    }
    let mut full = String::from_str("/");
    full.append(req.path.as_str());
    let i = match longest_prefix_match(&config.routes, full.as_str()) {
        Some(i) => i,
        None => return Err(GatewayError::RouteNotFound(full)),
    };
    assert(full@ == full_path_of(req));
    assert(route_applies(config.routes@, i as int, full_path_of(req)));
    assert(!(forall|j: int| !route_applies(config.routes@, j, full_path_of(req))));
    let method = match parse_method(req.method.as_str()) {
        Some(m) => m,
        None => {
            metrics.increment_failed();
            return Err(GatewayError::UnsupportedMethod(req.method.clone()));
        },
    };
    let route = &config.routes[i];
    let url = build_upstream_url(route.upstream.as_str(), full.as_str(), route.path.as_str(), &req.query);
    let host = upstream_host(route.upstream.as_str());
    let headers = filter_headers(&req.headers, true);
    let body = if req.body.len() > 0 {
        Some(copy_bytes(&req.body))
    } else {
        None
    };
    assert(config.routes@[i as int] == *route);
    Ok(ForwardPlan { method, url, host, headers, body })
}

/// With an empty route table, a request that passes authentication and
/// rate limiting matches no route.
pub proof fn empty_table_matches_nothing(routes: Seq<crate::config::Route>, q: Seq<char>)
    requires
        routes.len() == 0,
    ensures
        forall|j: int| !route_applies(routes, j, q),
{
}

/// What the upstream exchange came to.
pub enum UpstreamOutcome {
    /// The upstream answered with this status and these headers.
    Responded { status: u16, headers: Vec<Header> },
    /// The exchange failed; the detail says how.
    Failed(String),
    TimedOut,
}

/// The status and headers to answer the client with.
pub struct DownstreamResponse {
    pub status: u16,
    pub headers: Vec<Header>,
}

/// Turns the upstream outcome into the answer to the client, counting it:
/// the upstream's status and its headers less the hop-by-hop ones, or an
/// error.
pub fn complete_forward(metrics: &mut Metrics, outcome: UpstreamOutcome) -> (r: Result<
    DownstreamResponse,
    GatewayError,
>)
    ensures
        match outcome {
            UpstreamOutcome::Responded { status, headers } => {
                &&& r matches Ok(resp)
                &&& resp.status == status
                &&& header_views(resp.headers@) == kept_headers(header_views(headers@), false)
                &&& *final(metrics) == (Metrics {
                    successful_requests: bump(old(metrics).successful_requests),
                    ..*old(metrics)
                })
            },
            UpstreamOutcome::Failed(d) => {
                &&& r matches Err(GatewayError::UpstreamRequest(e))
                &&& e@ == d@
                &&& *final(metrics) == (Metrics {
                    failed_requests: bump(old(metrics).failed_requests),
                    ..*old(metrics)
                })
            },
            UpstreamOutcome::TimedOut => {
                &&& r matches Err(GatewayError::UpstreamTimeout)
                &&& *final(metrics) == *old(metrics)
            },
        },
        r matches Ok(resp) ==> forall|i: int|
            0 <= i < resp.headers@.len() ==> !hop_by_hop(lower_of(#[trigger] resp.headers@[i].name@)),
{
    match outcome {
        UpstreamOutcome::Responded { status, headers } => {
            metrics.increment_successful();
            let kept = filter_headers(&headers, false);
            proof {
                kept_headers_have_no_hop_by_hop(header_views(headers@), false);
                assert forall|i: int| 0 <= i < kept@.len() implies !hop_by_hop(
                    lower_of(#[trigger] kept@[i].name@),
                ) by {
                    assert(header_views(kept@).len() == kept@.len());
                    assert(header_views(kept@)[i] == kept@[i]@);
                    assert(kept_headers(header_views(headers@), false)[i] == kept@[i]@);
                    assert(!hop_by_hop(lower_of(kept_headers(header_views(headers@), false)[i].name)));
                }
            }
            Ok(DownstreamResponse { status, headers: kept })
        },
        UpstreamOutcome::Failed(d) => {
            metrics.increment_failed();
            Err(GatewayError::UpstreamRequest(d))
        },
        UpstreamOutcome::TimedOut => Err(GatewayError::UpstreamTimeout),
    }
}

/// The headers a `429` answer carries: the configured limit, and nothing
/// remaining.
pub fn rate_limit_headers(max_requests: u64) -> (r: Vec<Header>)
    ensures
        r@.len() == 2,
        r@[0].name@ == "X-Rate-Limit-Limit"@,
        r@[0].value@ == encode_utf8(decimal_of(max_requests as nat)),
        r@[1].name@ == "X-Rate-Limit-Remaining"@,
        r@[1].value@ == encode_utf8("0"@),
{
    let limit = decimal(max_requests);
    let mut r: Vec<Header> = Vec::new();
    r.push(
        Header { name: String::from_str("X-Rate-Limit-Limit"), value: limit.as_str().as_bytes_vec() },
    );
    r.push(Header { name: String::from_str("X-Rate-Limit-Remaining"), value: "0".as_bytes_vec() });
    r
}

} // verus!
