use cirith::auth::AuthValidator;
use cirith::config::{
    AdminConfig, AuthConfig, Config, DatabaseConfig, RateLimitConfig, Route, ServerConfig,
};
use cirith::error::GatewayError;
use cirith::metrics::Metrics;
use cirith::proxy::{
    build_upstream_url, complete_forward, filter_headers, is_health_path, is_hop_by_hop,
    parse_method, plan_forward, query_string, rate_limit_headers, upstream_host, Header,
    InboundRequest, Method, QueryParam, UpstreamOutcome,
};
use cirith::rate_limit::RateLimiter;

fn config(routes: Vec<(&str, &str)>) -> Config {
    Config {
        server: ServerConfig { admin_port: 3000, gateway_port: 6191, timeout_seconds: 30 },
        database: DatabaseConfig { url: ":memory:".to_string() },
        rate_limit: RateLimitConfig { max_requests: 100, window_secs: 60 },
        auth: AuthConfig { enabled: false, api_keys: vec![] },
        admin: AdminConfig { token: "test-token".to_string() },
        routes: routes
            .into_iter()
            .map(|(p, u)| Route { path: p.to_string(), upstream: u.to_string() })
            .collect(),
    }
}

fn header(name: &str, value: &str) -> Header {
    Header { name: name.to_string(), value: value.as_bytes().to_vec() }
}

fn request(method: &str, path: &str) -> InboundRequest {
    InboundRequest {
        method: method.to_string(),
        path: path.to_string(),
        query: vec![],
        headers: vec![],
        api_key: None,
        body: vec![],
        client_ip: Some(0xffff_7f00_0001),
    }
}

fn open_auth() -> AuthValidator {
    AuthValidator::new(&AuthConfig { enabled: false, api_keys: vec![] })
}

#[test]
fn longest_prefix_forwarding() {
    let cfg = config(vec![("/a", "http://u1.example"), ("/a/b", "http://u2.example:8080")]);
    let mut rl = RateLimiter::new(100, 60);
    let mut m = Metrics::new();
    let plan = plan_forward(&cfg, &open_auth(), &mut rl, &mut m, &request("GET", "a/b/c"), 0)
        .ok()
        .unwrap();
    assert_eq!(plan.url, "http://u2.example:8080/c");
    assert_eq!(plan.host, "u2.example:8080");
    assert_eq!(plan.method, Method::Get);
    assert!(plan.body.is_none());
    assert_eq!(m.total_requests, 1);
    let plan = plan_forward(&cfg, &open_auth(), &mut rl, &mut m, &request("GET", "a/x"), 0)
        .ok()
        .unwrap();
    assert_eq!(plan.url, "http://u1.example/x");
}

#[test]
fn find_route_prefers_longest() {
    let cfg = config(vec![("/", "http://root.example"), ("/api/v1", "http://v1.example"), ("/api", "http://api.example")]);
    assert_eq!(cfg.find_route("/api/v1/users").unwrap().upstream, "http://v1.example");
    assert_eq!(cfg.find_route("/api/v2").unwrap().upstream, "http://api.example");
    assert_eq!(cfg.find_route("/other").unwrap().upstream, "http://root.example");
    let none = config(vec![("/api", "http://api.example")]);
    assert!(none.find_route("/ap").is_none());
}

#[test]
fn find_route_ties_pick_last() {
    let cfg = config(vec![("/a", "http://first.example"), ("/a", "http://second.example")]);
    assert_eq!(cfg.find_route("/a/b").unwrap().upstream, "http://second.example");
}

#[test]
fn empty_table_gives_route_not_found() {
    let cfg = config(vec![]);
    let mut rl = RateLimiter::new(100, 60);
    let mut m = Metrics::new();
    for p in ["x", "", "admin/routes", "a/b/c"] {
        let r = plan_forward(&cfg, &open_auth(), &mut rl, &mut m, &request("GET", p), 0);
        match r {
            Err(GatewayError::RouteNotFound(full)) => assert_eq!(full, format!("/{}", p)),
            _ => panic!("expected RouteNotFound"),
        }
    }
    assert_eq!(m.total_requests, 4);
    assert_eq!(m.failed_requests, 0);
}

#[test]
fn unauthorized_and_rate_limited_are_counted() {
    let cfg = config(vec![("/", "http://up.example")]);
    let auth = AuthValidator::new(&AuthConfig { enabled: true, api_keys: vec![] });
    let mut rl = RateLimiter::new(1, 60);
    let mut m = Metrics::new();
    let r = plan_forward(&cfg, &auth, &mut rl, &mut m, &request("GET", "x"), 0);
    assert!(matches!(r, Err(GatewayError::Unauthorized)));
    assert_eq!(m.unauthorized_requests, 1);
    let open = open_auth();
    assert!(plan_forward(&cfg, &open, &mut rl, &mut m, &request("GET", "x"), 0).is_ok());
    let r = plan_forward(&cfg, &open, &mut rl, &mut m, &request("GET", "x"), 1);
    assert!(matches!(r, Err(GatewayError::RateLimitExceeded)));
    let mut no_ip = request("GET", "x");
    no_ip.client_ip = None;
    let r = plan_forward(&cfg, &open, &mut rl, &mut m, &no_ip, 2);
    assert!(matches!(r, Err(GatewayError::RateLimitExceeded)));
    assert_eq!(m.rate_limited_requests, 2);
    assert_eq!(m.total_requests, 4);
}

#[test]
fn rate_limit_scenario_two_then_429() {
    let cfg = config(vec![("/", "http://up.example")]);
    let mut rl = RateLimiter::new(2, 60);
    let mut m = Metrics::new();
    let auth = open_auth();
    let ms = 1_000_000u64;
    assert!(plan_forward(&cfg, &auth, &mut rl, &mut m, &request("GET", "x"), 0).is_ok());
    assert!(plan_forward(&cfg, &auth, &mut rl, &mut m, &request("GET", "x"), 300 * ms).is_ok());
    let err = plan_forward(&cfg, &auth, &mut rl, &mut m, &request("GET", "x"), 600 * ms).err().unwrap();
    assert_eq!(err.status_code(), 429);
    let h = rate_limit_headers(2);
    assert_eq!(h[0].name, "X-Rate-Limit-Limit");
    assert_eq!(h[0].value, b"2".to_vec());
    assert_eq!(h[1].name, "X-Rate-Limit-Remaining");
    assert_eq!(h[1].value, b"0".to_vec());
    assert_eq!(rate_limit_headers(18446744073709551615)[0].value, b"18446744073709551615".to_vec());
}

#[test]
fn unsupported_method() {
    let cfg = config(vec![("/", "http://up.example")]);
    let mut rl = RateLimiter::new(10, 60);
    let mut m = Metrics::new();
    let r = plan_forward(&cfg, &open_auth(), &mut rl, &mut m, &request("TRACE", "x"), 0);
    match r {
        Err(e) => {
            assert_eq!(e.status_code(), 405);
            assert_eq!(e.message(), "Method not supported: TRACE");
        }
        Ok(_) => panic!("expected an error"),
    }
    assert_eq!(m.failed_requests, 1);
    assert_eq!(parse_method("OPTIONS"), Some(Method::Options));
    assert_eq!(parse_method("get"), None);
}

#[test]
fn request_headers_body_and_query() {
    let cfg = config(vec![("/svc", "https://svc.example/base")]);
    let mut rl = RateLimiter::new(10, 60);
    let mut m = Metrics::new();
    let mut req = request("POST", "svc/items");
    req.headers = vec![
        header("Host", "gateway.local"),
        header("content-length", "4"),
        header("Connection", "keep-alive"),
        header("x-custom", "1"),
        header("content-type", "text/plain"),
    ];
    req.query = vec![
        QueryParam { key: "a".to_string(), value: "1".to_string() },
        QueryParam { key: "b".to_string(), value: "two".to_string() },
    ];
    req.body = b"data".to_vec();
    let plan = plan_forward(&cfg, &open_auth(), &mut rl, &mut m, &req, 0).ok().unwrap();
    assert_eq!(plan.url, "https://svc.example/base/items?a=1&b=two");
    assert_eq!(plan.host, "svc.example");
    assert_eq!(plan.method, Method::Post);
    let names: Vec<&str> = plan.headers.iter().map(|h| h.name.as_str()).collect();
    assert_eq!(names, vec!["x-custom", "content-type"]);
    assert_eq!(plan.body, Some(b"data".to_vec()));
}

#[test]
fn response_headers_drop_hop_by_hop() {
    let mut m = Metrics::new();
    let outcome = UpstreamOutcome::Responded {
        status: 201,
        headers: vec![
            header("Connection", "close"),
            header("content-type", "application/json"),
            header("Transfer-Encoding", "chunked"),
            header("keep-alive", "timeout=5"),
            header("TE", "trailers"),
            header("x-request-id", "abc"),
            header("upgrade", "h2c"),
        ],
    };
    let resp = complete_forward(&mut m, outcome).ok().unwrap();
    assert_eq!(resp.status, 201);
    let names: Vec<&str> = resp.headers.iter().map(|h| h.name.as_str()).collect();
    assert_eq!(names, vec!["content-type", "x-request-id"]);
    assert_eq!(m.successful_requests, 1);
}

#[test]
fn upstream_failures() {
    let mut m = Metrics::new();
    let r = complete_forward(&mut m, UpstreamOutcome::Failed("connection refused".to_string()));
    match r {
        Err(e) => {
            assert_eq!(e.status_code(), 502);
            assert_eq!(e.message(), "Upstream request failed: connection refused");
        }
        Ok(_) => panic!("expected an error"),
    }
    assert_eq!(m.failed_requests, 1);
    let r = complete_forward(&mut m, UpstreamOutcome::TimedOut);
    assert_eq!(r.err().unwrap().status_code(), 504);
    assert_eq!(m.failed_requests, 1);
}

#[test]
fn error_statuses_and_messages() {
    assert_eq!(GatewayError::Unauthorized.status_code(), 401);
    assert_eq!(GatewayError::Unauthorized.message(), "Unauthorized");
    assert_eq!(GatewayError::RateLimitExceeded.message(), "Rate limit exceeded");
    assert_eq!(GatewayError::UpstreamTimeout.message(), "Upstream timeout");
    let e = GatewayError::RouteNotFound("/x".to_string());
    assert_eq!(e.status_code(), 404);
    assert_eq!(e.message(), "Route not found: /x");
}

#[test]
fn header_helpers() {
    assert!(is_hop_by_hop("Transfer-Encoding"));
    assert!(is_hop_by_hop("PROXY-AUTHORIZATION"));
    assert!(!is_hop_by_hop("content-type"));
    assert!(!is_hop_by_hop("tee"));
    let kept = filter_headers(&vec![header("HOST", "h"), header("Accept", "*/*")], true);
    assert_eq!(kept.len(), 1);
    assert_eq!(kept[0].name, "Accept");
    let kept = filter_headers(&vec![header("HOST", "h"), header("Accept", "*/*")], false);
    assert_eq!(kept.len(), 2);
}

#[test]
fn url_helpers() {
    assert_eq!(upstream_host("https://api.example.com:8443/v1"), "api.example.com:8443");
    assert_eq!(upstream_host("http://plain.example"), "plain.example");
    assert_eq!(build_upstream_url("http://u", "/a", "/a", &vec![]), "http://u/");
    assert_eq!(build_upstream_url("http://u", "/ab", "/a", &vec![]), "http://u/b");
    assert_eq!(build_upstream_url("http://u", "/x/y", "/", &vec![]), "http://u/x/y");
    assert_eq!(query_string(&vec![]), "");
    assert_eq!(
        query_string(&vec![QueryParam { key: "q".to_string(), value: "rust".to_string() }]),
        "?q=rust"
    );
    assert!(is_health_path("/health"));
    assert!(!is_health_path("/healthz"));
}

#[test]
fn metrics_counters() {
    let mut m = Metrics::new();
    m.increment_total();
    m.increment_total();
    m.increment_successful();
    m.increment_failed();
    m.increment_rate_limited();
    m.increment_unauthorized();
    let snap = m.snapshot();
    let expect = vec![
        ("total".to_string(), 2u64),
        ("successful".to_string(), 1),
        ("failed".to_string(), 1),
        ("rate-limited".to_string(), 1),
        ("unauthorized".to_string(), 1),
    ];
    assert_eq!(snap, expect);
    m.total_requests = u64::MAX;
    m.increment_total();
    assert_eq!(m.total_requests, 0);
}

#[test]
fn config_validation() {
    let mut cfg = config(vec![]);
    assert_eq!(cfg.validate(), Ok(()));
    cfg.rate_limit.window_secs = 0;
    assert_eq!(cfg.validate(), Err("window_secs cannot be 0".to_string()));
    cfg.rate_limit.max_requests = 0;
    assert_eq!(cfg.validate(), Err("max_requests cannot be 0".to_string()));
    assert_eq!(cirith::config::default_timeout(), 30);
}
