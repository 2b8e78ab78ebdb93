use cirith::admin::{
    admin_dispatch, api_key_responses, bearer_token_matches, check_new_route, deletion_status,
    prepare_api_key, route_path_param, AdminAction, CreateApiKeyRequest, CreateRouteRequest,
};
use cirith::auth::AuthValidator;
use cirith::config::{ApiKey, AuthConfig};
use cirith::storage::{routes_from_rows, DbApiKey, DbRoute};

const TOKEN: &str = "test-token";

#[test]
fn test_health_returns_200() {
    let action = admin_dispatch("GET", "/health", None, TOKEN);
    assert!(matches!(action, AdminAction::Health));
    assert_eq!(action.success_status(), 200);
}

#[test]
fn test_admin_routes_without_token_returns_401() {
    let action = admin_dispatch("GET", "/admin/routes", None, TOKEN);
    assert!(matches!(action, AdminAction::Unauthorized));
    assert_eq!(action.success_status(), 401);
}

#[test]
fn test_admin_routes_with_token_returns_200() {
    let action = admin_dispatch("GET", "/admin/routes", Some("Bearer test-token"), TOKEN);
    assert!(matches!(action, AdminAction::ListRoutes));
    assert_eq!(action.success_status(), 200);
    assert!(routes_from_rows(&vec![]).is_empty());
}

#[test]
fn token_gate() {
    assert!(bearer_token_matches(Some("Bearer test-token"), TOKEN));
    assert!(!bearer_token_matches(Some("Bearer test-token2"), TOKEN));
    assert!(!bearer_token_matches(Some("bearer test-token"), TOKEN));
    assert!(!bearer_token_matches(Some("test-token"), TOKEN));
    assert!(!bearer_token_matches(None, TOKEN));
    assert!(bearer_token_matches(Some("Bearer "), ""));
}

#[test]
fn dispatch_table() {
    let auth = Some("Bearer test-token");
    assert!(matches!(admin_dispatch("GET", "/metrics", auth, TOKEN), AdminAction::Metrics));
    assert!(matches!(admin_dispatch("GET", "/metrics", None, TOKEN), AdminAction::Unauthorized));
    assert!(matches!(admin_dispatch("POST", "/admin/routes", auth, TOKEN), AdminAction::CreateRoute));
    assert!(matches!(admin_dispatch("GET", "/admin/keys", auth, TOKEN), AdminAction::ListKeys));
    assert!(matches!(admin_dispatch("POST", "/admin/keys", auth, TOKEN), AdminAction::CreateKey));
    assert!(matches!(admin_dispatch("PUT", "/admin/keys", auth, TOKEN), AdminAction::MethodNotAllowed));
    assert!(matches!(admin_dispatch("POST", "/health", None, TOKEN), AdminAction::MethodNotAllowed));
    assert!(matches!(admin_dispatch("GET", "/nowhere", None, TOKEN), AdminAction::NotFound));
    match admin_dispatch("DELETE", "/admin/routes/api/v1", auth, TOKEN) {
        AdminAction::DeleteRoute(p) => assert_eq!(p, "/api/v1"),
        _ => panic!("expected DeleteRoute"),
    }
    match admin_dispatch("DELETE", "/admin/keys/ci", auth, TOKEN) {
        AdminAction::DeleteKey(n) => assert_eq!(n, "ci"),
        _ => panic!("expected DeleteKey"),
    }
    assert!(matches!(admin_dispatch("DELETE", "/admin/keys/a/b", auth, TOKEN), AdminAction::NotFound));
    assert!(matches!(admin_dispatch("DELETE", "/admin/keys/", auth, TOKEN), AdminAction::NotFound));
    assert_eq!(admin_dispatch("DELETE", "/admin/keys/ci", auth, TOKEN).success_status(), 204);
}

#[test]
fn ssrf_upstream_rejected_at_ingestion() {
    let req = CreateRouteRequest { path: "/x".to_string(), upstream: "http://10.0.0.1".to_string() };
    assert_eq!(check_new_route(&req), Err(400));
}

#[test]
fn ftp_upstream_rejected_at_ingestion() {
    let req = CreateRouteRequest { path: "/x".to_string(), upstream: "ftp://google.com".to_string() };
    assert_eq!(check_new_route(&req), Err(400));
}

#[test]
fn dotdot_path_rejected_at_ingestion() {
    let req = CreateRouteRequest { path: "/a/../b".to_string(), upstream: "https://google.com".to_string() };
    assert_eq!(check_new_route(&req), Err(400));
    let ok = CreateRouteRequest { path: "/a/b".to_string(), upstream: "https://google.com".to_string() };
    assert_eq!(check_new_route(&ok), Ok(()));
}

#[test]
fn deletion_statuses() {
    assert_eq!(deletion_status(true), 204);
    assert_eq!(deletion_status(false), 404);
    assert_eq!(route_path_param("api/v1"), "/api/v1");
}

#[test]
fn created_key_is_fingerprinted_and_admitted() {
    let rec = prepare_api_key(&CreateApiKeyRequest { name: "ci".to_string(), key: "secret".to_string() });
    assert_eq!(rec.name, "ci");
    assert_eq!(rec.key_hash, "2bb80d537b1da3e38bd30361aa855686bde0eacd7162fef6a25fe97bf527a25b");
    let v = AuthValidator::new(&AuthConfig {
        enabled: true,
        api_keys: vec![ApiKey { name: rec.name.clone(), key_hash: rec.key_hash.clone() }],
    });
    assert!(v.validate("secret"));
    assert!(!v.validate("secret2"));
}

#[test]
fn key_listing_hides_fingerprints() {
    let rows = vec![
        DbApiKey { id: 1, name: "a".to_string(), key_hash: "h1".to_string() },
        DbApiKey { id: 7, name: "b".to_string(), key_hash: "h2".to_string() },
    ];
    let out = api_key_responses(&rows);
    assert_eq!(out.len(), 2);
    assert_eq!((out[1].id, out[1].name.as_str()), (7, "b"));
}

#[test]
fn rows_become_routes() {
    let rows = vec![DbRoute { id: 3, path: "/a".to_string(), upstream: "http://u".to_string() }];
    let routes = routes_from_rows(&rows);
    assert_eq!(routes[0].path, "/a");
    assert_eq!(routes[0].upstream, "http://u");
}
