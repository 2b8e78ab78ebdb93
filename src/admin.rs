//! The admin plane's request handling: the bearer-token gate, the endpoint
//! table, and the checks and conversions around each store operation.
//! The store itself is reached by the caller.

use vstd::prelude::*;
use crate::auth::{fingerprint_of, hash_key, is_fingerprint};
use crate::storage::DbApiKey;
use crate::text::{chars_of, equals, seq_starts_with, starts_with};
use crate::validation::{path_is_valid, upstream_verdict, validate_path, validate_upstream_url};

verus! {

/// Body of a route creation request.
#[derive(Debug)]
pub struct CreateRouteRequest {
    pub path: String,
    pub upstream: String,
}

/// Body of an API-key creation request; `key` is the cleartext key.
#[derive(Debug)]
pub struct CreateApiKeyRequest {
    pub name: String,
    pub key: String,
}

/// What the admin plane tells about a stored key: never the key or its
/// fingerprint.
#[derive(Debug)]
pub struct ApiKeyResponse {
    pub id: i64,
    pub name: String,
}

/// The record to store for a new API key.
#[derive(Debug)]
pub struct NewApiKey {
    pub name: String,
    pub key_hash: String,
}

/// What an admin request asks for, once the token gate has been passed.
#[derive(Debug)]
pub enum AdminAction {
    Health,
    Unauthorized,
    Metrics,
    ListRoutes,
    CreateRoute,
    /// Delete the route with this path.
    DeleteRoute(String),
    ListKeys,
    CreateKey,
    /// Delete the key with this name.
    DeleteKey(String),
    NotFound,
    MethodNotAllowed,
}

/// The `Authorization` header carries `Bearer <token>` with the configured
/// token.
pub open spec fn bearer_matches(header: Option<Seq<char>>, token: Seq<char>) -> bool {
    match header {
        None => false,
        Some(h) => seq_starts_with(h, "Bearer "@) && h.subrange(7, h.len() as int) == token,
    }
}

/// Checks the admin bearer token.
pub fn bearer_token_matches(header: Option<&str>, token: &str) -> (r: bool)
    ensures
        r == bearer_matches(
            match header {
                Some(h) => Some(h@),
                None => None,
            },
            token@,
        ),
{
    match header {
        None => false,
        Some(h) => {
            let hc = chars_of(h);
            proof {
                reveal_strlit("Bearer ");
            }
            let prefix = chars_of("Bearer ");
            if !starts_with(&hc, &prefix) {
                return false;
            }
            let rest = chars_of(h.substring_char(7, hc.len()));
            equals(&rest, &chars_of(token))
        },
    }
}

/// A read method: `GET`, or `HEAD` answered like it.
pub open spec fn is_read(m: Seq<char>) -> bool {
    m == "GET"@ || m == "HEAD"@
}

/// The parameter after `prefix` in `path`, where `path` is `prefix`
/// followed by a non-empty rest; with `single`, the rest is one segment
/// (holds no `/`).
pub open spec fn param_after(path: Seq<char>, prefix: Seq<char>, single: bool) -> Option<Seq<char>> {
    if seq_starts_with(path, prefix) && path.len() > prefix.len() {
        let rest = path.subrange(prefix.len() as int, path.len() as int);
        if single && rest.contains('/') {
            None
        } else {
            Some(rest)
        }
    } else {
        None
    }
}

pub open spec fn is_admin_path(p: Seq<char>) -> bool {
    ||| p == "/metrics"@
    ||| p == "/admin/routes"@
    ||| p == "/admin/keys"@
    ||| param_after(p, "/admin/routes/"@, false) is Some
    ||| param_after(p, "/admin/keys/"@, true) is Some
}

fn param_of(path: &str, prefix: &str, single: bool) -> (r: Option<String>)
    ensures
        match r {
            Some(s) => param_after(path@, prefix@, single) == Some(s@),
            None => param_after(path@, prefix@, single) is None,
        },
{
    let p = chars_of(path);
    let pc = chars_of(prefix);
    if !starts_with(&p, &pc) || p.len() <= pc.len() {
        return None;
    }
    let rest = path.substring_char(pc.len(), p.len());
    if single {
        let mut i: usize = pc.len();
        while i < p.len()
            invariant
                pc@.len() <= i <= p@.len(),
                p@ == path@,
                pc@ == prefix@,
                seq_starts_with(p@, pc@),
                p@.len() > pc@.len(),
                single,
                rest@ == p@.subrange(pc@.len() as int, p@.len() as int),
                forall|k: int| pc@.len() <= k < i ==> p@[k] != '/',
            decreases p.len() - i,
        {
            if p[i] == '/' {
                assert(rest@[i - pc@.len()] == '/');
                assert(rest@.contains('/'));
                return None;
            }
            i = i + 1;
        }
        assert forall|k: int| 0 <= k < rest@.len() implies rest@[k] != '/' by {
            assert(rest@[k] == p@[pc@.len() + k]);
        }
    }
    Some(String::from_str(rest))
}

/// Dispatches an admin request. `/health` needs no token; every other
/// admin endpoint needs the bearer token; unknown paths are not found.
pub fn admin_dispatch(method: &str, path: &str, authorization: Option<&str>, token: &str) -> (r:
    AdminAction)
    ensures
        path@ == "/health"@ ==> (if is_read(method@) {
            r is Health
        } else {
            r is MethodNotAllowed
        }),
        path@ != "/health"@ && !is_admin_path(path@) ==> r is NotFound,
        is_admin_path(path@) && !bearer_matches(
            match authorization {
                Some(h) => Some(h@),
                None => None,
            },
            token@,
        ) ==> r is Unauthorized,
        is_admin_path(path@) && bearer_matches(
            match authorization {
                Some(h) => Some(h@),
                None => None,
            },
            token@,
        ) ==> {
            let p = path@;
            let m = method@;
            if p == "/metrics"@ {
                if is_read(m) {
                    r is Metrics
                } else {
                    r is MethodNotAllowed
                }
            } else if p == "/admin/routes"@ {
                if is_read(m) {
                    r is ListRoutes
                } else if m == "POST"@ {
                    r is CreateRoute
                } else {
                    r is MethodNotAllowed
                }
            } else if p == "/admin/keys"@ {
                if is_read(m) {
                    r is ListKeys
                } else if m == "POST"@ {
                    r is CreateKey
                } else {
                    r is MethodNotAllowed
                }
            } else if param_after(p, "/admin/routes/"@, false) is Some {
                if m == "DELETE"@ {
                    r matches AdminAction::DeleteRoute(rp) && rp@ == "/"@ + param_after(
                        p,
                        "/admin/routes/"@,
                        false,
                    )->0
                } else {
                    r is MethodNotAllowed
                }
            } else {
                if m == "DELETE"@ {
                    r matches AdminAction::DeleteKey(n) && Some(n@) == param_after(
                        p,
                        "/admin/keys/"@,
                        true,
                    )
                } else {
                    r is MethodNotAllowed
                }
            }
        },
{
    let p = chars_of(path);
    let m = chars_of(method);
    let read = equals(&m, &chars_of("GET")) || equals(&m, &chars_of("HEAD"));
    let post = equals(&m, &chars_of("POST"));
    let delete = equals(&m, &chars_of("DELETE"));
    if equals(&p, &chars_of("/health")) {
        proof {
            reveal_strlit("/health");
            reveal_strlit("/metrics");
            reveal_strlit("/admin/routes");
            reveal_strlit("/admin/keys");
            reveal_strlit("/admin/routes/");
            reveal_strlit("/admin/keys/");
            assert(p@ != "/metrics"@);
            assert(p@ != "/admin/routes"@);
            assert(p@ != "/admin/keys"@);
        }
        return if read {
            AdminAction::Health
        } else {
            AdminAction::MethodNotAllowed
        };
    }
    let metrics = equals(&p, &chars_of("/metrics"));
    let routes = equals(&p, &chars_of("/admin/routes"));
    let keys = equals(&p, &chars_of("/admin/keys"));
    let route_param = param_of(path, "/admin/routes/", false);
    let key_param = param_of(path, "/admin/keys/", true);
    if !metrics && !routes && !keys && route_param.is_none() && key_param.is_none() {
        return AdminAction::NotFound;
    }
    if !bearer_token_matches(authorization, token) {
        return AdminAction::Unauthorized;
    }
    if metrics {
        if read {
            AdminAction::Metrics
        } else {
            AdminAction::MethodNotAllowed
        }
    } else if routes {
        if read {
            AdminAction::ListRoutes
        } else if post {
            AdminAction::CreateRoute
        } else {
            AdminAction::MethodNotAllowed
        }
    } else if keys {
        if read {
            AdminAction::ListKeys
        } else if post {
            AdminAction::CreateKey
        } else {
            AdminAction::MethodNotAllowed
        }
    } else if let Some(rest) = route_param {
        if delete {
            AdminAction::DeleteRoute(route_path_param(rest.as_str()))
        } else {
            AdminAction::MethodNotAllowed
        }
    } else if let Some(name) = key_param {
        if delete {
            AdminAction::DeleteKey(name)
        } else {
            AdminAction::MethodNotAllowed
        }
    } else {
        AdminAction::NotFound
    }
}

/// The route path named by a deletion: `/` followed by the path parameter.
pub fn route_path_param(param: &str) -> (r: String)
    ensures
        r@ == "/"@ + param@,
{
    let mut r = String::from_str("/");
    r.append(param);
    r
}

/// A new route is stored only when its upstream and its path pass
/// validation.
pub open spec fn route_admissible(req: CreateRouteRequest) -> bool {
    upstream_verdict(req.upstream@) is Ok && path_is_valid(req.path@)
}

/// Checks a route creation request before it reaches the store; the error
/// is the status code to answer with.
pub fn check_new_route(req: &CreateRouteRequest) -> (r: Result<(), u16>)
    ensures
        r is Ok <==> route_admissible(*req),
        r matches Err(code) ==> code == 400,
{
    if validate_upstream_url(req.upstream.as_str()).is_err() {
        return Err(400);
    }
    if validate_path(req.path.as_str()).is_err() {
        return Err(400);
    }
    Ok(())
}

/// Every route admitted into the table has a path starting with `/` and
/// an upstream that passes validation.
pub proof fn admitted_route_is_safe(req: CreateRouteRequest)
    requires
        route_admissible(req),
    ensures
        req.path@.len() > 0 && req.path@[0] == '/',
        upstream_verdict(req.upstream@) is Ok,
{
}

/// The record stored for a new key: its name and its fingerprint.
pub fn prepare_api_key(req: &CreateApiKeyRequest) -> (r: NewApiKey)
    ensures
        r.name@ == req.name@,
        r.key_hash@ == fingerprint_of(req.key@),
        is_fingerprint(r.key_hash@),
{
    NewApiKey { name: req.name.clone(), key_hash: hash_key(req.key.as_str()) }
}

/// The public form of a stored key.
pub fn api_key_response(k: &DbApiKey) -> (r: ApiKeyResponse)
    ensures
        r.id == k.id,
        r.name@ == k.name@,
{
    ApiKeyResponse { id: k.id, name: k.name.clone() }
}

/// The public forms of stored keys, in order.
pub fn api_key_responses(keys: &Vec<DbApiKey>) -> (r: Vec<ApiKeyResponse>)
    ensures
        r@.len() == keys@.len(),
        forall|i: int|
            0 <= i < keys@.len() ==> #[trigger] r@[i].id == keys@[i].id && r@[i].name@
                == keys@[i].name@,
{
    let mut r: Vec<ApiKeyResponse> = Vec::new();
    let mut i: usize = 0;
    while i < keys.len()
        invariant
            i <= keys@.len(),
            r@.len() == i,
            forall|j: int|
                0 <= j < i ==> #[trigger] r@[j].id == keys@[j].id && r@[j].name@ == keys@[j].name@,
        decreases keys.len() - i,
    {
        r.push(api_key_response(&keys[i]));
        i = i + 1;
    }
    r
}

impl AdminAction {
    /// The status code the action is answered with when the store, where
    /// one is involved, succeeds (a deletion that removed a row).
    pub fn success_status(&self) -> (r: u16)
        ensures
            r == match *self {
                AdminAction::Health | AdminAction::Metrics | AdminAction::ListRoutes
                | AdminAction::ListKeys => 200u16,
                AdminAction::CreateRoute | AdminAction::CreateKey => 201u16,
                AdminAction::DeleteRoute(_) | AdminAction::DeleteKey(_) => 204u16,
                AdminAction::Unauthorized => 401u16,
                AdminAction::NotFound => 404u16,
                AdminAction::MethodNotAllowed => 405u16,
            },
    {
        match self {
            AdminAction::Health | AdminAction::Metrics | AdminAction::ListRoutes
            | AdminAction::ListKeys => 200,
            AdminAction::CreateRoute | AdminAction::CreateKey => 201,
            AdminAction::DeleteRoute(_) | AdminAction::DeleteKey(_) => 204,
            AdminAction::Unauthorized => 401,
            AdminAction::NotFound => 404,
            AdminAction::MethodNotAllowed => 405,
        }
    }
}

/// The answer to a deletion: `204` when a row was removed, `404` otherwise.
pub fn deletion_status(deleted: bool) -> (r: u16)
    ensures
        r == if deleted {
            204u16
        } else {
            404u16
        },
{
    if deleted {
        204
    } else {
        404
    }
}

} // verus!
