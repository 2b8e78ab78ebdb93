//! Admission checks for values that the admin plane writes into the route
//! table: request-path prefixes and upstream URLs (the guard against
//! server-side request forgery).

use vstd::prelude::*;
use crate::text::{chars_of, contains, ends_with, equals, lower_of, to_lower, seq_contains, seq_ends_with};

verus! {

/// A request-path prefix is accepted when it is non-empty, starts with `/`,
/// holds no `..` and no NUL character.
pub open spec fn path_is_valid(p: Seq<char>) -> bool {
    &&& p.len() > 0
    &&& p[0] == '/'
    &&& !seq_contains(p, seq!['.', '.'])
    &&& !p.contains('\0')
}

/// Checks a route path before it is stored.
pub fn validate_path(path: &str) -> (r: Result<(), String>)
    ensures
        r is Ok <==> path_is_valid(path@),
        path@.len() == 0 ==> (r matches Err(m) && m@ == "Empty path"@),
        path@.len() > 0 && !path_is_valid(path@) ==> (r matches Err(m) && m@ == "Invalid path"@),
{
    let p = chars_of(path);
    if p.len() == 0 {
        return Err(String::from_str("Empty path"));
    }
    if p[0] != '/' {
        return Err(String::from_str("Invalid path"));
    }
    let dots: Vec<char> = vec!['.', '.'];
    assert(dots@ =~= seq!['.', '.']);
    if contains(&p, &dots) {
        return Err(String::from_str("Invalid path"));
    }
    let mut i: usize = 0;
    while i < p.len()
        invariant
            p@ == path@,
            i <= p@.len(),
            forall|k: int| 0 <= k < i ==> p@[k] != '\0',
        decreases p.len() - i,
    {
        if p[i] == '\0' {
            assert(p@[i as int] == '\0');
            return Err(String::from_str("Invalid path"));
        }
        i = i + 1;
    }
    Ok(())
}

/// The host part of a parsed URL.
pub enum UrlHost {
    Domain(String),
    Ipv4([u8; 4]),
    Ipv6([u16; 8]),
}

/// The scheme and host that a URL parser read from a string.
pub struct UrlParts {
    pub scheme: String,
    pub host: Option<UrlHost>,
}

/// Abstract value of a [`UrlHost`].
pub enum HostView {
    Domain(Seq<char>),
    Ipv4(Seq<u8>),
    Ipv6(Seq<u16>),
}

/// Abstract value of a [`UrlParts`].
pub struct UrlView {
    pub scheme: Seq<char>,
    pub host: Option<HostView>,
}

impl View for UrlHost {
    type V = HostView;

    open spec fn view(&self) -> HostView {
        match self {
            UrlHost::Domain(d) => HostView::Domain(d@),
            UrlHost::Ipv4(a) => HostView::Ipv4(a@),
            UrlHost::Ipv6(a) => HostView::Ipv6(a@),
        }
    }
}

impl View for UrlParts {
    type V = UrlView;

    open spec fn view(&self) -> UrlView {
        UrlView {
            scheme: self.scheme@,
            host: match self.host {
                Some(h) => Some(h@),
                None => None,
            },
        }
    }
}

/// What the WHATWG URL parser reads from `s` as an absolute URL, or `None`
/// where `s` is not one.
pub uninterp spec fn url_parts_of(s: Seq<char>) -> Option<UrlView>;

/// Relies on `url::Url::parse`, `Url::scheme` and `Url::host`: the scheme
/// and host of `s` read as an absolute URL; IP hosts come back as their
/// octets or segments.
#[verifier::external_body]
fn parse_url(s: &str) -> (r: Option<UrlParts>)
    ensures
        match r {
            Some(p) => url_parts_of(s@) == Some(p@),
            None => url_parts_of(s@) is None,
        },
{
    let u = url::Url::parse(s).ok()?;
    let host = match u.host() {
        None => None,
        Some(url::Host::Domain(d)) => Some(UrlHost::Domain(d.to_string())),
        Some(url::Host::Ipv4(a)) => Some(UrlHost::Ipv4(a.octets())),
        Some(url::Host::Ipv6(a)) => Some(UrlHost::Ipv6(a.segments())),
    };
    Some(UrlParts { scheme: u.scheme().to_string(), host })
}

/// Why an upstream URL was refused.
#[derive(Clone, Copy, Debug, PartialEq, Eq, Structural)]
pub enum UpstreamError {
    /// Not an absolute URL.
    ParseError,
    /// Scheme other than `http` or `https`.
    SchemeNotAllowed,
    /// No host in the URL.
    HostMissing,
    /// Host is an internal address or a denied name.
    HostDenied,
}

/// IPv4 loopback (127/8), private (10/8, 172.16/12, 192.168/16),
/// link-local (169.254/16) or multicast (224/4).
pub open spec fn ipv4_blocked(o: Seq<u8>) -> bool {
    ||| o[0] == 127
    ||| o[0] == 10
    ||| (o[0] == 172 && 16 <= o[1] <= 31)
    ||| (o[0] == 192 && o[1] == 168)
    ||| (o[0] == 169 && o[1] == 254)
    ||| (224 <= o[0] <= 239)
}

/// IPv6 unspecified (`::`), loopback (`::1`), link-local unicast
/// (fe80::/10), unique-local (fc00::/7) or multicast (ff00::/8).
pub open spec fn ipv6_blocked(g: Seq<u16>) -> bool {
    ||| ((forall|i: int| 0 <= i < 7 ==> g[i] == 0) && (g[7] == 0 || g[7] == 1))
    ||| (0xfe80 <= g[0] <= 0xfebf)
    ||| (0xfc00 <= g[0] <= 0xfdff)
    ||| g[0] >= 0xff00
}

/// A host name that is, or lies under, one of the denied names.
pub open spec fn name_denied(h: Seq<char>) -> bool {
    ||| h == "localhost"@
    ||| seq_ends_with(h, ".localhost"@)
    ||| h == "metadata.google.internal"@
    ||| seq_ends_with(h, ".metadata.google.internal"@)
}

pub open spec fn host_blocked(h: HostView) -> bool {
    match h {
        HostView::Domain(d) => name_denied(lower_of(d)),
        HostView::Ipv4(o) => ipv4_blocked(o),
        HostView::Ipv6(g) => ipv6_blocked(g),
    }
}

/// The verdict on an upstream URL.
pub open spec fn upstream_verdict(s: Seq<char>) -> Result<(), UpstreamError> {
    match url_parts_of(s) {
        None => Err(UpstreamError::ParseError),
        Some(u) => if u.scheme != "http"@ && u.scheme != "https"@ {
            Err(UpstreamError::SchemeNotAllowed)
        } else {
            match u.host {
                None => Err(UpstreamError::HostMissing),
                Some(h) => if host_blocked(h) {
                    Err(UpstreamError::HostDenied)
                } else {
                    Ok(())
                },
            }
        },
    }
}

fn ipv4_is_blocked(o: &[u8; 4]) -> (r: bool)
    ensures
        r == ipv4_blocked(o@),
{
    let a = o[0];
    let b = o[1];
    a == 127 || a == 10 || (a == 172 && 16 <= b && b <= 31) || (a == 192 && b == 168)
        || (a == 169 && b == 254) || (224 <= a && a <= 239)
}

fn ipv6_is_blocked(g: &[u16; 8]) -> (r: bool)
    ensures
        r == ipv6_blocked(g@),
{
    let mut zero_head = true;
    let mut i: usize = 0;
    while i < 7
        invariant
            i <= 7,
            g@.len() == 8,
            zero_head <==> (forall|k: int| 0 <= k < i ==> g@[k] == 0),
        decreases 7 - i,
    {
        if g[i] != 0 {
            zero_head = false;
        }
        i = i + 1;
    }
    let first = g[0];
    (zero_head && (g[7] == 0 || g[7] == 1)) || (0xfe80 <= first && first <= 0xfebf)
        || (0xfc00 <= first && first <= 0xfdff) || first >= 0xff00
}

fn name_is_denied(host: &str) -> (r: bool)
    ensures
        r == name_denied(host@),
{
    let h = chars_of(host);
    let a = chars_of("localhost");
    let b = chars_of(".localhost");
    let c = chars_of("metadata.google.internal");
    let d = chars_of(".metadata.google.internal");
    equals(&h, &a) || ends_with(&h, &b) || equals(&h, &c) || ends_with(&h, &d)
}

fn str_equals(a: &String, s: &str) -> (r: bool)
    ensures
        r == (a@ == s@),
{
    let b = String::from_str(s);
    *a == b
}

/// Checks an upstream URL before it is stored: an absolute `http` or
/// `https` URL whose host is neither an internal address nor a denied name.
pub fn validate_upstream_url(upstream: &str) -> (r: Result<(), UpstreamError>)
    ensures
        r == upstream_verdict(upstream@),
{
    let parts = match parse_url(upstream) {
        None => return Err(UpstreamError::ParseError),
        Some(p) => p,
    };
    if !str_equals(&parts.scheme, "http") && !str_equals(&parts.scheme, "https") {
        return Err(UpstreamError::SchemeNotAllowed);
    }
    let blocked = match &parts.host {
        None => return Err(UpstreamError::HostMissing),
        Some(UrlHost::Domain(d)) => {
            let lower = to_lower(d.as_str());
            name_is_denied(lower.as_str())
        },
        Some(UrlHost::Ipv4(o)) => ipv4_is_blocked(o),
        Some(UrlHost::Ipv6(g)) => ipv6_is_blocked(g),
    };
    if blocked {
        Err(UpstreamError::HostDenied)
    } else {
        Ok(())
    }
}

/// Validation is a function of the URL's text: equal inputs get equal
/// verdicts, whichever call computed them.
pub proof fn upstream_verdict_deterministic(a: Seq<char>, b: Seq<char>)
    requires
        a == b,
    ensures
        upstream_verdict(a) == upstream_verdict(b),
{
}

} // verus!
