//! API-key authentication by SHA-256 fingerprint.

use vstd::prelude::*;
use vstd::utf8::encode_utf8;
use crate::config::{ApiKey, AuthConfig};

verus! {

/// The SHA-256 digest of a byte string.
pub uninterp spec fn sha256_of(data: Seq<u8>) -> Seq<u8>;

/// Relies on `sha2::Sha256::digest`: the 32-byte SHA-256 digest of `data`.
#[verifier::external_body]
fn sha256(data: &[u8]) -> (r: Vec<u8>)
    ensures
        r@ == sha256_of(data@),
        r@.len() == 32,
{
    <sha2::Sha256 as sha2::Digest>::digest(data).to_vec()
}

/// The lower-case hexadecimal digit for `n` (below 16).
pub open spec fn hex_digit(n: int) -> char {
    "0123456789abcdef"@[n]
}

/// Two lower-case hex digits per byte, high nibble first.
pub open spec fn hex_of(b: Seq<u8>) -> Seq<char> {
    Seq::new(
        (2 * b.len()) as nat,
        |i: int|
            if i % 2 == 0 {
                hex_digit(b[i / 2] as int / 16)
            } else {
                hex_digit(b[i / 2] as int % 16)
            },
    )
}

/// The fingerprint of an API key: lower-case hex SHA-256 of its UTF-8 bytes.
pub open spec fn fingerprint_of(key: Seq<char>) -> Seq<char> {
    hex_of(sha256_of(encode_utf8(key)))
}

pub open spec fn is_lower_hex_char(c: char) -> bool {
    ('0' <= c <= '9') || ('a' <= c <= 'f')
}

/// Exactly 64 lower-case hexadecimal characters.
pub open spec fn is_fingerprint(s: Seq<char>) -> bool {
    s.len() == 64 && forall|i: int| 0 <= i < s.len() ==> is_lower_hex_char(#[trigger] s[i])
}

proof fn lemma_hex_digits()
    ensures
        forall|n: int| 0 <= n < 16 ==> is_lower_hex_char(#[trigger] hex_digit(n)),
{
    reveal_strlit("0123456789abcdef");
    assert forall|n: int| 0 <= n < 16 implies is_lower_hex_char(#[trigger] hex_digit(n)) by {
        reveal_strlit("0123456789abcdef");
    }
}

/// Lower-case hex encoding of `data`.
fn to_hex(data: &Vec<u8>) -> (r: String)
    ensures
        r@ == hex_of(data@),
{
    let digits = "0123456789abcdef";
    proof {
        reveal_strlit("0123456789abcdef");
    }
    let mut out = String::new();
    let mut i: usize = 0;
    while i < data.len()
        invariant
            digits@ == "0123456789abcdef"@,
            digits@.len() == 16,
            i <= data@.len(),
            out@ =~= hex_of(data@.subrange(0, i as int)),
        decreases data.len() - i,
    {
        let b = data[i];
        let hi = (b / 16) as usize;
        let lo = (b % 16) as usize;
        out.append(digits.substring_char(hi, hi + 1));
        out.append(digits.substring_char(lo, lo + 1));
        assert(out@ =~= hex_of(data@.subrange(0, i + 1)));
        i = i + 1;
    }
    assert(data@.subrange(0, data@.len() as int) =~= data@);
    out
}

/// The fingerprint under which an API key is stored and looked up.
pub fn hash_key(key: &str) -> (r: String)
    ensures
        r@ == fingerprint_of(key@),
        is_fingerprint(r@),
{
    let digest = sha256(key.as_bytes());
    let r = to_hex(&digest);
    proof {
        lemma_hex_digits();
        assert forall|i: int| 0 <= i < r@.len() implies is_lower_hex_char(#[trigger] r@[i]) by {
            assert(0 <= digest@[i / 2] as int / 16 < 16);
            assert(0 <= digest@[i / 2] as int % 16 < 16);
        }
    }
    r
}

/// Fingerprints computed anywhere in the system agree: equal keys give equal
/// fingerprints, and each is 64 lower-case hex characters when computed by
/// [`hash_key`].
pub proof fn fingerprint_deterministic(a: Seq<char>, b: Seq<char>)
    requires
        a == b,
    ensures
        fingerprint_of(a) == fingerprint_of(b),
{
}

/// Abstract state of an [`AuthValidator`].
pub struct AuthView {
    pub enabled: bool,
    pub fingerprints: Seq<Seq<char>>,
}

/// Whether a presented key (or its absence) is admitted.
pub open spec fn admits(v: AuthView, key: Option<Seq<char>>) -> bool {
    match key {
        None => !v.enabled,
        Some(k) => !v.enabled || v.fingerprints.contains(fingerprint_of(k)),
    }
}

/// The enable flag and the accepted fingerprints.
pub struct AuthValidator {
    enabled: bool,
    api_keys: Vec<ApiKey>,
}

impl View for AuthValidator {
    type V = AuthView;

    closed spec fn view(&self) -> AuthView {
        AuthView { enabled: self.enabled, fingerprints: self.api_keys@.map_values(|k: ApiKey| k.key_hash@) }
    }
}

impl AuthValidator {
    /// A validator seeded from configuration.
    pub fn new(config: &AuthConfig) -> (r: AuthValidator)
        ensures
            r@.enabled == config.enabled,
            r@.fingerprints == config.api_keys@.map_values(|k: ApiKey| k.key_hash@),
    {
        let mut keys: Vec<ApiKey> = Vec::new();
        let mut i: usize = 0;
        while i < config.api_keys.len()
            invariant
                i <= config.api_keys@.len(),
                keys@.len() == i,
                forall|j: int| 0 <= j < i ==> #[trigger] keys@[j].key_hash@
                    == config.api_keys@[j].key_hash@,
            decreases config.api_keys.len() - i,
        {
            let k = &config.api_keys[i];
            keys.push(ApiKey { name: k.name.clone(), key_hash: k.key_hash.clone() });
            i = i + 1;
        }
        let r = AuthValidator { enabled: config.enabled, api_keys: keys };
        assert(r@.fingerprints =~= config.api_keys@.map_values(|k: ApiKey| k.key_hash@));
        r
    }

    pub fn is_enabled(&self) -> (r: bool)
        ensures
            r == self@.enabled,
    {
        self.enabled
    }

    /// Admits every key when disabled; otherwise admits a key whose
    /// fingerprint is among the accepted ones.
    pub fn validate(&self, key: &str) -> (r: bool)
        ensures
            r == admits(self@, Some(key@)),
    {
        if !self.enabled {
            return true;
        }
        let hashed = hash_key(key);
        let mut i: usize = 0;
        while i < self.api_keys.len()
            invariant
                i <= self.api_keys@.len(),
                hashed@ == fingerprint_of(key@),
                forall|j: int| 0 <= j < i ==> self.api_keys@[j].key_hash@ != hashed@,
            decreases self.api_keys.len() - i,
        {
            if self.api_keys[i].key_hash == hashed {
                assert(self@.fingerprints[i as int] == hashed@);
                return true;
            }
            i = i + 1;
        }
        assert(!self@.fingerprints.contains(hashed@));
        false
    }

    /// Applies the same rule to a request that may carry no key.
    pub fn admits_request(&self, key: Option<&str>) -> (r: bool)
        ensures
            r == admits(
                self@,
                match key {
                    Some(k) => Some(k@),
                    None => None,
                },
            ),
    {
        match key {
            Some(k) => self.validate(k),
            None => !self.enabled,
        }
    }
}

/// With authentication disabled, a request is admitted whether it carries no
/// key or any key at all.
pub proof fn disabled_admits_everything(v: AuthView, key: Option<Seq<char>>)
    requires
        !v.enabled,
    ensures
        admits(v, key),
{
}

/// A key is admitted by an enabled validator that holds the fingerprint the
/// admin plane stored for it: both planes compute the same fingerprint.
pub proof fn stored_fingerprint_admits_key(v: AuthView, key: Seq<char>, stored: Seq<char>)
    requires
        v.enabled,
        stored == fingerprint_of(key),
        v.fingerprints.contains(stored),
    ensures
        admits(v, Some(key)),
{
}

} // verus!
