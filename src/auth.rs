//! Authentication of API requests (Bearer token) and Git requests (Basic credentials),
//! and what an unauthenticated caller may see.
use vstd::prelude::*;
use vstd::string::*;
use vstd::utf8::*;
use crate::text::{chars_of, substring, trim, trim_bounds, utf8_decode};
use crate::time::{visibility_at, Timestamp, Visibility};

verus! {

/// Authentication status of an API request.
#[derive(Clone, Copy, Debug, PartialEq, Eq, Structural)]
pub enum AuthStatus {
    /// Unauthenticated public request.
    Public,
    /// Request that presented the configured admin token.
    Admin,
}

/// Names the SHA-256 digest of a byte sequence.
pub uninterp spec fn sha256_of(b: Seq<u8>) -> Seq<u8>;

/// Relies on `sha2::Sha256::digest`: a 32-byte digest that depends on the input alone.
#[verifier::external_body]
pub(crate) fn sha256(b: &[u8]) -> (r: Vec<u8>)
    ensures
        r@ == sha256_of(b@),
        r@.len() == 32,
{
    <sha2::Sha256 as sha2::Digest>::digest(b).to_vec()
}

/// Relies on `subtle::ConstantTimeEq::ct_eq` for byte slices: true exactly when the slices
/// are equal, in time independent of their contents.
#[verifier::external_body]
fn constant_time_eq(a: &[u8], b: &[u8]) -> (r: bool)
    ensures
        r == (a@ == b@),
{
    bool::from(subtle::ConstantTimeEq::ct_eq(a, b))
}

/// Names what the standard base64 alphabet (with padding) decodes a text to, if it is
/// valid base64.
pub uninterp spec fn base64_decoded(s: Seq<char>) -> Option<Seq<u8>>;

/// Relies on `base64::engine::general_purpose::STANDARD.decode`: the result depends on the
/// text alone.
#[verifier::external_body]
fn base64_decode(s: &str) -> (r: Option<Vec<u8>>)
    ensures
        match r {
            Some(v) => base64_decoded(s@) == Some(v@),
            None => base64_decoded(s@) is None,
        },
{
    base64::Engine::decode(&base64::engine::general_purpose::STANDARD, s).ok()
}

/// The UTF-8 bytes of a string.
pub open spec fn utf8_bytes(s: Seq<char>) -> Seq<u8> {
    encode_utf8(s)
}

/// Whether two digests are equal, compared in constant time.
pub fn digests_match(a: &[u8], b: &[u8]) -> (r: bool)
    ensures
        r == (a@ == b@),
{
    constant_time_eq(a, b)
}

/// Whether a presented secret matches the expected one: their SHA-256 digests are compared
/// in constant time, so that the comparison reveals neither content nor length.
pub fn secrets_match(provided: &str, expected: &str) -> (r: bool)
    ensures
        r == (sha256_of(utf8_bytes(provided@)) == sha256_of(utf8_bytes(expected@))),
{
    let p = sha256(provided.as_bytes());
    let e = sha256(expected.as_bytes());
    digests_match(p.as_slice(), e.as_slice())
}

/// `s` without `p` in front, if it starts with `p`.
pub open spec fn strip_prefix_spec(s: Seq<char>, p: Seq<char>) -> Option<Seq<char>> {
    if p.len() <= s.len() && s.subrange(0, p.len() as int) == p {
        Some(s.subrange(p.len() as int, s.len() as int))
    } else {
        None
    }
}

/// `s` without `prefix` in front, if it starts with `prefix`.
pub fn strip_prefix(s: &str, prefix: &str) -> (r: Option<String>)
    ensures
        match r {
            Some(t) => strip_prefix_spec(s@, prefix@) == Some(t@),
            None => strip_prefix_spec(s@, prefix@) is None,
        },
{
    let cs = chars_of(s);
    let ps = chars_of(prefix);
    if ps.len() > cs.len() {
        return None;
    }
    let mut i: usize = 0;
    while i < ps.len()
        invariant
            cs@ == s@,
            ps@ == prefix@,
            ps@.len() <= cs@.len(),
            i <= ps@.len(),
            forall|k: int| 0 <= k < i ==> cs@[k] == ps@[k],
        decreases ps@.len() - i,
    {
        if cs[i] != ps[i] {
            assert(s@.subrange(0, prefix@.len() as int)[i as int] != prefix@[i as int]);
            return None;
        }
        i = i + 1;
    }
    assert(s@.subrange(0, prefix@.len() as int) =~= prefix@);
    Some(substring(s, ps.len(), cs.len()))
}

/// The token of an `Authorization: Bearer <token>` header value, trimmed.
pub open spec fn bearer_token_spec(header: Seq<char>) -> Option<Seq<char>> {
    match strip_prefix_spec(header, "Bearer "@) {
        Some(t) => Some(trim(t)),
        None => None,
    }
}

/// The token of an `Authorization: Bearer <token>` header value, trimmed.
pub fn bearer_token(header: &str) -> (r: Option<String>)
    ensures
        match r {
            Some(t) => bearer_token_spec(header@) == Some(t@),
            None => bearer_token_spec(header@) is None,
        },
{
    match strip_prefix(header, "Bearer ") {
        Some(rest) => {
            let cs = chars_of(rest.as_str());
            let (a, b) = trim_bounds(&cs, 0, cs.len());
            assert(cs@.subrange(0, cs@.len() as int) =~= cs@);
            Some(substring(rest.as_str(), a, b))
        },
        None => None,
    }
}

/// The admin status that a request earns: `Admin` exactly when a non-empty API token is
/// configured and the request's `Authorization` header carries it as a Bearer token.
pub open spec fn api_auth_spec(authorization: Option<Seq<char>>, api_token: Option<Seq<char>>) -> AuthStatus {
    match (authorization, api_token) {
        (Some(h), Some(t)) => if t.len() > 0 && bearer_token_spec(h) is Some && sha256_of(
            utf8_bytes(bearer_token_spec(h)->0),
        ) == sha256_of(utf8_bytes(t)) {
            AuthStatus::Admin
        } else {
            AuthStatus::Public
        },
        _ => AuthStatus::Public,
    }
}

/// Decide the authentication status of an API request from its `Authorization` header and
/// the resolved API token. An empty token disables admin access.
pub fn api_auth_status(authorization: Option<&str>, api_token: Option<&str>) -> (r: AuthStatus)
    ensures
        r == api_auth_spec(
            match authorization {
                Some(h) => Some(h@),
                None => None,
            },
            match api_token {
                Some(t) => Some(t@),
                None => None,
            },
        ),
{
    match (authorization, api_token) {
        (Some(h), Some(t)) => {
            if t.unicode_len() == 0 {
                return AuthStatus::Public;
            }
            match bearer_token(h) {
                Some(provided) => if secrets_match(provided.as_str(), t) {
                    AuthStatus::Admin
                } else {
                    AuthStatus::Public
                },
                None => AuthStatus::Public,
            }
        },
        _ => AuthStatus::Public,
    }
}

/// The password of decoded Basic credentials `user:password`: what follows the first `:`,
/// if the bytes are UTF-8 and hold a `:`.
pub open spec fn credentials_password(decoded: Seq<u8>) -> Option<Seq<char>> {
    if valid_utf8(decoded) {
        let s = decode_utf8(decoded);
        if exists|i: int| 0 <= i < s.len() && s[i] == ':' {
            let c = crate::cgi::index_of_char(s, ':');
            Some(s.subrange(c + 1, s.len() as int))
        } else {
            None
        }
    } else {
        None
    }
}

/// Extract the password from decoded Basic credentials `user:password`.
pub fn password_of_credentials(decoded: &[u8]) -> (r: Option<String>)
    ensures
        match r {
            Some(p) => credentials_password(decoded@) == Some(p@),
            None => credentials_password(decoded@) is None,
        },
{
    let text = match utf8_decode(decoded) {
        Some(t) => t,
        None => {
            return None;
        },
    };
    let cs = chars_of(text.as_str());
    let mut i: usize = 0;
    while i < cs.len() && cs[i] != ':'
        invariant
            i <= cs@.len(),
            forall|k: int| 0 <= k < i ==> #[trigger] cs@[k] != ':',
        decreases cs@.len() - i,
    {
        i = i + 1;
    }
    proof {
        crate::cgi::lemma_index_of_char_bound(cs@, ':');
        if i < cs@.len() {
            crate::cgi::lemma_index_of_char(cs@, ':', i as int);
        }
    }
    if i == cs.len() {
        return None;
    }
    Some(substring(text.as_str(), i + 1, cs.len()))
}

/// Whether a Git request's `Authorization` header holds Basic credentials whose password
/// is the configured Git token. The user name is ignored; without a non-empty token every
/// request is refused.
pub open spec fn git_auth_spec(authorization: Option<Seq<char>>, git_token: Option<Seq<char>>) -> bool {
    match (authorization, git_token) {
        (Some(h), Some(t)) => {
            &&& t.len() > 0
            &&& strip_prefix_spec(h, "Basic "@) is Some
            &&& base64_decoded(strip_prefix_spec(h, "Basic "@)->0) is Some
            &&& credentials_password(base64_decoded(strip_prefix_spec(h, "Basic "@)->0)->0) is Some
            &&& sha256_of(
                utf8_bytes(
                    credentials_password(
                        base64_decoded(strip_prefix_spec(h, "Basic "@)->0)->0,
                    )->0,
                ),
            ) == sha256_of(utf8_bytes(t))
        },
        _ => false,
    }
}

/// Check the Basic credentials of a Git request against the resolved Git token.
pub fn check_git_basic_auth(authorization: Option<&str>, git_token: Option<&str>) -> (r: bool)
    ensures
        r == git_auth_spec(
            match authorization {
                Some(h) => Some(h@),
                None => None,
            },
            match git_token {
                Some(t) => Some(t@),
                None => None,
            },
        ),
{
    let (h, t) = match (authorization, git_token) {
        (Some(h), Some(t)) => (h, t),
        _ => {
            return false;
        },
    };
    if t.unicode_len() == 0 {
        return false;
    }
    let encoded = match strip_prefix(h, "Basic ") {
        Some(e) => e,
        None => {
            return false;
        },
    };
    let decoded = match base64_decode(encoded.as_str()) {
        Some(d) => d,
        None => {
            return false;
        },
    };
    let password = match password_of_credentials(decoded.as_slice()) {
        Some(p) => p,
        None => {
            return false;
        },
    };
    secrets_match(password.as_str(), t)
}

/// Whether a caller with status `auth` may see an item with publication time
/// `goes_live_at` at time `now`: admins see everything, others only live items.
pub open spec fn content_visible(
    goes_live_at: Option<Timestamp>,
    auth: AuthStatus,
    now: Timestamp,
) -> bool {
    auth == AuthStatus::Admin || visibility_at(goes_live_at, now) == Visibility::Live
}

/// Whether a caller with status `auth` may see an item with publication time
/// `goes_live_at` at time `now`.
pub fn is_content_visible(goes_live_at: Option<Timestamp>, auth: AuthStatus, now: &Timestamp) -> (r: bool)
    ensures
        r == content_visible(goes_live_at, auth, *now),
{
    if auth == AuthStatus::Admin {
        return true;
    }
    match crate::time::visibility(goes_live_at, now) {
        Visibility::Live => true,
        _ => false,
    }
}

} // verus!
