//! Decisions of the HTTP layer: who may list what, what an item lookup answers, caching
//! headers, the cross-origin policy, and whether a Git request may go through.
use vstd::prelude::*;
use vstd::string::*;
use crate::auth::{check_git_basic_auth, content_visible, git_auth_spec, is_content_visible, AuthStatus};
use crate::config::{opt_str_view, ServerConfig};
use crate::content::ListOptions;
use crate::git::{decimal, is_valid_git_path, u64_to_decimal, valid_git_path};
use crate::time::{visibility_at, Timestamp, Visibility};

verus! {

/// Query parameters of the list endpoints.
#[derive(Clone, Debug)]
pub struct ListQuery {
    pub include_drafts: bool,
    pub include_scheduled: bool,
    pub limit: Option<usize>,
    pub offset: Option<usize>,
}

impl From<ListQuery> for ListOptions {
    fn from(q: ListQuery) -> (r: ListOptions)
        ensures
            r.include_drafts == q.include_drafts,
            r.include_scheduled == q.include_scheduled,
            r.limit == q.limit,
            r.offset == q.offset,
    {
        ListOptions {
            include_drafts: q.include_drafts,
            include_scheduled: q.include_scheduled,
            limit: q.limit,
            offset: q.offset,
        }
    }
}

impl vstd::std_specs::convert::FromSpecImpl<ListQuery> for ListOptions {
    open spec fn obeys_from_spec() -> bool {
        true
    }

    open spec fn from_spec(q: ListQuery) -> ListOptions {
        options_of(q)
    }
}

/// The list options that a query asks for.
pub open spec fn options_of(q: ListQuery) -> ListOptions {
    ListOptions {
        include_drafts: q.include_drafts,
        include_scheduled: q.include_scheduled,
        limit: q.limit,
        offset: q.offset,
    }
}

/// Query parameters of the asset list endpoint.
#[derive(Clone, Debug)]
pub struct AssetListQuery {
    pub limit: Option<usize>,
    pub continuation_token: Option<String>,
}

/// HTTP 200.
pub const STATUS_OK: u16 = 200;
/// HTTP 400.
pub const STATUS_BAD_REQUEST: u16 = 400;
/// HTTP 401.
pub const STATUS_UNAUTHORIZED: u16 = 401;
/// HTTP 404.
pub const STATUS_NOT_FOUND: u16 = 404;

/// Whether a list request asks for drafts or scheduled items, which only admins may see.
pub fn is_authenticated_request(query: &ListQuery) -> (r: bool)
    ensures
        r == (query.include_drafts || query.include_scheduled),
{
    query.include_drafts || query.include_scheduled
}

/// The options of a list request, or 401 when it asks for drafts or scheduled items
/// without admin rights.
pub fn list_options_for(query: ListQuery, auth: AuthStatus) -> (r: Result<ListOptions, u16>)
    ensures
        (query.include_drafts || query.include_scheduled) && auth != AuthStatus::Admin ==> r
            == Err::<ListOptions, u16>(STATUS_UNAUTHORIZED),
        !((query.include_drafts || query.include_scheduled) && auth != AuthStatus::Admin) ==> r
            == Ok::<ListOptions, u16>(options_of(query)),
{
    if is_authenticated_request(&query) && auth != AuthStatus::Admin {
        Err(STATUS_UNAUTHORIZED)
    } else {
        Ok(ListOptions::from(query))
    }
}

/// The status of a single-item request: 404 when the item does not exist or the caller
/// may not see it, 200 otherwise. `item` is the item's publication time, if it exists.
pub open spec fn item_status_spec(item: Option<Option<Timestamp>>, auth: AuthStatus, now: Timestamp) -> u16 {
    match item {
        None => STATUS_NOT_FOUND,
        Some(g) => if content_visible(g, auth, now) {
            STATUS_OK
        } else {
            STATUS_NOT_FOUND
        },
    }
}

/// Decide the status of a single-item request.
pub fn item_status(item: Option<Option<Timestamp>>, auth: AuthStatus, now: &Timestamp) -> (r: u16)
    ensures
        r == item_status_spec(item, auth, *now),
{
    match item {
        None => STATUS_NOT_FOUND,
        Some(g) => if is_content_visible(g, auth, now) {
            STATUS_OK
        } else {
            STATUS_NOT_FOUND
        },
    }
}

/// A caller without admin rights gets the same answer for a draft or scheduled item as for
/// one that does not exist.
pub proof fn lemma_hidden_item_looks_missing(g: Option<Timestamp>, auth: AuthStatus, now: Timestamp)
    requires
        auth != AuthStatus::Admin,
        visibility_at(g, now) != Visibility::Live,
    ensures
        item_status_spec(Some(g), auth, now) == item_status_spec(None, auth, now),
{
}

/// The caching headers of a successful response.
#[derive(Clone, Debug)]
pub struct CacheHeaders {
    /// Value of `Cache-Control`.
    pub cache_control: String,
    /// Value of `ETag`, if one is sent.
    pub etag: Option<String>,
}

/// Admin responses are private and carry no ETag; public ones may be cached for
/// `max_age` seconds, served stale for `swr` more while revalidating, and carry the ETag.
pub open spec fn cache_control_spec(is_admin: bool, max_age: u32, swr: u32) -> Seq<char> {
    if is_admin {
        "private, no-store"@
    } else {
        "public, max-age="@ + decimal(max_age as nat) + ", stale-while-revalidate="@ + decimal(
            swr as nat,
        )
    }
}

/// The caching headers of a successful response.
pub fn cache_headers(is_admin: bool, max_age: u32, swr: u32, etag: &str) -> (r: CacheHeaders)
    ensures
        r.cache_control@ == cache_control_spec(is_admin, max_age, swr),
        is_admin ==> r.etag is None,
        !is_admin ==> r.etag is Some && r.etag->0@ == etag@,
{
    if is_admin {
        CacheHeaders { cache_control: String::from_str("private, no-store"), etag: None }
    } else {
        let v = String::from_str("public, max-age=").concat(u64_to_decimal(max_age as u64).as_str()).concat(
            ", stale-while-revalidate=",
        ).concat(u64_to_decimal(swr as u64).as_str());
        CacheHeaders { cache_control: v, etag: Some(String::from_str(etag)) }
    }
}

/// The `max-age` and `stale-while-revalidate` of public responses: the server settings,
/// or 60 and 300.
pub fn cache_settings(server: Option<&ServerConfig>) -> (r: (u32, u32))
    ensures
        match server {
            Some(s) => r == (s.cache_max_age, s.cache_stale_while_revalidate),
            None => r == (60u32, 300u32),
        },
{
    match server {
        Some(s) => (s.cache_max_age, s.cache_stale_while_revalidate),
        None => (60, 300),
    }
}

/// The headers set on every response.
pub fn security_headers() -> (r: Vec<(String, String)>)
    ensures
        r@.map_values(|e: (String, String)| (e.0@, e.1@)) == seq![
            ("x-content-type-options"@, "nosniff"@),
            ("x-frame-options"@, "DENY"@),
            ("content-security-policy"@, "default-src 'none'"@),
        ],
{
    let mut v: Vec<(String, String)> = Vec::new();
    v.push((String::from_str("x-content-type-options"), String::from_str("nosniff")));
    v.push((String::from_str("x-frame-options"), String::from_str("DENY")));
    v.push((String::from_str("content-security-policy"), String::from_str("default-src 'none'")));
    assert(v@.map_values(|e: (String, String)| (e.0@, e.1@)) =~= seq![
        ("x-content-type-options"@, "nosniff"@),
        ("x-frame-options"@, "DENY"@),
        ("content-security-policy"@, "default-src 'none'"@),
    ]);
    v
}

/// Which cross-origin requests are allowed.
#[derive(Clone, Copy, Debug, PartialEq, Eq)]
pub enum CorsPolicy {
    /// No origin is allowed.
    DenyAll,
    /// Every origin is allowed.
    AllowAny,
    /// The configured origins that parse are allowed.
    AllowList,
}

/// No configured origins deny every cross-origin request; `*` among them allows every
/// origin; otherwise the listed origins are allowed.
pub open spec fn cors_policy_spec(origins: Option<Seq<Seq<char>>>) -> CorsPolicy {
    match origins {
        None => CorsPolicy::DenyAll,
        Some(o) => if o.len() == 0 {
            CorsPolicy::DenyAll
        } else if o.contains("*"@) {
            CorsPolicy::AllowAny
        } else {
            CorsPolicy::AllowList
        },
    }
}

/// The cross-origin policy for the configured origins.
pub fn cors_policy(origins: Option<&Vec<String>>) -> (r: CorsPolicy)
    ensures
        r == cors_policy_spec(
            match origins {
                Some(v) => Some(crate::content::strings_view(v@)),
                None => None,
            },
        ),
{
    match origins {
        None => CorsPolicy::DenyAll,
        Some(v) => {
            if v.len() == 0 {
                return CorsPolicy::DenyAll;
            }
            let ghost sv = crate::content::strings_view(v@);
            let mut i: usize = 0;
            while i < v.len()
                invariant
                    origins == Some(v),
                    i <= v@.len(),
                    sv == crate::content::strings_view(v@),
                    forall|k: int| 0 <= k < i ==> sv[k] != "*"@,
                decreases v@.len() - i,
            {
                if crate::text::str_eq(v[i].as_str(), "*") {
                    assert(sv[i as int] == "*"@);
                    assert(sv.contains("*"@));
                    return CorsPolicy::AllowAny;
                }
                i = i + 1;
            }
            CorsPolicy::AllowList
        },
    }
}

/// The answer of the Git gateway before the CGI program runs: a bad path is refused
/// (before any authentication), then a request without valid credentials.
#[derive(Clone, Copy, Debug, PartialEq, Eq)]
pub enum GitGate {
    /// 400: the path is not accepted.
    BadPath,
    /// 401 with `WWW-Authenticate: Basic realm="Git"`.
    Unauthorized,
    /// Hand the request to the CGI program.
    Proceed,
}

pub open spec fn git_gate_spec(path: Seq<char>, authorization: Option<Seq<char>>, git_token: Option<Seq<char>>) -> GitGate {
    if !valid_git_path(path) {
        GitGate::BadPath
    } else if !git_auth_spec(authorization, git_token) {
        GitGate::Unauthorized
    } else {
        GitGate::Proceed
    }
}

/// Decide whether a Git request proceeds.
pub fn git_gate(path: &str, authorization: Option<&str>, git_token: Option<&str>) -> (r: GitGate)
    ensures
        r == git_gate_spec(path@, opt_str_view(authorization), opt_str_view(git_token)),
{
    if !is_valid_git_path(path) {
        GitGate::BadPath
    } else if !check_git_basic_auth(authorization, git_token) {
        GitGate::Unauthorized
    } else {
        GitGate::Proceed
    }
}

/// Whether the asset listing is allowed: admins only (401 otherwise).
pub fn asset_access(auth: AuthStatus) -> (r: Result<(), u16>)
    ensures
        auth == AuthStatus::Admin <==> r is Ok,
        r is Err ==> r->Err_0 == STATUS_UNAUTHORIZED,
{
    if auth == AuthStatus::Admin {
        Ok(())
    } else {
        Err(STATUS_UNAUTHORIZED)
    }
}

} // verus!
