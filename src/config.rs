//! Configuration of the service, its defaults, credential values that may name an
//! environment variable, and where a configuration file is looked for.
use vstd::prelude::*;
use vstd::string::*;
use crate::auth::strip_prefix_spec;
use crate::error::Error;

verus! {

/// Full configuration.
#[derive(Clone, Debug)]
pub struct RileyConfig {
    pub content: ContentConfig,
    pub storage: StorageConfig,
    pub server: Option<ServerConfig>,
    pub webhooks: Option<WebhooksConfig>,
    pub auth: Option<AuthConfig>,
    pub git: Option<GitConfig>,
}

/// Where the content repository lies.
#[derive(Clone, Debug)]
pub struct ContentConfig {
    pub repo_path: String,
    pub content_dir: String,
}

/// Object storage settings.
#[derive(Clone, Debug)]
pub struct StorageConfig {
    pub backend: String,
    pub bucket: String,
    pub region: String,
    pub endpoint: Option<String>,
    pub public_url_base: String,
}

/// HTTP server settings.
#[derive(Clone, Debug)]
pub struct ServerConfig {
    pub host: String,
    pub port: u16,
    pub cors_origins: Vec<String>,
    pub cache_max_age: u32,
    pub cache_stale_while_revalidate: u32,
    pub behind_proxy: bool,
}

/// Webhook settings.
#[derive(Clone, Debug)]
pub struct WebhooksConfig {
    pub on_content_update: Vec<String>,
    pub secret: Option<ConfigValue>,
}

/// Credentials.
#[derive(Clone, Debug)]
pub struct AuthConfig {
    pub git_token: Option<ConfigValue>,
    pub api_token: Option<ConfigValue>,
}

/// Git gateway settings.
#[derive(Clone, Debug)]
pub struct GitConfig {
    pub backend_path: Option<String>,
    pub max_body_size: u64,
    pub cgi_timeout_secs: u64,
}

/// Configuration loading; files are read and parsed by the application around the library.
pub struct Config;

/// Default content directory inside the repository.
pub fn default_content_dir() -> (r: String)
    ensures
        r@ == "content"@,
{
    String::from_str("content")
}

/// Default storage backend.
pub fn default_backend() -> (r: String)
    ensures
        r@ == "s3"@,
{
    String::from_str("s3")
}

/// Default storage region.
pub fn default_region() -> (r: String)
    ensures
        r@ == "auto"@,
{
    String::from_str("auto")
}

/// Default listening address.
pub fn default_host() -> (r: String)
    ensures
        r@ == "0.0.0.0"@,
{
    String::from_str("0.0.0.0")
}

/// Default listening port.
pub fn default_port() -> (r: u16)
    ensures
        r == 8080,
{
    8080
}

/// Default `max-age` of public responses, in seconds.
pub fn default_cache_max_age() -> (r: u32)
    ensures
        r == 60,
{
    60
}

/// Default `stale-while-revalidate` of public responses, in seconds.
pub fn default_cache_stale_while_revalidate() -> (r: u32)
    ensures
        r == 300,
{
    300
}

impl Default for ServerConfig {
    fn default() -> (r: Self)
        ensures
            r.host@ == "0.0.0.0"@,
            r.port == 8080,
            r.cors_origins@.len() == 0,
            r.cache_max_age == 60,
            r.cache_stale_while_revalidate == 300,
            !r.behind_proxy,
    {
        ServerConfig {
            host: default_host(),
            port: default_port(),
            cors_origins: Vec::new(),
            cache_max_age: default_cache_max_age(),
            cache_stale_while_revalidate: default_cache_stale_while_revalidate(),
            behind_proxy: false,
        }
    }
}

impl Default for GitConfig {
    fn default() -> (r: Self)
        ensures
            r.backend_path is None,
            r.max_body_size == 104857600,
            r.cgi_timeout_secs == 300,
    {
        GitConfig {
            backend_path: None,
            max_body_size: crate::git::DEFAULT_GIT_MAX_BODY_SIZE,
            cgi_timeout_secs: crate::git::DEFAULT_GIT_CGI_TIMEOUT_SECS,
        }
    }
}

/// A credential: a literal, or `env:NAME` for the environment variable `NAME`.
#[derive(Clone, Debug)]
pub enum ConfigValue {
    Literal(String),
}

impl ConfigValue {
    /// The environment variable that the value names, if it has the form `env:NAME`.
    pub fn env_var(&self) -> (r: Option<String>)
        ensures
            match self {
                ConfigValue::Literal(s) => match r {
                    Some(n) => strip_prefix_spec(s@, "env:"@) == Some(n@),
                    None => strip_prefix_spec(s@, "env:"@) is None,
                },
            },
    {
        match self {
            ConfigValue::Literal(s) => crate::auth::strip_prefix(s.as_str(), "env:"),
        }
    }

    /// Resolve the value: a literal stands for itself; `env:NAME` stands for `env_value`,
    /// the value of `NAME` in the environment, and is an error when `NAME` is not set.
    pub fn resolve(&self, env_value: Option<String>) -> (r: Result<String, Error>)
        ensures
            match self {
                ConfigValue::Literal(s) => match strip_prefix_spec(s@, "env:"@) {
                    None => r is Ok && r->Ok_0@ == s@,
                    Some(_) => match env_value {
                        Some(v) => r is Ok && r->Ok_0@ == v@,
                        None => r is Err && r->Err_0 is Config,
                    },
                },
            },
    {
        match self {
            ConfigValue::Literal(s) => match crate::auth::strip_prefix(s.as_str(), "env:") {
                None => Ok(s.clone()),
                Some(_) => match env_value {
                    Some(v) => Ok(v),
                    None => Err(Error::Config(String::from_str("environment variable not set"))),
                },
            },
        }
    }
}

/// The token that a resolved credential enables: none when it did not resolve or is empty
/// (an empty token never matches anyone).
pub fn effective_token(resolved: Option<Result<String, Error>>) -> (r: Option<String>)
    ensures
        match resolved {
            Some(Ok(t)) => if t@.len() > 0 {
                r is Some && r->0@ == t@
            } else {
                r is None
            },
            _ => r is None,
        },
{
    match resolved {
        Some(Ok(t)) => if t.as_str().unicode_len() > 0 {
            Some(t)
        } else {
            None
        },
        _ => None,
    }
}

/// The paths where a configuration file is looked for, in order: the explicit path, the
/// path in `RILEY_CMS_CONFIG`, `riley_cms.toml` in the working directory and each of its
/// ancestors (nearest first), the user's configuration directory, then the system default.
pub open spec fn config_candidates_spec(
    explicit: Option<Seq<char>>,
    env_path: Option<Seq<char>>,
    dirs: Seq<Seq<char>>,
    user_config_dir: Option<Seq<char>>,
) -> Seq<Seq<char>> {
    let a = match explicit {
        Some(p) => seq![p],
        None => Seq::empty(),
    };
    let b = match env_path {
        Some(p) => seq![p],
        None => Seq::empty(),
    };
    let c = dirs.map_values(|d: Seq<char>| d + "/riley_cms.toml"@);
    let d = match user_config_dir {
        Some(u) => seq![u + "/riley_cms/config.toml"@],
        None => Seq::empty(),
    };
    a + b + c + d + seq!["/etc/riley_cms/config.toml"@]
}

pub open spec fn opt_str_view(o: Option<&str>) -> Option<Seq<char>> {
    match o {
        Some(s) => Some(s@),
        None => None,
    }
}

/// Build the list of configuration paths to try, in order.
pub fn config_candidates(
    explicit: Option<&str>,
    env_path: Option<&str>,
    dirs: &Vec<String>,
    user_config_dir: Option<&str>,
) -> (r: Vec<String>)
    ensures
        crate::content::strings_view(r@) == config_candidates_spec(
            opt_str_view(explicit),
            opt_str_view(env_path),
            crate::content::strings_view(dirs@),
            opt_str_view(user_config_dir),
        ),
{
    let mut out: Vec<String> = Vec::new();
    let ghost a = match opt_str_view(explicit) {
        Some(p) => seq![p],
        None => Seq::<Seq<char>>::empty(),
    };
    if let Some(p) = explicit {
        out.push(String::from_str(p));
    }
    assert(crate::content::strings_view(out@) =~= a);
    let ghost b = match opt_str_view(env_path) {
        Some(p) => seq![p],
        None => Seq::<Seq<char>>::empty(),
    };
    if let Some(p) = env_path {
        out.push(String::from_str(p));
    }
    assert(crate::content::strings_view(out@) =~= a + b);
    let ghost dv = crate::content::strings_view(dirs@);
    let ghost c = dv.map_values(|d: Seq<char>| d + "/riley_cms.toml"@);
    let mut i: usize = 0;
    while i < dirs.len()
        invariant
            i <= dirs@.len(),
            dv == crate::content::strings_view(dirs@),
            c == dv.map_values(|d: Seq<char>| d + "/riley_cms.toml"@),
            crate::content::strings_view(out@) == a + b + c.subrange(0, i as int),
        decreases dirs@.len() - i,
    {
        let path = dirs[i].clone().concat("/riley_cms.toml");
        proof {
            crate::order::lemma_map_values_push(out@, path, |s: String| s@);
            crate::order::lemma_subrange_push(c, i as int);
            assert(c[i as int] == dirs@[i as int]@ + "/riley_cms.toml"@);
            assert(a + b + c.subrange(0, i as int).push(c[i as int]) =~= (a + b + c.subrange(0, i as int)).push(c[i as int]));
        }
        out.push(path);
        i = i + 1;
        assert(crate::content::strings_view(out@) =~= a + b + c.subrange(0, i as int));
    }
    assert(c.subrange(0, c.len() as int) =~= c);
    let ghost d = match opt_str_view(user_config_dir) {
        Some(u) => seq![u + "/riley_cms/config.toml"@],
        None => Seq::<Seq<char>>::empty(),
    };
    if let Some(u) = user_config_dir {
        out.push(String::from_str(u).concat("/riley_cms/config.toml"));
    }
    assert(crate::content::strings_view(out@) =~= a + b + c + d);
    out.push(String::from_str("/etc/riley_cms/config.toml"));
    assert(crate::content::strings_view(out@) =~= a + b + c + d + seq!["/etc/riley_cms/config.toml"@]);
    out
}

} // verus!
