//! The Git Smart HTTP gateway's own rules: which paths are accepted, the CGI environment
//! handed to `git-http-backend`, the request-body limit, the incremental reading of the
//! CGI header block, and what follows a push.
use vstd::prelude::*;
use vstd::string::*;
use vstd::utf8::*;
use crate::cgi::{apply_line, CgiHeaderMap, GitCgiHeaders, HeadView, MAX_CGI_HEADER_SIZE};
use crate::error::Error;
use crate::text::{chars_of, utf8_decode};

verus! {

/// Default limit on a Git request body: 100 MiB.
pub const DEFAULT_GIT_MAX_BODY_SIZE: u64 = 104857600;

/// Default time limit for a `git-http-backend` process, in seconds.
pub const DEFAULT_GIT_CGI_TIMEOUT_SECS: u64 = 300;

/// Characters allowed in a Git path besides ASCII letters and digits.
pub open spec fn git_path_char(c: char) -> bool {
    ||| ('a' <= c && c <= 'z')
    ||| ('A' <= c && c <= 'Z')
    ||| ('0' <= c && c <= '9')
    ||| c == '-' || c == '_' || c == '.' || c == '/' || c == '=' || c == '?' || c == '&' || c == '+'
}

/// A Git path is accepted when it holds no `..` and only allowed characters.
pub open spec fn valid_git_path(p: Seq<char>) -> bool {
    &&& forall|i: int| 0 <= i < p.len() - 1 ==> !(p[i] == '.' && #[trigger] p[i + 1] == '.')
    &&& forall|i: int| 0 <= i < p.len() ==> git_path_char(#[trigger] p[i])
}

/// Validate that a Git path is safe: no traversal, no characters outside
/// `[A-Za-z0-9-_./=?&+]`.
pub fn is_valid_git_path(path: &str) -> (r: bool)
    ensures
        r == valid_git_path(path@),
{
    let cs = chars_of(path);
    let n = cs.len();
    let mut i: usize = 0;
    while i < n
        invariant
            cs@ == path@,
            n == cs@.len(),
            i <= n,
            forall|k: int| 0 <= k < i ==> git_path_char(#[trigger] cs@[k]),
            forall|k: int| 0 <= k < i && k < n - 1 ==> !(cs@[k] == '.' && #[trigger] cs@[k + 1] == '.'),
        decreases n - i,
    {
        let c = cs[i];
        let ok = ('a' <= c && c <= 'z') || ('A' <= c && c <= 'Z') || ('0' <= c && c <= '9') || c
            == '-' || c == '_' || c == '.' || c == '/' || c == '=' || c == '?' || c == '&' || c
            == '+';
        if !ok {
            return false;
        }
        if i + 1 < n && c == '.' && cs[i + 1] == '.' {
            return false;
        }
        i = i + 1;
    }
    true
}

/// The characters of `git-receive-pack`, the service that a push uses.
pub open spec fn receive_pack() -> Seq<char> {
    seq!['g', 'i', 't', '-', 'r', 'e', 'c', 'e', 'i', 'v', 'e', '-', 'p', 'a', 'c', 'k']
}

/// Whether `s` contains `w` at some position.
pub open spec fn contains_word(s: Seq<char>, w: Seq<char>) -> bool {
    exists|i: int| 0 <= i && i + w.len() <= s.len() && #[trigger] s.subrange(i, i + w.len()) == w
}

/// Whether a Git request path is a push (it names `git-receive-pack`).
pub fn is_write_operation(path: &str) -> (r: bool)
    ensures
        r == contains_word(path@, receive_pack()),
{
    let cs = chars_of(path);
    let w: [char; 16] = [
        'g', 'i', 't', '-', 'r', 'e', 'c', 'e', 'i', 'v', 'e', '-', 'p', 'a', 'c', 'k',
    ];
    assert(w@ =~= receive_pack());
    let n = cs.len();
    if n < 16 {
        return false;
    }
    let mut i: usize = 0;
    while i <= n - 16
        invariant
            cs@ == path@,
            n == cs@.len(),
            n >= 16,
            i <= n - 16 + 1,
            w@ == receive_pack(),
            forall|k: int| 0 <= k < i ==> #[trigger] cs@.subrange(k, k + 16) != receive_pack(),
        decreases n - i,
    {
        let mut j: usize = 0;
        while j < 16 && cs[i + j] == w[j]
            invariant
                i + 16 <= n == cs@.len(),
                j <= 16,
                w@ == receive_pack(),
                forall|k: int| 0 <= k < j ==> cs@[i + k] == w@[k],
            decreases 16 - j,
        {
            j = j + 1;
        }
        if j == 16 {
            assert(cs@.subrange(i as int, i + 16) =~= receive_pack());
            return true;
        }
        assert(cs@.subrange(i as int, i + 16)[j as int] != receive_pack()[j as int]);
        i = i + 1;
    }
    assert forall|k: int|
        0 <= k && k + receive_pack().len() <= path@.len() implies #[trigger] path@.subrange(
        k,
        k + receive_pack().len(),
    ) != receive_pack() by {
        assert(k < i);
    }
    false
}

/// The CGI `PATH_INFO` for a path under the Git prefix: the path with a leading `/`.
pub fn path_info(path: &str) -> (r: String)
    ensures
        r@ == seq!['/'] + path@,
{
    let slash = "/";
    proof {
        reveal_strlit("/");
    }
    let s = String::from_str(slash);
    let r = s.concat(path);
    assert(r@ =~= seq!['/'] + path@);
    r
}

/// The decimal digits of `n`.
pub open spec fn decimal(n: nat) -> Seq<char>
    decreases n,
{
    if n < 10 {
        seq![((n + 48) as u8) as char]
    } else {
        decimal(n / 10).push((((n % 10) + 48) as u8) as char)
    }
}

fn digit_string(d: u64) -> (r: String)
    requires
        d < 10,
    ensures
        r@ == seq![((d + 48) as u8) as char],
{
    let digits = "0123456789";
    proof {
        reveal_strlit("0123456789");
    }
    let r = String::from_str(digits.substring_char(d as usize, d as usize + 1));
    assert(r@ =~= seq![((d + 48) as u8) as char]) by {
        assert(r@.len() == 1);
        assert(r@[0] == digits@[d as int]);
        assert(d == 0 || d == 1 || d == 2 || d == 3 || d == 4 || d == 5 || d == 6 || d == 7 || d == 8 || d == 9);
    }
    r
}

/// The decimal digits of `n`, as `u64`'s `Display` writes them.
pub fn u64_to_decimal(n: u64) -> (r: String)
    ensures
        r@ == decimal(n as nat),
    decreases n,
{
    if n < 10 {
        digit_string(n)
    } else {
        let head = u64_to_decimal(n / 10);
        let last = digit_string(n % 10);
        let r = head.concat(last.as_str());
        assert(r@ =~= decimal(n as nat));
        r
    }
}

/// The environment of a `git-http-backend` process, in order.
pub open spec fn cgi_env_spec(
    repo: Seq<char>,
    method: Seq<char>,
    path_info: Seq<char>,
    query: Option<Seq<char>>,
    content_type: Option<Seq<char>>,
    content_length: Option<u64>,
) -> Seq<(Seq<char>, Seq<char>)> {
    let base = seq![
        ("GIT_PROJECT_ROOT"@, repo),
        ("GIT_HTTP_EXPORT_ALL"@, "1"@),
        ("PATH_INFO"@, path_info),
        ("REQUEST_METHOD"@, method),
    ];
    let with_query = match query {
        Some(q) => base.push(("QUERY_STRING"@, q)),
        None => base,
    };
    let with_type = match content_type {
        Some(t) => with_query.push(("CONTENT_TYPE"@, t)),
        None => with_query,
    };
    match content_length {
        Some(l) => with_type.push(("CONTENT_LENGTH"@, decimal(l as nat))),
        None => with_type,
    }
}

fn env_pair(k: &str, v: String) -> (r: (String, String))
    ensures
        r.0@ == k@,
        r.1@ == v@,
{
    (String::from_str(k), v)
}

/// Build the environment of a `git-http-backend` process: the repository root, export of
/// all repositories, `PATH_INFO`, `REQUEST_METHOD`, and when present `QUERY_STRING`,
/// `CONTENT_TYPE` and `CONTENT_LENGTH`. Nothing else.
pub fn cgi_env(
    repo_path: &str,
    method: &str,
    path_info: &str,
    query_string: Option<&str>,
    content_type: Option<&str>,
    content_length: Option<u64>,
) -> (r: Vec<(String, String)>)
    ensures
        r@.map_values(|e: (String, String)| (e.0@, e.1@)) == cgi_env_spec(
            repo_path@,
            method@,
            path_info@,
            match query_string {
                Some(q) => Some(q@),
                None => None,
            },
            match content_type {
                Some(t) => Some(t@),
                None => None,
            },
            content_length,
        ),
{
    let mut env: Vec<(String, String)> = Vec::new();
    env.push(env_pair("GIT_PROJECT_ROOT", String::from_str(repo_path)));
    env.push(env_pair("GIT_HTTP_EXPORT_ALL", String::from_str("1")));
    env.push(env_pair("PATH_INFO", String::from_str(path_info)));
    env.push(env_pair("REQUEST_METHOD", String::from_str(method)));
    let ghost q = match query_string {
        Some(q) => Some(q@),
        None => None::<Seq<char>>,
    };
    let ghost t = match content_type {
        Some(t) => Some(t@),
        None => None::<Seq<char>>,
    };
    let ghost base = seq![
        ("GIT_PROJECT_ROOT"@, repo_path@),
        ("GIT_HTTP_EXPORT_ALL"@, "1"@),
        ("PATH_INFO"@, path_info@),
        ("REQUEST_METHOD"@, method@),
    ];
    assert(env@.map_values(|e: (String, String)| (e.0@, e.1@)) =~= base);
    if let Some(qs) = query_string {
        env.push(env_pair("QUERY_STRING", String::from_str(qs)));
    }
    let ghost wq = match q {
        Some(q) => base.push(("QUERY_STRING"@, q)),
        None => base,
    };
    assert(env@.map_values(|e: (String, String)| (e.0@, e.1@)) =~= wq);
    if let Some(ct) = content_type {
        env.push(env_pair("CONTENT_TYPE", String::from_str(ct)));
    }
    let ghost wt = match t {
        Some(t) => wq.push(("CONTENT_TYPE"@, t)),
        None => wq,
    };
    assert(env@.map_values(|e: (String, String)| (e.0@, e.1@)) =~= wt);
    if let Some(cl) = content_length {
        env.push(env_pair("CONTENT_LENGTH", u64_to_decimal(cl)));
    }
    assert(env@.map_values(|e: (String, String)| (e.0@, e.1@)) =~= cgi_env_spec(
        repo_path@,
        method@,
        path_info@,
        q,
        t,
        content_length,
    ));
    env
}

/// Running count of the request-body bytes handed to the CGI process, against a limit.
#[derive(Clone, Copy, Debug)]
pub struct BodyLimit {
    max: u64,
    received: u64,
}

impl BodyLimit {
    pub closed spec fn max(&self) -> u64 {
        self.max
    }

    pub closed spec fn received(&self) -> u64 {
        self.received
    }

    /// What has been accepted never exceeds the limit.
    pub open spec fn wf(&self) -> bool {
        self.received() <= self.max()
    }

    pub fn new(max: u64) -> (r: Self)
        ensures
            r.wf(),
            r.max() == max,
            r.received() == 0,
    {
        BodyLimit { max, received: 0 }
    }

    /// Bytes accepted so far.
    pub fn received_bytes(&self) -> (r: u64)
        ensures
            r == self.received(),
    {
        self.received
    }

    /// Account for a chunk of `len` bytes. It may be forwarded only when this returns `Ok`;
    /// once the total would pass the limit the chunk is refused and nothing more is counted.
    pub fn accept(&mut self, len: usize) -> (r: Result<(), Error>)
        requires
            old(self).wf(),
        ensures
            final(self).wf(),
            final(self).max() == old(self).max(),
            old(self).received() + len <= old(self).max() ==> r is Ok && final(self).received()
                == old(self).received() + len,
            old(self).received() + len > old(self).max() ==> final(self).received()
                == old(self).received() && r == Err::<(), Error>(
                Error::BodyTooLarge {
                    received: if old(self).received() + len > u64::MAX {
                        u64::MAX
                    } else {
                        (old(self).received() + len) as u64
                    },
                    max: old(self).max(),
                },
            ),
    {
        let len64 = len as u64;
        if len64 > self.max - self.received {
            let total = if len64 > u64::MAX - self.received {
                u64::MAX
            } else {
                self.received + len64
            };
            Err(Error::BodyTooLarge { received: total, max: self.max })
        } else {
            self.received = self.received + len64;
            Ok(())
        }
    }
}

/// The result of handing one line to a [`CgiHeaderReader`].
#[derive(Clone, Copy, Debug, PartialEq, Eq)]
pub enum HeaderStep {
    /// More header lines follow.
    More,
    /// The blank separator line was read: the body follows.
    Complete,
}

/// `s` without its trailing `\r` and `\n` characters.
pub open spec fn strip_eol(s: Seq<char>) -> Seq<char>
    decreases s.len(),
{
    if s.len() > 0 && (s.last() == '\r' || s.last() == '\n') {
        strip_eol(s.drop_last())
    } else {
        s
    }
}

/// Incremental reader of a CGI header block, fed one line at a time (each line with its
/// `\n`, as read from the process's output).
#[derive(Clone, Debug)]
pub struct CgiHeaderReader {
    status: u16,
    headers: CgiHeaderMap,
    consumed: usize,
}

impl CgiHeaderReader {
    /// Status and headers read so far.
    pub closed spec fn head(&self) -> HeadView {
        (self.status, self.headers@)
    }

    /// Bytes of header block read so far.
    pub closed spec fn consumed(&self) -> nat {
        self.consumed as nat
    }

    pub closed spec fn wf(&self) -> bool {
        self.headers.wf() && self.consumed <= MAX_CGI_HEADER_SIZE
    }

    pub fn new() -> (r: Self)
        ensures
            r.wf(),
            r.head() == (200u16, Seq::<(Seq<char>, Seq<char>)>::empty()),
            r.consumed() == 0,
    {
        CgiHeaderReader { status: 200, headers: CgiHeaderMap::new(), consumed: 0 }
    }

    /// Read one line of the header block. The block may hold at most
    /// `MAX_CGI_HEADER_SIZE` bytes and must be UTF-8; a line that is empty once its line
    /// ending is removed ends it.
    pub fn feed_line(&mut self, line: &[u8]) -> (r: Result<HeaderStep, Error>)
        requires
            old(self).wf(),
        ensures
            final(self).wf(),
            old(self).consumed() + line@.len() > MAX_CGI_HEADER_SIZE ==> r == Err::<
                HeaderStep,
                Error,
            >(Error::CgiHeadersTooLarge { max: MAX_CGI_HEADER_SIZE }),
            old(self).consumed() + line@.len() <= MAX_CGI_HEADER_SIZE ==> {
                &&& final(self).consumed() == old(self).consumed() + line@.len()
                &&& !valid_utf8(line@) ==> r == Err::<HeaderStep, Error>(
                    Error::CgiHeadersInvalid,
                )
                &&& valid_utf8(line@) && strip_eol(decode_utf8(line@)).len() == 0 ==> r == Ok::<
                    HeaderStep,
                    Error,
                >(HeaderStep::Complete) && final(self).head() == old(self).head()
                &&& valid_utf8(line@) && strip_eol(decode_utf8(line@)).len() > 0 ==> r == Ok::<
                    HeaderStep,
                    Error,
                >(HeaderStep::More) && final(self).head() == apply_line(
                    old(self).head(),
                    strip_eol(decode_utf8(line@)),
                )
            },
    {
        if line.len() > MAX_CGI_HEADER_SIZE - self.consumed {
            return Err(Error::CgiHeadersTooLarge { max: MAX_CGI_HEADER_SIZE });
        }
        self.consumed = self.consumed + line.len();
        let text = match utf8_decode(line) {
            Some(t) => t,
            None => {
                return Err(Error::CgiHeadersInvalid);
            },
        };
        let cs = chars_of(text.as_str());
        let mut end = cs.len();
        assert(cs@.subrange(0, end as int) =~= cs@);
        while end > 0 && (cs[end - 1] == '\r' || cs[end - 1] == '\n')
            invariant
                end <= cs@.len(),
                strip_eol(cs@) == strip_eol(cs@.subrange(0, end as int)),
            decreases end,
        {
            let ghost s = cs@.subrange(0, end as int);
            assert(s.drop_last() =~= cs@.subrange(0, end - 1));
            end = end - 1;
        }
        assert(strip_eol(cs@.subrange(0, end as int)) == cs@.subrange(0, end as int));
        if end == 0 {
            return Ok(HeaderStep::Complete);
        }
        crate::cgi::read_header_line(
            text.as_str(),
            &cs,
            0,
            end,
            &mut self.status,
            &mut self.headers,
        );
        Ok(HeaderStep::More)
    }

    /// The status and headers read.
    pub fn finish(self) -> (r: GitCgiHeaders)
        requires
            self.wf(),
        ensures
            r.headers.wf(),
            (r.status, r.headers@) == self.head(),
    {
        GitCgiHeaders { status: self.status, headers: self.headers }
    }
}

/// `name` joined under the directory `base`, as `Path::join` does for a relative name.
pub open spec fn join_path(base: Seq<char>, name: Seq<char>) -> Seq<char> {
    if base.len() == 0 {
        name
    } else if base.last() == '/' {
        base + name
    } else {
        base + seq!['/'] + name
    }
}

fn join(base: &str, name: &str) -> (r: String)
    ensures
        r@ == join_path(base@, name@),
{
    let n = base.unicode_len();
    if n == 0 {
        String::from_str(name)
    } else if base.get_char(n - 1) == '/' {
        String::from_str(base).concat(name)
    } else {
        let r = String::from_str(base).concat("/").concat(name);
        proof {
            reveal_strlit("/");
        }
        assert(r@ =~= base@ + seq!['/'] + name@);
        r
    }
}

/// Relies on `std::path::Path::exists`: whether the path names an existing file or
/// directory, which depends on the file system; nothing is known of the answer.
#[verifier::external_body]
fn path_exists(p: &str) -> (r: bool) {
    std::path::Path::new(p).exists()
}

/// The usual install locations of `git-http-backend`, in the order they are tried.
pub open spec fn backend_paths() -> Seq<Seq<char>> {
    seq![
        "/usr/lib/git-core/git-http-backend"@,
        "/usr/libexec/git-core/git-http-backend"@,
        "/opt/homebrew/libexec/git-core/git-http-backend"@,
        "/usr/local/libexec/git-core/git-http-backend"@,
    ]
}

/// The usual install locations of `git-http-backend`.
pub fn backend_candidates() -> (r: Vec<String>)
    ensures
        crate::content::strings_view(r@) == backend_paths(),
{
    let mut v: Vec<String> = Vec::new();
    v.push(String::from_str("/usr/lib/git-core/git-http-backend"));
    v.push(String::from_str("/usr/libexec/git-core/git-http-backend"));
    v.push(String::from_str("/opt/homebrew/libexec/git-core/git-http-backend"));
    v.push(String::from_str("/usr/local/libexec/git-core/git-http-backend"));
    assert(crate::content::strings_view(v@) =~= backend_paths());
    v
}

/// Serves a Git repository over the Smart HTTP protocol through `git-http-backend`.
#[derive(Clone, Debug)]
pub struct GitBackend {
    repo_path: String,
    configured_backend_path: Option<String>,
}

impl GitBackend {
    pub closed spec fn repo(&self) -> Seq<char> {
        self.repo_path@
    }

    pub closed spec fn configured(&self) -> Option<Seq<char>> {
        match self.configured_backend_path {
            Some(p) => Some(p@),
            None => None,
        }
    }

    /// A backend for the repository at `repo_path`, locating `git-http-backend` itself.
    pub fn new(repo_path: &str) -> (r: Self)
        ensures
            r.repo() == repo_path@,
            r.configured() is None,
    {
        GitBackend { repo_path: String::from_str(repo_path), configured_backend_path: None }
    }

    /// A backend for the repository at `repo_path`, with an explicit `git-http-backend`.
    pub fn with_backend_path(repo_path: &str, backend_path: Option<String>) -> (r: Self)
        ensures
            r.repo() == repo_path@,
            r.configured() == match backend_path {
                Some(p) => Some(p@),
                None => None::<Seq<char>>,
            },
    {
        GitBackend { repo_path: String::from_str(repo_path), configured_backend_path: backend_path }
    }

    /// The repository path.
    pub fn repo_path(&self) -> (r: &String)
        ensures
            r@ == self.repo(),
    {
        &self.repo_path
    }

    /// The paths whose presence marks a repository: `.git` (working tree) and `HEAD`
    /// (bare repository).
    pub fn repo_markers(&self) -> (r: (String, String))
        ensures
            r.0@ == join_path(self.repo(), ".git"@),
            r.1@ == join_path(self.repo(), "HEAD"@),
    {
        (join(self.repo_path.as_str(), ".git"), join(self.repo_path.as_str(), "HEAD"))
    }

    /// Whether the repository path holds `.git` or `HEAD`.
    pub fn is_valid_repo(&self) -> bool {
        let (git_dir, head) = self.repo_markers();
        path_exists(git_dir.as_str()) || path_exists(head.as_str())
    }

    /// The `git-http-backend` to run: the configured one; else the first of the usual
    /// locations that exists; else the one under `exec_path` (the output of
    /// `git --exec-path`) if it exists.
    pub fn locate_backend(&self, exec_path: Option<&str>) -> (r: Result<String, Error>)
        ensures
            self.configured() is Some ==> r is Ok && r->Ok_0@ == self.configured()->0,
            self.configured() is None && r is Ok ==> backend_paths().contains(r->Ok_0@) || (
            exec_path is Some && r->Ok_0@ == join_path(exec_path->0@, "git-http-backend"@)),
            r is Err ==> r->Err_0 is Git,
    {
        match &self.configured_backend_path {
            Some(p) => {
                return Ok(p.clone());
            },
            None => {},
        }
        let candidates = backend_candidates();
        let mut i: usize = 0;
        while i < candidates.len()
            invariant
                i <= candidates@.len(),
                self.configured() is None,
                crate::content::strings_view(candidates@) == backend_paths(),
            decreases candidates@.len() - i,
        {
            if path_exists(candidates[i].as_str()) {
                let c = candidates[i].clone();
                assert(backend_paths()[i as int] == c@);
                return Ok(c);
            }
            i = i + 1;
        }
        if let Some(dir) = exec_path {
            let p = join(dir, "git-http-backend");
            if path_exists(p.as_str()) {
                return Ok(p);
            }
        }
        Err(Error::Git(String::from_str("git-http-backend not found")))
    }
}

/// Whether the content index is reloaded (and webhooks fired) after a Git request: only
/// for a push whose CGI response was 2xx and whose process exited cleanly.
pub fn should_reload_after(is_write: bool, cgi_status: u16, exited_cleanly: bool) -> (r: bool)
    ensures
        r == (is_write && 200 <= cgi_status && cgi_status < 300 && exited_cleanly),
{
    is_write && 200 <= cgi_status && cgi_status < 300 && exited_cleanly
}

/// The HTTP status for a failed Git request: 413 for a body past the limit, 500 otherwise.
pub fn git_error_status(e: &Error) -> (r: u16)
    ensures
        r == (if e is BodyTooLarge {
            413u16
        } else {
            500u16
        }),
{
    match e {
        Error::BodyTooLarge { .. } => 413,
        _ => 500,
    }
}

} // verus!
