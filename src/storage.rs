//! Object storage rules: page sizes of asset listings, public URLs of assets, and where an
//! upload is stored.
use vstd::prelude::*;
use vstd::string::*;
use crate::error::Error;
use crate::text::{chars_of, substring};
use crate::time::Timestamp;

verus! {

/// Largest page of an asset listing.
pub const MAX_ASSET_PAGE_SIZE: usize = 1000;

/// Page size of an asset listing when none is asked for.
pub const DEFAULT_ASSET_PAGE_SIZE: usize = 100;

/// An object in the storage bucket.
#[derive(Clone, Debug)]
pub struct Asset {
    pub key: String,
    pub url: String,
    pub size: u64,
    pub last_modified: Timestamp,
}

/// Options of an asset listing.
#[derive(Clone, Debug)]
pub struct AssetListOptions {
    /// Largest number of assets to return (100 by default, at most 1000).
    pub limit: Option<usize>,
    /// Token of a previous page, to fetch the next one.
    pub continuation_token: Option<String>,
}

impl Default for AssetListOptions {
    fn default() -> (r: Self)
        ensures
            r.limit is None,
            r.continuation_token is None,
    {
        AssetListOptions { limit: None, continuation_token: None }
    }
}

/// One page of assets.
#[derive(Clone, Debug)]
pub struct AssetListResult {
    pub assets: Vec<Asset>,
    /// Token for the next page; `None` when there are no more assets.
    pub next_continuation_token: Option<String>,
}

/// The page size of an asset listing: 100 unless asked, at most 1000.
pub fn asset_page_size(limit: Option<usize>) -> (r: usize)
    ensures
        r == match limit {
            Some(l) => if l > MAX_ASSET_PAGE_SIZE {
                MAX_ASSET_PAGE_SIZE
            } else {
                l
            },
            None => DEFAULT_ASSET_PAGE_SIZE,
        },
{
    match limit {
        Some(l) => if l > MAX_ASSET_PAGE_SIZE {
            MAX_ASSET_PAGE_SIZE
        } else {
            l
        },
        None => DEFAULT_ASSET_PAGE_SIZE,
    }
}

/// The token of the next page: the one the store gave, when it says the listing was
/// truncated.
pub fn next_continuation_token(is_truncated: Option<bool>, token: Option<String>) -> (r: Option<String>)
    ensures
        is_truncated == Some(true) ==> r == token,
        is_truncated != Some(true) ==> r is None,
{
    match is_truncated {
        Some(true) => token,
        _ => None,
    }
}

/// `s` without its leading `c` characters.
pub open spec fn trim_char_front(s: Seq<char>, c: char) -> Seq<char>
    decreases s.len(),
{
    if s.len() > 0 && s[0] == c {
        trim_char_front(s.drop_first(), c)
    } else {
        s
    }
}

/// `s` without its trailing `c` characters.
pub open spec fn trim_char_back(s: Seq<char>, c: char) -> Seq<char>
    decreases s.len(),
{
    if s.len() > 0 && s.last() == c {
        trim_char_back(s.drop_last(), c)
    } else {
        s
    }
}

proof fn lemma_trim_char_front_at(s: Seq<char>, c: char, i: int)
    requires
        0 <= i <= s.len(),
        forall|k: int| 0 <= k < i ==> #[trigger] s[k] == c,
        i == s.len() || s[i] != c,
    ensures
        trim_char_front(s, c) == s.subrange(i, s.len() as int),
    decreases i,
{
    if i == 0 {
        assert(s.subrange(0, s.len() as int) =~= s);
    } else {
        let t = s.drop_first();
        assert forall|k: int| 0 <= k < i - 1 implies #[trigger] t[k] == c by {
            assert(t[k] == s[k + 1]);
        }
        lemma_trim_char_front_at(t, c, i - 1);
        assert(t.subrange(i - 1, t.len() as int) =~= s.subrange(i, s.len() as int));
    }
}

proof fn lemma_trim_char_back_at(s: Seq<char>, c: char, j: int)
    requires
        0 <= j <= s.len(),
        forall|k: int| j <= k < s.len() ==> #[trigger] s[k] == c,
        j == 0 || s[j - 1] != c,
    ensures
        trim_char_back(s, c) == s.subrange(0, j),
    decreases s.len() - j,
{
    if j == s.len() {
        assert(s.subrange(0, j) =~= s);
    } else {
        let t = s.drop_last();
        assert forall|k: int| j <= k < t.len() implies #[trigger] t[k] == c by {
            assert(t[k] == s[k]);
        }
        lemma_trim_char_back_at(t, c, j);
        assert(t.subrange(0, j) =~= s.subrange(0, j));
    }
}

/// The public URL of the object `key`: the base without trailing `/`, a `/`, the key.
pub open spec fn asset_url_spec(base: Seq<char>, key: Seq<char>) -> Seq<char> {
    trim_char_back(base, '/') + "/"@ + key
}

/// The public URL of the object `key` under `public_url_base`.
pub fn asset_url(public_url_base: &str, key: &str) -> (r: String)
    ensures
        r@ == asset_url_spec(public_url_base@, key@),
{
    let cs = chars_of(public_url_base);
    let mut j = cs.len();
    while j > 0 && cs[j - 1] == '/'
        invariant
            j <= cs@.len(),
            forall|k: int| j <= k < cs@.len() ==> #[trigger] cs@[k] == '/',
        decreases j,
    {
        j = j - 1;
    }
    proof {
        lemma_trim_char_back_at(cs@, '/', j as int);
    }
    substring(public_url_base, 0, j).concat("/").concat(key)
}

/// Whether `/`-separated `s` has a segment `..`.
pub open spec fn has_parent_segment(s: Seq<char>) -> bool {
    exists|i: int|
        0 <= i && i + 2 <= s.len() && #[trigger] s[i] == '.' && s[i + 1] == '.' && (i == 0 || s[i
            - 1] == '/') && (i + 2 == s.len() || s[i + 2] == '/')
}

/// The key of an uploaded file: its name, under the destination prefix (without leading
/// and trailing `/`) if one is given. A prefix with a `..` segment is refused.
pub open spec fn upload_key_spec(file_name: Seq<char>, dest: Option<Seq<char>>) -> Option<Seq<char>> {
    match dest {
        None => Some(file_name),
        Some(d) => {
            let p = trim_char_back(trim_char_front(d, '/'), '/');
            if has_parent_segment(p) {
                None
            } else {
                Some(p + "/"@ + file_name)
            }
        },
    }
}

/// The key under which a file named `file_name` is stored.
pub fn upload_key(file_name: &str, dest: Option<&str>) -> (r: Result<String, Error>)
    ensures
        match r {
            Ok(k) => upload_key_spec(file_name@, crate::config::opt_str_view(dest)) == Some(k@),
            Err(e) => upload_key_spec(file_name@, crate::config::opt_str_view(dest)) is None && e is Storage,
        },
{
    let d = match dest {
        None => {
            return Ok(String::from_str(file_name));
        },
        Some(d) => d,
    };
    let cs = chars_of(d);
    let n = cs.len();
    let mut a: usize = 0;
    while a < n && cs[a] == '/'
        invariant
            a <= n == cs@.len(),
            forall|k: int| 0 <= k < a ==> #[trigger] cs@[k] == '/',
        decreases n - a,
    {
        a = a + 1;
    }
    proof {
        lemma_trim_char_front_at(cs@, '/', a as int);
    }
    let ghost f = cs@.subrange(a as int, n as int);
    let mut b = n;
    while b > a && cs[b - 1] == '/'
        invariant
            a <= b <= n == cs@.len(),
            forall|k: int| b <= k < n ==> #[trigger] cs@[k] == '/',
        decreases b,
    {
        b = b - 1;
    }
    proof {
        assert forall|k: int| b - a <= k < f.len() implies #[trigger] f[k] == '/' by {
            assert(f[k] == cs@[k + a]);
        }
        lemma_trim_char_back_at(f, '/', b - a);
        assert(f.subrange(0, b - a) =~= cs@.subrange(a as int, b as int));
    }
    let ghost p = cs@.subrange(a as int, b as int);
    let mut i = a;
    while i < b
        invariant
            a <= i <= b <= n == cs@.len(),
            cs@ == d@,
            dest == Some(d),
            p == cs@.subrange(a as int, b as int),
            trim_char_back(trim_char_front(cs@, '/'), '/') == p,
            forall|k: int|
                0 <= k < i - a ==> !(#[trigger] p[k] == '.' && k + 2 <= p.len() && p[k + 1] == '.' && (k == 0
                    || p[k - 1] == '/') && (k + 2 == p.len() || p[k + 2] == '/')),
        decreases b - i,
    {
        if cs[i] == '.' && b - i >= 2 && cs[i + 1] == '.' && (i == a || cs[i - 1] == '/') && (
        b - i == 2 || cs[i + 2] == '/') {
            proof {
                let k = i - a;
                assert(p[k] == cs@[i as int]);
                assert(p[k + 1] == cs@[i + 1]);
                if k > 0 {
                    assert(p[k - 1] == cs@[i - 1]);
                }
                if k + 2 < p.len() {
                    assert(p[k + 2] == cs@[i + 2]);
                }
                assert(has_parent_segment(p));
            }
            return Err(Error::Storage(String::from_str("invalid destination: path traversal not allowed")));
        }
        proof {
            let k = i - a;
            assert(p[k] == cs@[i as int]);
            if k + 1 < p.len() {
                assert(p[k + 1] == cs@[i + 1]);
            }
            if k > 0 {
                assert(p[k - 1] == cs@[i - 1]);
            }
            if k + 2 < p.len() {
                assert(p[k + 2] == cs@[i + 2]);
            }
        }
        i = i + 1;
    }
    Ok(substring(d, a, b).concat("/").concat(file_name))
}

/// Names the MIME type that `mime_guess` derives from a path's extension.
pub uninterp spec fn mime_type_of(path: Seq<char>) -> Seq<char>;

/// Relies on `mime_guess::from_path(..).first_or_octet_stream()`: the type depends on the
/// path alone (`application/octet-stream` when the extension is unknown).
#[verifier::external_body]
pub(crate) fn content_type_for(path: &str) -> (r: String)
    ensures
        r@ == mime_type_of(path@),
{
    mime_guess::from_path(path).first_or_octet_stream().to_string()
}

/// Where and how a local file is uploaded.
#[derive(Clone, Debug)]
pub struct UploadPlan {
    pub key: String,
    pub content_type: String,
    pub url: String,
}

/// Plan the upload of the local file `path`, named `file_name`, under the optional
/// destination prefix `dest`.
pub fn plan_upload(path: &str, file_name: &str, dest: Option<&str>, public_url_base: &str) -> (r: Result<UploadPlan, Error>)
    ensures
        match r {
            Ok(p) => {
                &&& upload_key_spec(file_name@, crate::config::opt_str_view(dest)) == Some(p.key@)
                &&& p.content_type@ == mime_type_of(path@)
                &&& p.url@ == asset_url_spec(public_url_base@, p.key@)
            },
            Err(e) => upload_key_spec(file_name@, crate::config::opt_str_view(dest)) is None && e is Storage,
        },
{
    let key = match upload_key(file_name, dest) {
        Ok(k) => k,
        Err(e) => {
            return Err(e);
        },
    };
    let content_type = content_type_for(path);
    let url = asset_url(public_url_base, key.as_str());
    Ok(UploadPlan { key, content_type, url })
}

} // verus!
