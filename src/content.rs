//! The content index: posts and series held in memory, with filtered, ordered and
//! paginated listings, lookups, validation and an ETag over the content.
use vstd::prelude::*;
use vstd::string::*;
use vstd::utf8::*;
use crate::auth::{sha256, sha256_of};
use crate::error::Error;
use crate::order::{
    lemma_sorted_selection_exists,
    lemma_map_values_push, lemma_subrange_push, as_ints, key_lt, lemma_sorted_selection_unique, slugs_distinct, sort_selection,
    sorted_selection, views_of, KeyView, SortKey,
};
use crate::time::{visibility, visibility_at, Timestamp, Visibility};

verus! {

broadcast use encode_utf8_decode_utf8;

/// Largest page of a listing.
pub const MAX_PAGE_SIZE: usize = 500;

/// Page size of a listing when none is asked for.
pub const DEFAULT_PAGE_SIZE: usize = 50;

/// A blog post with its full content.
#[derive(Clone, Debug)]
pub struct Post {
    pub slug: String,
    pub title: String,
    pub subtitle: Option<String>,
    pub preview_text: String,
    pub preview_image: Option<String>,
    pub tags: Option<Vec<String>>,
    /// `None` = draft, in the past = live, in the future = scheduled.
    pub goes_live_at: Option<Timestamp>,
    pub series_slug: Option<String>,
    pub content: String,
    /// Position within a series.
    pub order: Option<i32>,
}

/// A post without its content, as listings show it.
#[derive(Clone, Debug)]
pub struct PostSummary {
    pub slug: String,
    pub title: String,
    pub subtitle: Option<String>,
    pub preview_text: String,
    pub preview_image: Option<String>,
    pub tags: Option<Vec<String>>,
    pub goes_live_at: Option<Timestamp>,
    pub series_slug: Option<String>,
}

/// The settings of a series (its `series.toml`).
#[derive(Clone, Debug)]
pub struct SeriesConfig {
    pub title: String,
    pub description: Option<String>,
    pub preview_image: Option<String>,
    pub goes_live_at: Option<Timestamp>,
}

/// The settings of a post (its `config.toml`).
#[derive(Clone, Debug)]
pub struct PostConfig {
    pub title: String,
    pub subtitle: Option<String>,
    pub preview_text: String,
    pub preview_image: Option<String>,
    pub tags: Option<Vec<String>>,
    pub goes_live_at: Option<Timestamp>,
    pub order: Option<i32>,
}

/// A series with its member posts, in series order.
#[derive(Clone, Debug)]
pub struct Series {
    pub slug: String,
    pub title: String,
    pub description: Option<String>,
    pub preview_image: Option<String>,
    pub goes_live_at: Option<Timestamp>,
    pub posts: Vec<SeriesPostSummary>,
}

/// A series without its posts, as listings show it.
#[derive(Clone, Debug)]
pub struct SeriesSummary {
    pub slug: String,
    pub title: String,
    pub description: Option<String>,
    pub preview_image: Option<String>,
    pub goes_live_at: Option<Timestamp>,
    pub post_count: usize,
}

/// A member post of a series, without its content.
#[derive(Clone, Debug)]
pub struct SeriesPostSummary {
    pub slug: String,
    pub title: String,
    pub subtitle: Option<String>,
    pub preview_text: String,
    pub preview_image: Option<String>,
    pub tags: Option<Vec<String>>,
    pub goes_live_at: Option<Timestamp>,
    pub order: Option<i32>,
}

/// Options of a listing.
#[derive(Clone, Debug)]
pub struct ListOptions {
    pub include_drafts: bool,
    pub include_scheduled: bool,
    pub limit: Option<usize>,
    pub offset: Option<usize>,
}

impl Default for ListOptions {
    fn default() -> (r: Self)
        ensures
            !r.include_drafts,
            !r.include_scheduled,
            r.limit is None,
            r.offset is None,
    {
        ListOptions { include_drafts: false, include_scheduled: false, limit: None, offset: None }
    }
}

/// One page of a listing.
#[derive(Clone, Debug)]
pub struct ListResult<T> {
    pub items: Vec<T>,
    /// Number of items that pass the filter, over all pages.
    pub total: usize,
    pub limit: usize,
    pub offset: usize,
}

/// A problem found in the content.
#[derive(Clone, Debug)]
pub struct ValidationError {
    pub path: String,
    pub message: String,
}

pub open spec fn opt_view(o: Option<String>) -> Option<Seq<char>> {
    match o {
        Some(s) => Some(s@),
        None => None,
    }
}

pub open spec fn strings_view(v: Seq<String>) -> Seq<Seq<char>> {
    v.map_values(|s: String| s@)
}

pub open spec fn tags_view(o: Option<Vec<String>>) -> Option<Seq<Seq<char>>> {
    match o {
        Some(v) => Some(strings_view(v@)),
        None => None,
    }
}

fn clone_opt(o: &Option<String>) -> (r: Option<String>)
    ensures
        opt_view(r) == opt_view(*o),
{
    match o {
        Some(s) => Some(s.clone()),
        None => None,
    }
}

fn clone_tags(o: &Option<Vec<String>>) -> (r: Option<Vec<String>>)
    ensures
        tags_view(r) == tags_view(*o),
{
    match o {
        Some(v) => {
            let mut out: Vec<String> = Vec::new();
            let mut i: usize = 0;
            while i < v.len()
                invariant
                    i <= v@.len(),
                    strings_view(out@) == strings_view(v@.subrange(0, i as int)),
                decreases v@.len() - i,
            {
                let c = v[i].clone();
                assert(c@ == v@[i as int]@);
                proof {
                    lemma_map_values_push(out@, c, |s: String| s@);
                    lemma_subrange_push(v@, i as int);
                    lemma_map_values_push(v@.subrange(0, i as int), v@[i as int], |s: String| s@);
                }
                out.push(c);
                i = i + 1;
            }
            assert(v@.subrange(0, v@.len() as int) =~= v@);
            Some(out)
        },
        None => None,
    }
}

/// `a` and `b` hold the same post.
pub open spec fn same_post(a: Post, b: Post) -> bool {
    &&& a.slug@ == b.slug@
    &&& a.title@ == b.title@
    &&& opt_view(a.subtitle) == opt_view(b.subtitle)
    &&& a.preview_text@ == b.preview_text@
    &&& opt_view(a.preview_image) == opt_view(b.preview_image)
    &&& tags_view(a.tags) == tags_view(b.tags)
    &&& a.goes_live_at == b.goes_live_at
    &&& opt_view(a.series_slug) == opt_view(b.series_slug)
    &&& a.content@ == b.content@
    &&& a.order == b.order
}

/// A copy of a post.
pub fn copy_post(p: &Post) -> (r: Post)
    ensures
        same_post(r, *p),
{
    Post {
        slug: p.slug.clone(),
        title: p.title.clone(),
        subtitle: clone_opt(&p.subtitle),
        preview_text: p.preview_text.clone(),
        preview_image: clone_opt(&p.preview_image),
        tags: clone_tags(&p.tags),
        goes_live_at: p.goes_live_at,
        series_slug: clone_opt(&p.series_slug),
        content: p.content.clone(),
        order: p.order,
    }
}

/// `s` is the summary of post `p`.
pub open spec fn summarizes(s: PostSummary, p: Post) -> bool {
    &&& s.slug@ == p.slug@
    &&& s.title@ == p.title@
    &&& opt_view(s.subtitle) == opt_view(p.subtitle)
    &&& s.preview_text@ == p.preview_text@
    &&& opt_view(s.preview_image) == opt_view(p.preview_image)
    &&& tags_view(s.tags) == tags_view(p.tags)
    &&& s.goes_live_at == p.goes_live_at
    &&& opt_view(s.series_slug) == opt_view(p.series_slug)
}

impl PostSummary {
    /// The summary of a post: every field but the content and the order.
    pub fn from_post(p: &Post) -> (r: Self)
        ensures
            summarizes(r, *p),
    {
        PostSummary {
            slug: p.slug.clone(),
            title: p.title.clone(),
            subtitle: clone_opt(&p.subtitle),
            preview_text: p.preview_text.clone(),
            preview_image: clone_opt(&p.preview_image),
            tags: clone_tags(&p.tags),
            goes_live_at: p.goes_live_at,
            series_slug: clone_opt(&p.series_slug),
        }
    }
}

/// `s` is the series-member summary of post `p`.
pub open spec fn member_summarizes(s: SeriesPostSummary, p: Post) -> bool {
    &&& s.slug@ == p.slug@
    &&& s.title@ == p.title@
    &&& opt_view(s.subtitle) == opt_view(p.subtitle)
    &&& s.preview_text@ == p.preview_text@
    &&& opt_view(s.preview_image) == opt_view(p.preview_image)
    &&& tags_view(s.tags) == tags_view(p.tags)
    &&& s.goes_live_at == p.goes_live_at
    &&& s.order == p.order
}

impl SeriesPostSummary {
    /// The summary of a series member: every field but the content and the series.
    pub fn from_post(p: &Post) -> (r: Self)
        ensures
            member_summarizes(r, *p),
    {
        SeriesPostSummary {
            slug: p.slug.clone(),
            title: p.title.clone(),
            subtitle: clone_opt(&p.subtitle),
            preview_text: p.preview_text.clone(),
            preview_image: clone_opt(&p.preview_image),
            tags: clone_tags(&p.tags),
            goes_live_at: p.goes_live_at,
            order: p.order,
        }
    }
}

/// A series as the index holds it: its settings and its member slugs in series order.
#[derive(Clone, Debug)]
pub struct SeriesData {
    pub slug: String,
    pub config: SeriesConfig,
    pub post_slugs: Vec<String>,
}

/// The page size a listing uses: 50 unless asked, at most 500.
pub open spec fn effective_limit(limit: Option<usize>) -> usize {
    match limit {
        Some(l) => if l > MAX_PAGE_SIZE {
            MAX_PAGE_SIZE
        } else {
            l
        },
        None => DEFAULT_PAGE_SIZE,
    }
}

/// The offset a listing uses: 0 unless asked.
pub open spec fn effective_offset(offset: Option<usize>) -> usize {
    match offset {
        Some(o) => o,
        None => 0,
    }
}

/// Number of items on a page at `offset` of at most `limit` items, out of `total`.
pub open spec fn page_len(total: int, offset: int, limit: int) -> int {
    if offset >= total {
        0
    } else if total - offset < limit {
        total - offset
    } else {
        limit
    }
}

/// Whether a listing with `opts` includes an item with publication time `g` at `now`:
/// live items always, drafts and scheduled items only when asked for.
pub open spec fn listed(g: Option<Timestamp>, opts: ListOptions, now: Timestamp) -> bool {
    match visibility_at(g, now) {
        Visibility::Draft => opts.include_drafts,
        Visibility::Scheduled => opts.include_scheduled,
        Visibility::Live => true,
    }
}

fn is_listed(g: Option<Timestamp>, opts: &ListOptions, now: &Timestamp) -> (r: bool)
    ensures
        r == listed(g, *opts, *now),
{
    match visibility(g, now) {
        Visibility::Draft => opts.include_drafts,
        Visibility::Scheduled => opts.include_scheduled,
        Visibility::Live => true,
    }
}

/// The listing key of an item: published items first, newest first, then by slug.
pub open spec fn listing_key(g: Option<Timestamp>, slug: Seq<char>) -> KeyView {
    match g {
        Some(t) => KeyView {
            present: true,
            major: -(t.secs as int),
            minor: -(t.nanos as int),
            slug: encode_utf8(slug),
        },
        None => KeyView { present: false, major: 0, minor: 0, slug: encode_utf8(slug) },
    }
}

fn make_listing_key(g: Option<Timestamp>, slug: &String) -> (r: SortKey)
    ensures
        r.kv() == listing_key(g, slug@),
{
    let bytes = slug.as_str().as_bytes_vec();
    match g {
        Some(t) => SortKey {
            present: true,
            major: -(t.secs as i128),
            minor: -(t.nanos as i128),
            slug: bytes,
        },
        None => SortKey { present: false, major: 0, minor: 0, slug: bytes },
    }
}

/// The listing keys of posts.
pub open spec fn post_keys(posts: Seq<Post>) -> Seq<KeyView> {
    posts.map_values(|p: Post| listing_key(p.goes_live_at, p.slug@))
}

/// Which posts a listing with `opts` includes at `now`.
pub open spec fn post_selection(posts: Seq<Post>, opts: ListOptions, now: Timestamp) -> Seq<bool> {
    posts.map_values(|p: Post| listed(p.goes_live_at, opts, now))
}

/// The slugs of `posts` are pairwise different.
pub open spec fn post_slugs_unique(posts: Seq<Post>) -> bool {
    forall|i: int, j: int| 0 <= i < j < posts.len() ==> posts[i].slug@ != posts[j].slug@
}

/// The slugs of `series` are pairwise different.
pub open spec fn series_slugs_unique(series: Seq<SeriesData>) -> bool {
    forall|i: int, j: int| 0 <= i < j < series.len() ==> series[i].slug@ != series[j].slug@
}

proof fn lemma_encode_injective(a: Seq<char>, b: Seq<char>)
    requires
        a != b,
    ensures
        encode_utf8(a) != encode_utf8(b),
{
    if encode_utf8(a) == encode_utf8(b) {
        assert(decode_utf8(encode_utf8(a)) == a);
        assert(decode_utf8(encode_utf8(b)) == b);
    }
}

/// The items of a page: `order[offset..]`, at most `limit` of them.
fn page_of(order: &Vec<usize>, offset: usize, limit: usize) -> (r: (usize, usize))
    ensures
        r.0 <= r.1 <= order@.len(),
        r.1 - r.0 == page_len(order@.len() as int, offset as int, limit as int),
        r.0 == offset || r.0 == r.1,
{
    let total = order.len();
    if offset >= total {
        (total, total)
    } else if total - offset < limit {
        (offset, total)
    } else {
        (offset, offset + limit)
    }
}

/// The content of the service: posts and series, with an ETag over them.
#[derive(Debug)]
pub struct ContentCache {
    posts: Vec<Post>,
    series: Vec<SeriesData>,
    etag: String,
}

impl ContentCache {
    pub closed spec fn posts(&self) -> Seq<Post> {
        self.posts@
    }

    pub closed spec fn series(&self) -> Seq<SeriesData> {
        self.series@
    }

    pub closed spec fn etag_view(&self) -> Seq<char> {
        self.etag@
    }

    /// Slugs are unique; the ETag is the one of the content.
    pub open spec fn wf(&self) -> bool {
        &&& post_slugs_unique(self.posts())
        &&& series_slugs_unique(self.series())
        &&& forall|k: int| 0 <= k < self.series().len() ==> members_of_series(
            strings_view(#[trigger] self.series()[k].post_slugs@),
            self.posts(),
            self.series()[k].slug@,
        )
        &&& slug_orders_exist_posts(self.posts())
        &&& slug_orders_exist_series(self.series())
        &&& self.etag_view() == etag_of(self.posts(), self.series())
        &&& self.etag_view().len() == 66
    }

    /// One page of the posts that `opts` selects at time `now`, in listing order
    /// (published first, newest first, then by slug).
    pub fn list_posts_at(&self, opts: &ListOptions, now: &Timestamp) -> (r: ListResult<PostSummary>)
        requires
            self.wf(),
        ensures
            r.limit == effective_limit(opts.limit),
            r.offset == effective_offset(opts.offset),
            exists|order: Seq<int>|
                {
                    &&& sorted_selection(
                        order,
                        post_keys(self.posts()),
                        post_selection(self.posts(), *opts, *now),
                    )
                    &&& r.total == order.len()
                    &&& r.items@.len() == page_len(order.len() as int, r.offset as int, r.limit as int)
                    &&& forall|j: int|
                        0 <= j < r.items@.len() ==> summarizes(
                            #[trigger] r.items@[j],
                            self.posts()[order[r.offset + j]],
                        )
                },
            opts.limit == Some(0usize) ==> r.items@.len() == 0,
            r.offset >= r.total ==> r.items@.len() == 0,
            r.items@.len() <= MAX_PAGE_SIZE,
    {
        let limit = match opts.limit {
            Some(l) => if l > MAX_PAGE_SIZE {
                MAX_PAGE_SIZE
            } else {
                l
            },
            None => DEFAULT_PAGE_SIZE,
        };
        let offset = match opts.offset {
            Some(o) => o,
            None => 0,
        };
        let mut keys: Vec<SortKey> = Vec::new();
        let mut selected: Vec<bool> = Vec::new();
        let n = self.posts.len();
        let mut i: usize = 0;
        while i < n
            invariant
                n == self.posts@.len(),
                i <= n,
                views_of(keys@) == post_keys(self.posts@).subrange(0, i as int),
                selected@ == post_selection(self.posts@, *opts, *now).subrange(0, i as int),
            decreases n - i,
        {
            let p = &self.posts[i];
            let key = make_listing_key(p.goes_live_at, &p.slug);
            assert(key.kv() == post_keys(self.posts@)[i as int]);
            proof {
                lemma_map_values_push(keys@, key, |k: SortKey| k.kv());
                lemma_subrange_push(post_keys(self.posts@), i as int);
            }
            keys.push(key);
            selected.push(is_listed(p.goes_live_at, opts, now));
            i = i + 1;
            assert(views_of(keys@) =~= post_keys(self.posts@).subrange(0, i as int));
            assert(selected@ =~= post_selection(self.posts@, *opts, *now).subrange(0, i as int));
        }
        assert(views_of(keys@) =~= post_keys(self.posts@));
        assert(selected@ =~= post_selection(self.posts@, *opts, *now));
        proof {
            let kv = views_of(keys@);
            assert forall|a: int, b: int| 0 <= a < b < kv.len() implies kv[a].slug != kv[b].slug by {
                lemma_encode_injective(self.posts@[a].slug@, self.posts@[b].slug@);
            }
        }
        let order = sort_selection(&keys, &selected);
        let (start, end) = page_of(&order, offset, limit);
        let mut items: Vec<PostSummary> = Vec::new();
        let mut j = start;
        while j < end
            invariant
                start <= j <= end <= order@.len(),
                start == offset || start == end,
                items@.len() == j - start,
                sorted_selection(as_ints(order@), post_keys(self.posts@), post_selection(self.posts@, *opts, *now)),
                forall|t: int| 0 <= t < items@.len() ==> summarizes(
                    #[trigger] items@[t],
                    self.posts@[order@[start + t] as int],
                ),
            decreases end - j,
        {
            let k = order[j];
            assert(as_ints(order@)[j as int] == k as int);
            items.push(PostSummary::from_post(&self.posts[k]));
            j = j + 1;
        }
        let r = ListResult { items, total: order.len(), limit, offset };
        assert(as_ints(order@).len() == order@.len());
        assert forall|t: int| 0 <= t < r.items@.len() implies summarizes(
            #[trigger] r.items@[t],
            self.posts@[as_ints(order@)[r.offset + t]],
        ) by {
            assert(start == offset);
        }
        r
    }

    /// Build the index from loaded posts (series members included, each with its series
    /// slug) and series. Of posts or series that share a slug, the last one given is kept.
    /// Series members are ordered by their `order` (those without one last), then by slug.
    pub fn from_entries(posts: Vec<Post>, series: Vec<SeriesEntry>) -> (r: Self)
        ensures
            r.wf(),
            keeps_last_posts(r.posts(), posts@),
            forall|k: int| 0 <= k < r.series().len() ==> built_from_entry(#[trigger] r.series()[k], series@),
            forall|i: int| 0 <= i < series@.len() ==> has_series_slug(r.series(), #[trigger] series@[i].slug@),
    {
        let kept = keep_last_posts(posts);
        let entries = keep_last_series(series);
        let ghost ev = entries@;
        let mut rest = entries;
        let mut data: Vec<SeriesData> = Vec::new();
        while rest.len() > 0
            invariant
                post_slugs_unique(kept@),
                rest@ == ev.subrange(0, rest@.len() as int),
                rest@.len() + data@.len() == ev.len(),
                forall|i: int, j: int| 0 <= i < j < ev.len() ==> ev[i].slug@ != ev[j].slug@,
                forall|k: int| 0 <= k < ev.len() ==> series@.contains(#[trigger] ev[k]),
                forall|k: int| 0 <= k < data@.len() ==> built_from(#[trigger] data@[k], ev[ev.len() - 1 - k]),
                forall|k: int| 0 <= k < data@.len() ==> members_of_series(strings_view(#[trigger] data@[k].post_slugs@), kept@, data@[k].slug@),
                forall|i: int| rest@.len() <= i < ev.len() ==> has_series_slug(data@, #[trigger] ev[i].slug@),
            decreases rest@.len(),
        {
            let e = rest.pop().unwrap();
            assert(e == ev[rest@.len() as int]);
            let ordered = order_members(&kept, &e.slug);
            let ghost old_data = data@;
            data.push(SeriesData { slug: e.slug, config: e.config, post_slugs: ordered });
            assert forall|i: int| rest@.len() <= i < ev.len() implies has_series_slug(data@, #[trigger] ev[i].slug@) by {
                if i == rest@.len() {
                    assert(data@[old_data.len() as int].slug@ == ev[i].slug@);
                } else {
                    assert(has_series_slug(old_data, ev[i].slug@));
                    let k = choose|k: int| 0 <= k < old_data.len() && #[trigger] old_data[k].slug@ == ev[i].slug@;
                    assert(data@[k] == old_data[k]);
                }
            }
            assert(rest@ =~= ev.subrange(0, rest@.len() as int));
        }
        assert(series_slugs_unique(data@)) by {
            assert forall|i: int, j: int| 0 <= i < j < data@.len() implies data@[i].slug@ != data@[j].slug@ by {
                assert(data@[i].slug@ == ev[ev.len() - 1 - i].slug@);
                assert(data@[j].slug@ == ev[ev.len() - 1 - j].slug@);
            }
        }
        assert forall|i: int| 0 <= i < series@.len() implies has_series_slug(data@, #[trigger] series@[i].slug@) by {
            assert(has_entry_slug(ev, series@[i].slug@));
            let k = choose|k: int| 0 <= k < ev.len() && #[trigger] ev[k].slug@ == series@[i].slug@;
            assert(has_series_slug(data@, ev[k].slug@));
        }
        let etag = compute_etag(&kept, &data);
        let r = ContentCache { posts: kept, series: data, etag };
        assert forall|k: int| 0 <= k < r.series().len() implies built_from_entry(#[trigger] r.series()[k], series@) by {
            let e = ev[ev.len() - 1 - k];
            assert(series@.contains(e));
            let i = choose|i: int| 0 <= i < series@.len() && series@[i] == e;
            assert(built_from(r.series()[k], series@[i]));
        }
        r
    }

    /// One page of the series that `opts` selects at time `now`, in listing order
    /// (published first, newest first, then by slug).
    pub fn list_series_at(&self, opts: &ListOptions, now: &Timestamp) -> (r: ListResult<SeriesSummary>)
        requires
            self.wf(),
        ensures
            r.limit == effective_limit(opts.limit),
            r.offset == effective_offset(opts.offset),
            exists|order: Seq<int>|
                {
                    &&& sorted_selection(
                        order,
                        series_keys(self.series()),
                        series_selection(self.series(), *opts, *now),
                    )
                    &&& r.total == order.len()
                    &&& r.items@.len() == page_len(order.len() as int, r.offset as int, r.limit as int)
                    &&& forall|j: int|
                        0 <= j < r.items@.len() ==> series_summarizes(
                            #[trigger] r.items@[j],
                            self.series()[order[r.offset + j]],
                        )
                },
            opts.limit == Some(0usize) ==> r.items@.len() == 0,
            r.offset >= r.total ==> r.items@.len() == 0,
            r.items@.len() <= MAX_PAGE_SIZE,
    {
        let limit = match opts.limit {
            Some(l) => if l > MAX_PAGE_SIZE {
                MAX_PAGE_SIZE
            } else {
                l
            },
            None => DEFAULT_PAGE_SIZE,
        };
        let offset = match opts.offset {
            Some(o) => o,
            None => 0,
        };
        let mut keys: Vec<SortKey> = Vec::new();
        let mut selected: Vec<bool> = Vec::new();
        let n = self.series.len();
        let mut i: usize = 0;
        while i < n
            invariant
                n == self.series@.len(),
                i <= n,
                views_of(keys@) == series_keys(self.series@).subrange(0, i as int),
                selected@ == series_selection(self.series@, *opts, *now).subrange(0, i as int),
            decreases n - i,
        {
            let d = &self.series[i];
            let key = make_listing_key(d.config.goes_live_at, &d.slug);
            assert(key.kv() == series_keys(self.series@)[i as int]);
            proof {
                lemma_map_values_push(keys@, key, |k: SortKey| k.kv());
                lemma_subrange_push(series_keys(self.series@), i as int);
            }
            keys.push(key);
            selected.push(is_listed(d.config.goes_live_at, opts, now));
            i = i + 1;
            assert(selected@ =~= series_selection(self.series@, *opts, *now).subrange(0, i as int));
        }
        assert(views_of(keys@) =~= series_keys(self.series@));
        assert(selected@ =~= series_selection(self.series@, *opts, *now));
        proof {
            let kv = views_of(keys@);
            assert forall|a: int, b: int| 0 <= a < b < kv.len() implies kv[a].slug != kv[b].slug by {
                lemma_encode_injective(self.series@[a].slug@, self.series@[b].slug@);
            }
        }
        let order = sort_selection(&keys, &selected);
        let (start, end) = page_of(&order, offset, limit);
        let mut items: Vec<SeriesSummary> = Vec::new();
        let mut j = start;
        while j < end
            invariant
                start <= j <= end <= order@.len(),
                start == offset || start == end,
                items@.len() == j - start,
                sorted_selection(as_ints(order@), series_keys(self.series@), series_selection(self.series@, *opts, *now)),
                forall|t: int| 0 <= t < items@.len() ==> series_summarizes(
                    #[trigger] items@[t],
                    self.series@[order@[start + t] as int],
                ),
            decreases end - j,
        {
            let k = order[j];
            assert(as_ints(order@)[j as int] == k as int);
            let d = &self.series[k];
            items.push(
                SeriesSummary {
                    slug: d.slug.clone(),
                    title: d.config.title.clone(),
                    description: clone_opt(&d.config.description),
                    preview_image: clone_opt(&d.config.preview_image),
                    goes_live_at: d.config.goes_live_at,
                    post_count: d.post_slugs.len(),
                },
            );
            j = j + 1;
        }
        let r = ListResult { items, total: order.len(), limit, offset };
        assert forall|t: int| 0 <= t < r.items@.len() implies series_summarizes(
            #[trigger] r.items@[t],
            self.series@[as_ints(order@)[r.offset + t]],
        ) by {
            assert(start == offset);
        }
        r
    }

    /// The post with slug `slug`, whatever its visibility.
    pub fn get_post(&self, slug: &str) -> (r: Result<Option<Post>, Error>)
        requires
            self.wf(),
        ensures
            r is Ok,
            r->Ok_0 is Some <==> has_slug(self.posts(), slug@),
            r->Ok_0 is Some ==> post_index(self.posts(), slug@) is Some && same_post(
                r->Ok_0->0,
                self.posts()[post_index(self.posts(), slug@)->0],
            ),
    {
        match find_post(&self.posts, slug) {
            Some(i) => Ok(Some(copy_post(&self.posts[i]))),
            None => Ok(None),
        }
    }

    /// The series with slug `slug`, whatever its visibility, with its member posts in
    /// series order (members without a post are left out).
    pub fn get_series(&self, slug: &str) -> (r: Result<Option<Series>, Error>)
        requires
            self.wf(),
        ensures
            r is Ok,
            r->Ok_0 is Some <==> exists|i: int| 0 <= i < self.series().len() && self.series()[i].slug@ == slug@,
            r->Ok_0 is Some ==> exists|i: int| 0 <= i < self.series().len() && {
                let d = #[trigger] self.series()[i];
                let s = r->Ok_0->0;
                &&& d.slug@ == slug@
                &&& s.slug@ == d.slug@
                &&& s.title@ == d.config.title@
                &&& opt_view(s.description) == opt_view(d.config.description)
                &&& opt_view(s.preview_image) == opt_view(d.config.preview_image)
                &&& s.goes_live_at == d.config.goes_live_at
                &&& members_of_series(strings_view(d.post_slugs@), self.posts(), slug@)
                &&& summarizes_members(s.posts@, strings_view(d.post_slugs@), self.posts())
            },
    {
        let mut i: usize = 0;
        while i < self.series.len()
            invariant
                self.wf(),
                i <= self.series@.len(),
                forall|k: int| 0 <= k < i ==> self.series@[k].slug@ != slug@,
            decreases self.series@.len() - i,
        {
            if crate::text::str_eq(self.series[i].slug.as_str(), slug) {
                let d = &self.series[i];
                let ghost sv = strings_view(d.post_slugs@);
                let mut posts: Vec<SeriesPostSummary> = Vec::new();
                let mut j: usize = 0;
                while j < d.post_slugs.len()
                    invariant
                        self.wf(),
                        j <= d.post_slugs@.len(),
                        sv == strings_view(d.post_slugs@),
                        posts@.len() == found_members(self.posts@, sv.subrange(0, j as int)).len(),
                        forall|t: int| 0 <= t < posts@.len() ==> member_summarizes(
                            #[trigger] posts@[t],
                            self.posts@[found_members(self.posts@, sv.subrange(0, j as int))[t]],
                        ),
                    decreases d.post_slugs@.len() - j,
                {
                    let ghost prev = found_members(self.posts@, sv.subrange(0, j as int));
                    proof {
                        assert(sv.subrange(0, j + 1).drop_last() =~= sv.subrange(0, j as int));
                        assert(sv.subrange(0, j + 1).last() == d.post_slugs@[j as int]@);
                    }
                    match find_post(&self.posts, d.post_slugs[j].as_str()) {
                        Some(k) => {
                            posts.push(SeriesPostSummary::from_post(&self.posts[k]));
                        },
                        None => {},
                    }
                    j = j + 1;
                }
                assert(sv.subrange(0, sv.len() as int) =~= sv);
                proof {
                    assert(members_of_series(sv, self.posts@, self.series@[i as int].slug@));
                    assert forall|k: int| 0 <= k < sv.len() implies #[trigger] post_index(self.posts@, sv[k]) is Some by {
                        assert(has_member_post(self.posts@, sv[k], self.series@[i as int].slug@));
                    }
                    lemma_found_members_all(self.posts@, sv);
                }
                let s = Series {
                    slug: d.slug.clone(),
                    title: d.config.title.clone(),
                    description: clone_opt(&d.config.description),
                    preview_image: clone_opt(&d.config.preview_image),
                    goes_live_at: d.config.goes_live_at,
                    posts,
                };
                proof {
                    let fm = found_members(self.posts@, sv);
                    assert forall|j: int| 0 <= j < s.posts@.len() implies post_index(self.posts(), sv[j]) is Some
                        && member_summarizes(#[trigger] s.posts@[j], self.posts()[post_index(self.posts(), sv[j])->0]) by {
                        assert(fm[j] == post_index(self.posts@, sv[j])->0);
                    }
                    assert(summarizes_members(s.posts@, sv, self.posts()));
                }
                return Ok(Some(s));
            }
            i = i + 1;
        }
        Ok(None)
    }

    /// The problems found in the content: empty titles, previews and contents of posts,
    /// and empty titles of series; posts first, each in index order.
    pub fn validate(&self) -> (r: Vec<ValidationError>)
        requires
            self.wf(),
        ensures
            issues_view(r@) == posts_issues(self.posts()) + series_issues(self.series()),
    {
        let mut errors: Vec<ValidationError> = Vec::new();
        let mut i: usize = 0;
        while i < self.posts.len()
            invariant
                i <= self.posts@.len(),
                issues_view(errors@) == posts_issues(self.posts@.subrange(0, i as int)),
            decreases self.posts@.len() - i,
        {
            let p = &self.posts[i];
            let ghost before = errors@;
            if p.title.as_str().unicode_len() == 0 {
                errors.push(issue(&p.slug, "/config.toml", "Title cannot be empty"));
            }
            if p.preview_text.as_str().unicode_len() == 0 {
                errors.push(issue(&p.slug, "/config.toml", "preview_text cannot be empty"));
            }
            if p.content.as_str().unicode_len() == 0 {
                errors.push(issue(&p.slug, "/content.mdx", "Content cannot be empty"));
            }
            proof {
                assert(self.posts@.subrange(0, i + 1).drop_last() =~= self.posts@.subrange(0, i as int));
                assert(issues_view(errors@) =~= issues_view(before) + post_issues(*p));
            }
            i = i + 1;
        }
        assert(self.posts@.subrange(0, self.posts@.len() as int) =~= self.posts@);
        let ghost post_part = errors@;
        let mut k: usize = 0;
        while k < self.series.len()
            invariant
                k <= self.series@.len(),
                issues_view(errors@) == issues_view(post_part) + series_issues(self.series@.subrange(0, k as int)),
            decreases self.series@.len() - k,
        {
            let d = &self.series[k];
            let ghost before = errors@;
            if d.config.title.as_str().unicode_len() == 0 {
                errors.push(issue(&d.slug, "/series.toml", "Title cannot be empty"));
            }
            proof {
                assert(self.series@.subrange(0, k + 1).drop_last() =~= self.series@.subrange(0, k as int));
                assert(issues_view(errors@) =~= issues_view(before) + series_issue(*d));
            }
            k = k + 1;
        }
        assert(self.series@.subrange(0, self.series@.len() as int) =~= self.series@);
        errors
    }

    /// The ETag of the content (66 characters: 64 hexadecimal digits in quotes).
    pub fn etag(&self) -> (r: String)
        requires
            self.wf(),
        ensures
            r@ == etag_of(self.posts(), self.series()),
            r@.len() == 66,
    {
        self.etag.clone()
    }

    /// One page of the posts that `opts` selects now; see [`Self::list_posts_at`].
    pub fn list_posts(&self, opts: &ListOptions) -> (r: Result<ListResult<PostSummary>, Error>)
        requires
            self.wf(),
        ensures
            r is Ok,
            r->Ok_0.limit == effective_limit(opts.limit),
            r->Ok_0.offset == effective_offset(opts.offset),
            opts.limit == Some(0usize) ==> r->Ok_0.items@.len() == 0,
            r->Ok_0.offset >= r->Ok_0.total ==> r->Ok_0.items@.len() == 0,
            exists|now: Timestamp, order: Seq<int>|
                {
                    &&& sorted_selection(
                        order,
                        post_keys(self.posts()),
                        post_selection(self.posts(), *opts, now),
                    )
                    &&& r->Ok_0.total == order.len()
                    &&& r->Ok_0.items@.len() == page_len(order.len() as int, r->Ok_0.offset as int, r->Ok_0.limit as int)
                    &&& forall|j: int|
                        0 <= j < r->Ok_0.items@.len() ==> summarizes(
                            #[trigger] r->Ok_0.items@[j],
                            self.posts()[order[r->Ok_0.offset + j]],
                        )
                },
    {
        let now = crate::time::now();
        Ok(self.list_posts_at(opts, &now))
    }

    /// One page of the series that `opts` selects now; see [`Self::list_series_at`].
    pub fn list_series(&self, opts: &ListOptions) -> (r: Result<ListResult<SeriesSummary>, Error>)
        requires
            self.wf(),
        ensures
            r is Ok,
            r->Ok_0.limit == effective_limit(opts.limit),
            r->Ok_0.offset == effective_offset(opts.offset),
            opts.limit == Some(0usize) ==> r->Ok_0.items@.len() == 0,
            r->Ok_0.offset >= r->Ok_0.total ==> r->Ok_0.items@.len() == 0,
            exists|now: Timestamp, order: Seq<int>|
                {
                    &&& sorted_selection(
                        order,
                        series_keys(self.series()),
                        series_selection(self.series(), *opts, now),
                    )
                    &&& r->Ok_0.total == order.len()
                    &&& r->Ok_0.items@.len() == page_len(order.len() as int, r->Ok_0.offset as int, r->Ok_0.limit as int)
                    &&& forall|j: int|
                        0 <= j < r->Ok_0.items@.len() ==> series_summarizes(
                            #[trigger] r->Ok_0.items@[j],
                            self.series()[order[r->Ok_0.offset + j]],
                        )
                },
    {
        let now = crate::time::now();
        Ok(self.list_series_at(opts, &now))
    }

    /// Number of posts.
    pub fn post_count(&self) -> (r: usize)
        ensures
            r == self.posts().len(),
    {
        self.posts.len()
    }

    /// Number of series.
    pub fn series_count(&self) -> (r: usize)
        ensures
            r == self.series().len(),
    {
        self.series.len()
    }
}

/// `d` is what the index makes of the loaded series `e`: same slug and settings.
pub open spec fn built_from(d: SeriesData, e: SeriesEntry) -> bool {
    &&& d.slug@ == e.slug@
    &&& d.config == e.config
}

/// `d` is what the index makes of one of the loaded series `entries`.
pub open spec fn built_from_entry(d: SeriesData, entries: Seq<SeriesEntry>) -> bool {
    exists|i: int| 0 <= i < entries.len() && built_from(d, #[trigger] entries[i])
}

/// `s` is the summary of series `d`.
pub open spec fn series_summarizes(s: SeriesSummary, d: SeriesData) -> bool {
    &&& s.slug@ == d.slug@
    &&& s.title@ == d.config.title@
    &&& opt_view(s.description) == opt_view(d.config.description)
    &&& opt_view(s.preview_image) == opt_view(d.config.preview_image)
    &&& s.goes_live_at == d.config.goes_live_at
    &&& s.post_count == d.post_slugs@.len()
}

/// The listing keys of series.
pub open spec fn series_keys(series: Seq<SeriesData>) -> Seq<KeyView> {
    series.map_values(|d: SeriesData| listing_key(d.config.goes_live_at, d.slug@))
}

/// Which series a listing with `opts` includes at `now`.
pub open spec fn series_selection(series: Seq<SeriesData>, opts: ListOptions, now: Timestamp) -> Seq<bool> {
    series.map_values(|d: SeriesData| listed(d.config.goes_live_at, opts, now))
}

/// `sp` summarizes, in order, the posts that carry the slugs `members`.
pub open spec fn summarizes_members(sp: Seq<SeriesPostSummary>, members: Seq<Seq<char>>, posts: Seq<Post>) -> bool {
    &&& sp.len() == members.len()
    &&& forall|j: int| 0 <= j < sp.len() ==> post_index(posts, members[j]) is Some && member_summarizes(
        #[trigger] sp[j],
        posts[post_index(posts, members[j])->0],
    )
}

/// When every slug has a post, each is found, in order.
proof fn lemma_found_members_all(posts: Seq<Post>, slugs: Seq<Seq<char>>)
    requires
        forall|k: int| 0 <= k < slugs.len() ==> #[trigger] post_index(posts, slugs[k]) is Some,
    ensures
        found_members(posts, slugs).len() == slugs.len(),
        forall|j: int| 0 <= j < slugs.len() ==> #[trigger] found_members(posts, slugs)[j] == post_index(posts, slugs[j])->0,
    decreases slugs.len(),
{
    if slugs.len() > 0 {
        let r = slugs.drop_last();
        assert forall|k: int| 0 <= k < r.len() implies #[trigger] post_index(posts, r[k]) is Some by {
            assert(r[k] == slugs[k]);
        }
        lemma_found_members_all(posts, r);
        assert(post_index(posts, slugs[slugs.len() - 1]) is Some);
        assert forall|j: int| 0 <= j < slugs.len() implies #[trigger] found_members(posts, slugs)[j] == post_index(posts, slugs[j])->0 by {
            if j < r.len() {
                assert(r[j] == slugs[j]);
            }
        }
    }
}

/// The indices of the posts that carry `slugs`, in order, skipping slugs without a post.
pub open spec fn found_members(posts: Seq<Post>, slugs: Seq<Seq<char>>) -> Seq<int>
    decreases slugs.len(),
{
    if slugs.len() == 0 {
        Seq::empty()
    } else {
        match post_index(posts, slugs.last()) {
            Some(i) => found_members(posts, slugs.drop_last()).push(i),
            None => found_members(posts, slugs.drop_last()),
        }
    }
}

pub open spec fn issues_view(v: Seq<ValidationError>) -> Seq<(Seq<char>, Seq<char>)> {
    v.map_values(|e: ValidationError| (e.path@, e.message@))
}

/// The problems of one post.
pub open spec fn post_issues(p: Post) -> Seq<(Seq<char>, Seq<char>)> {
    let config = p.slug@ + "/config.toml"@;
    let a = if p.title@.len() == 0 {
        seq![(config, "Title cannot be empty"@)]
    } else {
        Seq::empty()
    };
    let b = if p.preview_text@.len() == 0 {
        seq![(config, "preview_text cannot be empty"@)]
    } else {
        Seq::empty()
    };
    let c = if p.content@.len() == 0 {
        seq![(p.slug@ + "/content.mdx"@, "Content cannot be empty"@)]
    } else {
        Seq::empty()
    };
    a + b + c
}

/// The problems of one series.
pub open spec fn series_issue(d: SeriesData) -> Seq<(Seq<char>, Seq<char>)> {
    if d.config.title@.len() == 0 {
        seq![(d.slug@ + "/series.toml"@, "Title cannot be empty"@)]
    } else {
        Seq::empty()
    }
}

pub open spec fn posts_issues(posts: Seq<Post>) -> Seq<(Seq<char>, Seq<char>)>
    decreases posts.len(),
{
    if posts.len() == 0 {
        Seq::empty()
    } else {
        posts_issues(posts.drop_last()) + post_issues(posts.last())
    }
}

pub open spec fn series_issues(series: Seq<SeriesData>) -> Seq<(Seq<char>, Seq<char>)>
    decreases series.len(),
{
    if series.len() == 0 {
        Seq::empty()
    } else {
        series_issues(series.drop_last()) + series_issue(series.last())
    }
}

fn issue(slug: &String, suffix: &str, message: &str) -> (r: ValidationError)
    ensures
        r.path@ == slug@ + suffix@,
        r.message@ == message@,
{
    ValidationError { path: slug.clone().concat(suffix), message: String::from_str(message) }
}

/// A series as loaded from disk: its slug and settings. Its members are the posts whose
/// `series_slug` is its slug.
#[derive(Clone, Debug)]
pub struct SeriesEntry {
    pub slug: String,
    pub config: SeriesConfig,
}

/// Whether `posts[i]` is the last post of `posts` with its slug.
pub open spec fn last_with_slug(posts: Seq<Post>, i: int) -> bool {
    forall|j: int| i < j < posts.len() ==> posts[j].slug@ != posts[i].slug@
}

/// Whether `series[i]` is the last series of `series` with its slug.
pub open spec fn last_series_with_slug(series: Seq<SeriesEntry>, i: int) -> bool {
    forall|j: int| i < j < series.len() ==> series[j].slug@ != series[i].slug@
}

/// `p` is a post of `input`, at `lo` or later, that is the last with its slug.
pub open spec fn comes_from_last(input: Seq<Post>, p: Post, lo: int) -> bool {
    exists|i: int| lo <= i < input.len() && last_with_slug(input, i) && p == #[trigger] input[i]
}

/// `kept` holds, once each, the posts of `input` that are the last with their slug.
pub open spec fn keeps_last_posts(kept: Seq<Post>, input: Seq<Post>) -> bool {
    &&& post_slugs_unique(kept)
    &&& forall|k: int| 0 <= k < kept.len() ==> comes_from_last(input, #[trigger] kept[k], 0)
    &&& forall|i: int| 0 <= i < input.len() && #[trigger] last_with_slug(input, i) ==> kept.contains(input[i])
}

/// The member key of a post: posts with an order first, by order, then by slug.
pub open spec fn member_key(order: Option<i32>, slug: Seq<char>) -> KeyView {
    match order {
        Some(o) => KeyView { present: true, major: o as int, minor: 0, slug: encode_utf8(slug) },
        None => KeyView { present: false, major: 0, minor: 0, slug: encode_utf8(slug) },
    }
}

/// The index of the post with slug `slug`, if any.
pub open spec fn post_index(posts: Seq<Post>, slug: Seq<char>) -> Option<int> {
    if exists|i: int| 0 <= i < posts.len() && posts[i].slug@ == slug {
        Some(choose|i: int| 0 <= i < posts.len() && posts[i].slug@ == slug)
    } else {
        None
    }
}

/// Whether post `p` belongs to the series `slug`.
pub open spec fn in_series(p: Post, slug: Seq<char>) -> bool {
    opt_view(p.series_slug) == Some(slug)
}

/// The member keys of posts.
pub open spec fn member_keys(posts: Seq<Post>) -> Seq<KeyView> {
    posts.map_values(|p: Post| member_key(p.order, p.slug@))
}

/// Which posts belong to the series `slug`.
pub open spec fn series_members_selection(posts: Seq<Post>, slug: Seq<char>) -> Seq<bool> {
    posts.map_values(|p: Post| in_series(p, slug))
}

/// Some post of `posts` has slug `member` and belongs to the series `slug`.
pub open spec fn has_member_post(posts: Seq<Post>, member: Seq<char>, slug: Seq<char>) -> bool {
    exists|i: int| 0 <= i < posts.len() && #[trigger] posts[i].slug@ == member && in_series(posts[i], slug)
}

/// `members` are the slugs of exactly the posts of `posts` whose `series_slug` is `slug`,
/// each once, in series order: posts with an order first, by order, then by slug. Each
/// member resolves to a post of the series.
pub open spec fn members_of_series(members: Seq<Seq<char>>, posts: Seq<Post>, slug: Seq<char>) -> bool {
    &&& exists|order: Seq<int>|
        sorted_selection(order, member_keys(posts), series_members_selection(posts, slug))
            && members == order.map_values(|i: int| posts[i].slug@)
    &&& forall|k: int| 0 <= k < members.len() ==> has_member_post(posts, #[trigger] members[k], slug)
}

fn find_post(posts: &Vec<Post>, slug: &str) -> (r: Option<usize>)
    requires
        post_slugs_unique(posts@),
    ensures
        match r {
            Some(i) => post_index(posts@, slug@) == Some(i as int),
            None => post_index(posts@, slug@) is None,
        },
{
    let mut i: usize = 0;
    while i < posts.len()
        invariant
            i <= posts@.len(),
            post_slugs_unique(posts@),
            forall|k: int| 0 <= k < i ==> posts@[k].slug@ != slug@,
        decreases posts@.len() - i,
    {
        if crate::text::str_eq(posts[i].slug.as_str(), slug) {
            proof {
                let c = choose|c: int| 0 <= c < posts@.len() && posts@[c].slug@ == slug@;
                assert(c == i);
            }
            return Some(i);
        }
        i = i + 1;
    }
    None
}

fn contains_slug(v: &Vec<String>, slug: &str) -> (r: bool)
    ensures
        r == exists|k: int| 0 <= k < v@.len() && v@[k]@ == slug@,
{
    let mut i: usize = 0;
    while i < v.len()
        invariant
            i <= v@.len(),
            forall|k: int| 0 <= k < i ==> v@[k]@ != slug@,
        decreases v@.len() - i,
    {
        if crate::text::str_eq(v[i].as_str(), slug) {
            return true;
        }
        i = i + 1;
    }
    false
}

/// Some post of `posts` has slug `slug`.
pub open spec fn has_slug(posts: Seq<Post>, slug: Seq<char>) -> bool {
    exists|k: int| 0 <= k < posts.len() && #[trigger] posts[k].slug@ == slug
}

/// Keep, of the posts given, the last one with each slug.
fn keep_last_posts(posts: Vec<Post>) -> (r: Vec<Post>)
    ensures
        keeps_last_posts(r@, posts@),
{
    let ghost input = posts@;
    let mut rest = posts;
    let mut kept: Vec<Post> = Vec::new();
    let mut slugs: Vec<String> = Vec::new();
    while rest.len() > 0
        invariant
            rest@ == input.subrange(0, rest@.len() as int),
            rest@.len() <= input.len(),
            kept@.len() == slugs@.len(),
            forall|k: int| 0 <= k < kept@.len() ==> #[trigger] slugs@[k]@ == kept@[k].slug@,
            post_slugs_unique(kept@),
            forall|k: int| 0 <= k < kept@.len() ==> comes_from_last(input, #[trigger] kept@[k], rest@.len() as int),
            forall|i: int| rest@.len() <= i < input.len() ==> has_slug(kept@, #[trigger] input[i].slug@),
            forall|i: int| rest@.len() <= i < input.len() && #[trigger] last_with_slug(input, i) ==> kept@.contains(input[i]),
        decreases rest@.len(),
    {
        let p = rest.pop().unwrap();
        let ghost n = rest@.len() as int;
        assert(p == input[n]);
        if !contains_slug(&slugs, p.slug.as_str()) {
            proof {
                assert forall|j: int| n < j < input.len() implies input[j].slug@ != input[n].slug@ by {
                    assert(has_slug(kept@, input[j].slug@));
                    let k = choose|k: int| 0 <= k < kept@.len() && #[trigger] kept@[k].slug@ == input[j].slug@;
                    assert(slugs@[k]@ == kept@[k].slug@);
                }
                assert(last_with_slug(input, n));
            }
            let s = p.slug.clone();
            let ghost old_kept = kept@;
            kept.push(p);
            slugs.push(s);
            proof {
                assert forall|k: int| 0 <= k < kept@.len() implies comes_from_last(input, #[trigger] kept@[k], n) by {
                    if k < old_kept.len() {
                        assert(kept@[k] == old_kept[k]);
                        assert(comes_from_last(input, old_kept[k], n + 1));
                        let i = choose|i: int| n + 1 <= i < input.len() && last_with_slug(input, i) && old_kept[k] == #[trigger] input[i];
                    } else {
                        assert(kept@[k] == input[n]);
                    }
                }
                assert forall|i: int| n <= i < input.len() implies has_slug(kept@, #[trigger] input[i].slug@) by {
                    if i == n {
                        assert(kept@[old_kept.len() as int].slug@ == input[i].slug@);
                    } else {
                        assert(has_slug(old_kept, input[i].slug@));
                        let k = choose|k: int| 0 <= k < old_kept.len() && #[trigger] old_kept[k].slug@ == input[i].slug@;
                        assert(kept@[k] == old_kept[k]);
                    }
                }
                assert forall|i: int| n <= i < input.len() && #[trigger] last_with_slug(input, i) implies kept@.contains(input[i]) by {
                    if i == n {
                        assert(kept@[old_kept.len() as int] == input[i]);
                    } else {
                        assert(old_kept.contains(input[i]));
                        let k = choose|k: int| 0 <= k < old_kept.len() && old_kept[k] == input[i];
                        assert(kept@[k] == old_kept[k]);
                    }
                }
            }
        } else {
            proof {
                let k = choose|k: int| 0 <= k < slugs@.len() && slugs@[k]@ == p.slug@;
                assert(kept@[k].slug@ == input[n].slug@);
                assert(comes_from_last(input, kept@[k], n + 1));
                let i = choose|i: int| n + 1 <= i < input.len() && last_with_slug(input, i) && kept@[k] == #[trigger] input[i];
                assert(!last_with_slug(input, n));
                assert forall|k2: int| 0 <= k2 < kept@.len() implies comes_from_last(input, #[trigger] kept@[k2], n) by {
                    assert(comes_from_last(input, kept@[k2], n + 1));
                    let i2 = choose|i2: int| n + 1 <= i2 < input.len() && last_with_slug(input, i2) && kept@[k2] == #[trigger] input[i2];
                }
                assert forall|i2: int| n <= i2 < input.len() implies has_slug(kept@, #[trigger] input[i2].slug@) by {
                    if i2 == n {
                        assert(kept@[k].slug@ == input[i2].slug@);
                    }
                }
            }
        }
        assert(rest@ =~= input.subrange(0, rest@.len() as int));
    }
    kept
}

/// Some loaded series of `entries` has slug `slug`.
pub open spec fn has_entry_slug(entries: Seq<SeriesEntry>, slug: Seq<char>) -> bool {
    exists|k: int| 0 <= k < entries.len() && #[trigger] entries[k].slug@ == slug
}

/// Keep, of the series given, the last one with each slug.
fn keep_last_series(series: Vec<SeriesEntry>) -> (r: Vec<SeriesEntry>)
    ensures
        forall|i: int, j: int| 0 <= i < j < r@.len() ==> r@[i].slug@ != r@[j].slug@,
        forall|k: int| 0 <= k < r@.len() ==> series@.contains(#[trigger] r@[k]),
        forall|i: int| 0 <= i < series@.len() ==> has_entry_slug(r@, #[trigger] series@[i].slug@),
{
    let ghost input = series@;
    let mut rest = series;
    let mut kept: Vec<SeriesEntry> = Vec::new();
    let mut slugs: Vec<String> = Vec::new();
    while rest.len() > 0
        invariant
            rest@ == input.subrange(0, rest@.len() as int),
            rest@.len() <= input.len(),
            kept@.len() == slugs@.len(),
            forall|k: int| 0 <= k < kept@.len() ==> #[trigger] slugs@[k]@ == kept@[k].slug@,
            forall|i: int, j: int| 0 <= i < j < kept@.len() ==> kept@[i].slug@ != kept@[j].slug@,
            forall|k: int| 0 <= k < kept@.len() ==> input.contains(#[trigger] kept@[k]),
            forall|i: int| rest@.len() <= i < input.len() ==> has_entry_slug(kept@, #[trigger] input[i].slug@),
        decreases rest@.len(),
    {
        let e = rest.pop().unwrap();
        assert(e == input[rest@.len() as int]);
        if !contains_slug(&slugs, e.slug.as_str()) {
            assert forall|k: int| 0 <= k < kept@.len() implies kept@[k].slug@ != e.slug@ by {
                assert(slugs@[k]@ == kept@[k].slug@);
            }
            let sl = e.slug.clone();
            let ghost old_kept = kept@;
            kept.push(e);
            slugs.push(sl);
            assert forall|k: int| 0 <= k < kept@.len() implies input.contains(#[trigger] kept@[k]) by {
                if k < old_kept.len() {
                    assert(kept@[k] == old_kept[k]);
                } else {
                    assert(kept@[k] == input[rest@.len() as int]);
                }
            }
            assert forall|i: int| rest@.len() <= i < input.len() implies has_entry_slug(kept@, #[trigger] input[i].slug@) by {
                if i == rest@.len() {
                    assert(kept@[old_kept.len() as int].slug@ == input[i].slug@);
                } else {
                    assert(has_entry_slug(old_kept, input[i].slug@));
                    let k = choose|k: int| 0 <= k < old_kept.len() && #[trigger] old_kept[k].slug@ == input[i].slug@;
                    assert(kept@[k] == old_kept[k]);
                }
            }
        } else {
            proof {
                let n = rest@.len() as int;
                let k = choose|k: int| 0 <= k < slugs@.len() && slugs@[k]@ == input[n].slug@;
                assert(kept@[k].slug@ == input[n].slug@);
            }
        }
        assert(rest@ =~= input.subrange(0, rest@.len() as int));
    }
    kept
}

fn make_member_key(order: Option<i32>, slug: &String) -> (r: SortKey)
    ensures
        r.kv() == member_key(order, slug@),
{
    let bytes = slug.as_str().as_bytes_vec();
    match order {
        Some(o) => SortKey { present: true, major: o as i128, minor: 0, slug: bytes },
        None => SortKey { present: false, major: 0, minor: 0, slug: bytes },
    }
}

fn belongs_to(p: &Post, slug: &String) -> (r: bool)
    ensures
        r == in_series(*p, slug@),
{
    match &p.series_slug {
        Some(s) => crate::text::str_eq(s.as_str(), slug.as_str()),
        None => false,
    }
}

/// The member slugs of the series `slug`: the posts whose `series_slug` is `slug`, in
/// series order.
fn order_members(posts: &Vec<Post>, slug: &String) -> (r: Vec<String>)
    requires
        post_slugs_unique(posts@),
    ensures
        members_of_series(strings_view(r@), posts@, slug@),
{
    let mut keys: Vec<SortKey> = Vec::new();
    let mut sel: Vec<bool> = Vec::new();
    let mut j: usize = 0;
    while j < posts.len()
        invariant
            j <= posts@.len(),
            views_of(keys@) == member_keys(posts@).subrange(0, j as int),
            sel@ == series_members_selection(posts@, slug@).subrange(0, j as int),
        decreases posts@.len() - j,
    {
        let key = make_member_key(posts[j].order, &posts[j].slug);
        assert(key.kv() == member_keys(posts@)[j as int]);
        proof {
            lemma_map_values_push(keys@, key, |k: SortKey| k.kv());
            lemma_subrange_push(member_keys(posts@), j as int);
        }
        keys.push(key);
        sel.push(belongs_to(&posts[j], slug));
        j = j + 1;
        assert(sel@ =~= series_members_selection(posts@, slug@).subrange(0, j as int));
    }
    let ghost mk = member_keys(posts@);
    let ghost ms = series_members_selection(posts@, slug@);
    assert(views_of(keys@) =~= mk);
    assert(sel@ =~= ms);
    proof {
        assert forall|a: int, b: int| 0 <= a < b < mk.len() implies mk[a].slug != mk[b].slug by {
            lemma_encode_injective(posts@[a].slug@, posts@[b].slug@);
        }
    }
    let order = sort_selection(&keys, &sel);
    let ghost o = as_ints(order@);
    let mut out: Vec<String> = Vec::new();
    let mut t: usize = 0;
    while t < order.len()
        invariant
            t <= order@.len(),
            o == as_ints(order@),
            sorted_selection(o, mk, ms),
            mk == member_keys(posts@),
            ms == series_members_selection(posts@, slug@),
            strings_view(out@) == o.subrange(0, t as int).map_values(|i: int| posts@[i].slug@),
        decreases order@.len() - t,
    {
        assert(o[t as int] == order@[t as int] as int);
        let c = posts[order[t]].slug.clone();
        proof {
            lemma_map_values_push(out@, c, |s: String| s@);
            lemma_subrange_push(o, t as int);
            lemma_map_values_push(o.subrange(0, t as int), o[t as int], |i: int| posts@[i].slug@);
        }
        out.push(c);
        t = t + 1;
    }
    proof {
        assert(o.subrange(0, o.len() as int) =~= o);
        let ov = strings_view(out@);
        assert forall|k: int| 0 <= k < ov.len() implies has_member_post(posts@, #[trigger] ov[k], slug@) by {
            assert(ov[k] == posts@[o[k]].slug@);
            assert(ms[o[k]]);
        }
    }
    out
}

/// The key that orders items by slug alone.
pub open spec fn slug_key(slug: Seq<char>) -> KeyView {
    KeyView { present: true, major: 0, minor: 0, slug: encode_utf8(slug) }
}

fn make_slug_key(slug: &String) -> (r: SortKey)
    ensures
        r.kv() == slug_key(slug@),
{
    SortKey { present: true, major: 0, minor: 0, slug: slug.as_str().as_bytes_vec() }
}

pub open spec fn post_slug_keys(posts: Seq<Post>) -> Seq<KeyView> {
    posts.map_values(|p: Post| slug_key(p.slug@))
}

pub open spec fn series_slug_keys(series: Seq<SeriesData>) -> Seq<KeyView> {
    series.map_values(|d: SeriesData| slug_key(d.slug@))
}

pub open spec fn all_selected(n: nat) -> Seq<bool> {
    Seq::new(n, |i: int| true)
}

/// The posts can be ordered by slug.
pub open spec fn slug_orders_exist_posts(posts: Seq<Post>) -> bool {
    sorted_selection(posts_by_slug(posts), post_slug_keys(posts), all_selected(posts.len()))
}

/// The series can be ordered by slug.
pub open spec fn slug_orders_exist_series(series: Seq<SeriesData>) -> bool {
    sorted_selection(series_by_slug(series), series_slug_keys(series), all_selected(series.len()))
}

/// The posts' indices by slug.
pub open spec fn posts_by_slug(posts: Seq<Post>) -> Seq<int> {
    choose|o: Seq<int>| sorted_selection(o, post_slug_keys(posts), all_selected(posts.len()))
}

/// The series' indices by slug.
pub open spec fn series_by_slug(series: Seq<SeriesData>) -> Seq<int> {
    choose|o: Seq<int>| sorted_selection(o, series_slug_keys(series), all_selected(series.len()))
}

/// The bytes of each post's slug followed by its content, in the order `o`.
pub open spec fn posts_etag_bytes(posts: Seq<Post>, o: Seq<int>) -> Seq<u8>
    decreases o.len(),
{
    if o.len() == 0 {
        Seq::empty()
    } else {
        posts_etag_bytes(posts, o.drop_last()) + encode_utf8(posts[o.last()].slug@) + encode_utf8(
            posts[o.last()].content@,
        )
    }
}

/// The bytes of each series' slug, in the order `o`.
pub open spec fn series_etag_bytes(series: Seq<SeriesData>, o: Seq<int>) -> Seq<u8>
    decreases o.len(),
{
    if o.len() == 0 {
        Seq::empty()
    } else {
        series_etag_bytes(series, o.drop_last()) + encode_utf8(series[o.last()].slug@)
    }
}

/// What the ETag hashes: the post slugs in slug order, each followed by the post's content,
/// then the series slugs in slug order.
pub open spec fn etag_input(posts: Seq<Post>, series: Seq<SeriesData>) -> Seq<u8> {
    posts_etag_bytes(posts, posts_by_slug(posts)) + series_etag_bytes(series, series_by_slug(series))
}

/// A lowercase hexadecimal digit.
pub open spec fn hex_digit(n: int) -> char {
    if n < 10 {
        ((n + 48) as u8) as char
    } else {
        ((n + 87) as u8) as char
    }
}

/// Two lowercase hexadecimal digits per byte.
pub open spec fn hex_spec(b: Seq<u8>) -> Seq<char>
    decreases b.len(),
{
    if b.len() == 0 {
        Seq::empty()
    } else {
        hex_spec(b.drop_last()) + seq![hex_digit(b.last() as int / 16), hex_digit(b.last() as int % 16)]
    }
}

pub proof fn lemma_hex_len(b: Seq<u8>)
    ensures
        hex_spec(b).len() == 2 * b.len(),
    decreases b.len(),
{
    if b.len() > 0 {
        lemma_hex_len(b.drop_last());
    }
}

/// Relies on `hex::encode`: two lowercase hexadecimal digits for each byte.
#[verifier::external_body]
pub(crate) fn hex_encode(b: &[u8]) -> (r: String)
    ensures
        r@ == hex_spec(b@),
{
    hex::encode(b)
}

/// `s` in double quotes.
pub open spec fn quoted(s: Seq<char>) -> Seq<char> {
    seq!['"'] + s + seq!['"']
}

/// The ETag of content: SHA-256 over [`etag_input`], hex-encoded and quoted (the strong
/// validator form of HTTP).
pub open spec fn etag_of(posts: Seq<Post>, series: Seq<SeriesData>) -> Seq<char> {
    quoted(hex_spec(sha256_of(etag_input(posts, series))))
}

fn append_bytes(v: &mut Vec<u8>, b: &[u8])
    ensures
        final(v)@ == old(v)@ + b@,
{
    let mut i: usize = 0;
    while i < b.len()
        invariant
            i <= b@.len(),
            v@ == old(v)@ + b@.subrange(0, i as int),
        decreases b@.len() - i,
    {
        v.push(b[i]);
        i = i + 1;
        assert(v@ =~= old(v)@ + b@.subrange(0, i as int));
    }
    assert(b@.subrange(0, b@.len() as int) =~= b@);
}

fn post_slug_order(posts: &Vec<Post>) -> (r: Vec<usize>)
    requires
        post_slugs_unique(posts@),
    ensures
        as_ints(r@) == posts_by_slug(posts@),
        sorted_selection(as_ints(r@), post_slug_keys(posts@), all_selected(posts@.len())),
{
    let mut keys: Vec<SortKey> = Vec::new();
    let mut sel: Vec<bool> = Vec::new();
    let mut i: usize = 0;
    while i < posts.len()
        invariant
            i <= posts@.len(),
            views_of(keys@) == post_slug_keys(posts@).subrange(0, i as int),
            sel@ == all_selected(posts@.len()).subrange(0, i as int),
        decreases posts@.len() - i,
    {
        let key = make_slug_key(&posts[i].slug);
        assert(key.kv() == post_slug_keys(posts@)[i as int]);
        proof {
            lemma_map_values_push(keys@, key, |k: SortKey| k.kv());
            lemma_subrange_push(post_slug_keys(posts@), i as int);
        }
        keys.push(key);
        sel.push(true);
        i = i + 1;
        assert(views_of(keys@) =~= post_slug_keys(posts@).subrange(0, i as int));
        assert(sel@ =~= all_selected(posts@.len()).subrange(0, i as int));
    }
    assert(views_of(keys@) =~= post_slug_keys(posts@));
    assert(sel@ =~= all_selected(posts@.len()));
    proof {
        let kv = views_of(keys@);
        assert forall|a: int, b: int| 0 <= a < b < kv.len() implies kv[a].slug != kv[b].slug by {
            lemma_encode_injective(posts@[a].slug@, posts@[b].slug@);
        }
    }
    let porder = sort_selection(&keys, &sel);
    proof {
        let o = posts_by_slug(posts@);
        assert(sorted_selection(o, post_slug_keys(posts@), all_selected(posts@.len())));
        lemma_sorted_selection_unique(o, as_ints(porder@), post_slug_keys(posts@), all_selected(posts@.len()));
    }
    porder
}

fn series_slug_order(series: &Vec<SeriesData>) -> (r: Vec<usize>)
    requires
        series_slugs_unique(series@),
    ensures
        as_ints(r@) == series_by_slug(series@),
        sorted_selection(as_ints(r@), series_slug_keys(series@), all_selected(series@.len())),
{
    let mut skeys: Vec<SortKey> = Vec::new();
    let mut ssel: Vec<bool> = Vec::new();
    let mut i: usize = 0;
    while i < series.len()
        invariant
            i <= series@.len(),
            views_of(skeys@) == series_slug_keys(series@).subrange(0, i as int),
            ssel@ == all_selected(series@.len()).subrange(0, i as int),
        decreases series@.len() - i,
    {
        let key = make_slug_key(&series[i].slug);
        assert(key.kv() == series_slug_keys(series@)[i as int]);
        proof {
            lemma_map_values_push(skeys@, key, |k: SortKey| k.kv());
            lemma_subrange_push(series_slug_keys(series@), i as int);
        }
        skeys.push(key);
        ssel.push(true);
        i = i + 1;
        assert(views_of(skeys@) =~= series_slug_keys(series@).subrange(0, i as int));
        assert(ssel@ =~= all_selected(series@.len()).subrange(0, i as int));
    }
    assert(views_of(skeys@) =~= series_slug_keys(series@));
    assert(ssel@ =~= all_selected(series@.len()));
    proof {
        let kv = views_of(skeys@);
        assert forall|a: int, b: int| 0 <= a < b < kv.len() implies kv[a].slug != kv[b].slug by {
            lemma_encode_injective(series@[a].slug@, series@[b].slug@);
        }
    }
    let sorder = sort_selection(&skeys, &ssel);
    proof {
        let o = series_by_slug(series@);
        assert(sorted_selection(o, series_slug_keys(series@), all_selected(series@.len())));
        lemma_sorted_selection_unique(o, as_ints(sorder@), series_slug_keys(series@), all_selected(series@.len()));
    }
    sorder
}

/// Compute the ETag of content whose slugs are unique.
pub fn compute_etag(posts: &Vec<Post>, series: &Vec<SeriesData>) -> (r: String)
    requires
        post_slugs_unique(posts@),
        series_slugs_unique(series@),
    ensures
        r@ == etag_of(posts@, series@),
        r@.len() == 66,
        slug_orders_exist_posts(posts@),
        slug_orders_exist_series(series@),
{
    let porder = post_slug_order(posts);
    let sorder = series_slug_order(series);
    let mut input: Vec<u8> = Vec::new();
    let mut j: usize = 0;
    while j < porder.len()
        invariant
            j <= porder@.len(),
            sorted_selection(as_ints(porder@), post_slug_keys(posts@), all_selected(posts@.len())),
            input@ == posts_etag_bytes(posts@, as_ints(porder@).subrange(0, j as int)),
        decreases porder@.len() - j,
    {
        let k = porder[j];
        assert(as_ints(porder@)[j as int] == k as int);
        append_bytes(&mut input, posts[k].slug.as_str().as_bytes());
        append_bytes(&mut input, posts[k].content.as_str().as_bytes());
        j = j + 1;
        assert(as_ints(porder@).subrange(0, j as int).drop_last() =~= as_ints(porder@).subrange(0, j - 1));
    }
    assert(as_ints(porder@).subrange(0, porder@.len() as int) =~= as_ints(porder@));
    let ghost post_part = input@;
    let mut j: usize = 0;
    while j < sorder.len()
        invariant
            j <= sorder@.len(),
            sorted_selection(as_ints(sorder@), series_slug_keys(series@), all_selected(series@.len())),
            input@ == post_part + series_etag_bytes(series@, as_ints(sorder@).subrange(0, j as int)),
        decreases sorder@.len() - j,
    {
        let k = sorder[j];
        assert(as_ints(sorder@)[j as int] == k as int);
        append_bytes(&mut input, series[k].slug.as_str().as_bytes());
        j = j + 1;
        assert(as_ints(sorder@).subrange(0, j as int).drop_last() =~= as_ints(sorder@).subrange(0, j - 1));
    }
    assert(as_ints(sorder@).subrange(0, sorder@.len() as int) =~= as_ints(sorder@));
    assert(input@ == etag_input(posts@, series@));
    let digest = sha256(input.as_slice());
    let hex = hex_encode(digest.as_slice());
    proof {
        lemma_hex_len(digest@);
        reveal_strlit("\"");
    }
    let q = "\"";
    let r = String::from_str(q).concat(hex.as_str()).concat(q);
    assert(r@ =~= quoted(hex@));
    r
}

} // verus!

verus! {

/// Some post of `posts` has slug `slug` and content `content`.
pub open spec fn has_post_with(posts: Seq<Post>, slug: Seq<char>, content: Seq<char>) -> bool {
    exists|j: int| 0 <= j < posts.len() && #[trigger] posts[j].slug@ == slug && posts[j].content@ == content
}

/// Some series of `series` has slug `slug`.
pub open spec fn has_series_slug(series: Seq<SeriesData>, slug: Seq<char>) -> bool {
    exists|j: int| 0 <= j < series.len() && #[trigger] series[j].slug@ == slug
}

/// Two post collections hold the same slugs with the same contents.
pub open spec fn same_slugs_and_contents(a: Seq<Post>, b: Seq<Post>) -> bool {
    &&& forall|i: int| 0 <= i < a.len() ==> has_post_with(b, #[trigger] a[i].slug@, a[i].content@)
    &&& forall|i: int| 0 <= i < b.len() ==> has_post_with(a, #[trigger] b[i].slug@, b[i].content@)
}

/// Two series collections hold the same slugs.
pub open spec fn same_series_slugs(a: Seq<SeriesData>, b: Seq<SeriesData>) -> bool {
    &&& forall|i: int| 0 <= i < a.len() ==> has_series_slug(b, #[trigger] a[i].slug@)
    &&& forall|i: int| 0 <= i < b.len() ==> has_series_slug(a, #[trigger] b[i].slug@)
}

proof fn lemma_posts_etag_bytes_match(p1: Seq<Post>, o1: Seq<int>, p2: Seq<Post>, o2: Seq<int>)
    requires
        o1.len() == o2.len(),
        forall|k: int| 0 <= k < o1.len() ==> #[trigger] p1[o1[k]].slug@ == p2[o2[k]].slug@ && p1[o1[k]].content@ == p2[o2[k]].content@,
    ensures
        posts_etag_bytes(p1, o1) == posts_etag_bytes(p2, o2),
    decreases o1.len(),
{
    if o1.len() > 0 {
        let a = o1.drop_last();
        let b = o2.drop_last();
        assert forall|k: int| 0 <= k < a.len() implies #[trigger] p1[a[k]].slug@ == p2[b[k]].slug@ && p1[a[k]].content@ == p2[b[k]].content@ by {
            assert(a[k] == o1[k] && b[k] == o2[k]);
        }
        lemma_posts_etag_bytes_match(p1, a, p2, b);
        assert(p1[o1.last()].slug@ == p2[o2.last()].slug@);
    }
}

proof fn lemma_series_etag_bytes_match(s1: Seq<SeriesData>, o1: Seq<int>, s2: Seq<SeriesData>, o2: Seq<int>)
    requires
        o1.len() == o2.len(),
        forall|k: int| 0 <= k < o1.len() ==> #[trigger] s1[o1[k]].slug@ == s2[o2[k]].slug@,
    ensures
        series_etag_bytes(s1, o1) == series_etag_bytes(s2, o2),
    decreases o1.len(),
{
    if o1.len() > 0 {
        let a = o1.drop_last();
        let b = o2.drop_last();
        assert forall|k: int| 0 <= k < a.len() implies #[trigger] s1[a[k]].slug@ == s2[b[k]].slug@ by {
            assert(a[k] == o1[k] && b[k] == o2[k]);
        }
        lemma_series_etag_bytes_match(s1, a, s2, b);
        assert(s1[o1.last()].slug@ == s2[o2.last()].slug@);
    }
}

/// The index in `b` of the post with the slug of `a[i]`.
spec fn partner(a: Seq<Post>, b: Seq<Post>, i: int) -> int {
    choose|j: int| 0 <= j < b.len() && b[j].slug@ == a[i].slug@ && b[j].content@ == a[i].content@
}

spec fn series_partner(a: Seq<SeriesData>, b: Seq<SeriesData>, i: int) -> int {
    choose|j: int| 0 <= j < b.len() && b[j].slug@ == a[i].slug@
}

proof fn lemma_posts_order_match(p1: Seq<Post>, p2: Seq<Post>)
    requires
        post_slugs_unique(p1),
        post_slugs_unique(p2),
        slug_orders_exist_posts(p1),
        slug_orders_exist_posts(p2),
        same_slugs_and_contents(p1, p2),
    ensures
        posts_etag_bytes(p1, posts_by_slug(p1)) == posts_etag_bytes(p2, posts_by_slug(p2)),
{
    let o1 = posts_by_slug(p1);
    let o2 = posts_by_slug(p2);
    let k1 = post_slug_keys(p1);
    let k2 = post_slug_keys(p2);
    assert(sorted_selection(o1, k1, all_selected(p1.len())));
    assert(sorted_selection(o2, k2, all_selected(p2.len())));
    let q = Seq::new(o1.len(), |k: int| partner(p1, p2, o1[k]));
    assert forall|k: int| 0 <= k < o1.len() implies {
        let j = #[trigger] q[k];
        0 <= j < p2.len() && p2[j].slug@ == p1[o1[k]].slug@ && p2[j].content@ == p1[o1[k]].content@
    } by {
        assert(has_post_with(p2, p1[o1[k]].slug@, p1[o1[k]].content@));
    }
    assert forall|k: int| 0 <= k < o1.len() implies k2[#[trigger] q[k]] == k1[o1[k]] by {
    }
    assert(sorted_selection(q, k2, all_selected(p2.len()))) by {
        assert forall|i: int| 0 <= i < q.len() implies 0 <= #[trigger] q[i] < k2.len() && all_selected(p2.len())[q[i]] by {
            assert(k2[q[i]] == k1[o1[i]]);
        }
        assert forall|i: int, j: int| 0 <= i < j < q.len() implies key_lt(k2[#[trigger] q[i]], k2[#[trigger] q[j]]) by {
            assert(k2[q[i]] == k1[o1[i]]);
            assert(k2[q[j]] == k1[o1[j]]);
        }
        assert forall|m: int| 0 <= m < k2.len() && #[trigger] all_selected(p2.len())[m] implies q.contains(m) by {
            assert(has_post_with(p1, p2[m].slug@, p2[m].content@));
            let i = choose|i: int| 0 <= i < p1.len() && #[trigger] p1[i].slug@ == p2[m].slug@ && p1[i].content@ == p2[m].content@;
            assert(all_selected(p1.len())[i]);
            assert(o1.contains(i));
            let k = choose|k: int| 0 <= k < o1.len() && o1[k] == i;
            let j = q[k];
            assert(p2[j].slug@ == p1[i].slug@);
            if j != m {
                if j < m {
                    assert(p2[j].slug@ != p2[m].slug@);
                } else {
                    assert(p2[m].slug@ != p2[j].slug@);
                }
            }
            assert(q[k] == m);
        }
    }
    lemma_sorted_selection_unique(q, o2, k2, all_selected(p2.len()));
    assert forall|k: int| 0 <= k < o1.len() implies #[trigger] p1[o1[k]].slug@ == p2[o2[k]].slug@ && p1[o1[k]].content@ == p2[o2[k]].content@ by {
        assert(o2[k] == q[k]);
    }
    lemma_posts_etag_bytes_match(p1, o1, p2, o2);
}

proof fn lemma_series_order_match(s1: Seq<SeriesData>, s2: Seq<SeriesData>)
    requires
        series_slugs_unique(s1),
        series_slugs_unique(s2),
        slug_orders_exist_series(s1),
        slug_orders_exist_series(s2),
        same_series_slugs(s1, s2),
    ensures
        series_etag_bytes(s1, series_by_slug(s1)) == series_etag_bytes(s2, series_by_slug(s2)),
{
    let o1 = series_by_slug(s1);
    let o2 = series_by_slug(s2);
    let k1 = series_slug_keys(s1);
    let k2 = series_slug_keys(s2);
    assert(sorted_selection(o1, k1, all_selected(s1.len())));
    assert(sorted_selection(o2, k2, all_selected(s2.len())));
    let q = Seq::new(o1.len(), |k: int| series_partner(s1, s2, o1[k]));
    assert forall|k: int| 0 <= k < o1.len() implies {
        let j = #[trigger] q[k];
        0 <= j < s2.len() && s2[j].slug@ == s1[o1[k]].slug@
    } by {
        assert(has_series_slug(s2, s1[o1[k]].slug@));
    }
    assert(sorted_selection(q, k2, all_selected(s2.len()))) by {
        assert forall|i: int| 0 <= i < q.len() implies 0 <= #[trigger] q[i] < k2.len() && all_selected(s2.len())[q[i]] by {
        }
        assert forall|i: int, j: int| 0 <= i < j < q.len() implies key_lt(k2[#[trigger] q[i]], k2[#[trigger] q[j]]) by {
            assert(k2[q[i]] == k1[o1[i]]);
            assert(k2[q[j]] == k1[o1[j]]);
        }
        assert forall|m: int| 0 <= m < k2.len() && #[trigger] all_selected(s2.len())[m] implies q.contains(m) by {
            assert(has_series_slug(s1, s2[m].slug@));
            let i = choose|i: int| 0 <= i < s1.len() && #[trigger] s1[i].slug@ == s2[m].slug@;
            assert(all_selected(s1.len())[i]);
            assert(o1.contains(i));
            let k = choose|k: int| 0 <= k < o1.len() && o1[k] == i;
            let j = q[k];
            if j != m {
                if j < m {
                    assert(s2[j].slug@ != s2[m].slug@);
                } else {
                    assert(s2[m].slug@ != s2[j].slug@);
                }
            }
            assert(q[k] == m);
        }
    }
    lemma_sorted_selection_unique(q, o2, k2, all_selected(s2.len()));
    assert forall|k: int| 0 <= k < o1.len() implies #[trigger] s1[o1[k]].slug@ == s2[o2[k]].slug@ by {
        assert(o2[k] == q[k]);
    }
    lemma_series_etag_bytes_match(s1, o1, s2, o2);
}

/// The ETag depends only on which slugs the posts and series have and on the posts'
/// contents: content with the same slugs and contents, held in any order, has the same
/// ETag. In particular reloading an unchanged content tree keeps the ETag.
pub proof fn lemma_etag_depends_on_slugs_and_contents(a: ContentCache, b: ContentCache)
    requires
        a.wf(),
        b.wf(),
        same_slugs_and_contents(a.posts(), b.posts()),
        same_series_slugs(a.series(), b.series()),
    ensures
        a.etag_view() == b.etag_view(),
{
    lemma_posts_order_match(a.posts(), b.posts());
    lemma_series_order_match(a.series(), b.series());
}

/// Building the index twice from the same loaded content gives the same ETag: a reload
/// of an unchanged content tree keeps the ETag.
pub proof fn lemma_reload_keeps_etag(
    posts: Seq<Post>,
    series: Seq<SeriesEntry>,
    a: ContentCache,
    b: ContentCache,
)
    requires
        a.wf(),
        b.wf(),
        keeps_last_posts(a.posts(), posts),
        keeps_last_posts(b.posts(), posts),
        forall|k: int| 0 <= k < a.series().len() ==> built_from_entry(#[trigger] a.series()[k], series),
        forall|k: int| 0 <= k < b.series().len() ==> built_from_entry(#[trigger] b.series()[k], series),
        forall|i: int| 0 <= i < series.len() ==> has_series_slug(a.series(), #[trigger] series[i].slug@),
        forall|i: int| 0 <= i < series.len() ==> has_series_slug(b.series(), #[trigger] series[i].slug@),
    ensures
        a.etag_view() == b.etag_view(),
{
    assert forall|k: int| 0 <= k < a.posts().len() implies has_post_with(b.posts(), #[trigger] a.posts()[k].slug@, a.posts()[k].content@) by {
        assert(comes_from_last(posts, a.posts()[k], 0));
        let i = choose|i: int| 0 <= i < posts.len() && last_with_slug(posts, i) && a.posts()[k] == #[trigger] posts[i];
        assert(b.posts().contains(posts[i]));
        let j = choose|j: int| 0 <= j < b.posts().len() && b.posts()[j] == posts[i];
        assert(b.posts()[j].slug@ == a.posts()[k].slug@);
    }
    assert forall|k: int| 0 <= k < b.posts().len() implies has_post_with(a.posts(), #[trigger] b.posts()[k].slug@, b.posts()[k].content@) by {
        assert(comes_from_last(posts, b.posts()[k], 0));
        let i = choose|i: int| 0 <= i < posts.len() && last_with_slug(posts, i) && b.posts()[k] == #[trigger] posts[i];
        assert(a.posts().contains(posts[i]));
        let j = choose|j: int| 0 <= j < a.posts().len() && a.posts()[j] == posts[i];
        assert(a.posts()[j].slug@ == b.posts()[k].slug@);
    }
    assert forall|k: int| 0 <= k < a.series().len() implies has_series_slug(b.series(), #[trigger] a.series()[k].slug@) by {
        assert(built_from_entry(a.series()[k], series));
        let i = choose|i: int| 0 <= i < series.len() && built_from(a.series()[k], #[trigger] series[i]);
        assert(has_series_slug(b.series(), series[i].slug@));
    }
    assert forall|k: int| 0 <= k < b.series().len() implies has_series_slug(a.series(), #[trigger] b.series()[k].slug@) by {
        assert(built_from_entry(b.series()[k], series));
        let i = choose|i: int| 0 <= i < series.len() && built_from(b.series()[k], #[trigger] series[i]);
        assert(has_series_slug(a.series(), series[i].slug@));
    }
    lemma_etag_depends_on_slugs_and_contents(a, b);
}

proof fn lemma_concat_differs(x: Seq<u8>, y: Seq<u8>, x2: Seq<u8>, y2: Seq<u8>)
    requires
        x.len() == x2.len(),
        x != x2,
    ensures
        x + y != x2 + y2,
{
    if x + y == x2 + y2 {
        assert(x =~= (x + y).subrange(0, x.len() as int));
        assert(x2 =~= (x2 + y2).subrange(0, x2.len() as int));
    }
}

/// Hashed bytes of two post collections that agree everywhere but in the content of post
/// `k`, whose encoded length is the same: equal lengths, and different bytes once `k` has
/// been passed.
proof fn lemma_posts_bytes_differ(pa: Seq<Post>, pb: Seq<Post>, o: Seq<int>, k: int)
    requires
        pa.len() == pb.len(),
        0 <= k < pa.len(),
        forall|i: int| 0 <= i < pa.len() ==> #[trigger] pa[i].slug@ == pb[i].slug@,
        forall|i: int| 0 <= i < pa.len() && i != k ==> #[trigger] pa[i].content@ == pb[i].content@,
        encode_utf8(pa[k].content@).len() == encode_utf8(pb[k].content@).len(),
        encode_utf8(pa[k].content@) != encode_utf8(pb[k].content@),
        forall|i: int| 0 <= i < o.len() ==> 0 <= #[trigger] o[i] < pa.len(),
    ensures
        posts_etag_bytes(pa, o).len() == posts_etag_bytes(pb, o).len(),
        o.contains(k) ==> posts_etag_bytes(pa, o) != posts_etag_bytes(pb, o),
    decreases o.len(),
{
    if o.len() > 0 {
        let r = o.drop_last();
        assert forall|i: int| 0 <= i < r.len() implies 0 <= #[trigger] r[i] < pa.len() by {
            assert(r[i] == o[i]);
        }
        lemma_posts_bytes_differ(pa, pb, r, k);
        let x = posts_etag_bytes(pa, r) + encode_utf8(pa[o.last()].slug@);
        let x2 = posts_etag_bytes(pb, r) + encode_utf8(pb[o.last()].slug@);
        assert(pa[o.last()].slug@ == pb[o.last()].slug@);
        if o.last() == k {
            if x == x2 {
                assert(posts_etag_bytes(pa, o) =~= x + encode_utf8(pa[k].content@));
                assert(posts_etag_bytes(pb, o) =~= x2 + encode_utf8(pb[k].content@));
                if posts_etag_bytes(pa, o) == posts_etag_bytes(pb, o) {
                    assert(encode_utf8(pa[k].content@) =~= posts_etag_bytes(pa, o).subrange(x.len() as int, posts_etag_bytes(pa, o).len() as int));
                    assert(encode_utf8(pb[k].content@) =~= posts_etag_bytes(pb, o).subrange(x2.len() as int, posts_etag_bytes(pb, o).len() as int));
                }
            } else {
                lemma_concat_differs(x, encode_utf8(pa[k].content@), x2, encode_utf8(pb[k].content@));
            }
        } else {
            assert(pa[o.last()].content@ == pb[o.last()].content@);
            if o.contains(k) {
                let t = choose|t: int| 0 <= t < o.len() && o[t] == k;
                assert(r[t] == k);
                assert(r.contains(k));
                lemma_concat_differs(posts_etag_bytes(pa, r), encode_utf8(pa[o.last()].slug@), posts_etag_bytes(pb, r), encode_utf8(pb[o.last()].slug@));
                lemma_concat_differs(x, encode_utf8(pa[o.last()].content@), x2, encode_utf8(pb[o.last()].content@));
            }
        }
    }
}

/// Changing the content of one post, keeping its encoded length (a single changed byte,
/// say), changes the bytes that the ETag hashes.
pub proof fn lemma_content_change_changes_etag_input(a: ContentCache, b: ContentCache, k: int)
    requires
        a.wf(),
        b.wf(),
        a.posts().len() == b.posts().len(),
        a.series() == b.series(),
        0 <= k < a.posts().len(),
        forall|i: int| 0 <= i < a.posts().len() ==> #[trigger] a.posts()[i].slug@ == b.posts()[i].slug@,
        forall|i: int| 0 <= i < a.posts().len() && i != k ==> #[trigger] a.posts()[i].content@ == b.posts()[i].content@,
        encode_utf8(a.posts()[k].content@).len() == encode_utf8(b.posts()[k].content@).len(),
        a.posts()[k].content@ != b.posts()[k].content@,
    ensures
        etag_input(a.posts(), a.series()) != etag_input(b.posts(), b.series()),
{
    let pa = a.posts();
    let pb = b.posts();
    assert(post_slug_keys(pa) =~= post_slug_keys(pb));
    let o = posts_by_slug(pa);
    assert(posts_by_slug(pb) == o);
    assert(all_selected(pa.len())[k]);
    assert(o.contains(k));
    if encode_utf8(pa[k].content@) == encode_utf8(pb[k].content@) {
        assert(decode_utf8(encode_utf8(pa[k].content@)) == pa[k].content@);
        assert(decode_utf8(encode_utf8(pb[k].content@)) == pb[k].content@);
    }
    lemma_posts_bytes_differ(pa, pb, o, k);
    lemma_concat_differs(
        posts_etag_bytes(pa, o),
        series_etag_bytes(a.series(), series_by_slug(a.series())),
        posts_etag_bytes(pb, o),
        series_etag_bytes(b.series(), series_by_slug(b.series())),
    );
}

proof fn lemma_slug_orders_exist(posts: Seq<Post>, series: Seq<SeriesData>)
    requires
        post_slugs_unique(posts),
        series_slugs_unique(series),
    ensures
        slug_orders_exist_posts(posts),
        slug_orders_exist_series(series),
{
    let pk = post_slug_keys(posts);
    assert forall|a: int, b: int| 0 <= a < b < pk.len() implies pk[a].slug != pk[b].slug by {
        lemma_encode_injective(posts[a].slug@, posts[b].slug@);
    }
    lemma_sorted_selection_exists(pk, all_selected(posts.len()));
    let sk = series_slug_keys(series);
    assert forall|a: int, b: int| 0 <= a < b < sk.len() implies sk[a].slug != sk[b].slug by {
        lemma_encode_injective(series[a].slug@, series[b].slug@);
    }
    lemma_sorted_selection_exists(sk, all_selected(series.len()));
}

/// The ETag that [`compute_etag`] gives depends only on the posts' slugs and contents and
/// on the series' slugs: content with the same slugs and the same content per slug, held
/// in any order, has the same ETag.
pub proof fn lemma_etag_of_same_slugs_and_contents(
    p1: Seq<Post>,
    s1: Seq<SeriesData>,
    p2: Seq<Post>,
    s2: Seq<SeriesData>,
)
    requires
        post_slugs_unique(p1),
        post_slugs_unique(p2),
        series_slugs_unique(s1),
        series_slugs_unique(s2),
        same_slugs_and_contents(p1, p2),
        same_series_slugs(s1, s2),
    ensures
        etag_of(p1, s1) == etag_of(p2, s2),
{
    lemma_slug_orders_exist(p1, s1);
    lemma_slug_orders_exist(p2, s2);
    lemma_posts_order_match(p1, p2);
    lemma_series_order_match(s1, s2);
}

} // verus!
