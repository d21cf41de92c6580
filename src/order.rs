//! The orders in which content is listed, and a sort that establishes them.
use vstd::prelude::*;

verus! {

/// Lexicographic order on byte strings (the order of `String`'s `Ord`).
pub open spec fn bytes_lt(x: Seq<u8>, y: Seq<u8>) -> bool
    decreases x.len(),
{
    if x.len() == 0 {
        y.len() > 0
    } else if y.len() == 0 {
        false
    } else if x[0] != y[0] {
        x[0] < y[0]
    } else {
        bytes_lt(x.drop_first(), y.drop_first())
    }
}

pub proof fn lemma_bytes_lt_irreflexive(x: Seq<u8>)
    ensures
        !bytes_lt(x, x),
    decreases x.len(),
{
    if x.len() > 0 {
        lemma_bytes_lt_irreflexive(x.drop_first());
    }
}

pub proof fn lemma_bytes_lt_transitive(x: Seq<u8>, y: Seq<u8>, z: Seq<u8>)
    requires
        bytes_lt(x, y),
        bytes_lt(y, z),
    ensures
        bytes_lt(x, z),
    decreases x.len(),
{
    if x.len() > 0 && y.len() > 0 && z.len() > 0 && x[0] == y[0] && y[0] == z[0] {
        lemma_bytes_lt_transitive(x.drop_first(), y.drop_first(), z.drop_first());
    }
}

pub proof fn lemma_bytes_lt_total(x: Seq<u8>, y: Seq<u8>)
    requires
        x != y,
    ensures
        bytes_lt(x, y) || bytes_lt(y, x),
    decreases x.len(),
{
    if x.len() == 0 {
        assert(y.len() > 0) by {
            if y.len() == 0 {
                assert(x =~= y);
            }
        }
    } else if y.len() > 0 && x[0] == y[0] {
        if x.drop_first() == y.drop_first() {
            assert(x =~= seq![x[0]] + x.drop_first());
            assert(y =~= seq![y[0]] + y.drop_first());
        }
        lemma_bytes_lt_total(x.drop_first(), y.drop_first());
    }
}

/// Whether `a` sorts before `b`.
pub fn bytes_less(a: &[u8], b: &[u8]) -> (r: bool)
    ensures
        r == bytes_lt(a@, b@),
{
    let mut i: usize = 0;
    assert(a@.subrange(0, a@.len() as int) =~= a@);
    assert(b@.subrange(0, b@.len() as int) =~= b@);
    while i < a.len() && i < b.len() && a[i] == b[i]
        invariant
            i <= a@.len(),
            i <= b@.len(),
            forall|k: int| 0 <= k < i ==> a@[k] == b@[k],
            bytes_lt(a@, b@) == bytes_lt(
                a@.subrange(i as int, a@.len() as int),
                b@.subrange(i as int, b@.len() as int),
            ),
        decreases a@.len() - i,
    {
        proof {
            let x = a@.subrange(i as int, a@.len() as int);
            let y = b@.subrange(i as int, b@.len() as int);
            assert(x.drop_first() =~= a@.subrange(i + 1, a@.len() as int));
            assert(y.drop_first() =~= b@.subrange(i + 1, b@.len() as int));
        }
        i = i + 1;
    }
    if i == a.len() {
        i < b.len()
    } else if i == b.len() {
        false
    } else {
        a[i] < b[i]
    }
}

/// A sort key: items with `present` come first, then by `major`, then by `minor`, then by
/// `slug` (all ascending).
#[derive(Clone, Debug)]
pub struct SortKey {
    pub present: bool,
    pub major: i128,
    pub minor: i128,
    pub slug: Vec<u8>,
}

/// The value of a sort key.
pub struct KeyView {
    pub present: bool,
    pub major: int,
    pub minor: int,
    pub slug: Seq<u8>,
}

impl SortKey {
    pub open spec fn kv(&self) -> KeyView {
        KeyView { present: self.present, major: self.major as int, minor: self.minor as int, slug: self.slug@ }
    }
}

/// Strict order on sort keys.
pub open spec fn key_lt(a: KeyView, b: KeyView) -> bool {
    if a.present != b.present {
        a.present
    } else if a.major != b.major {
        a.major < b.major
    } else if a.minor != b.minor {
        a.minor < b.minor
    } else {
        bytes_lt(a.slug, b.slug)
    }
}

pub proof fn lemma_key_lt_irreflexive(a: KeyView)
    ensures
        !key_lt(a, a),
{
    lemma_bytes_lt_irreflexive(a.slug);
}

pub proof fn lemma_key_lt_transitive(a: KeyView, b: KeyView, c: KeyView)
    requires
        key_lt(a, b),
        key_lt(b, c),
    ensures
        key_lt(a, c),
{
    if a.present == b.present && b.present == c.present && a.major == b.major && b.major
        == c.major && a.minor == b.minor && b.minor == c.minor {
        lemma_bytes_lt_transitive(a.slug, b.slug, c.slug);
    }
}

pub proof fn lemma_key_lt_total(a: KeyView, b: KeyView)
    requires
        a.slug != b.slug,
    ensures
        key_lt(a, b) || key_lt(b, a),
{
    lemma_bytes_lt_total(a.slug, b.slug);
}

/// Strict comparison of two keys.
pub fn key_less(a: &SortKey, b: &SortKey) -> (r: bool)
    ensures
        r == key_lt(a.kv(), b.kv()),
{
    if a.present != b.present {
        a.present
    } else if a.major != b.major {
        a.major < b.major
    } else if a.minor != b.minor {
        a.minor < b.minor
    } else {
        bytes_less(a.slug.as_slice(), b.slug.as_slice())
    }
}

/// The keys of `keys` have pairwise different slugs.
pub open spec fn slugs_distinct(keys: Seq<KeyView>) -> bool {
    forall|i: int, j: int| 0 <= i < j < keys.len() ==> keys[i].slug != keys[j].slug
}

/// `order` lists each selected index of `keys` once, by increasing key.
pub open spec fn sorted_selection(order: Seq<int>, keys: Seq<KeyView>, selected: Seq<bool>) -> bool {
    &&& forall|i: int| 0 <= i < order.len() ==> 0 <= #[trigger] order[i] < keys.len() && selected[order[i]]
    &&& forall|k: int| 0 <= k < keys.len() && #[trigger] selected[k] ==> order.contains(k)
    &&& forall|i: int, j: int| 0 <= i < j < order.len() ==> key_lt(keys[#[trigger] order[i]], keys[#[trigger] order[j]])
}

pub open spec fn views_of(keys: Seq<SortKey>) -> Seq<KeyView> {
    keys.map_values(|k: SortKey| k.kv())
}

pub open spec fn as_ints(v: Seq<usize>) -> Seq<int> {
    v.map_values(|i: usize| i as int)
}

/// Two orders that list the same selection by increasing key are the same.
pub proof fn lemma_sorted_selection_unique(
    a: Seq<int>,
    b: Seq<int>,
    keys: Seq<KeyView>,
    selected: Seq<bool>,
)
    requires
        sorted_selection(a, keys, selected),
        sorted_selection(b, keys, selected),
        selected.len() == keys.len(),
    ensures
        a == b,
    decreases a.len() + b.len(),
{
    if a.len() == 0 && b.len() == 0 {
        assert(a =~= b);
    } else if a.len() == 0 {
        assert(a.contains(b[0]));
    } else if b.len() == 0 {
        assert(b.contains(a[0]));
    } else {
        if a[0] != b[0] {
            assert(a.contains(b[0]));
            let i = choose|i: int| 0 <= i < a.len() && a[i] == b[0];
            assert(b.contains(a[0]));
            let j = choose|j: int| 0 <= j < b.len() && b[j] == a[0];
            assert(key_lt(keys[a[0]], keys[a[i]]));
            assert(key_lt(keys[b[0]], keys[b[j]]));
            lemma_key_lt_transitive(keys[a[0]], keys[b[0]], keys[a[0]]);
            lemma_key_lt_irreflexive(keys[a[0]]);
        }
        let x = a[0];
        let sel2 = selected.update(x, false);
        let a2 = a.drop_first();
        let b2 = b.drop_first();
        assert forall|i: int| 0 <= i < a2.len() implies a2[i] != x by {
            assert(key_lt(keys[a[0]], keys[a[i + 1]]));
            lemma_key_lt_irreflexive(keys[x]);
        }
        assert forall|i: int| 0 <= i < b2.len() implies b2[i] != x by {
            assert(key_lt(keys[b[0]], keys[b[i + 1]]));
            lemma_key_lt_irreflexive(keys[x]);
        }
        assert forall|k: int| 0 <= k < keys.len() && #[trigger] sel2[k] implies a2.contains(k) by {
            assert(a.contains(k));
            let i = choose|i: int| 0 <= i < a.len() && a[i] == k;
            assert(i != 0);
            assert(a2[i - 1] == k);
        }
        assert forall|k: int| 0 <= k < keys.len() && #[trigger] sel2[k] implies b2.contains(k) by {
            assert(b.contains(k));
            let i = choose|i: int| 0 <= i < b.len() && b[i] == k;
            assert(i != 0);
            assert(b2[i - 1] == k);
        }
        assert forall|i: int, j: int| 0 <= i < j < a2.len() implies key_lt(
            keys[#[trigger] a2[i]],
            keys[#[trigger] a2[j]],
        ) by {
            assert(a2[i] == a[i + 1] && a2[j] == a[j + 1]);
        }
        assert forall|i: int, j: int| 0 <= i < j < b2.len() implies key_lt(
            keys[#[trigger] b2[i]],
            keys[#[trigger] b2[j]],
        ) by {
            assert(b2[i] == b[i + 1] && b2[j] == b[j + 1]);
        }
        assert forall|i: int| 0 <= i < a2.len() implies 0 <= #[trigger] a2[i] < keys.len() && sel2[a2[i]] by {
            assert(a2[i] == a[i + 1]);
        }
        assert forall|i: int| 0 <= i < b2.len() implies 0 <= #[trigger] b2[i] < keys.len() && sel2[b2[i]] by {
            assert(b2[i] == b[i + 1]);
        }
        lemma_sorted_selection_unique(a2, b2, keys, sel2);
        assert(a =~= seq![x] + a2);
        assert(b =~= seq![x] + b2);
    }
}

/// The selected indices of `keys`, ordered by increasing key.
pub fn sort_selection(keys: &Vec<SortKey>, selected: &Vec<bool>) -> (r: Vec<usize>)
    requires
        keys@.len() == selected@.len(),
        slugs_distinct(views_of(keys@)),
    ensures
        sorted_selection(as_ints(r@), views_of(keys@), selected@),
{
    let ghost kv = views_of(keys@);
    let mut order: Vec<usize> = Vec::new();
    let n = keys.len();
    let mut i: usize = 0;
    while i < n
        invariant
            n == keys@.len() == selected@.len() == kv.len(),
            kv == views_of(keys@),
            slugs_distinct(kv),
            i <= n,
            forall|p: int| 0 <= p < order@.len() ==> (#[trigger] order@[p] as int) < i && selected@[order@[p] as int],
            forall|k: int| 0 <= k < i && #[trigger] selected@[k] ==> as_ints(order@).contains(k),
            forall|p: int, q: int| 0 <= p < q < order@.len() ==> key_lt(kv[#[trigger] order@[p] as int], kv[#[trigger] order@[q] as int]),
        decreases n - i,
    {
        if selected[i] {
            let mut p: usize = 0;
            while p < order.len() && !key_less(&keys[i], &keys[order[p]])
                invariant
                    n == keys@.len() == kv.len(),
                    kv == views_of(keys@),
                    slugs_distinct(kv),
                    i < n,
                    p <= order@.len(),
                    forall|t: int| 0 <= t < order@.len() ==> (#[trigger] order@[t] as int) < i,
                    forall|t: int| 0 <= t < p ==> key_lt(kv[#[trigger] order@[t] as int], kv[i as int]),
                decreases order@.len() - p,
            {
                proof {
                    let o = order@[p as int] as int;
                    assert(kv[o].slug != kv[i as int].slug);
                    lemma_key_lt_total(kv[o], kv[i as int]);
                }
                p = p + 1;
            }
            let ghost old_order = order@;
            order.insert(p, i);
            proof {
                assert forall|a: int, b: int| 0 <= a < b < order@.len() implies key_lt(
                    kv[#[trigger] order@[a] as int],
                    kv[#[trigger] order@[b] as int],
                ) by {
                    if b < p {
                        assert(order@[a] == old_order[a] && order@[b] == old_order[b]);
                    } else if b == p {
                        assert(order@[a] == old_order[a]);
                    } else if a < p {
                        assert(order@[a] == old_order[a] && order@[b] == old_order[b - 1]);
                        assert(key_lt(kv[old_order[a] as int], kv[i as int]));
                        assert(key_lt(kv[i as int], kv[old_order[p as int] as int]));
                        if b - 1 > p {
                            assert(key_lt(kv[old_order[p as int] as int], kv[old_order[b - 1] as int]));
                            lemma_key_lt_transitive(kv[i as int], kv[old_order[p as int] as int], kv[old_order[b - 1] as int]);
                        }
                        lemma_key_lt_transitive(kv[old_order[a] as int], kv[i as int], kv[old_order[b - 1] as int]);
                    } else if a == p {
                        assert(order@[b] == old_order[b - 1]);
                        if b - 1 > p {
                            assert(key_lt(kv[old_order[p as int] as int], kv[old_order[b - 1] as int]));
                            lemma_key_lt_transitive(kv[i as int], kv[old_order[p as int] as int], kv[old_order[b - 1] as int]);
                        }
                    } else {
                        assert(order@[a] == old_order[a - 1] && order@[b] == old_order[b - 1]);
                    }
                }
                assert forall|k: int| 0 <= k < i + 1 && #[trigger] selected@[k] implies as_ints(order@).contains(k) by {
                    if k == i {
                        assert(as_ints(order@)[p as int] == k);
                    } else {
                        assert(as_ints(old_order).contains(k));
                        let t = choose|t: int| 0 <= t < old_order.len() && as_ints(old_order)[t] == k;
                        if t < p {
                            assert(as_ints(order@)[t] == k);
                        } else {
                            assert(as_ints(order@)[t + 1] == k);
                        }
                    }
                }
                assert forall|t: int| 0 <= t < order@.len() implies (#[trigger] order@[t] as int) < i + 1 && selected@[order@[t] as int] by {
                    if t < p {
                        assert(order@[t] == old_order[t]);
                    } else if t > p {
                        assert(order@[t] == old_order[t - 1]);
                    }
                }
            }
        }
        i = i + 1;
    }
    proof {
        let o = as_ints(order@);
        assert forall|x: int, y: int| 0 <= x < y < o.len() implies key_lt(kv[#[trigger] o[x]], kv[#[trigger] o[y]]) by {
            assert(o[x] == order@[x] as int && o[y] == order@[y] as int);
        }
        assert forall|x: int| 0 <= x < o.len() implies 0 <= #[trigger] o[x] < kv.len() && selected@[o[x]] by {
            assert(o[x] == order@[x] as int);
        }
    }
    order
}

} // verus!

verus! {

/// Mapping a sequence with one more element adds the image of that element.
pub proof fn lemma_map_values_push<A, B>(s: Seq<A>, x: A, f: spec_fn(A) -> B)
    ensures
        s.push(x).map_values(f) == s.map_values(f).push(f(x)),
{
    assert(s.push(x).map_values(f) =~= s.map_values(f).push(f(x)));
}

/// A prefix one longer adds the next element.
pub proof fn lemma_subrange_push<A>(s: Seq<A>, i: int)
    requires
        0 <= i < s.len(),
    ensures
        s.subrange(0, i + 1) == s.subrange(0, i).push(s[i]),
{
    assert(s.subrange(0, i + 1) =~= s.subrange(0, i).push(s[i]));
}

} // verus!

verus! {

/// Where `keys[x]` goes in the strictly increasing order `o`: after every smaller key,
/// before every larger one.
proof fn lemma_insert_point(o: Seq<int>, keys: Seq<KeyView>, x: int) -> (p: int)
    requires
        0 <= x < keys.len(),
        forall|i: int| 0 <= i < o.len() ==> 0 <= #[trigger] o[i] < keys.len() && keys[o[i]].slug != keys[x].slug,
        forall|i: int, j: int| 0 <= i < j < o.len() ==> key_lt(keys[#[trigger] o[i]], keys[#[trigger] o[j]]),
    ensures
        0 <= p <= o.len(),
        forall|t: int| 0 <= t < p ==> key_lt(keys[#[trigger] o[t]], keys[x]),
        forall|t: int| p <= t < o.len() ==> key_lt(keys[x], keys[#[trigger] o[t]]),
    decreases o.len(),
{
    if o.len() == 0 {
        0
    } else {
        let r = o.drop_last();
        assert forall|i: int| 0 <= i < r.len() implies 0 <= #[trigger] r[i] < keys.len() && keys[r[i]].slug != keys[x].slug by {
            assert(r[i] == o[i]);
        }
        assert forall|i: int, j: int| 0 <= i < j < r.len() implies key_lt(keys[#[trigger] r[i]], keys[#[trigger] r[j]]) by {
            assert(r[i] == o[i] && r[j] == o[j]);
        }
        let q = lemma_insert_point(r, keys, x);
        let last = o[o.len() - 1];
        lemma_key_lt_total(keys[last], keys[x]);
        if key_lt(keys[last], keys[x]) {
            assert forall|t: int| 0 <= t < o.len() implies key_lt(keys[#[trigger] o[t]], keys[x]) by {
                if t < o.len() - 1 {
                    assert(key_lt(keys[o[t]], keys[last]));
                    lemma_key_lt_transitive(keys[o[t]], keys[last], keys[x]);
                }
            }
            o.len() as int
        } else {
            assert forall|t: int| 0 <= t < q implies key_lt(keys[#[trigger] o[t]], keys[x]) by {
                assert(r[t] == o[t]);
            }
            assert forall|t: int| q <= t < o.len() implies key_lt(keys[x], keys[#[trigger] o[t]]) by {
                if t < o.len() - 1 {
                    assert(r[t] == o[t]);
                }
            }
            q
        }
    }
}

/// Inserting the last index at its insertion point keeps a sorted selection sorted.
proof fn lemma_insert_keeps_sorted(o: Seq<int>, keys: Seq<KeyView>, selected: Seq<bool>, p: int)
    requires
        selected.len() == keys.len(),
        keys.len() > 0,
        selected[keys.len() - 1],
        0 <= p <= o.len(),
        forall|i: int| 0 <= i < o.len() ==> 0 <= #[trigger] o[i] < keys.len() - 1 && selected[o[i]],
        forall|k: int| 0 <= k < keys.len() - 1 && #[trigger] selected[k] ==> o.contains(k),
        forall|i: int, j: int| 0 <= i < j < o.len() ==> key_lt(keys[#[trigger] o[i]], keys[#[trigger] o[j]]),
        forall|t: int| 0 <= t < p ==> key_lt(keys[#[trigger] o[t]], keys[keys.len() - 1]),
        forall|t: int| p <= t < o.len() ==> key_lt(keys[keys.len() - 1], keys[#[trigger] o[t]]),
    ensures
        sorted_selection(o.insert(p, keys.len() - 1), keys, selected),
{
    let m = keys.len() - 1;
    let n = o.insert(p, m);
    assert forall|i: int| 0 <= i < n.len() implies 0 <= #[trigger] n[i] < keys.len() && selected[n[i]] by {
        if i < p {
            assert(n[i] == o[i]);
        } else if i > p {
            assert(n[i] == o[i - 1]);
        }
    }
    assert forall|k: int| 0 <= k < keys.len() && #[trigger] selected[k] implies n.contains(k) by {
        if k == m {
            assert(n[p] == m);
        } else {
            assert(o.contains(k));
            let t = choose|t: int| 0 <= t < o.len() && o[t] == k;
            if t < p {
                assert(n[t] == k);
            } else {
                assert(n[t + 1] == k);
            }
        }
    }
    assert forall|a: int, b: int| 0 <= a < b < n.len() implies key_lt(keys[#[trigger] n[a]], keys[#[trigger] n[b]]) by {
        if b < p {
            assert(n[a] == o[a] && n[b] == o[b]);
        } else if b == p {
            assert(n[a] == o[a]);
        } else if a < p {
            assert(n[a] == o[a] && n[b] == o[b - 1]);
            lemma_key_lt_transitive(keys[o[a]], keys[m], keys[o[b - 1]]);
        } else if a == p {
            assert(n[b] == o[b - 1]);
        } else {
            assert(n[a] == o[a - 1] && n[b] == o[b - 1]);
        }
    }
}

/// Keys with distinct slugs can always be put in increasing order.
pub proof fn lemma_sorted_selection_exists(keys: Seq<KeyView>, selected: Seq<bool>)
    requires
        selected.len() == keys.len(),
        slugs_distinct(keys),
    ensures
        exists|o: Seq<int>| sorted_selection(o, keys, selected),
    decreases keys.len(),
{
    if keys.len() == 0 {
        assert(sorted_selection(Seq::<int>::empty(), keys, selected));
    } else {
        let m = keys.len() - 1;
        let kp = keys.drop_last();
        let sp = selected.drop_last();
        lemma_sorted_selection_exists(kp, sp);
        let o = choose|o: Seq<int>| sorted_selection(o, kp, sp);
        assert forall|i: int| 0 <= i < o.len() implies 0 <= #[trigger] o[i] < m && selected[o[i]] && keys[o[i]] == kp[o[i]] by {
            assert(sp[o[i]] == selected[o[i]]);
        }
        assert forall|k: int| 0 <= k < m && #[trigger] selected[k] implies o.contains(k) by {
            assert(sp[k] == selected[k]);
        }
        assert forall|i: int, j: int| 0 <= i < j < o.len() implies key_lt(keys[#[trigger] o[i]], keys[#[trigger] o[j]]) by {
            assert(keys[o[i]] == kp[o[i]] && keys[o[j]] == kp[o[j]]);
        }
        if !selected[m] {
            assert forall|k: int| 0 <= k < keys.len() && #[trigger] selected[k] implies o.contains(k) by {
                assert(sp[k] == selected[k]);
            }
            assert(sorted_selection(o, keys, selected));
        } else {
            assert forall|i: int| 0 <= i < o.len() implies 0 <= #[trigger] o[i] < keys.len() && keys[o[i]].slug != keys[m].slug by {
                assert(o[i] < m);
            }
            let p = lemma_insert_point(o, keys, m);
            lemma_insert_keeps_sorted(o, keys, selected, p);
        }
    }
}

} // verus!
