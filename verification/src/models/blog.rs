//! The blog: posts by path, categories by kind, and photo tags.
use crate::config::{BlogConfig, BlogLog, ExifConfig};
use crate::models::category::{category_le, Category, CategoryKind};
use crate::models::photo::{sanitized, PhotoPath};
use crate::models::post::{map_fits, map_size, same_opt, Post};
use crate::models::tag::{lex_lt, tag_view, TagMap, TagPhotos};
use crate::order::{
    key_count, lemma_key_count, lemma_lex_antisymmetric, lemma_lex_total, lemma_lex_transitive,
    lemma_lex_total_ordering, lemma_stable_sort, lex_le, lex_le_exec, lex_order, sort_strings, stable_sort,
    strings_view,
};
use vstd::relations::sorted_by;
use crate::text::chars_of;
use vstd::prelude::*;

verus! {

/// Name, kind, path and post paths of a category.
pub type CatView = (Seq<char>, CategoryKind, Seq<char>, Seq<Seq<char>>);

pub open spec fn cat_view(c: Category) -> CatView {
    (c.name@, c.kind, c.path@, strings_view(c.post_paths@))
}

pub open spec fn list_view(l: Seq<Category>) -> Seq<CatView> {
    l.map_values(|c: Category| cat_view(c))
}

pub open spec fn kinds_view(ks: Seq<(CategoryKind, Vec<Category>)>) -> Seq<(CategoryKind, Seq<CatView>)> {
    ks.map_values(|e: (CategoryKind, Vec<Category>)| (e.0, list_view(e.1@)))
}

/// Position of the first category named `n` from `i` on, or -1.
pub open spec fn find_name(l: Seq<CatView>, n: Seq<char>, i: int) -> int
    decreases l.len() - i,
{
    if i < 0 || i >= l.len() {
        -1
    } else if l[i].0 == n {
        i
    } else {
        find_name(l, n, i + 1)
    }
}

/// Number of leading categories that sort no later than a category named `n`.
pub open spec fn le_count(l: Seq<CatView>, kind: CategoryKind, n: Seq<char>) -> int
    decreases l.len(),
{
    if l.len() == 0 {
        0
    } else if category_le(kind, l[0].0, n) {
        1 + le_count(l.drop_first(), kind, n)
    } else {
        0
    }
}

/// A category list after a post at `path` is added to category `c`: the post
/// path joins the existing category's sorted post paths, or a copy of `c`
/// holding the path takes its place in the list's order.
pub open spec fn add_to_list(l: Seq<CatView>, c: CatView, path: Seq<char>) -> Seq<CatView> {
    let i = find_name(l, c.0, 0);
    if i >= 0 {
        l.update(i, (l[i].0, l[i].1, l[i].2, l[i].3.push(path).sort_by(lex_order())))
    } else {
        l.insert(le_count(l, c.1, c.0), (c.0, c.1, c.2, c.3.push(path)))
    }
}

/// Position of the first list of kind `k` from `i` on, or -1.
pub open spec fn find_kind(ks: Seq<(CategoryKind, Seq<CatView>)>, k: CategoryKind, i: int) -> int
    decreases ks.len() - i,
{
    if i < 0 || i >= ks.len() {
        -1
    } else if ks[i].0 == k {
        i
    } else {
        find_kind(ks, k, i + 1)
    }
}

/// Category lists after a post at `path` is added to category `c`.
pub open spec fn add_category(
    ks: Seq<(CategoryKind, Seq<CatView>)>,
    c: CatView,
    path: Seq<char>,
) -> Seq<(CategoryKind, Seq<CatView>)> {
    let i = find_kind(ks, c.1, 0);
    if i >= 0 {
        ks.update(i, (ks[i].0, add_to_list(ks[i].1, c, path)))
    } else {
        ks.push((c.1, seq![(c.0, c.1, c.2, c.3.push(path))]))
    }
}

/// Category lists after a post at `path` is added to each of `cats` in turn.
pub open spec fn add_categories(
    ks: Seq<(CategoryKind, Seq<CatView>)>,
    cats: Seq<CatView>,
    path: Seq<char>,
) -> Seq<(CategoryKind, Seq<CatView>)>
    decreases cats.len(),
{
    if cats.len() == 0 {
        ks
    } else {
        add_categories(add_category(ks, cats[0], path), cats.drop_first(), path)
    }
}

/// Number of leading posts whose path sorts no later than `k`.
pub open spec fn post_pos(s: Seq<Post>, k: Seq<char>) -> int
    decreases s.len(),
{
    if s.len() == 0 {
        0
    } else if lex_le(s[0].path@, k) {
        1 + post_pos(s.drop_first(), k)
    } else {
        0
    }
}

/// Whether a post takes part in the chronological sequence of posts.
pub open spec fn in_sequence(p: Post) -> bool {
    p.chronological && p.happened_on is Some
}

/// Time and path of each post in the sequence, in the posts' order.
pub open spec fn time_keys(posts: Seq<Post>) -> Seq<(i64, Seq<char>)>
    decreases posts.len(),
{
    if posts.len() == 0 {
        Seq::empty()
    } else {
        let r = time_keys(posts.drop_last());
        let p = posts.last();
        if in_sequence(p) {
            r.push((p.happened_on.unwrap().timestamp, p.path@))
        } else {
            r
        }
    }
}

/// Time of a key, its sort key.
pub open spec fn time_of() -> spec_fn((i64, Seq<char>)) -> int {
    |k: (i64, Seq<char>)| k.0 as int
}

/// Keys sorted oldest to newest; keys with equal times keep their order.
pub open spec fn time_sort(s: Seq<(i64, Seq<char>)>) -> Seq<(i64, Seq<char>)> {
    stable_sort(s, time_of())
}

/// The chronological sequence of posts: time and path, oldest first.
pub open spec fn chronology(posts: Seq<Post>) -> Seq<(i64, Seq<char>)> {
    time_sort(time_keys(posts))
}

/// Posts `after` are posts `before` linked along their chronology: each keeps
/// all but its links, and takes its neighbours in the chronology as links.
pub open spec fn correlated(before: Seq<Post>, after: Seq<Post>) -> bool {
    &&& after.len() == before.len()
    &&& forall|j: int| 0 <= j < after.len() ==> {
        let p = before[j];
        let q = #[trigger] after[j];
        &&& opt_view(q.prev_path) == linked_prev(p, chronology(before))
        &&& opt_view(q.next_path) == linked_next(p, chronology(before))
        &&& q == (Post { prev_path: q.prev_path, next_path: q.next_path, ..p })
    }
}

/// Post paths ascend strictly.
pub open spec fn paths_ascending(posts: Seq<Post>) -> bool {
    forall|a: int, b: int| 0 <= a < b < posts.len() ==> lex_lt(#[trigger] posts[a].path@, #[trigger] posts[b].path@)
}

/// Posts in ascending path order have distinct paths.
pub proof fn lemma_ascending_distinct(posts: Seq<Post>)
    requires
        paths_ascending(posts),
    ensures
        distinct_paths(posts),
{
    assert forall|a: int, b: int| 0 <= a < posts.len() && 0 <= b < posts.len() && a != b implies posts[a].path@
        != posts[b].path@ by {
        if a < b {
            assert(lex_lt(posts[a].path@, posts[b].path@));
        } else {
            assert(lex_lt(posts[b].path@, posts[a].path@));
        }
    }
}

/// Keys ascend in time.
pub open spec fn time_sorted(o: Seq<(i64, Seq<char>)>) -> bool {
    forall|a: int, b: int| 0 <= a < b < o.len() ==> o[a].0 <= o[b].0
}

/// No two keys share a path.
pub open spec fn distinct_keys(s: Seq<(i64, Seq<char>)>) -> bool {
    forall|a: int, b: int| 0 <= a < s.len() && 0 <= b < s.len() && a != b ==> s[a].1 != s[b].1
}

/// No two posts share a path.
pub open spec fn distinct_paths(posts: Seq<Post>) -> bool {
    forall|a: int, b: int|
        0 <= a < posts.len() && 0 <= b < posts.len() && a != b ==> posts[a].path@ != posts[b].path@
}

/// Time and path of a post.
pub open spec fn time_key(p: Post) -> (i64, Seq<char>) {
    (p.happened_on.unwrap().timestamp, p.path@)
}

/// The keys are those of the posts in the sequence, in the posts' order.
proof fn lemma_time_keys(posts: Seq<Post>)
    ensures
        forall|k: int| 0 <= k < time_keys(posts).len() ==> exists|m: int|
            0 <= m < posts.len() && in_sequence(posts[m]) && #[trigger] time_keys(posts)[k]
                == time_key(posts[m]),
        forall|m: int| 0 <= m < posts.len() && in_sequence(posts[m]) ==> time_keys(posts).contains(
            time_key(#[trigger] posts[m]),
        ),
        distinct_paths(posts) ==> distinct_keys(time_keys(posts)),
    decreases posts.len(),
{
    if posts.len() > 0 {
        let init = posts.drop_last();
        lemma_time_keys(init);
        let r = time_keys(init);
        let tk = time_keys(posts);
        assert forall|k: int| 0 <= k < tk.len() implies exists|m: int|
            0 <= m < posts.len() && in_sequence(posts[m]) && #[trigger] tk[k] == time_key(posts[m]) by {
            if k < r.len() {
                let m = choose|m: int| 0 <= m < init.len() && in_sequence(init[m]) && #[trigger] r[k] == time_key(init[m]);
                assert(posts[m] == init[m]);
            } else {
                assert(tk[k] == time_key(posts[posts.len() - 1]));
            }
        }
        assert forall|m: int| 0 <= m < posts.len() && in_sequence(posts[m]) implies tk.contains(
            time_key(#[trigger] posts[m]),
        ) by {
            if m < init.len() {
                assert(init[m] == posts[m]);
                let k = choose|k: int| 0 <= k < r.len() && r[k] == time_key(init[m]);
                assert(tk[k] == r[k]);
            } else {
                assert(tk[r.len() as int] == time_key(posts[m]));
            }
        }
        if distinct_paths(posts) {
            assert(distinct_paths(init));
            assert forall|a: int, b: int| 0 <= a < tk.len() && 0 <= b < tk.len() && a != b implies tk[a].1
                != tk[b].1 by {
                if a < r.len() && b < r.len() {
                } else if a < r.len() {
                    let m = choose|m: int| 0 <= m < init.len() && in_sequence(init[m]) && #[trigger] r[a] == time_key(init[m]);
                    assert(posts[m] == init[m]);
                } else if b < r.len() {
                    let m = choose|m: int| 0 <= m < init.len() && in_sequence(init[m]) && #[trigger] r[b] == time_key(init[m]);
                    assert(posts[m] == init[m]);
                }
            }
        }
    }
}

/// Sorting by time orders keys oldest to newest, keeps each key, and keeps
/// paths distinct.
#[verifier::spinoff_prover]
#[verifier::rlimit(40)]
proof fn lemma_time_sort(s: Seq<(i64, Seq<char>)>)
    ensures
        time_sorted(time_sort(s)),
        time_sort(s).to_multiset() == s.to_multiset(),
        time_sort(s).len() == s.len(),
        forall|k: int| 0 <= k < s.len() ==> s.contains(#[trigger] time_sort(s)[k]),
        forall|k: int| 0 <= k < s.len() ==> time_sort(s).contains(#[trigger] s[k]),
        distinct_keys(s) ==> distinct_keys(time_sort(s)),
    decreases s.len(),
{
    lemma_stable_sort(s, time_of());
    let o = time_sort(s);
    assert forall|a: int, b: int| 0 <= a < b < o.len() implies o[a].0 <= o[b].0 by {
        assert(time_of()(o[a]) <= time_of()(o[b]));
    }
    if s.len() > 0 {
        let init = s.drop_last();
        let x = s.last();
        lemma_time_sort(init);
        lemma_stable_sort(init, time_of());
        let r = time_sort(init);
        lemma_key_count(r, time_of(), x.0 as int);
        let i = key_count(r, time_of(), x.0 as int);
        assert(o == r.insert(i, x));
        if distinct_keys(s) {
            assert(distinct_keys(init)) by {
                assert forall|a: int, b: int| 0 <= a < init.len() && 0 <= b < init.len() && a != b implies init[a].1 != init[b].1 by {
                    assert(init[a] == s[a] && init[b] == s[b]);
                }
            }
            assert forall|m: int| 0 <= m < r.len() implies (#[trigger] r[m]).1 != x.1 by {
                let k = choose|k: int| 0 <= k < init.len() && #[trigger] init[k] == r[m];
                assert(init[k] == s[k]);
            }
            assert forall|a: int, b: int| 0 <= a < o.len() && 0 <= b < o.len() && a != b implies o[a].1 != o[b].1 by {
                if a < i && b < i {
                } else if a < i && b == i {
                    assert(r[a].1 != x.1);
                } else if a == i && b < i {
                    assert(r[b].1 != x.1);
                } else if a == i {
                    assert(o[b] == r[b - 1]);
                } else if b == i {
                    assert(o[a] == r[a - 1]);
                } else if a < i {
                    assert(o[b] == r[b - 1]);
                } else if b < i {
                    assert(o[a] == r[a - 1]);
                } else {
                    assert(o[a] == r[a - 1] && o[b] == r[b - 1]);
                }
            }
        }
    }
}

/// In keys without shared paths, the path at position `i` is found there.
proof fn lemma_key_pos(o: Seq<(i64, Seq<char>)>, i: int, j: int)
    requires
        distinct_keys(o),
        0 <= j <= i < o.len(),
    ensures
        key_pos(o, o[i].1, j) == i,
    decreases i - j,
{
    if j < i {
        lemma_key_pos(o, i, j + 1);
    }
}

/// The chronology holds the time and path of each post in the sequence, once
/// each, ordered oldest to newest.
pub proof fn lemma_chronology(posts: Seq<Post>)
    ensures
        time_sorted(chronology(posts)),
        chronology(posts).to_multiset() == time_keys(posts).to_multiset(),
        forall|m: int| 0 <= m < posts.len() && in_sequence(posts[m]) ==> chronology(posts).contains(
            time_key(#[trigger] posts[m]),
        ),
        forall|k: int| 0 <= k < chronology(posts).len() ==> exists|m: int|
            0 <= m < posts.len() && in_sequence(posts[m]) && #[trigger] chronology(posts)[k]
                == time_key(posts[m]),
        distinct_paths(posts) ==> distinct_keys(chronology(posts)),
{
    let tk = time_keys(posts);
    let o = chronology(posts);
    lemma_time_keys(posts);
    lemma_time_sort(tk);
    assert forall|m: int| 0 <= m < posts.len() && in_sequence(posts[m]) implies o.contains(
        time_key(#[trigger] posts[m]),
    ) by {
        assert(tk.contains(time_key(posts[m])));
        let k = choose|k: int| 0 <= k < tk.len() && tk[k] == time_key(posts[m]);
        assert(o.contains(tk[k]));
    }
    assert forall|k: int| 0 <= k < o.len() implies exists|m: int|
        0 <= m < posts.len() && in_sequence(posts[m]) && #[trigger] o[k] == time_key(posts[m]) by {
        assert(tk.contains(o[k]));
        let n = choose|n: int| 0 <= n < tk.len() && tk[n] == o[k];
        assert(exists|m: int| 0 <= m < posts.len() && in_sequence(posts[m]) && #[trigger] tk[n] == time_key(posts[m]));
    }
}

/// After correlating posts with distinct paths, posts next to each other in
/// the chronology point at each other: the older one's next path is the
/// newer one's path and the newer one's previous path is the older one's.
pub proof fn lemma_correlated_links(before: Seq<Post>, after: Seq<Post>, i: int)
    requires
        distinct_paths(before),
        correlated(before, after),
        0 <= i && i + 1 < chronology(before).len(),
    ensures
        forall|a: int| 0 <= a < before.len() && (#[trigger] before[a]).path@ == chronology(before)[i].1
            ==> opt_view(after[a].next_path) == Some(chronology(before)[i + 1].1),
        forall|b: int| 0 <= b < before.len() && (#[trigger] before[b]).path@ == chronology(before)[i + 1].1
            ==> opt_view(after[b].prev_path) == Some(chronology(before)[i].1),
{
    let o = chronology(before);
    lemma_chronology(before);
    lemma_key_pos(o, i, 0);
    lemma_key_pos(o, i + 1, 0);
    assert forall|a: int| 0 <= a < before.len() && (#[trigger] before[a]).path@ == o[i].1 implies opt_view(
        after[a].next_path,
    ) == Some(o[i + 1].1) by {
        assert(linked_next(before[a], o) == Some(o[i + 1].1));
    }
    assert forall|b: int| 0 <= b < before.len() && (#[trigger] before[b]).path@ == o[i + 1].1 implies opt_view(
        after[b].prev_path,
    ) == Some(o[i].1) by {
        assert(linked_prev(before[b], o) == Some(o[i].1));
    }
}


/// Post path and photo index of a photo path.
pub open spec fn path_view(x: PhotoPath) -> (Seq<char>, u8) {
    (x.post_path@, x.photo_index)
}

pub open spec fn paths_view(s: Seq<PhotoPath>) -> Seq<(Seq<char>, u8)> {
    s.map_values(|x: PhotoPath| path_view(x))
}

/// Blog tags: slug mapped to name, photo paths and change flag.
pub type TagsView = Map<Seq<char>, (Seq<char>, Seq<(Seq<char>, u8)>, bool)>;

/// What a tag map of photo paths holds, by views.
pub open spec fn tags_view(m: TagMap<PhotoPath>) -> TagsView {
    m.contents().map_values(|v: (Seq<char>, Seq<PhotoPath>, bool)| (v.0, paths_view(v.1), v.2))
}

/// A use of a tag in a post: slug, name and the paths of its photos.
pub type TagUse = (Seq<char>, Seq<char>, Seq<(Seq<char>, u8)>);

/// The uses of each tag of post `p`, in slug order.
pub open spec fn post_tag_uses(p: Post) -> Seq<TagUse> {
    p.tags.entries@.map_values(
        |e: (String, TagPhotos<u8>)| (e.0@, e.1.name@, e.1.photos@.map_values(|i: u8| (p.path@, i))),
    )
}

/// Tag uses of all posts, post by post.
pub open spec fn blog_tag_uses(posts: Seq<Post>) -> Seq<TagUse>
    decreases posts.len(),
{
    if posts.len() == 0 {
        Seq::empty()
    } else {
        blog_tag_uses(posts.drop_last()) + post_tag_uses(posts.last())
    }
}

/// Tag uses gathered by slug: the first use's name, the photo paths of all
/// uses in order, and a changed flag.
pub open spec fn gather(uses: Seq<TagUse>) -> TagsView
    decreases uses.len(),
{
    if uses.len() == 0 {
        Map::empty()
    } else {
        let m = gather(uses.drop_last());
        let u = uses.last();
        if m.contains_key(u.0) {
            m.insert(u.0, (m[u.0].0, m[u.0].1 + u.2, true))
        } else {
            m.insert(u.0, (u.1, u.2, true))
        }
    }
}

/// Gathered tags are all flagged as changed.
pub proof fn lemma_gather_changed(uses: Seq<TagUse>, k: Seq<char>)
    requires
        gather(uses).contains_key(k),
    ensures
        gather(uses)[k].2,
    decreases uses.len(),
{
    if uses.len() > 0 && k != uses.last().0 {
        lemma_gather_changed(uses.drop_last(), k);
    }
}

/// Tags compared with the logged tags: where tags were logged, a tag logged
/// under the same slug with the same name and number of photos is flagged
/// unchanged.
pub open spec fn review(m: TagsView, log: TagMap<PhotoPath>) -> TagsView {
    if log.entries@.len() == 0 {
        m
    } else {
        Map::new(
            |k: Seq<char>| m.contains_key(k),
            |k: Seq<char>|
                if log.has(k) && log.contents()[k].0 == m[k].0 && log.contents()[k].1.len() == m[k].1.len() {
                    (m[k].0, m[k].1, false)
                } else {
                    m[k]
                },
        )
    }
}

/// Collated tags keep their names and photos, and a tag is flagged as
/// changed unless the log holds it under the same slug with the same name and
/// the same number of photos: a tag that lost photos, gained photos, was
/// renamed or is new is flagged.
pub proof fn lemma_review_flags(uses: Seq<TagUse>, log: TagMap<PhotoPath>, k: Seq<char>)
    requires
        gather(uses).contains_key(k),
    ensures
        ({
            let m = gather(uses);
            let r = review(m, log);
            &&& r.contains_key(k)
            &&& r[k].0 == m[k].0
            &&& r[k].1 == m[k].1
            &&& r[k].2 <==> !(log.has(k) && log.contents()[k].0 == m[k].0 && log.contents()[k].1.len()
                == m[k].1.len())
        }),
{
    lemma_gather_changed(uses, k);
    if log.entries@.len() == 0 {
        if log.has(k) {
            let i = choose|i: int| 0 <= i < log.entries@.len() && #[trigger] log.entries@[i].0@ == k;
        }
    }
}

/// A gathered tag lists the photos of every use of its slug.
proof fn lemma_gather_keeps(uses: Seq<TagUse>, u: TagUse)
    requires
        uses.contains(u),
    ensures
        gather(uses).contains_key(u.0),
        forall|r: int| 0 <= r < u.2.len() ==> gather(uses)[u.0].1.contains(#[trigger] u.2[r]),
    decreases uses.len(),
{
    let init = uses.drop_last();
    let last = uses.last();
    let m = gather(init);
    if last == u {
        assert forall|r: int| 0 <= r < u.2.len() implies gather(uses)[u.0].1.contains(#[trigger] u.2[r]) by {
            if m.contains_key(u.0) {
                assert((m[u.0].1 + u.2)[m[u.0].1.len() + r] == u.2[r]);
            } else {
                assert(u.2[r] == u.2[r]);
            }
        }
    } else {
        let n = choose|n: int| 0 <= n < uses.len() && uses[n] == u;
        assert(n < init.len());
        assert(init[n] == u);
        lemma_gather_keeps(init, u);
        assert forall|r: int| 0 <= r < u.2.len() implies gather(uses)[u.0].1.contains(#[trigger] u.2[r]) by {
            assert(m[u.0].1.contains(u.2[r]));
            if last.0 == u.0 {
                let t = choose|t: int| 0 <= t < m[u.0].1.len() && m[u.0].1[t] == u.2[r];
                assert((m[u.0].1 + last.2)[t] == u.2[r]);
            }
        }
    }
}

/// The uses of the blog's tags include every tag use of each post.
proof fn lemma_blog_uses_has(posts: Seq<Post>, j: int, e: int)
    requires
        0 <= j < posts.len(),
        0 <= e < posts[j].tags.entries@.len(),
    ensures
        blog_tag_uses(posts).contains(post_tag_uses(posts[j])[e]),
    decreases posts.len(),
{
    let init = blog_tag_uses(posts.drop_last());
    let last = post_tag_uses(posts.last());
    if j == posts.len() - 1 {
        assert((init + last)[init.len() + e] == last[e]);
    } else {
        assert(posts.drop_last()[j] == posts[j]);
        lemma_blog_uses_has(posts.drop_last(), j, e);
        let n = choose|n: int| 0 <= n < init.len() && init[n] == post_tag_uses(posts[j])[e];
        assert((init + last)[n] == init[n]);
    }
}

/// Every photo that a post lists under a tag is listed, by post path and
/// photo index, under the same slug among the blog's collated tags.
pub proof fn lemma_blog_tags_cover(posts: Seq<Post>, log: TagMap<PhotoPath>, j: int, e: int, q: int)
    requires
        0 <= j < posts.len(),
        0 <= e < posts[j].tags.entries@.len(),
        0 <= q < posts[j].tags.entries@[e].1.photos@.len(),
    ensures
        review(gather(blog_tag_uses(posts)), log).contains_key(posts[j].tags.entries@[e].0@),
        review(gather(blog_tag_uses(posts)), log)[posts[j].tags.entries@[e].0@].1.contains(
            (posts[j].path@, posts[j].tags.entries@[e].1.photos@[q]),
        ),
{
    let u = post_tag_uses(posts[j])[e];
    lemma_blog_uses_has(posts, j, e);
    lemma_gather_keeps(blog_tag_uses(posts), u);
    assert(u.2[q] == (posts[j].path@, posts[j].tags.entries@[e].1.photos@[q]));
}

/// Whether a post must be rendered: its files or its neighbours changed since
/// the last render.
pub open spec fn needs_render(p: Post) -> bool {
    p.history.files_changed || !(same_opt(p.history.prev_path, p.prev_path) && same_opt(
        p.history.next_path,
        p.next_path,
    ))
}

/// Number of posts that must be rendered.
pub open spec fn render_count(posts: Seq<Post>) -> nat
    decreases posts.len(),
{
    if posts.len() == 0 {
        0
    } else {
        render_count(posts.drop_last()) + if needs_render(posts.last()) {
            1nat
        } else {
            0nat
        }
    }
}

/// Categories of a list sort by name in the order of their kind.
pub open spec fn list_sorted(l: Seq<CatView>, kind: CategoryKind) -> bool {
    forall|a: int, b: int| 0 <= a < b < l.len() ==> category_le(kind, #[trigger] l[a].0, #[trigger] l[b].0)
}

/// Every category list is sorted and holds categories of its own kind.
pub open spec fn kinds_ordered(ks: Seq<(CategoryKind, Seq<CatView>)>) -> bool {
    &&& forall|i: int| 0 <= i < ks.len() ==> list_sorted(#[trigger] ks[i].1, ks[i].0)
    &&& forall|i: int, j: int| 0 <= i < ks.len() && 0 <= j < ks[i].1.len() ==> (#[trigger] ks[i].1[j]).1 == ks[i].0
}

proof fn lemma_category_le_transitive(kind: CategoryKind, a: Seq<char>, b: Seq<char>, c: Seq<char>)
    requires
        category_le(kind, a, b),
        category_le(kind, b, c),
    ensures
        category_le(kind, a, c),
{
    if kind == CategoryKind::When {
        lemma_lex_transitive(c, b, a);
    } else {
        lemma_lex_transitive(a, b, c);
    }
}

proof fn lemma_category_le_total(kind: CategoryKind, a: Seq<char>, b: Seq<char>)
    ensures
        category_le(kind, a, b) || category_le(kind, b, a),
{
    lemma_lex_total(a, b);
}

/// In a sorted list, the categories counted by `le_count` are exactly the
/// leading ones that sort no later than `n`.
proof fn lemma_le_count(l: Seq<CatView>, kind: CategoryKind, n: Seq<char>)
    requires
        list_sorted(l, kind),
    ensures
        0 <= le_count(l, kind, n) <= l.len(),
        forall|j: int| 0 <= j < le_count(l, kind, n) ==> category_le(kind, #[trigger] l[j].0, n),
        forall|j: int| le_count(l, kind, n) <= j < l.len() ==> category_le(kind, n, #[trigger] l[j].0),
    decreases l.len(),
{
    if l.len() > 0 {
        let t = l.drop_first();
        assert(list_sorted(t, kind)) by {
            assert forall|a: int, b: int| 0 <= a < b < t.len() implies category_le(kind, #[trigger] t[a].0, #[trigger] t[b].0) by {
                assert(t[a] == l[a + 1] && t[b] == l[b + 1]);
            }
        }
        lemma_le_count(t, kind, n);
        if category_le(kind, l[0].0, n) {
            assert forall|j: int| 0 <= j < le_count(l, kind, n) implies category_le(kind, #[trigger] l[j].0, n) by {
                if j > 0 {
                    assert(l[j] == t[j - 1]);
                }
            }
            assert forall|j: int| le_count(l, kind, n) <= j < l.len() implies category_le(kind, n, #[trigger] l[j].0) by {
                assert(l[j] == t[j - 1]);
            }
        } else {
            lemma_category_le_total(kind, l[0].0, n);
            assert forall|j: int| le_count(l, kind, n) <= j < l.len() implies category_le(kind, n, #[trigger] l[j].0) by {
                if j > 0 {
                    assert(category_le(kind, l[0].0, l[j].0));
                    lemma_category_le_transitive(kind, n, l[0].0, l[j].0);
                }
            }
        }
    }
}

proof fn lemma_find_name(l: Seq<CatView>, n: Seq<char>, i: int)
    requires
        0 <= i,
    ensures
        find_name(l, n, i) == -1 || (i <= find_name(l, n, i) < l.len() && l[find_name(l, n, i)].0 == n),
    decreases l.len() - i,
{
    if i < l.len() && l[i].0 != n {
        lemma_find_name(l, n, i + 1);
    }
}

proof fn lemma_find_kind(ks: Seq<(CategoryKind, Seq<CatView>)>, k: CategoryKind, i: int)
    requires
        0 <= i,
    ensures
        find_kind(ks, k, i) == -1 || (i <= find_kind(ks, k, i) < ks.len() && ks[find_kind(ks, k, i)].0 == k),
        find_kind(ks, k, i) == -1 ==> forall|j: int| i <= j < ks.len() ==> (#[trigger] ks[j]).0 != k,
    decreases ks.len() - i,
{
    if i < ks.len() && ks[i].0 != k {
        lemma_find_kind(ks, k, i + 1);
    }
}

/// Adding a post to a category keeps a sorted list of its kind sorted and of
/// that kind.
proof fn lemma_add_to_list_sorted(l: Seq<CatView>, c: CatView, path: Seq<char>)
    requires
        list_sorted(l, c.1),
        forall|j: int| 0 <= j < l.len() ==> (#[trigger] l[j]).1 == c.1,
    ensures
        list_sorted(add_to_list(l, c, path), c.1),
        forall|j: int| 0 <= j < add_to_list(l, c, path).len() ==> (#[trigger] add_to_list(l, c, path)[j]).1 == c.1,
{
    let r = add_to_list(l, c, path);
    lemma_find_name(l, c.0, 0);
    let i = find_name(l, c.0, 0);
    if i >= 0 {
        assert forall|a: int, b: int| 0 <= a < b < r.len() implies category_le(c.1, #[trigger] r[a].0, #[trigger] r[b].0) by {
            assert(r[a].0 == l[a].0 && r[b].0 == l[b].0);
        }
        assert forall|j: int| 0 <= j < r.len() implies (#[trigger] r[j]).1 == c.1 by {
            assert(r[j].1 == l[j].1);
        }
    } else {
        lemma_le_count(l, c.1, c.0);
        let p = le_count(l, c.1, c.0);
        let x = (c.0, c.1, c.2, c.3.push(path));
        assert(r == l.insert(p, x));
        assert forall|a: int, b: int| 0 <= a < b < r.len() implies category_le(c.1, #[trigger] r[a].0, #[trigger] r[b].0) by {
            if b < p {
            } else if a < p && b == p {
            } else if a < p {
                assert(r[b] == l[b - 1]);
            } else if a == p {
                assert(r[b] == l[b - 1]);
            } else {
                assert(r[a] == l[a - 1] && r[b] == l[b - 1]);
            }
        }
        assert forall|j: int| 0 <= j < r.len() implies (#[trigger] r[j]).1 == c.1 by {
            if j < p {
            } else if j > p {
                assert(r[j] == l[j - 1]);
            }
        }
    }
}

/// Adding a post to its categories keeps every category list sorted by name
/// in the order of its kind (years newest first), each holding categories of
/// its own kind.
pub proof fn lemma_add_categories_ordered(
    ks: Seq<(CategoryKind, Seq<CatView>)>,
    cats: Seq<CatView>,
    path: Seq<char>,
)
    requires
        kinds_ordered(ks),
    ensures
        kinds_ordered(add_categories(ks, cats, path)),
    decreases cats.len(),
{
    if cats.len() > 0 {
        let c = cats[0];
        let next = add_category(ks, c, path);
        lemma_find_kind(ks, c.1, 0);
        let i = find_kind(ks, c.1, 0);
        if i >= 0 {
            lemma_add_to_list_sorted(ks[i].1, c, path);
            assert(kinds_ordered(next)) by {
                assert forall|q: int| 0 <= q < next.len() implies list_sorted(#[trigger] next[q].1, next[q].0) by {
                    if q != i {
                        assert(next[q] == ks[q]);
                    }
                }
                assert forall|q: int, j: int| 0 <= q < next.len() && 0 <= j < next[q].1.len() implies (#[trigger] next[q].1[j]).1
                    == next[q].0 by {
                    if q != i {
                        assert(next[q] == ks[q]);
                    }
                }
            }
        } else {
            assert(kinds_ordered(next)) by {
                assert forall|q: int| 0 <= q < next.len() implies list_sorted(#[trigger] next[q].1, next[q].0) by {
                    if q < ks.len() {
                        assert(next[q] == ks[q]);
                    }
                }
                assert forall|q: int, j: int| 0 <= q < next.len() && 0 <= j < next[q].1.len() implies (#[trigger] next[q].1[j]).1
                    == next[q].0 by {
                    if q < ks.len() {
                        assert(next[q] == ks[q]);
                    }
                }
            }
        }
        lemma_add_categories_ordered(next, cats.drop_first(), path);
    }
}

/// Category lists kept tidy: sorted and of their own kind, one list per kind,
/// no two categories of a list with the same name, and each category's post
/// paths ascending.
pub open spec fn categories_tidy(ks: Seq<(CategoryKind, Seq<CatView>)>) -> bool {
    &&& kinds_ordered(ks)
    &&& forall|i: int, j: int| 0 <= i < j < ks.len() ==> #[trigger] ks[i].0 != #[trigger] ks[j].0
    &&& forall|i: int, a: int, b: int|
        0 <= i < ks.len() && 0 <= a < b < ks[i].1.len() ==> #[trigger] ks[i].1[a].0 != #[trigger] ks[i].1[b].0
    &&& forall|i: int, j: int|
        0 <= i < ks.len() && 0 <= j < ks[i].1.len() ==> sorted_by(#[trigger] ks[i].1[j].3, lex_order())
}

/// Whether the list of kind `kind` has a category named `name` that lists the
/// post path `path`. In tidy lists there is at most one such list and one
/// such category.
pub open spec fn lists_post(
    ks: Seq<(CategoryKind, Seq<CatView>)>,
    kind: CategoryKind,
    name: Seq<char>,
    path: Seq<char>,
) -> bool {
    exists|i: int, j: int|
        0 <= i < ks.len() && 0 <= j < ks[i].1.len() && ks[i].0 == kind && (#[trigger] ks[i].1[j]).0 == name
            && ks[i].1[j].3.contains(path)
}

proof fn lemma_find_name_none(l: Seq<CatView>, n: Seq<char>, i: int)
    requires
        0 <= i,
        find_name(l, n, i) == -1,
    ensures
        forall|j: int| i <= j < l.len() ==> (#[trigger] l[j]).0 != n,
    decreases l.len() - i,
{
    if i < l.len() {
        lemma_find_name_none(l, n, i + 1);
    }
}

/// Post paths with one more path, sorted: sorted, and holding the old paths
/// and the new one.
proof fn lemma_push_sorted(p: Seq<Seq<char>>, path: Seq<char>, q: Seq<char>)
    ensures
        sorted_by(p.push(path).sort_by(lex_order()), lex_order()),
        (p.contains(q) || q == path) ==> p.push(path).sort_by(lex_order()).contains(q),
{
    lemma_lex_total_ordering();
    let t = p.push(path);
    t.lemma_sort_by_ensures(lex_order());
    t.to_multiset_ensures();
    t.sort_by(lex_order()).to_multiset_ensures();
    if p.contains(q) {
        let k = choose|k: int| 0 <= k < p.len() && p[k] == q;
        assert(t[k] == q);
        assert(t.contains(q));
    }
    if q == path {
        assert(t[p.len() as int] == q);
        assert(t.contains(q));
    }
    if t.contains(q) {
        assert(t.to_multiset().count(q) > 0);
        assert(t.sort_by(lex_order()).to_multiset().count(q) > 0);
    }
}

/// Adding a post to a category of a tidy list keeps it tidy, lists the post
/// there, and keeps every post listed before.
proof fn lemma_add_to_list_tidy(
    l: Seq<CatView>,
    c: CatView,
    path: Seq<char>,
    x: Seq<char>,
    q: Seq<char>,
)
    requires
        list_sorted(l, c.1),
        forall|j: int| 0 <= j < l.len() ==> (#[trigger] l[j]).1 == c.1,
        forall|a: int, b: int| 0 <= a < b < l.len() ==> #[trigger] l[a].0 != #[trigger] l[b].0,
        forall|j: int| 0 <= j < l.len() ==> sorted_by(#[trigger] l[j].3, lex_order()),
        c.3.len() == 0,
    ensures
        ({
            let r = add_to_list(l, c, path);
            &&& forall|a: int, b: int| 0 <= a < b < r.len() ==> #[trigger] r[a].0 != #[trigger] r[b].0
            &&& forall|j: int| 0 <= j < r.len() ==> sorted_by(#[trigger] r[j].3, lex_order())
            &&& exists|j: int| 0 <= j < r.len() && (#[trigger] r[j]).0 == c.0 && r[j].3.contains(path)
            &&& (exists|j: int| 0 <= j < l.len() && (#[trigger] l[j]).0 == x && l[j].3.contains(q)) ==> exists|j: int|
                0 <= j < r.len() && (#[trigger] r[j]).0 == x && r[j].3.contains(q)
        }),
{
    let r = add_to_list(l, c, path);
    lemma_find_name(l, c.0, 0);
    let i = find_name(l, c.0, 0);
    if i >= 0 {
        lemma_push_sorted(l[i].3, path, path);
        assert(r[i].0 == c.0 && r[i].3.contains(path));
        assert forall|a: int, b: int| 0 <= a < b < r.len() implies #[trigger] r[a].0 != #[trigger] r[b].0 by {
            assert(r[a].0 == l[a].0 && r[b].0 == l[b].0);
        }
        assert forall|j: int| 0 <= j < r.len() implies sorted_by(#[trigger] r[j].3, lex_order()) by {
            if j != i {
                assert(r[j] == l[j]);
            }
        }
        if exists|j: int| 0 <= j < l.len() && (#[trigger] l[j]).0 == x && l[j].3.contains(q) {
            let j = choose|j: int| 0 <= j < l.len() && (#[trigger] l[j]).0 == x && l[j].3.contains(q);
            if j == i {
                lemma_push_sorted(l[i].3, path, q);
            } else {
                assert(r[j] == l[j]);
            }
            assert(r[j].0 == x && r[j].3.contains(q));
        }
    } else {
        lemma_find_name_none(l, c.0, 0);
        lemma_le_count(l, c.1, c.0);
        let p = le_count(l, c.1, c.0);
        let y = (c.0, c.1, c.2, c.3.push(path));
        assert(r == l.insert(p, y));
        assert(c.3.push(path) =~= seq![path]);
        assert(r[p].3.contains(path)) by {
            assert(r[p].3[0] == path);
        }
        assert forall|a: int, b: int| 0 <= a < b < r.len() implies #[trigger] r[a].0 != #[trigger] r[b].0 by {
            if b < p {
            } else if a < p && b == p {
            } else if a < p {
                assert(r[b] == l[b - 1]);
            } else if a == p {
                assert(r[b] == l[b - 1]);
            } else {
                assert(r[a] == l[a - 1] && r[b] == l[b - 1]);
            }
        }
        assert forall|j: int| 0 <= j < r.len() implies sorted_by(#[trigger] r[j].3, lex_order()) by {
            if j < p {
            } else if j > p {
                assert(r[j] == l[j - 1]);
            }
        }
        if exists|j: int| 0 <= j < l.len() && (#[trigger] l[j]).0 == x && l[j].3.contains(q) {
            let j = choose|j: int| 0 <= j < l.len() && (#[trigger] l[j]).0 == x && l[j].3.contains(q);
            if j < p {
                assert(r[j] == l[j]);
                assert(r[j].0 == x && r[j].3.contains(q));
            } else {
                assert(r[j + 1] == l[j]);
                assert(r[j + 1].0 == x && r[j + 1].3.contains(q));
            }
        }
    }
}

/// Adding a post to one category keeps the lists tidy, lists the post under
/// that category, and keeps every post listed before.
proof fn lemma_add_category_tidy(
    ks: Seq<(CategoryKind, Seq<CatView>)>,
    c: CatView,
    path: Seq<char>,
    kind: CategoryKind,
    x: Seq<char>,
    q: Seq<char>,
)
    requires
        categories_tidy(ks),
        c.3.len() == 0,
    ensures
        categories_tidy(add_category(ks, c, path)),
        lists_post(add_category(ks, c, path), c.1, c.0, path),
        lists_post(ks, kind, x, q) ==> lists_post(add_category(ks, c, path), kind, x, q),
{
    let next = add_category(ks, c, path);
    lemma_add_categories_ordered(ks, seq![c], path);
    assert(seq![c].drop_first() =~= Seq::<CatView>::empty());
    assert(seq![c][0] == c);
    assert(add_categories(next, Seq::<CatView>::empty(), path) == next);
    assert(add_categories(ks, seq![c], path) == next);
    lemma_find_kind(ks, c.1, 0);
    let i = find_kind(ks, c.1, 0);
    if i >= 0 {
        let l = ks[i].1;
        assert(list_sorted(l, c.1));
        assert forall|a: int, b: int| 0 <= a < b < l.len() implies #[trigger] l[a].0 != #[trigger] l[b].0 by {
            assert(ks[i].1[a].0 != ks[i].1[b].0);
        }
        assert forall|j: int| 0 <= j < l.len() implies sorted_by(#[trigger] l[j].3, lex_order()) by {
            assert(sorted_by(ks[i].1[j].3, lex_order()));
        }
        assert forall|j: int| 0 <= j < l.len() implies (#[trigger] l[j]).1 == c.1 by {
            assert(ks[i].1[j].1 == ks[i].0);
        }
        lemma_add_to_list_tidy(l, c, path, x, q);
        let r = add_to_list(l, c, path);
        assert(next == ks.update(i, (ks[i].0, r)));
        assert forall|a: int, b: int| 0 <= a < b < next.len() implies #[trigger] next[a].0 != #[trigger] next[b].0 by {
            assert(next[a].0 == ks[a].0 && next[b].0 == ks[b].0);
        }
        assert forall|a: int, u: int, v: int|
            0 <= a < next.len() && 0 <= u < v < next[a].1.len() implies #[trigger] next[a].1[u].0
            != #[trigger] next[a].1[v].0 by {
            if a != i {
                assert(next[a] == ks[a]);
            }
        }
        assert forall|a: int, j: int| 0 <= a < next.len() && 0 <= j < next[a].1.len() implies sorted_by(
            #[trigger] next[a].1[j].3,
            lex_order(),
        ) by {
            if a != i {
                assert(next[a] == ks[a]);
            }
        }
        let j = choose|j: int| 0 <= j < r.len() && (#[trigger] r[j]).0 == c.0 && r[j].3.contains(path);
        assert(next[i].1[j] == r[j]);
        assert(lists_post(next, c.1, c.0, path));
        if lists_post(ks, kind, x, q) {
            let (a, b) = choose|a: int, b: int|
                0 <= a < ks.len() && 0 <= b < ks[a].1.len() && ks[a].0 == kind && (#[trigger] ks[a].1[b]).0 == x
                    && ks[a].1[b].3.contains(q);
            if a != i {
                assert(next[a] == ks[a]);
                assert(next[a].1[b] == ks[a].1[b]);
            } else {
                assert(l[b].0 == x && l[b].3.contains(q));
                let j2 = choose|j: int| 0 <= j < r.len() && (#[trigger] r[j]).0 == x && r[j].3.contains(q);
                assert(next[a].1[j2] == r[j2]);
            }
        }
    } else {
        let y = (c.0, c.1, c.2, c.3.push(path));
        assert(next == ks.push((c.1, seq![y])));
        assert(c.3.push(path) =~= seq![path]);
        assert(next[ks.len() as int].1[0] == y);
        assert(y.3[0] == path);
        assert(lists_post(next, c.1, c.0, path));
        assert forall|a: int, b: int| 0 <= a < b < next.len() implies #[trigger] next[a].0 != #[trigger] next[b].0 by {
            if b == ks.len() {
                assert(next[a] == ks[a]);
            } else {
                assert(next[a] == ks[a] && next[b] == ks[b]);
            }
        }
        assert forall|a: int, u: int, v: int|
            0 <= a < next.len() && 0 <= u < v < next[a].1.len() implies #[trigger] next[a].1[u].0
            != #[trigger] next[a].1[v].0 by {
            if a < ks.len() {
                assert(next[a] == ks[a]);
            }
        }
        assert forall|a: int, j: int| 0 <= a < next.len() && 0 <= j < next[a].1.len() implies sorted_by(
            #[trigger] next[a].1[j].3,
            lex_order(),
        ) by {
            if a < ks.len() {
                assert(next[a] == ks[a]);
            } else {
                assert(next[a].1[j].3 == seq![path]);
            }
        }
        if lists_post(ks, kind, x, q) {
            let (a, b) = choose|a: int, b: int|
                0 <= a < ks.len() && 0 <= b < ks[a].1.len() && ks[a].0 == kind && (#[trigger] ks[a].1[b]).0 == x
                    && ks[a].1[b].3.contains(q);
            assert(next[a] == ks[a]);
            assert(next[a].1[b] == ks[a].1[b]);
        }
    }
}

/// Adding a post to its categories keeps every post listed before.
proof fn lemma_add_categories_keeps(
    ks: Seq<(CategoryKind, Seq<CatView>)>,
    cats: Seq<CatView>,
    path: Seq<char>,
    kind: CategoryKind,
    x: Seq<char>,
    q: Seq<char>,
)
    requires
        categories_tidy(ks),
        forall|k: int| 0 <= k < cats.len() ==> (#[trigger] cats[k]).3.len() == 0,
        lists_post(ks, kind, x, q),
    ensures
        categories_tidy(add_categories(ks, cats, path)),
        lists_post(add_categories(ks, cats, path), kind, x, q),
    decreases cats.len(),
{
    if cats.len() > 0 {
        lemma_add_category_tidy(ks, cats[0], path, kind, x, q);
        let next = add_category(ks, cats[0], path);
        assert forall|k: int| 0 <= k < cats.drop_first().len() implies (#[trigger] cats.drop_first()[k]).3.len() == 0 by {
            assert(cats.drop_first()[k] == cats[k + 1]);
        }
        lemma_add_categories_keeps(next, cats.drop_first(), path, kind, x, q);
    }
}

/// Adding a post to its categories, each given with no post paths of its
/// own, keeps the category lists tidy: sorted and of their own kind, one list
/// per kind, names distinct within a list, post paths ascending. Afterwards
/// the list of each category's kind has exactly one category of its name,
/// and that category lists the post; every post listed before is still
/// listed under the same kind and name.
pub proof fn lemma_add_categories_tidy(
    ks: Seq<(CategoryKind, Seq<CatView>)>,
    cats: Seq<CatView>,
    path: Seq<char>,
)
    requires
        categories_tidy(ks),
        forall|k: int| 0 <= k < cats.len() ==> (#[trigger] cats[k]).3.len() == 0,
    ensures
        categories_tidy(add_categories(ks, cats, path)),
        forall|k: int|
            0 <= k < cats.len() ==> lists_post(add_categories(ks, cats, path), #[trigger] cats[k].1, cats[k].0, path),
        forall|kind: CategoryKind, x: Seq<char>, q: Seq<char>|
            #[trigger] lists_post(ks, kind, x, q) ==> lists_post(add_categories(ks, cats, path), kind, x, q),
    decreases cats.len(),
{
    if cats.len() == 0 {
        return;
    }
    let c = cats[0];
    let rest = cats.drop_first();
    let next = add_category(ks, c, path);
    lemma_add_category_tidy(ks, c, path, c.1, c.0, path);
    assert forall|k: int| 0 <= k < rest.len() implies (#[trigger] rest[k]).3.len() == 0 by {
        assert(rest[k] == cats[k + 1]);
    }
    lemma_add_categories_tidy(next, rest, path);
    lemma_add_categories_keeps(next, rest, path, c.1, c.0, path);
    assert forall|k: int| 0 <= k < cats.len() implies lists_post(
        add_categories(ks, cats, path),
        #[trigger] cats[k].1,
        cats[k].0,
        path,
    ) by {
        if k > 0 {
            assert(cats[k] == rest[k - 1]);
        }
    }
    assert forall|kind: CategoryKind, x: Seq<char>, q: Seq<char>|
        #[trigger] lists_post(ks, kind, x, q) implies lists_post(add_categories(ks, cats, path), kind, x, q) by {
        lemma_add_category_tidy(ks, c, path, kind, x, q);
    }
}

/// Whether adding post `p` to its categories took tidy lists `before` to
/// `after` as it should: where the lists were tidy and the post's categories
/// carry no post paths of their own, the lists stay tidy, each of the post's
/// categories is listed under its kind (exactly once, the lists being tidy)
/// with the post's path, and every post listed before is still listed under
/// the same kind and name.
pub open spec fn post_categories_added(
    before: Seq<(CategoryKind, Seq<CatView>)>,
    after: Seq<(CategoryKind, Seq<CatView>)>,
    p: Post,
) -> bool {
    categories_tidy(before) && (forall|k: int|
        0 <= k < p.categories@.len() ==> (#[trigger] p.categories@[k]).post_paths@.len() == 0) ==> {
        &&& categories_tidy(after)
        &&& forall|k: int|
            0 <= k < p.categories@.len() ==> lists_post(
                after,
                (#[trigger] p.categories@[k]).kind,
                p.categories@[k].name@,
                p.path@,
            )
        &&& forall|kind: CategoryKind, x: Seq<char>, q: Seq<char>|
            #[trigger] lists_post(before, kind, x, q) ==> lists_post(after, kind, x, q)
    }
}

/// Adding a post to its categories, as `add_categories` states it, is a
/// tidy addition.
proof fn lemma_post_categories_tidy(ks: Seq<(CategoryKind, Seq<CatView>)>, p: Post)
    ensures
        post_categories_added(ks, add_categories(ks, list_view(p.categories@), p.path@), p),
{
    let cats = list_view(p.categories@);
    if categories_tidy(ks) && (forall|k: int|
        0 <= k < p.categories@.len() ==> (#[trigger] p.categories@[k]).post_paths@.len() == 0) {
        assert forall|k: int| 0 <= k < cats.len() implies (#[trigger] cats[k]).3.len() == 0 by {
            assert(cats[k] == cat_view(p.categories@[k]));
            assert(p.categories@[k].post_paths@.len() == 0);
        }
        lemma_add_categories_tidy(ks, cats, p.path@);
        assert forall|k: int| 0 <= k < p.categories@.len() implies lists_post(
            add_categories(ks, cats, p.path@),
            (#[trigger] p.categories@[k]).kind,
            p.categories@[k].name@,
            p.path@,
        ) by {
            assert(cats[k] == cat_view(p.categories@[k]));
            assert(lists_post(add_categories(ks, cats, p.path@), cats[k].1, cats[k].0, p.path@));
        }
    }
}

/// Position of the first post with path `k` from `i` on, or -1.
pub open spec fn post_index(posts: Seq<Post>, k: Seq<char>, i: int) -> int
    decreases posts.len() - i,
{
    if i < 0 || i >= posts.len() {
        -1
    } else if posts[i].path@ == k {
        i
    } else {
        post_index(posts, k, i + 1)
    }
}

/// The first post with path `k` from `i` on is at or after `i`, or there is
/// none.
pub proof fn lemma_post_index(posts: Seq<Post>, k: Seq<char>, i: int)
    requires
        0 <= i,
    ensures
        post_index(posts, k, i) == -1 || (i <= post_index(posts, k, i) < posts.len()
            && posts[post_index(posts, k, i)].path@ == k),
    decreases posts.len() - i,
{
    if i < posts.len() && posts[i].path@ != k {
        lemma_post_index(posts, k, i + 1);
    }
}

/// The post with path `k`, if `k` is not empty and a post has it.
pub open spec fn lookup(posts: Seq<Post>, k: Seq<char>) -> Option<Post> {
    if k.len() == 0 || post_index(posts, k, 0) < 0 {
        None
    } else {
        Some(posts[post_index(posts, k, 0)])
    }
}

/// Position of the first key with path `k` from `i` on, or -1.
pub open spec fn key_pos(o: Seq<(i64, Seq<char>)>, k: Seq<char>, i: int) -> int
    decreases o.len() - i,
{
    if i < 0 || i >= o.len() {
        -1
    } else if o[i].1 == k {
        i
    } else {
        key_pos(o, k, i + 1)
    }
}

/// Text of an optional string.
pub open spec fn opt_view(o: Option<String>) -> Option<Seq<char>> {
    match o {
        Some(s) => Some(s@),
        None => None,
    }
}

/// Path of the post before `p` in sequence `o`, or its previous path where it
/// has none.
pub open spec fn linked_prev(p: Post, o: Seq<(i64, Seq<char>)>) -> Option<Seq<char>> {
    let i = key_pos(o, p.path@, 0);
    if i > 0 {
        Some(o[i - 1].1)
    } else {
        opt_view(p.prev_path)
    }
}

/// Path of the post after `p` in sequence `o`, or its next path where it has
/// none.
pub open spec fn linked_next(p: Post, o: Seq<(i64, Seq<char>)>) -> Option<Seq<char>> {
    let i = key_pos(o, p.path@, 0);
    if 0 <= i && i + 1 < o.len() {
        Some(o[i + 1].1)
    } else {
        opt_view(p.next_path)
    }
}

/// Time and text of each key.
pub open spec fn keys_view(v: Seq<(i64, String)>) -> Seq<(i64, Seq<char>)> {
    v.map_values(|e: (i64, String)| (e.0, e.1@))
}

#[derive(Debug)]
pub struct Blog {
    /// Posts in ascending order of their paths
    pub posts: Vec<Post>,
    /// Category lists, one per kind
    pub categories: Vec<(CategoryKind, Vec<Category>)>,
    /// Tag slugs matched to the tag names and photos with the tag
    pub tags: TagMap<PhotoPath>,
    /// Record of previously loaded photo tags
    pub history: BlogLog,
}

/// A copy of a category with one more post path.
fn with_post(c: &Category, path: &String) -> (r: Category)
    ensures
        cat_view(r) == (c.name@, c.kind, c.path@, strings_view(c.post_paths@).push(path@)),
{
    let mut paths: Vec<String> = Vec::new();
    let mut k: usize = 0;
    while k < c.post_paths.len()
        invariant
            k <= c.post_paths@.len(),
            strings_view(paths@) == strings_view(c.post_paths@.take(k as int)),
        decreases c.post_paths.len() - k,
    {
        let ghost before = paths@;
        let s = c.post_paths[k].clone();
        paths.push(s);
        assert(paths@ =~= before.push(s));
        assert(s@ == c.post_paths@[k as int]@);
        assert(strings_view(paths@) =~= strings_view(before).push(s@));
        assert(c.post_paths@.take(k + 1) =~= c.post_paths@.take(k as int).push(c.post_paths@[k as int]));
        assert(strings_view(c.post_paths@.take(k + 1)) =~= strings_view(c.post_paths@.take(k as int)).push(c.post_paths@[k as int]@));
        assert(strings_view(paths@) =~= strings_view(c.post_paths@.take(k + 1)));
        k += 1;
    }
    assert(c.post_paths@.take(k as int) =~= c.post_paths@);
    let ghost before = paths@;
    let s = path.clone();
    paths.push(s);
    assert(paths@ =~= before.push(s));
    assert(strings_view(paths@) =~= strings_view(c.post_paths@).push(path@));
    Category { path: c.path.clone(), name: c.name.clone(), kind: c.kind, post_paths: paths }
}

/// Add a post path to category `c` within its kind's list.
#[verifier::spinoff_prover]
#[verifier::rlimit(30)]
fn add_to_list_exec(list: &mut Vec<Category>, c: &Category, path: &String)
    requires
        forall|j: int| 0 <= j < old(list)@.len() ==> (#[trigger] old(list)@[j]).kind == c.kind,
    ensures
        list_view(final(list)@) == add_to_list(list_view(old(list)@), cat_view(*c), path@),
        forall|j: int| 0 <= j < final(list)@.len() ==> (#[trigger] final(list)@[j]).kind == c.kind,
{
    let ghost l = list_view(list@);
    let mut i: usize = 0;
    while i < list.len() && !crate::models::photo::string_eq(&list[i].name, &c.name)
        invariant
            i <= list@.len(),
            l == list_view(list@),
            find_name(l, c.name@, i as int) == find_name(l, c.name@, 0),
        decreases list.len() - i,
    {
        i += 1;
    }
    if i < list.len() {
        let ghost before = list@;
        let mut existing = list.remove(i);
        let mut s = path.clone();
        let ghost pp = existing.post_paths@;
        existing.post_paths.push(s);
        assert(strings_view(existing.post_paths@) =~= strings_view(pp).push(path@));
        let sorted = sort_strings(existing.post_paths);
        existing.post_paths = sorted;
        list.insert(i, existing);
        assert(list@ =~= before.update(i as int, list@[i as int]));
        assert(list_view(list@) =~= l.update(i as int, (l[i as int].0, l[i as int].1, l[i as int].2, l[i as int].3.push(path@).sort_by(lex_order()))));
    } else {
        let name = chars_of(c.name.as_str());
        let mut pos: usize = 0;
        assert(l.skip(0) =~= l);
        while pos < list.len() && list[pos].sorts_before_name(c.kind, &name)
            invariant
                pos <= list@.len(),
                l == list_view(list@),
                name@ == c.name@,
                le_count(l, c.kind, c.name@) == pos + le_count(l.skip(pos as int), c.kind, c.name@),
            decreases list.len() - pos,
        {
            assert(l.skip(pos as int).drop_first() =~= l.skip(pos + 1));
            pos += 1;
        }
        assert(pos < list@.len() ==> l.skip(pos as int)[0] == l[pos as int]);
        let ghost before = list@;
        let copy = with_post(c, path);
        list.insert(pos, copy);
        assert(list@ =~= before.insert(pos as int, copy));
        assert(list_view(list@) =~= l.insert(pos as int, cat_view(copy)));
    }
}

impl Category {
    /// Whether this category sorts no later than one named `name` in a list
    /// of kind `kind`.
    pub fn sorts_before_name(&self, kind: CategoryKind, name: &Vec<char>) -> (b: bool)
        ensures
            b == category_le(kind, self.name@, name@),
    {
        let a = chars_of(self.name.as_str());
        if kind == CategoryKind::When {
            lex_le_exec(name, &a)
        } else {
            lex_le_exec(&a, name)
        }
    }
}

impl Blog {
    pub fn new() -> (b: Blog)
        ensures
            b.posts@.len() == 0,
            b.categories@.len() == 0,
            b.tags.wf(),
            b.tags.entries@.len() == 0,
            b.history.tags.wf(),
            b.history.tags.entries@.len() == 0,
            categories_tidy(kinds_view(b.categories@)),
    {
        Blog { posts: Vec::new(), categories: Vec::new(), tags: TagMap::new(), history: BlogLog::empty() }
    }

    /// Whether a post has path `k`.
    pub open spec fn has_post(&self, k: Seq<char>) -> bool {
        exists|i: int| 0 <= i < self.posts@.len() && #[trigger] self.posts@[i].path@ == k
    }

    /// Whether every category list holds categories of its own kind.
    pub open spec fn kinds_match(&self) -> bool {
        forall|i: int, j: int|
            0 <= i < self.categories@.len() && 0 <= j < self.categories@[i].1@.len()
                ==> (#[trigger] self.categories@[i].1@[j]).kind == self.categories@[i].0
    }

    /// Add a post, in path order, and add its path to its categories.
    pub fn add_post(&mut self, p: Post)
        requires
            !old(self).has_post(p.path@),
            old(self).kinds_match(),
        ensures
            final(self).posts@ == old(self).posts@.insert(post_pos(old(self).posts@, p.path@), p),
            kinds_view(final(self).categories@) == add_categories(
                kinds_view(old(self).categories@),
                list_view(p.categories@),
                p.path@,
            ),
            final(self).kinds_match(),
            paths_ascending(old(self).posts@) ==> paths_ascending(final(self).posts@),
            post_categories_added(kinds_view(old(self).categories@), kinds_view(final(self).categories@), p),
            final(self).tags == old(self).tags,
            final(self).history == old(self).history,
    {
        self.add_post_categories(&p);
        let key = chars_of(p.path.as_str());
        let ghost s = self.posts@;
        let mut pos: usize = 0;
        assert(s.skip(0) =~= s);
        while pos < self.posts.len() && lex_le_exec(&chars_of(self.posts[pos].path.as_str()), &key)
            invariant
                pos <= self.posts@.len(),
                s == self.posts@,
                key@ == p.path@,
                post_pos(s, p.path@) == pos + post_pos(s.skip(pos as int), p.path@),
                forall|j: int| 0 <= j < pos ==> lex_le(#[trigger] s[j].path@, p.path@),
            decreases self.posts.len() - pos,
        {
            assert(s.skip(pos as int).drop_first() =~= s.skip(pos + 1));
            pos += 1;
        }
        assert(pos < s.len() ==> s.skip(pos as int)[0] == s[pos as int]);
        let ghost k = p.path@;
        assert(forall|j: int| 0 <= j < s.len() ==> #[trigger] s[j].path@ != k);
        self.posts.insert(pos, p);
        proof {
            let after = self.posts@;
            if paths_ascending(s) {
                assert forall|a: int, b: int| 0 <= a < b < after.len() implies lex_lt(
                    #[trigger] after[a].path@,
                    #[trigger] after[b].path@,
                ) by {
                    if b < pos {
                    } else if a < pos && b == pos {
                        assert(lex_le(s[a].path@, k));
                    } else if a < pos {
                        assert(after[b] == s[b - 1]);
                    } else if a == pos {
                        assert(after[b] == s[b - 1]);
                        lemma_lex_total(s[pos as int].path@, k);
                        if pos < b - 1 {
                            lemma_lex_transitive(k, s[pos as int].path@, s[b - 1].path@);
                            if k == s[b - 1].path@ {
                                lemma_lex_antisymmetric(k, s[pos as int].path@);
                            }
                        }
                    } else {
                        assert(after[a] == s[a - 1] && after[b] == s[b - 1]);
                    }
                }
            }
        }
    }

    /// Add the post's path to each of its categories.
    fn add_post_categories(&mut self, p: &Post)
        requires
            old(self).kinds_match(),
        ensures
            kinds_view(final(self).categories@) == add_categories(
                kinds_view(old(self).categories@),
                list_view(p.categories@),
                p.path@,
            ),
            post_categories_added(kinds_view(old(self).categories@), kinds_view(final(self).categories@), *p),
            final(self).kinds_match(),
            final(self).posts == old(self).posts,
            final(self).tags == old(self).tags,
            final(self).history == old(self).history,
    {
        proof {
            lemma_post_categories_tidy(kinds_view(self.categories@), *p);
        }
        let ghost cats = list_view(p.categories@);
        let ghost orig = kinds_view(self.categories@);
        let mut m: usize = 0;
        assert(cats.skip(0) =~= cats);
        while m < p.categories.len()
            invariant
                m <= p.categories@.len(),
                cats == list_view(p.categories@),
                add_categories(kinds_view(self.categories@), cats.skip(m as int), p.path@)
                    == add_categories(orig, cats, p.path@),
                self.kinds_match(),
                self.posts == old(self).posts,
                self.tags == old(self).tags,
                self.history == old(self).history,
            decreases p.categories.len() - m,
        {
            let c = &p.categories[m];
            let ghost ks = kinds_view(self.categories@);
            assert(cats.skip(m as int)[0] == cat_view(*c));
            assert(cats.skip(m as int).drop_first() =~= cats.skip(m + 1));
            let mut i: usize = 0;
            while i < self.categories.len() && self.categories[i].0 != c.kind
                invariant
                    i <= self.categories@.len(),
                    ks == kinds_view(self.categories@),
                    find_kind(ks, c.kind, i as int) == find_kind(ks, c.kind, 0),
                decreases self.categories.len() - i,
            {
                i += 1;
            }
            let ghost before = self.categories@;
            if i < self.categories.len() {
                let (kind, mut list) = self.categories.remove(i);
                proof {
                    assert forall|j: int| 0 <= j < list@.len() implies (#[trigger] list@[j]).kind == c.kind by {
                        assert(before[i as int].1@[j].kind == before[i as int].0);
                    }
                }
                add_to_list_exec(&mut list, c, &p.path);
                self.categories.insert(i, (kind, list));
                assert(self.categories@ =~= before.update(i as int, self.categories@[i as int]));
                assert(kinds_view(self.categories@) =~= add_category(ks, cat_view(*c), p.path@));
            } else {
                let copy = with_post(c, &p.path);
                let mut list = Vec::new();
                list.push(copy);
                self.categories.push((c.kind, list));
                assert(self.categories@ =~= before.push(self.categories@.last()));
                assert(list_view(list@) =~= seq![cat_view(copy)]);
                assert(kinds_view(self.categories@) =~= add_category(ks, cat_view(*c), p.path@));
            }
            m += 1;
        }
        assert(cats.skip(m as int) =~= Seq::<CatView>::empty());
    }

    /// Whether blog has any posts.
    pub fn is_empty(&self) -> (b: bool)
        ensures
            b == (self.posts@.len() == 0),
    {
        self.posts.len() == 0
    }

    pub fn post_count(&self) -> (n: usize)
        ensures
            n == self.posts@.len(),
    {
        self.posts.len()
    }

    pub fn tag_count(&self) -> (n: usize)
        ensures
            n == self.tags.entries@.len(),
    {
        self.tags.len()
    }

    pub fn category_count(&self) -> (n: usize)
        ensures
            n == self.categories@.len(),
    {
        self.categories.len()
    }
}

impl Blog {
    /// Link each post in the chronological sequence to the posts before and
    /// after it. Posts outside the sequence, and links at either end of it,
    /// are left as they were.
    pub fn correlate_posts(&mut self)
        ensures
            correlated(old(self).posts@, final(self).posts@),
            final(self).categories == old(self).categories,
            final(self).tags == old(self).tags,
            final(self).history == old(self).history,
    {
        let ghost posts = self.posts@;
        let mut ordered: Vec<(i64, String)> = Vec::new();
        let mut j: usize = 0;
        while j < self.posts.len()
            invariant
                j <= posts.len(),
                self.posts@ == posts,
                keys_view(ordered@) == time_sort(time_keys(posts.take(j as int))),
            decreases self.posts.len() - j,
        {
            let p = &self.posts[j];
            assert(posts.take(j + 1).drop_last() =~= posts.take(j as int));
            assert(posts.take(j + 1).last() == posts[j as int]);
            if p.chronological && p.happened_on.is_some() {
                let t = p.happened_on.unwrap().timestamp;
                let ghost o = keys_view(ordered@);
                let mut pos: usize = 0;
                assert(o.skip(0) =~= o);
                while pos < ordered.len() && ordered[pos].0 <= t
                    invariant
                        pos <= ordered@.len(),
                        o == keys_view(ordered@),
                        key_count(o, time_of(), t as int) == pos + key_count(o.skip(pos as int), time_of(), t as int),
                    decreases ordered.len() - pos,
                {
                    assert(o.skip(pos as int).drop_first() =~= o.skip(pos + 1));
                    pos += 1;
                }
                assert(pos < o.len() ==> o.skip(pos as int)[0] == o[pos as int]);
                let ghost before = ordered@;
                let key = (t, p.path.clone());
                ordered.insert(pos, key);
                assert(keys_view(ordered@) =~= o.insert(pos as int, (t, p.path@)));
                let ghost ks = time_keys(posts.take(j as int));
                assert(time_keys(posts.take(j + 1)) == ks.push((t, p.path@)));
                assert(ks.push((t, p.path@)).drop_last() =~= ks);
            }
            j += 1;
        }
        assert(posts.take(j as int) =~= posts);
        let ghost o = keys_view(ordered@);
        let n = self.posts.len();
        let mut j: usize = 0;
        while j < n
            invariant
                n == posts.len(),
                j <= n,
                self.posts@.len() == n,
                o == keys_view(ordered@),
                o == chronology(posts),
                forall|k: int| 0 <= k < j ==> {
                    let p = posts[k];
                    let q = #[trigger] self.posts@[k];
                    &&& opt_view(q.prev_path) == linked_prev(p, o)
                    &&& opt_view(q.next_path) == linked_next(p, o)
                    &&& q == (Post { prev_path: q.prev_path, next_path: q.next_path, ..p })
                },
                forall|k: int| j <= k < n ==> #[trigger] self.posts@[k] == posts[k],
                self.categories == old(self).categories,
                self.tags == old(self).tags,
                self.history == old(self).history,
            decreases n - j,
        {
            let mut i: usize = 0;
            while i < ordered.len() && !crate::models::photo::string_eq(&ordered[i].1, &self.posts[j].path)
                invariant
                    i <= ordered@.len(),
                    j < n,
                    self.posts@.len() == n,
                    o == keys_view(ordered@),
                    self.posts@[j as int] == posts[j as int],
                    key_pos(o, posts[j as int].path@, i as int) == key_pos(o, posts[j as int].path@, 0),
                decreases ordered.len() - i,
            {
                i += 1;
            }
            let ghost p = posts[j as int];
            if i < ordered.len() {
                if i > 0 {
                    let s = ordered[i - 1].1.clone();
                    self.posts[j].prev_path = Some(s);
                }
                if i + 1 < ordered.len() {
                    let s = ordered[i + 1].1.clone();
                    self.posts[j].next_path = Some(s);
                }
            }
            let ghost q = self.posts@[j as int];
            assert(q == (Post { prev_path: q.prev_path, next_path: q.next_path, ..p }));
            j += 1;
        }
    }
}

impl Blog {
    /// Collect the tags of all posts as slugs mapped to the tag name and the
    /// paths of the photos with the tag, flagged as changed unless the log
    /// holds the tag with the same name and number of photos.
    pub fn collate_tags(&mut self)
        requires
            old(self).history.tags.wf(),
        ensures
            final(self).tags.wf(),
            tags_view(final(self).tags) == review(gather(blog_tag_uses(old(self).posts@)), old(self).history.tags),
            forall|k: Seq<char>|
                #[trigger] tags_view(final(self).tags).contains_key(k) ==> (tags_view(final(self).tags)[k].2 <==> !(
                old(self).history.tags.has(k) && old(self).history.tags.contents()[k].0 == tags_view(
                    final(self).tags,
                )[k].0 && old(self).history.tags.contents()[k].1.len() == tags_view(final(self).tags)[k].1.len())),
            final(self).posts == old(self).posts,
            final(self).categories == old(self).categories,
            final(self).history == old(self).history,
    {
        let tags = self.gather_tags();
        let tags = self.review_tags(tags);
        self.tags = tags;
        proof {
            let uses = blog_tag_uses(self.posts@);
            let t = tags_view(self.tags);
            assert forall|k: Seq<char>| #[trigger] t.contains_key(k) implies (t[k].2 <==> !(
            self.history.tags.has(k) && self.history.tags.contents()[k].0 == t[k].0
                && self.history.tags.contents()[k].1.len() == t[k].1.len())) by {
                lemma_review_flags(uses, self.history.tags, k);
            }
        }
    }

    /// Tags of all posts gathered by slug.
    fn gather_tags(&self) -> (tags: TagMap<PhotoPath>)
        ensures
            tags.wf(),
            tags_view(tags) == gather(blog_tag_uses(self.posts@)),
    {
        let mut tags: TagMap<PhotoPath> = TagMap::new();
        let ghost posts = self.posts@;
        assert(tags_view(tags) =~= gather(blog_tag_uses(posts.take(0))));
        let mut j: usize = 0;
        while j < self.posts.len()
            invariant
                j <= posts.len(),
                posts == self.posts@,
                tags.wf(),
                tags_view(tags) == gather(blog_tag_uses(posts.take(j as int))),
            decreases self.posts.len() - j,
        {
            let p = &self.posts[j];
            let ghost prefix = blog_tag_uses(posts.take(j as int));
            let ghost uses = post_tag_uses(*p);
            assert(posts.take(j + 1).drop_last() =~= posts.take(j as int));
            assert(posts.take(j + 1).last() == posts[j as int]);
            assert(prefix + uses.take(0) =~= prefix);
            let mut e: usize = 0;
            while e < p.tags.entries.len()
                invariant
                    e <= p.tags.entries@.len(),
                    uses == post_tag_uses(*p),
                    tags.wf(),
                    tags_view(tags) == gather(prefix + uses.take(e as int)),
                decreases p.tags.entries.len() - e,
            {
                let entry = &p.tags.entries[e];
                let key = chars_of(entry.0.as_str());
                let ghost u = uses[e as int];
                let ghost m = tags_view(tags);
                assert((prefix + uses.take(e + 1)).drop_last() =~= prefix + uses.take(e as int));
                assert((prefix + uses.take(e + 1)).last() == u);
                assert(u == (entry.0@, entry.1.name@, entry.1.photos@.map_values(|i: u8| (p.path@, i))));
                match tags.find(&key) {
                    Some(i) => {
                        proof {
                            tags.lemma_at(i as int);
                            lemma_gather_changed(prefix + uses.take(e as int), key@);
                        }
                        let mut q: usize = 0;
                        assert(m[key@].1 + u.2.take(0) =~= m[key@].1);
                        assert(m.insert(key@, (m[key@].0, m[key@].1 + u.2.take(0), true)) =~= m);
                        while q < entry.1.photos.len()
                            invariant
                                q <= entry.1.photos@.len(),
                                tags.wf(),
                                i < tags.entries@.len(),
                                tags.entries@[i as int].0@ == key@,
                                m.contains_key(key@),
                                u.2 == entry.1.photos@.map_values(|i: u8| (p.path@, i)),
                                tags_view(tags) == m.insert(key@, (m[key@].0, m[key@].1 + u.2.take(q as int), true)),
                            decreases entry.1.photos.len() - q,
                        {
                            let pp = PhotoPath { post_path: p.path.clone(), photo_index: entry.1.photos[q] };
                            let ghost t0 = tags;
                            proof {
                                tags.lemma_at(i as int);
                            }
                            tags.push_photo(i, pp);
                            proof {
                                let v = t0.contents()[key@];
                                assert(tags.contents() == t0.contents().insert(key@, (v.0, v.1.push(pp), v.2)));
                                assert(paths_view(v.1.push(pp)) =~= paths_view(v.1).push(path_view(pp)));
                                assert(path_view(pp) == u.2[q as int]);
                                assert(t0.contents().contains_key(key@));
                                assert(tags_view(t0)[key@] == (v.0, paths_view(v.1), v.2));
                                assert(v.0 == m[key@].0 && v.2);
                                assert(paths_view(v.1) == m[key@].1 + u.2.take(q as int));
                                assert forall|k: Seq<char>| #[trigger] tags_view(tags).contains_key(k) implies tags_view(tags)[k]
                                    == m.insert(key@, (m[key@].0, m[key@].1 + u.2.take(q + 1), true))[k] by {
                                    if k != key@ {
                                        assert(tags_view(tags)[k] == tags_view(t0)[k]);
                                    }
                                }
                                assert(m[key@].1 + u.2.take(q + 1) =~= (m[key@].1 + u.2.take(q as int)).push(u.2[q as int]));
                                assert(tags_view(tags) =~= m.insert(key@, (m[key@].0, m[key@].1 + u.2.take(q + 1), true)));
                            }
                            q += 1;
                        }
                        assert(u.2.take(entry.1.photos.len() as int) =~= u.2);
                    },
                    None => {
                        let mut ps: Vec<PhotoPath> = Vec::new();
                        let mut q: usize = 0;
                        while q < entry.1.photos.len()
                            invariant
                                q <= entry.1.photos@.len(),
                                u.2 == entry.1.photos@.map_values(|i: u8| (p.path@, i)),
                                paths_view(ps@) == u.2.take(q as int),
                            decreases entry.1.photos.len() - q,
                        {
                            let pp = PhotoPath { post_path: p.path.clone(), photo_index: entry.1.photos[q] };
                            let ghost before = ps@;
                            ps.push(pp);
                            assert(paths_view(ps@) =~= paths_view(before).push(path_view(pp)));
                            assert(u.2.take(q + 1) =~= u.2.take(q as int).push(u.2[q as int]));
                            q += 1;
                        }
                        assert(u.2.take(entry.1.photos.len() as int) =~= u.2);
                        let tp = TagPhotos { name: entry.1.name.clone(), photos: ps, changed: true };
                        let ghost t0 = tags;
                        tags.insert_new(entry.0.clone(), tp);
                        assert(tags_view(tags) =~= m.insert(key@, (u.1, u.2, true)));
                    },
                }
                e += 1;
            }
            assert(uses.take(p.tags.entries.len() as int) =~= uses);
            j += 1;
        }
        assert(posts.take(j as int) =~= posts);
        tags
    }

    /// Tags with change flags cleared where the log holds the same tag.
    fn review_tags(&self, tags: TagMap<PhotoPath>) -> (out: TagMap<PhotoPath>)
        requires
            tags.wf(),
            self.history.tags.wf(),
        ensures
            out.wf(),
            tags_view(out) == review(tags_view(tags), self.history.tags),
    {
        let log = &self.history.tags;
        if log.len() == 0 {
            return tags;
        }
        let ghost t0 = tags;
        let ghost m = tags_view(t0);
        let mut tags = tags;
        let n = tags.len();
        let mut i: usize = 0;
        while i < n
            invariant
                n == t0.entries@.len(),
                i <= n,
                tags.wf(),
                t0.wf(),
                log.wf(),
                log.entries@.len() > 0,
                tags.entries@.len() == n,
                forall|j: int| 0 <= j < n ==> #[trigger] tags.entries@[j].0@ == t0.entries@[j].0@,
                forall|j: int| i <= j < n ==> #[trigger] tags.entries@[j] == t0.entries@[j],
                forall|j: int| 0 <= j < i ==> {
                    let k = t0.entries@[j].0@;
                    let v = tag_view(t0.entries@[j].1);
                    tag_view(#[trigger] tags.entries@[j].1) == if log.has(k) && log.contents()[k].0 == v.0
                        && log.contents()[k].1.len() == v.1.len() {
                        (v.0, v.1, false)
                    } else {
                        v
                    }
                },
            decreases n - i,
        {
            let key = chars_of(tags.entries[i].0.as_str());
            match log.find(&key) {
                Some(h) => {
                    proof {
                        log.lemma_at(h as int);
                    }
                    let same = crate::models::photo::string_eq(&tags.entries[i].1.name, &log.entries[h].1.name)
                        && tags.entries[i].1.photos.len() == log.entries[h].1.photos.len();
                    if same {
                        tags.set_changed(i, false);
                    }
                },
                None => {},
            }
            i += 1;
        }
        proof {
            assert forall|k: Seq<char>| #[trigger] tags_view(tags).contains_key(k) == review(m, *log).contains_key(k) by {
                if tags.has(k) {
                    let j = choose|j: int| 0 <= j < tags.entries@.len() && #[trigger] tags.entries@[j].0@ == k;
                    assert(t0.entries@[j].0@ == k);
                }
                if t0.has(k) {
                    let j = choose|j: int| 0 <= j < t0.entries@.len() && #[trigger] t0.entries@[j].0@ == k;
                    assert(tags.entries@[j].0@ == k);
                }
            }
            assert forall|k: Seq<char>| #[trigger] tags_view(tags).contains_key(k) implies tags_view(tags)[k] == review(m, *log)[k] by {
                let j = choose|j: int| 0 <= j < tags.entries@.len() && #[trigger] tags.entries@[j].0@ == k;
                tags.lemma_at(j);
                assert(t0.entries@[j].0@ == k);
                t0.lemma_at(j);
            }
            assert(tags_view(tags) =~= review(m, *log));
        }
        tags
    }
}

impl Blog {
    /// Position of the post with path `path`.
    fn position(&self, path: &str) -> (r: Option<usize>)
        ensures
            r matches Some(i) ==> i == post_index(self.posts@, path@, 0) && i < self.posts@.len(),
            r is None ==> post_index(self.posts@, path@, 0) == -1,
    {
        proof {
            lemma_post_index(self.posts@, path@, 0);
        }
        let mut i: usize = 0;
        while i < self.posts.len()
            invariant
                i <= self.posts@.len(),
                post_index(self.posts@, path@, i as int) == post_index(self.posts@, path@, 0),
            decreases self.posts.len() - i,
        {
            if crate::text::str_is(self.posts[i].path.as_str(), path) {
                return Some(i);
            }
            i += 1;
        }
        None
    }

    /// Number of posts that need to be rendered.
    pub fn needs_render_count(&self) -> (n: usize)
        ensures
            n == render_count(self.posts@),
    {
        let mut total: usize = 0;
        let mut j: usize = 0;
        while j < self.posts.len()
            invariant
                j <= self.posts@.len(),
                total == render_count(self.posts@.take(j as int)),
                total <= j,
            decreases self.posts.len() - j,
        {
            let p = &self.posts[j];
            assert(self.posts@.take(j + 1).drop_last() =~= self.posts@.take(j as int));
            assert(self.posts@.take(j + 1).last() == self.posts@[j as int]);
            if p.files_changed() || p.sequence_changed() {
                total += 1;
            }
            j += 1;
        }
        assert(self.posts@.take(j as int) =~= self.posts@);
        total
    }

    /// Post with path `path`; none for an empty path.
    pub fn get(&self, path: &str) -> (r: Option<&Post>)
        ensures
            r matches Some(p) ==> lookup(self.posts@, path@) == Some(*p),
            r is None ==> lookup(self.posts@, path@) is None,
    {
        if path.is_empty() {
            None
        } else {
            match self.position(path) {
                Some(i) => Some(&self.posts[i]),
                None => None,
            }
        }
    }

    /// Post after `post` in the chronology, if the blog has it.
    pub fn get_next(&self, post: &Post) -> (r: Option<&Post>)
        ensures
            r matches Some(p) ==> post.next_path matches Some(k) && lookup(self.posts@, k@) == Some(*p),
            r is None ==> (post.next_path matches Some(k) ==> lookup(self.posts@, k@) is None),
    {
        match &post.next_path {
            Some(k) => self.get(k.as_str()),
            None => None,
        }
    }

    /// Post before `post` in the chronology, if the blog has it.
    pub fn get_prev(&self, post: &Post) -> (r: Option<&Post>)
        ensures
            r matches Some(p) ==> post.prev_path matches Some(k) && lookup(self.posts@, k@) == Some(*p),
            r is None ==> (post.prev_path matches Some(k) ==> lookup(self.posts@, k@) is None),
    {
        match &post.prev_path {
            Some(k) => self.get(k.as_str()),
            None => None,
        }
    }

    /// Mark the post with path `path` as featured and return it.
    pub fn get_featured(&mut self, path: &str) -> (r: Option<&Post>)
        ensures
            r matches Some(p) ==> {
                let i = post_index(old(self).posts@, path@, 0);
                &&& i >= 0
                &&& *p == (Post { featured: true, ..old(self).posts@[i] })
                &&& final(self).posts@ == old(self).posts@.update(i, *p)
            },
            r is None ==> post_index(old(self).posts@, path@, 0) == -1 && final(self).posts@ == old(self).posts@,
            final(self).categories == old(self).categories,
            final(self).tags == old(self).tags,
            final(self).history == old(self).history,
    {
        match self.position(path) {
            Some(i) => {
                self.posts[i].featured = true;
                Some(&self.posts[i])
            },
            None => None,
        }
    }

    /// Standardize camera information in all post photos.
    pub fn sanitize_exif(&mut self, config: &ExifConfig)
        ensures
            final(self).posts@.len() == old(self).posts@.len(),
            forall|j: int| 0 <= j < final(self).posts@.len() ==> {
                let p = old(self).posts@[j];
                let q = #[trigger] final(self).posts@[j];
                &&& q.photos@.len() == p.photos@.len()
                &&& forall|k: int| 0 <= k < q.photos@.len() ==> sanitized(p.photos@[k], #[trigger] q.photos@[k], *config)
                &&& q == (Post { photos: q.photos, ..p })
            },
            final(self).categories == old(self).categories,
            final(self).tags == old(self).tags,
            final(self).history == old(self).history,
    {
        let ghost posts = self.posts@;
        let n = self.posts.len();
        let mut j: usize = 0;
        while j < n
            invariant
                n == posts.len(),
                j <= n,
                self.posts@.len() == n,
                forall|i: int| 0 <= i < j ==> {
                    let p = posts[i];
                    let q = #[trigger] self.posts@[i];
                    &&& q.photos@.len() == p.photos@.len()
                    &&& forall|k: int| 0 <= k < q.photos@.len() ==> sanitized(p.photos@[k], #[trigger] q.photos@[k], *config)
                    &&& q == (Post { photos: q.photos, ..p })
                },
                forall|i: int| j <= i < n ==> #[trigger] self.posts@[i] == posts[i],
                self.categories == old(self).categories,
                self.tags == old(self).tags,
                self.history == old(self).history,
            decreases n - j,
        {
            let m = self.posts[j].photos.len();
            let mut k: usize = 0;
            while k < m
                invariant
                    j < n,
                    self.posts@.len() == n,
                    m == posts[j as int].photos@.len(),
                    k <= m,
                    self.posts@[j as int].photos@.len() == m,
                    forall|c: int| 0 <= c < k ==> sanitized(posts[j as int].photos@[c], #[trigger] self.posts@[j as int].photos@[c], *config),
                    forall|c: int| k <= c < m ==> #[trigger] self.posts@[j as int].photos@[c] == posts[j as int].photos@[c],
                    self.posts@[j as int] == (Post { photos: self.posts@[j as int].photos, ..posts[j as int] }),
                    forall|i: int| 0 <= i < j ==> {
                        let p = posts[i];
                        let q = #[trigger] self.posts@[i];
                        &&& q.photos@.len() == p.photos@.len()
                        &&& forall|k: int| 0 <= k < q.photos@.len() ==> sanitized(p.photos@[k], #[trigger] q.photos@[k], *config)
                        &&& q == (Post { photos: q.photos, ..p })
                    },
                    forall|i: int| j < i < n ==> #[trigger] self.posts@[i] == posts[i],
                    self.categories == old(self).categories,
                    self.tags == old(self).tags,
                    self.history == old(self).history,
                decreases m - k,
            {
                self.posts[j].photos[k].sanitize(config);
                k += 1;
            }
            j += 1;
        }
    }

    /// Size the cover maps of all posts.
    pub fn prepare_maps(&mut self, config: &BlogConfig)
        requires
            forall|j: int| 0 <= j < old(self).posts@.len() ==> map_fits(#[trigger] old(self).posts@[j], *config),
        ensures
            final(self).posts@.len() == old(self).posts@.len(),
            forall|j: int| 0 <= j < final(self).posts@.len() ==> #[trigger] final(self).posts@[j] == (Post {
                cover_map_size: map_size(old(self).posts@[j], *config),
                ..old(self).posts@[j]
            }),
            final(self).categories == old(self).categories,
            final(self).tags == old(self).tags,
            final(self).history == old(self).history,
    {
        let ghost posts = self.posts@;
        let n = self.posts.len();
        let mut j: usize = 0;
        while j < n
            invariant
                n == posts.len(),
                j <= n,
                self.posts@.len() == n,
                forall|i: int| 0 <= i < n ==> map_fits(#[trigger] posts[i], *config),
                forall|i: int| 0 <= i < j ==> #[trigger] self.posts@[i] == (Post {
                    cover_map_size: map_size(posts[i], *config),
                    ..posts[i]
                }),
                forall|i: int| j <= i < n ==> #[trigger] self.posts@[i] == posts[i],
                self.categories == old(self).categories,
                self.tags == old(self).tags,
                self.history == old(self).history,
            decreases n - j,
        {
            self.posts[j].prepare_maps(config);
            j += 1;
        }
    }
}

} // verus!
