//! Decisions of a render run: what to render, which posts to complete, which
//! photos to resize.
use crate::config::{BlogConfig, FeaturedPost};
use crate::models::blog::{post_index, Blog};
use crate::models::post::{same_opt, Post};
use vstd::prelude::*;

verus! {

/// Overrides of change detection given on the command line.
#[derive(Clone, Copy, Debug)]
pub struct Override {
    /// Re-render all post HTML and basic root pages
    pub posts: bool,
    /// Re-download map images for post and category pages
    pub maps: bool,
    /// Recreate all resized photos
    pub photos: bool,
    /// Re-render all photo tag pages
    pub tags: bool,
}

/// What a run does once the blog is loaded.
#[derive(Clone, Copy, Debug)]
pub struct RenderPlan {
    /// Render HTML pages
    pub render_html: bool,
    /// Collate tags, write logs and pages, maps and photos
    pub process: bool,
}

/// HTML is rendered when posts need it or posts or tags are forced; the blog
/// is processed when HTML is rendered or maps or photos are forced.
pub fn render_plan(render_count: usize, force: &Override) -> (plan: RenderPlan)
    ensures
        plan.render_html == (render_count > 0 || force.posts || force.tags),
        plan.process == (plan.render_html || force.maps || force.photos),
{
    let render_html = render_count > 0 || force.posts || force.tags;
    RenderPlan { render_html, process: render_html || force.maps || force.photos }
}

/// Whether a root folder is ignored: it is configured as holding no posts.
pub fn is_ignored(folder: &str, config: &BlogConfig) -> (b: bool)
    ensures
        b == exists|i: int| 0 <= i < config.ignore_folders@.len() && (#[trigger] config.ignore_folders@[i])@ == folder@,
{
    let mut i: usize = 0;
    while i < config.ignore_folders.len()
        invariant
            i <= config.ignore_folders@.len(),
            forall|j: int| 0 <= j < i ==> (#[trigger] config.ignore_folders@[j])@ != folder@,
        decreases config.ignore_folders.len() - i,
    {
        if crate::text::str_is(config.ignore_folders[i].as_str(), folder) {
            return true;
        }
        i += 1;
    }
    false
}

/// Indices of the photos created after `last_render`, which need resizing.
pub fn photos_to_resize(post: &Post, last_render: i64) -> (indices: Vec<usize>)
    ensures
        indices@ == Seq::new(post.photos@.len(), |k: int| k as usize).filter(
            |k: usize| post.photos@[k as int].file.created > last_render,
        ),
{
    let ghost all = Seq::new(post.photos@.len(), |k: int| k as usize);
    let ghost keep = |k: usize| post.photos@[k as int].file.created > last_render;
    let mut indices: Vec<usize> = Vec::new();
    let mut k: usize = 0;
    while k < post.photos.len()
        invariant
            k <= post.photos@.len(),
            all == Seq::new(post.photos@.len(), |k: int| k as usize),
            keep == (|k: usize| post.photos@[k as int].file.created > last_render),
            indices@ == all.take(k as int).filter(keep),
        decreases post.photos.len() - k,
    {
        assert(all.take(k + 1) =~= all.take(k as int).push(k));
        assert(all.take(k + 1).drop_last() =~= all.take(k as int));
        reveal(Seq::filter);
        if post.photos[k].file.created > last_render {
            indices.push(k);
        }
        k += 1;
    }
    assert(all.take(k as int) =~= all);
    indices
}

/// Whether a post must have its photos loaded before rendering: it was
/// loaded from its log and its neighbours changed.
pub open spec fn needs_photos(p: Post) -> bool {
    p.photos@.len() == 0 && !(same_opt(p.history.prev_path, p.prev_path) && same_opt(
        p.history.next_path,
        p.next_path,
    ))
}

/// Indices of the posts that must have their photos loaded.
pub fn posts_to_complete(blog: &Blog) -> (indices: Vec<usize>)
    ensures
        indices@ == Seq::new(blog.posts@.len(), |k: int| k as usize).filter(
            |k: usize| needs_photos(blog.posts@[k as int]),
        ),
{
    let ghost all = Seq::new(blog.posts@.len(), |k: int| k as usize);
    let ghost keep = |k: usize| needs_photos(blog.posts@[k as int]);
    let mut indices: Vec<usize> = Vec::new();
    let mut k: usize = 0;
    while k < blog.posts.len()
        invariant
            k <= blog.posts@.len(),
            all == Seq::new(blog.posts@.len(), |k: int| k as usize),
            keep == (|k: usize| needs_photos(blog.posts@[k as int])),
            indices@ == all.take(k as int).filter(keep),
        decreases blog.posts.len() - k,
    {
        assert(all.take(k + 1) =~= all.take(k as int).push(k));
        assert(all.take(k + 1).drop_last() =~= all.take(k as int));
        reveal(Seq::filter);
        let p = &blog.posts[k];
        if p.photos.len() == 0 && p.sequence_changed() {
            indices.push(k);
        }
        k += 1;
    }
    assert(all.take(k as int) =~= all);
    indices
}

/// Mark the configured featured post, if the blog has it, and name it by its
/// path and title; none otherwise.
pub fn feature(blog: &mut Blog, featured: Option<FeaturedPost>) -> (r: Option<FeaturedPost>)
    ensures
        r matches Some(f) ==> featured matches Some(g) && post_index(old(blog).posts@, g.path@, 0) >= 0 && {
            let p = old(blog).posts@[post_index(old(blog).posts@, g.path@, 0)];
            f.path@ == p.path@ && f.title@ == p.title@
        },
        r is None ==> (featured matches Some(g) ==> post_index(old(blog).posts@, g.path@, 0) == -1),
        featured is None ==> r is None,
        featured matches Some(g) ==> {
            let i = post_index(old(blog).posts@, g.path@, 0);
            i >= 0 ==> final(blog).posts@ == old(blog).posts@.update(i, (Post { featured: true, ..old(blog).posts@[i] }))
        },
        r is None ==> final(blog).posts@ == old(blog).posts@,
        final(blog).categories == old(blog).categories,
        final(blog).tags == old(blog).tags,
        final(blog).history == old(blog).history,
{
    match featured {
        Some(f) => match blog.get_featured(f.path.as_str()) {
            Some(p) => Some(FeaturedPost { path: p.path.clone(), title: p.title.clone() }),
            None => None,
        },
        None => None,
    }
}

/// Suffix for `count` of something: `s` unless there is one.
pub fn plural(count: usize) -> (s: &'static str)
    ensures
        s@ == if count == 1 {
            ""@
        } else {
            "s"@
        },
{
    if count == 1 {
        ""
    } else {
        "s"
    }
}

} // verus!

verus! {

/// Page features.
#[derive(Clone, Copy, Debug)]
pub struct Features {
    /// Whether main navigation scrolls with the page rather than staying in
    /// place
    pub scroll_nav: bool,
    /// Whether to load Facebook scripts
    pub use_facebook: bool,
    /// Appended to the addresses of JSON resources to defeat browser caches
    pub timestamp: i64,
}

impl Features {
    /// Features of pages rendered at `timestamp`: fixed navigation, Facebook
    /// scripts loaded.
    pub fn at(timestamp: i64) -> (f: Features)
        ensures
            !f.scroll_nav,
            f.use_facebook,
            f.timestamp == timestamp,
    {
        Features { scroll_nav: false, use_facebook: true, timestamp }
    }
}

impl Default for Features {
    /// Features of pages rendered now.
    fn default() -> (f: Features)
        ensures
            !f.scroll_nav,
            f.use_facebook,
    {
        Features::at(crate::outside::now_timestamp())
    }
}

} // verus!
