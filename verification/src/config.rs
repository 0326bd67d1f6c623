//! Blog, post and series configuration, and render logs.

use crate::models::category::{category_path, Category, CategoryKind};
use crate::models::photo::{Moment, Photo, PhotoPath};
use crate::models::post::{same_opt, same_opt_exec, Post};
use crate::models::tag::TagMap;
use crate::text::{decimal, push_decimal, string_of};
use vstd::prelude::*;

verus! {

/// Replacement camera, lens and software text: where a value starts with the
/// first of a pair, that text is replaced by the second.
#[derive(Debug)]
pub struct ExifConfig {
    pub camera: Vec<(String, String)>,
    pub software: Vec<(String, String)>,
    pub lens: Vec<(String, String)>,
}

/// Photo sizes to generate from original, as long edge in pixels.
#[derive(Clone, Copy, Debug)]
pub struct SizeConfig {
    pub large: u16,
    pub medium: u16,
    pub small: u16,
    pub thumb: u16,
}

#[derive(Debug)]
pub struct PhotoConfig {
    /// Regular expression whose first group is the photo index within its file
    /// name, such as `(\d{3})-of-(\d{3})\.jpg$` for `neat_place_012-of-015.jpg`
    pub capture_index: crate::pattern::Pattern,
    pub size: SizeConfig,
    /// EXIF normalization settings
    pub exif: ExifConfig,
    /// Tags to exclude from rendered views
    pub remove_tags: Vec<String>,
    /// Extension (with leading period) of source files
    pub source_ext: String,
    /// Extension (with leading period) applied to resized photos
    pub output_ext: String,
    /// Maximum edge size of source images
    pub source_size: u16,
}

/// Material icon per category kind (https://material.io/icons/).
#[derive(Debug)]
pub struct CategoryIcon {
    pub who: String,
    pub what: String,
    pub when: String,
    pub where_: String,
    pub default: String,
}

#[derive(Debug)]
pub struct CategoryConfig {
    /// Icon names and regular expressions: a "what" category whose name matches
    /// the expression is a mode of transportation shown with that icon
    pub what_regex: Option<Vec<(String, String)>>,
    pub icon: CategoryIcon,
    /// Which category kinds to display and in what order
    pub display: Vec<String>,
}

#[derive(Clone, Copy, Debug)]
pub struct StyleConfig {
    /// Maximum pixel height of static maps displayed with post summaries
    pub inline_map_height: u16,
    /// Pixel width of main content used to compute generated image widths
    pub content_width: u16,
}

#[derive(Debug)]
pub struct ImageConfig {
    pub url: String,
    pub width: u16,
    pub height: u16,
}

#[derive(Debug)]
pub struct SiteConfig {
    pub url: String,
    pub title: String,
    pub subtitle: String,
    pub description: String,
    pub logo: ImageConfig,
    pub company_logo: Option<ImageConfig>,
    /// Generic name for a post used in page subtitles, pluralized with `s`
    pub post_alias: String,
}

#[derive(Debug)]
pub struct OwnerConfig {
    pub name: String,
    pub email: Option<String>,
    pub urls: Option<Vec<String>>,
    pub image: Option<ImageConfig>,
}

#[derive(Debug)]
pub struct FeaturedPost {
    pub path: String,
    pub title: String,
}

#[derive(Debug)]
pub struct FacebookConfig {
    pub app_id: String,
    pub admin_id: String,
    pub page_id: String,
    pub site_id: String,
    pub author_url: String,
}

#[derive(Debug)]
pub struct MapBoxStyles {
    pub dynamic: String,
    pub static_: String,
}

#[derive(Debug)]
pub struct MapBoxConfig {
    pub access_token: String,
    /// Maximum number of photo markers to show on static map
    pub max_static_markers: u16,
    pub style: MapBoxStyles,
    /// Fully qualified path to image used to render pins on static map
    pub pin_image: String,
}

#[derive(Debug)]
pub struct GoogleConfig {
    pub api_key: String,
    pub project_id: String,
    /// Shown as `UA-<analytics_id>-1`
    pub analytics_id: String,
    pub search_engine_id: String,
    pub blog_id: String,
}

#[derive(Debug)]
pub struct BlogConfig {
    pub author_name: String,
    pub repo_url: String,
    pub featured_post: Option<FeaturedPost>,
    /// Folders known not to contain posts
    pub ignore_folders: Vec<String>,
    /// Whether to render post pages even without changes since the last render
    pub force_rerender: bool,
    /// Regular expression whose first group is a series part number within a
    /// folder name
    pub capture_series_index: crate::pattern::Pattern,
    /// Redirect source slug to target
    pub redirects: Option<Vec<(String, String)>>,
    pub site: SiteConfig,
    pub owner: OwnerConfig,
    pub style: StyleConfig,
    pub category: CategoryConfig,
    pub photo: PhotoConfig,
    pub facebook: FacebookConfig,
    pub mapbox: MapBoxConfig,
    pub google: GoogleConfig,
}

/// Post alias used when none is configured.
pub fn default_post_alias() -> (alias: String)
    ensures
        alias@ == "Post"@,
{
    String::from_str("Post")
}


/// Categories to which a post has been assigned.
#[derive(Debug)]
pub struct PostCategories {
    pub who: Option<String>,
    /// Year
    pub when: Option<u16>,
    pub where_: Vec<String>,
    pub what: Option<String>,
}

/// Configuration within each post folder.
#[derive(Debug)]
pub struct PostConfig {
    pub title: String,
    pub summary: String,
    /// Categories to which the post has been assigned
    pub category_list: Option<PostCategories>,
    /// One-based index of cover photo
    pub cover_photo_index: usize,
    /// YouTube ID used to embed video
    pub youtube_id: Option<String>,
    pub chronological: bool,
    /// One-based series part or 0 if not in a series
    pub part: u8,
}

/// Posts are chronological unless configured otherwise.
pub fn chronological_default() -> (b: bool)
    ensures
        b,
{
    true
}

/// Name and kind of each category, in order.
pub open spec fn categories_view(cats: Seq<Category>) -> Seq<(Seq<char>, CategoryKind)> {
    cats.map_values(|c: Category| (c.name@, c.kind))
}

/// Whether categories carry their standard paths and no posts yet.
pub open spec fn fresh_categories(cats: Seq<Category>) -> bool {
    forall|i: int|
        0 <= i < cats.len() ==> (#[trigger] cats[i]).path@ == category_path(cats[i].name@, cats[i].kind)
            && cats[i].post_paths@.len() == 0
}

/// Configured categories: who, the year, what, then each where.
pub open spec fn configured_categories(config: PostConfig) -> Seq<(Seq<char>, CategoryKind)> {
    match config.category_list {
        Some(list) => {
            let who = match list.who {
                Some(w) => seq![(w@, CategoryKind::Who)],
                None => Seq::empty(),
            };
            let when = match list.when {
                Some(y) => seq![(decimal(y as nat), CategoryKind::When)],
                None => Seq::empty(),
            };
            let what = match list.what {
                Some(w) => seq![(w@, CategoryKind::What)],
                None => Seq::empty(),
            };
            who + when + what + list.where_@.map_values(|w: String| (w@, CategoryKind::Where))
        },
        None => Seq::empty(),
    }
}

impl PostConfig {
    /// Categories derived from configuration.
    pub fn categories(&self) -> (cats: Vec<Category>)
        ensures
            categories_view(cats@) == configured_categories(*self),
            fresh_categories(cats@),
    {
        let mut cats: Vec<Category> = Vec::new();
        if let Some(list) = &self.category_list {
            if let Some(who) = &list.who {
                cats.push(Category::new(who.as_str(), CategoryKind::Who));
            }
            if let Some(when) = list.when {
                let mut year = Vec::new();
                push_decimal(&mut year, when as u64);
                let year = string_of(&year);
                cats.push(Category::new(year.as_str(), CategoryKind::When));
            }
            if let Some(what) = &list.what {
                cats.push(Category::new(what.as_str(), CategoryKind::What));
            }
            let ghost head = categories_view(cats@);
            let mut k: usize = 0;
            while k < list.where_.len()
                invariant
                    k <= list.where_@.len(),
                    categories_view(cats@) == head + list.where_@.take(k as int).map_values(
                        |w: String| (w@, CategoryKind::Where),
                    ),
                    fresh_categories(cats@),
                decreases list.where_.len() - k,
            {
                let ghost old_cats = cats@;
                let c = Category::new(list.where_[k].as_str(), CategoryKind::Where);
                cats.push(c);
                assert(categories_view(cats@) =~= categories_view(old_cats).push((list.where_@[k as int]@, CategoryKind::Where)));
                assert(list.where_@.take(k + 1) =~= list.where_@.take(k as int).push(list.where_@[k as int]));
                assert(categories_view(cats@) =~= head + list.where_@.take(k + 1).map_values(
                    |w: String| (w@, CategoryKind::Where),
                ));
                k += 1;
            }
            assert(list.where_@.take(k as int) =~= list.where_@);
        }
        assert(categories_view(cats@) =~= configured_categories(*self));
        cats
    }
}

/// Configuration for posts that form a series.
#[derive(Debug)]
pub struct SeriesConfig {
    /// Series title; the configured post title becomes the subtitle
    pub title: String,
    /// Number of parts in the series
    pub parts: u8,
    /// Root-relative path to series
    pub path: String,
}

/// Record of a post's last render, used to tell when re-rendering is needed.
#[derive(Debug)]
pub struct PostLog {
    pub next_path: Option<String>,
    pub prev_path: Option<String>,
    /// Date of first relevant (not an outlier) photo in folder
    pub happened_on: Option<Moment>,
    /// Timestamp when post data were last loaded
    pub as_of: i64,
    /// Number of photos in the post
    pub photo_count: usize,
    /// Cover photo, needed to re-render category pages
    pub cover_photo: Option<Photo>,
    /// Photo tags keyed by their slug
    pub tags: TagMap<u8>,
    /// Whether post source files have changed since they were last read
    pub files_changed: bool,
}

impl PostLog {
    /// A log for a post never rendered: nothing recorded and files changed.
    pub fn empty() -> (log: PostLog)
        ensures
            log.next_path is None,
            log.prev_path is None,
            log.happened_on is None,
            log.as_of == 0,
            log.photo_count == 0,
            log.cover_photo is None,
            log.tags.wf(),
            log.tags.entries@.len() == 0,
            log.files_changed,
    {
        PostLog {
            next_path: None,
            prev_path: None,
            happened_on: None,
            as_of: 0,
            photo_count: 0,
            cover_photo: None,
            tags: TagMap::new(),
            files_changed: true,
        }
    }

    /// Whether logged adjacent post paths differ from the post's.
    pub fn sequence_changed(&self, post: &Post) -> (b: bool)
        ensures
            b == !(same_opt(self.prev_path, post.prev_path) && same_opt(self.next_path, post.next_path)),
    {
        !(same_opt_exec(&self.prev_path, &post.prev_path) && same_opt_exec(&self.next_path, &post.next_path))
    }

    /// Compare the logged cover photo with the post's: `true` when no cover
    /// photo was logged, or when the logged one is the same photo (same file
    /// and date taken) as the post's; `false` when it is another photo.
    pub fn cover_photo_changed(&self, post: &Post) -> (b: bool)
        requires
            post.has_cover(),
        ensures
            b == match self.cover_photo {
                None => true,
                Some(p) => p.file.name@ == post.cover().file.name@ && p.date_taken == post.cover().date_taken,
            },
    {
        match &self.cover_photo {
            None => true,
            Some(p) => {
                let c = post.cover_photo().unwrap();
                p.same_as(c)
            },
        }
    }
}

/// Record of the blog's photo tags at the last render.
#[derive(Debug)]
pub struct BlogLog {
    pub tags: TagMap<PhotoPath>,
}

impl BlogLog {
    pub fn empty() -> (log: BlogLog)
        ensures
            log.tags.wf(),
            log.tags.entries@.len() == 0,
    {
        BlogLog { tags: TagMap::new() }
    }
}

} // verus!
