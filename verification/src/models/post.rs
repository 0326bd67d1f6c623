//! Posts and post series.
use crate::config::{BlogConfig, PostConfig, PostLog};
use crate::models::category::{Category, CategoryKind};
use crate::models::photo::{Moment, Photo};
use crate::models::tag::{collate, collate_tags, tag_uses, TagMap};
use crate::text::{decimal, push_decimal, push_str, string_of};
use crate::tools::{earliest_photo_date, earliest_spec};
use vstd::prelude::*;

verus! {

/// Details of posts that are part of a series.
#[derive(Debug)]
pub struct PostSeries {
    /// Portion of path common among series members
    pub path: String,
    /// Portion of path unique among series members
    pub part_path: String,
    pub title: String,
    /// Position of post in series
    pub part: u8,
    /// Total number of posts in the series
    pub total_parts: u8,
    /// Whether next post is part of the same series
    pub next_is_part: bool,
    /// Whether previous post is part of the same series
    pub prev_is_part: bool,
}

/// The label `Part N`.
pub open spec fn part_label(part: u8) -> Seq<char> {
    "Part "@ + decimal(part as nat)
}

impl PostSeries {
    /// Navigation label of the adjacent post that is part `to_part` of the
    /// series: `Part N` with that part's number, when the series has it.
    pub fn navigation_label(&self, to_part: u8) -> (label: Option<String>)
        ensures
            label matches Some(l) ==> 0 < to_part <= self.total_parts && l@ == part_label(to_part),
            label is None ==> !(0 < to_part <= self.total_parts),
    {
        if to_part > 0 && to_part <= self.total_parts {
            let mut v = Vec::new();
            push_str(&mut v, "Part ");
            push_decimal(&mut v, to_part as u64);
            Some(string_of(&v))
        } else {
            None
        }
    }

    /// Label of the next post, part `part + 1`, when the series has it.
    pub fn next_label(&self) -> (label: Option<String>)
        requires
            self.part < 255,
        ensures
            label matches Some(l) ==> self.part + 1 <= self.total_parts && l@ == part_label((self.part + 1) as u8),
            label is None ==> self.part + 1 > self.total_parts,
    {
        self.navigation_label(self.part + 1)
    }

    /// Label of the previous post, part `part - 1`, when there is one.
    pub fn prev_label(&self) -> (label: Option<String>)
        requires
            self.part >= 1,
        ensures
            label matches Some(l) ==> 0 < self.part - 1 <= self.total_parts && l@ == part_label((self.part - 1) as u8),
            label is None ==> !(0 < self.part - 1 <= self.total_parts),
    {
        self.navigation_label(self.part - 1)
    }
}

#[derive(Debug)]
pub struct Post {
    /// Path to the post, such as `brother-ride/2.trying-to-survive`
    pub path: String,
    pub series: Option<PostSeries>,
    /// When the depicted events happened
    pub happened_on: Option<Moment>,
    /// When the post was last updated, in seconds since the Unix epoch
    pub updated_on: i64,
    pub title: String,
    pub summary: String,
    /// Whether post photos occurred sequentially in a specific time range
    pub chronological: bool,
    /// Whether post is featured in main navigation
    pub featured: bool,
    /// Photos found for the post; empty if the post was loaded from its log
    pub photos: Vec<Photo>,
    /// Next chronological post path (newer)
    pub next_path: Option<String>,
    /// Previous chronological post path (older)
    pub prev_path: Option<String>,
    /// Whether GPX track was found for the post
    pub has_track: bool,
    /// Categories to which this post belongs
    pub categories: Vec<Category>,
    pub photo_count: usize,
    /// Zero-based index of cover photo within photos
    pub cover_photo_index: usize,
    pub tags: TagMap<u8>,
    /// Record of previous post photos and configuration
    pub history: PostLog,
    /// Width and height of cover map
    pub cover_map_size: (u16, u16),
}

/// Whether two optional strings hold the same text.
pub open spec fn same_opt(a: Option<String>, b: Option<String>) -> bool {
    match (a, b) {
        (Some(x), Some(y)) => x@ == y@,
        (None, None) => true,
        _ => false,
    }
}

pub fn same_opt_exec(a: &Option<String>, b: &Option<String>) -> (r: bool)
    ensures
        r == same_opt(*a, *b),
{
    match (a, b) {
        (Some(x), Some(y)) => crate::models::photo::string_eq(x, y),
        (None, None) => true,
        _ => false,
    }
}

/// Whether the post has a cover photo no wider than the content.
pub open spec fn map_fits(p: Post, config: BlogConfig) -> bool {
    p.has_cover() && p.cover().size.small.width <= config.style.content_width
}

/// Size of the map beside the cover photo of `p`.
pub open spec fn map_size(p: Post, config: BlogConfig) -> (u16, u16) {
    (
        (config.style.content_width - p.cover().size.small.width) as u16,
        if p.cover().size.original.width < p.cover().size.original.height {
            config.style.inline_map_height
        } else {
            p.cover().size.small.height
        },
    )
}

impl Post {
    /// Whether the post has a cover photo: its photo at the cover index, or,
    /// with no photos loaded, the logged cover photo.
    pub open spec fn has_cover(&self) -> bool {
        if self.photos@.len() == 0 {
            self.history.cover_photo is Some
        } else {
            self.cover_photo_index < self.photos@.len()
        }
    }

    /// The cover photo (see `has_cover`).
    pub open spec fn cover(&self) -> Photo {
        if self.photos@.len() == 0 {
            self.history.cover_photo.unwrap()
        } else {
            self.photos@[self.cover_photo_index as int]
        }
    }

    /// Photo at the cover index, or the logged cover photo when no photos are
    /// loaded.
    pub fn cover_photo(&self) -> (p: Option<&Photo>)
        requires
            self.has_cover(),
        ensures
            p == Some(&self.cover()),
    {
        if self.photos.len() == 0 {
            self.history.cover_photo.as_ref()
        } else {
            Some(&self.photos[self.cover_photo_index])
        }
    }

    /// Take the post's photos: their tags, their count and, for chronological
    /// posts, the date of the earliest photo that is not an outlier.
    pub fn add_photos(&mut self, photos: Vec<Photo>)
        ensures
            final(self).photos@ == photos@,
            final(self).photo_count == photos@.len(),
            final(self).tags.wf(),
            final(self).tags.contents() == collate(tag_uses(photos@)),
            final(self).happened_on == if old(self).chronological {
                earliest_spec(photos@)
            } else {
                old(self).happened_on
            },
            *final(self) == (Post {
                photos: final(self).photos,
                photo_count: final(self).photo_count,
                tags: final(self).tags,
                happened_on: final(self).happened_on,
                ..*old(self)
            }),
    {
        if self.chronological {
            self.happened_on = earliest_photo_date(&photos);
        }
        self.tags = collate_tags(&photos);
        self.photo_count = photos.len();
        self.photos = photos;
    }

    pub fn has_video(&self) -> (b: bool)
        ensures
            !b,
    {
        false
    }

    /// Label for the next post: `Part N` with its part number if it is part
    /// of the same series, otherwise `default`.
    pub fn next_label(&self, default: &str) -> (label: String)
        requires
            self.series matches Some(s) ==> s.part < 255,
        ensures
            label@ == match self.series {
                Some(s) => if s.part + 1 <= s.total_parts {
                    part_label((s.part + 1) as u8)
                } else {
                    default@
                },
                None => default@,
            },
    {
        if let Some(series) = &self.series {
            if let Some(label) = series.next_label() {
                return label;
            }
        }
        String::from_str(default)
    }

    /// Label for the previous post: `Part N` with its part number if it is
    /// part of the same series, otherwise `default`.
    pub fn prev_label(&self, default: &str) -> (label: String)
        requires
            self.series matches Some(s) ==> s.part >= 1,
        ensures
            label@ == match self.series {
                Some(s) => if 0 < s.part - 1 <= s.total_parts {
                    part_label((s.part - 1) as u8)
                } else {
                    default@
                },
                None => default@,
            },
    {
        if let Some(series) = &self.series {
            if let Some(label) = series.prev_label() {
                return label;
            }
        }
        String::from_str(default)
    }

    /// Post from its configuration and render log, updated at `updated_on`:
    /// the configured categories, title, summary and chronology, and the
    /// one-based cover index made zero-based.
    pub fn from_config(config: PostConfig, log: PostLog, updated_on: i64) -> (p: Post)
        ensures
            p.title == config.title,
            p.summary == config.summary,
            p.chronological == config.chronological,
            p.cover_photo_index == if config.cover_photo_index > 0 {
                (config.cover_photo_index - 1) as usize
            } else {
                0
            },
            p.history == log,
            p.updated_on == updated_on,
            crate::config::categories_view(p.categories@) == crate::config::configured_categories(config),
            p.path@.len() == 0,
            p.series is None,
            p.happened_on is None,
            !p.featured,
            p.photos@.len() == 0,
            p.next_path is None,
            p.prev_path is None,
            !p.has_track,
            p.photo_count == 0,
            p.tags.wf(),
            p.tags.entries@.len() == 0,
            p.cover_map_size == (0u16, 0u16),
    {
        let categories = config.categories();
        let i = config.cover_photo_index;
        Post {
            path: String::new(),
            series: None,
            happened_on: None,
            updated_on,
            title: config.title,
            summary: config.summary,
            chronological: config.chronological,
            featured: false,
            photos: Vec::new(),
            next_path: None,
            prev_path: None,
            has_track: false,
            categories,
            photo_count: 0,
            cover_photo_index: if i > 0 {
                i - 1
            } else {
                0
            },
            tags: TagMap::new(),
            history: log,
            cover_map_size: (0, 0),
        }
    }

    /// Size of the cover map so that it fits beside the small cover photo
    /// within the content width: the map height limit beside a portrait photo,
    /// otherwise the photo's small height.
    pub fn prepare_maps(&mut self, config: &BlogConfig)
        requires
            map_fits(*old(self), *config),
        ensures
            final(self).cover_map_size == map_size(*old(self), *config),
            *final(self) == (Post { cover_map_size: final(self).cover_map_size, ..*old(self) }),
    {
        let max_height = config.style.inline_map_height;
        let max_width = config.style.content_width;
        let size = match self.cover_photo() {
            Some(p) => {
                let height = if p.is_portrait() {
                    max_height
                } else {
                    p.size.small.height
                };
                (max_width - p.size.small.width, height)
            },
            None => (max_width, max_height),
        };
        self.cover_map_size = size;
    }

    /// Whether next or previous posts have changed since the last render.
    pub fn sequence_changed(&self) -> (b: bool)
        ensures
            b == !(same_opt(self.history.prev_path, self.prev_path) && same_opt(
                self.history.next_path,
                self.next_path,
            )),
    {
        self.history.sequence_changed(self)
    }

    /// Whether photos or configuration have changed since the last render.
    pub fn files_changed(&self) -> (b: bool)
        ensures
            b == self.history.files_changed,
    {
        self.history.files_changed
    }

    /// Whether two posts are the same: same path.
    pub fn same_as(&self, other: &Post) -> (b: bool)
        ensures
            b == (self.path@ == other.path@),
    {
        crate::models::photo::string_eq(&self.path, &other.path)
    }
}

} // verus!

verus! {

impl Default for Post {
    /// An empty post updated now: no path, title, photos, categories or tags,
    /// chronological, not featured, with an empty render log.
    fn default() -> (p: Post)
        ensures
            p.path@.len() == 0,
            p.series is None,
            p.happened_on is None,
            p.title@.len() == 0,
            p.summary@.len() == 0,
            p.chronological,
            !p.featured,
            p.photos@.len() == 0,
            p.next_path is None,
            p.prev_path is None,
            !p.has_track,
            p.categories@.len() == 0,
            p.photo_count == 0,
            p.cover_photo_index == 0,
            p.tags.wf(),
            p.tags.entries@.len() == 0,
            p.history.next_path is None,
            p.history.prev_path is None,
            p.history.happened_on is None,
            p.history.as_of == 0,
            p.history.photo_count == 0,
            p.history.cover_photo is None,
            p.history.tags.wf(),
            p.history.tags.entries@.len() == 0,
            p.history.files_changed,
            p.cover_map_size == (0u16, 0u16),
    {
        Post {
            path: String::new(),
            series: None,
            happened_on: None,
            updated_on: crate::outside::now_timestamp(),
            title: String::new(),
            summary: String::new(),
            chronological: true,
            featured: false,
            photos: Vec::new(),
            next_path: None,
            prev_path: None,
            has_track: false,
            categories: Vec::new(),
            photo_count: 0,
            cover_photo_index: 0,
            tags: TagMap::new(),
            history: PostLog::empty(),
            cover_map_size: (0, 0),
        }
    }
}

} // verus!
