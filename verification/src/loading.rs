//! Deciding how posts are loaded: from their render log or from their photos,
//! alone or as parts of a series.
use crate::config::{PostConfig, PostLog, SeriesConfig};
use crate::models::photo::Photo;
use crate::models::post::{Post, PostSeries};
use crate::models::tag::{collate, tag_uses, tag_view};
use crate::tools::{earliest_spec, pos_from_name, pos_from_name_spec};
use vstd::prelude::*;

verus! {

/// Name of the configuration file in each post folder.
pub const CONFIG_FILE: &'static str = "config.toml";

/// Whether a file bears on a post: a source photo or the configuration file.
pub open spec fn pertinent(name: Seq<char>, ext: Seq<char>) -> bool {
    (ext.len() <= name.len() && name.subrange(name.len() - ext.len(), name.len() as int) == ext)
        || name == CONFIG_FILE@
}

/// Names and modification times of files.
pub open spec fn entries_view(v: Seq<(String, i64)>) -> Seq<(Seq<char>, i64)> {
    v.map_values(|e: (String, i64)| (e.0@, e.1))
}

/// Number of pertinent files.
pub open spec fn pertinent_count(e: Seq<(Seq<char>, i64)>, ext: Seq<char>) -> nat
    decreases e.len(),
{
    if e.len() == 0 {
        0
    } else {
        pertinent_count(e.drop_last(), ext) + if pertinent(e.last().0, ext) {
            1nat
        } else {
            0nat
        }
    }
}

/// Whether a pertinent file was modified after `threshold`.
pub open spec fn any_newer(e: Seq<(Seq<char>, i64)>, ext: Seq<char>, threshold: i64) -> bool {
    exists|i: int| 0 <= i < e.len() && pertinent((#[trigger] e[i]).0, ext) && threshold < e[i].1
}

proof fn lemma_count_prefix(e: Seq<(Seq<char>, i64)>, ext: Seq<char>, k: int)
    requires
        0 <= k <= e.len(),
    ensures
        pertinent_count(e.take(k), ext) <= pertinent_count(e, ext),
    decreases e.len() - k,
{
    if k < e.len() {
        lemma_count_prefix(e, ext, k + 1);
        assert(e.take(k + 1).drop_last() =~= e.take(k));
    } else {
        assert(e.take(k) =~= e);
    }
}

/// Whether the files of a post folder changed since the post was logged at
/// `threshold` with `file_count` pertinent files: a pertinent file is newer,
/// or their number differs.
pub fn files_modified(entries: &Vec<(String, i64)>, threshold: i64, file_count: usize, source_ext: &str) -> (b: bool)
    ensures
        b == (pertinent_count(entries_view(entries@), source_ext@) != file_count || any_newer(
            entries_view(entries@),
            source_ext@,
            threshold,
        )),
{
    let ghost e = entries_view(entries@);
    let mut count: usize = 0;
    let mut i: usize = 0;
    while i < entries.len()
        invariant
            i <= entries@.len(),
            e == entries_view(entries@),
            count == pertinent_count(e.take(i as int), source_ext@),
            count <= file_count,
            forall|j: int| 0 <= j < i ==> !(pertinent((#[trigger] e[j]).0, source_ext@) && threshold < e[j].1),
        decreases entries.len() - i,
    {
        let name = entries[i].0.as_str();
        assert(e.take(i + 1).drop_last() =~= e.take(i as int));
        assert(e.take(i + 1).last() == e[i as int]);
        assert(e[i as int] == (entries@[i as int].0@, entries@[i as int].1));
        let wanted = crate::tools::has_ext(name, source_ext) || crate::text::str_is(name, CONFIG_FILE);
        if wanted {
            if count >= file_count {
                proof {
                    lemma_count_prefix(e, source_ext@, i + 1);
                }
                return true;
            }
            count += 1;
            if threshold < entries[i].1 {
                assert(pertinent(e[i as int].0, source_ext@) && threshold < e[i as int].1);
                return true;
            }
        }
        i += 1;
    }
    assert(e.take(i as int) =~= e);
    file_count != count
}

/// Post `p` is restored at `path` from configuration `config` and log `log`:
/// the log's date, photo count and tags, the configured title, summary and
/// chronology, no photos and no series.
pub open spec fn restored(path: Seq<char>, config: PostConfig, log: PostLog, created_on: i64, p: Post) -> bool {
    &&& p.path@ == path
    &&& p.happened_on == log.happened_on
    &&& p.photo_count == log.photo_count
    &&& p.tags.wf()
    &&& p.tags.contents() == log.tags.contents()
    &&& p.history == log
    &&& p.title == config.title
    &&& p.summary == config.summary
    &&& p.chronological == config.chronological
    &&& p.updated_on == created_on
    &&& p.photos@.len() == 0
    &&& p.series is None
}

/// Log `log` records post `post` as rendered at `as_of`: its neighbours,
/// date, photo count, tags and cover photo, with no pending file changes.
pub open spec fn logged(post: Post, as_of: i64, log: PostLog) -> bool {
    &&& log.prev_path == post.prev_path
    &&& log.next_path == post.next_path
    &&& log.happened_on == post.happened_on
    &&& log.photo_count == post.photo_count
    &&& log.as_of == as_of
    &&& log.tags == post.tags
    &&& !log.files_changed
    &&& log.cover_photo == Some(post.cover())
}

/// A post restored from the log written for it has the post's date, photo
/// count and tags back, and the log as its history.
pub proof fn lemma_log_round_trip(
    post: Post,
    as_of: i64,
    log: PostLog,
    path: Seq<char>,
    config: PostConfig,
    created_on: i64,
    p: Post,
)
    requires
        logged(post, as_of, log),
        restored(path, config, log, created_on, p),
    ensures
        p.happened_on == post.happened_on,
        p.photo_count == post.photo_count,
        p.tags.contents() == post.tags.contents(),
        p.history == log,
        !p.history.files_changed,
{
}

/// Whether a post is loaded from its render log rather than from its photos:
/// its files are unchanged since the log was written and re-rendering is not
/// forced.
pub fn from_log(log: &PostLog, force_rerender: bool) -> (b: bool)
    ensures
        b == !(log.files_changed || force_rerender),
{
    !(log.files_changed || force_rerender)
}

/// Number of trailing path components that name a post: the series folder
/// and the part's folder for a series member, the folder alone otherwise.
pub fn post_path_depth(is_series: bool) -> (n: usize)
    ensures
        n == if is_series {
            2usize
        } else {
            1usize
        },
{
    if is_series {
        2
    } else {
        1
    }
}

/// A post loaded from its render log, its photos unread: the log's date,
/// photo count and tags.
pub fn post_from_log(path: String, config: PostConfig, log: PostLog, created_on: i64) -> (p: Post)
    requires
        log.tags.wf(),
    ensures
        restored(path@, config, log, created_on, p),
{
    let tags = log.tags.duplicate();
    let happened_on = log.happened_on;
    let photo_count = log.photo_count;
    let mut p = Post::from_config(config, log, created_on);
    p.path = path;
    p.happened_on = happened_on;
    p.photo_count = photo_count;
    p.tags = tags;
    p
}

/// A post loaded from its photos: none without photos; otherwise the
/// photos, their tags and count and, for a chronological post, the date of
/// the earliest photo that is not an outlier.
pub fn post_from_photos(path: String, config: PostConfig, log: PostLog, created_on: i64, photos: Vec<Photo>) -> (p: Option<Post>)
    ensures
        p is None <==> photos@.len() == 0,
        p matches Some(q) ==> {
            &&& q.path@ == path@
            &&& q.photos@ == photos@
            &&& q.photo_count == photos@.len()
            &&& q.tags.wf()
            &&& q.tags.contents() == collate(tag_uses(photos@))
            &&& q.happened_on == if config.chronological {
                earliest_spec(photos@)
            } else {
                None
            }
            &&& q.history == log
            &&& q.title == config.title
            &&& q.summary == config.summary
            &&& q.chronological == config.chronological
            &&& q.updated_on == created_on
            &&& q.series is None
        },
{
    if photos.len() == 0 {
        return None;
    }
    let mut p = Post::from_config(config, log, created_on);
    p.path = path;
    p.add_photos(photos);
    Some(p)
}

/// Part number of a series member from its folder name, by the first group
/// of `pattern`; none where the pattern does not give one or gives zero.
pub fn series_part(pattern: &crate::pattern::Pattern, folder: &str) -> (part: Option<u8>)
    ensures
        part == match pos_from_name_spec(pattern@, folder@) {
            Some(n) => if n > 0 {
                Some(n)
            } else {
                None
            },
            None => None,
        },
{
    match pos_from_name(pattern, folder) {
        Some(n) => if n > 0 {
            Some(n)
        } else {
            None
        },
        None => None,
    }
}

/// The posts read from the subfolders of a series folder: none when no
/// subfolder gave a post, so that the folder is not taken for a series.
pub fn series_posts(posts: Vec<Post>) -> (r: Option<Vec<Post>>)
    ensures
        r is None <==> posts@.len() == 0,
        r matches Some(v) ==> v@ == posts@,
{
    if posts.len() == 0 {
        None
    } else {
        Some(posts)
    }
}

/// A post as part `part` of a series: the series details, its part path, and
/// for the first part the series path as its own.
pub fn join_series(p: Post, part: u8, part_path: String, config: &SeriesConfig) -> (q: Post)
    ensures
        q.series matches Some(s) && s.part == part && s.title@ == config.title@ && s.path@ == config.path@
            && s.part_path@ == part_path@ && s.total_parts == config.parts && s.prev_is_part == (part > 1)
            && s.next_is_part == (part < config.parts),
        q.path@ == if part == 1 {
            config.path@
        } else {
            p.path@
        },
        q == (Post { series: q.series, path: q.path, ..p }),
{
    let mut q = p;
    q.series = Some(
        PostSeries {
            part,
            title: config.title.clone(),
            path: config.path.clone(),
            part_path,
            total_parts: config.parts,
            prev_is_part: part > 1,
            next_is_part: part < config.parts,
        },
    );
    if part == 1 {
        q.path = config.path.clone();
    }
    q
}

impl PostLog {
    /// Record of a post as rendered at `as_of`: its neighbours, date, photo
    /// count, tags and cover photo, with no pending file changes.
    pub fn from_post(post: Post, as_of: i64) -> (log: PostLog)
        requires
            post.has_cover(),
        ensures
            logged(post, as_of, log),
    {
        let mut post = post;
        let cover = if post.photos.len() == 0 {
            post.history.cover_photo
        } else {
            Some(post.photos.remove(post.cover_photo_index))
        };
        PostLog {
            next_path: post.next_path,
            prev_path: post.prev_path,
            happened_on: post.happened_on,
            as_of,
            photo_count: post.photo_count,
            cover_photo: cover,
            tags: post.tags,
            files_changed: false,
        }
    }
}

} // verus!
