//! Loading posts: change detection, log round trips, series and photos.
use exifweb::config::{PostConfig, PostLog, SeriesConfig};
use exifweb::exif::{exif_text, exif_tool_args, photos_from_records, try_photos_from_records, ExifRecord};
use exifweb::loading::{
    files_modified, from_log, join_series, post_from_log, post_from_photos, post_path_depth, series_part, series_posts,
};
use exifweb::models::{ExposureMode, Moment, Photo, Post, PostSeries, TagMap, TagPhotos};
use exifweb::pattern::Pattern;
use exifweb::tools::{arrange_photos, earliest_photo_date};

fn config(title: &str) -> PostConfig {
    PostConfig {
        title: title.to_owned(),
        summary: String::new(),
        category_list: None,
        cover_photo_index: 2,
        youtube_id: None,
        chronological: true,
        part: 0,
    }
}

fn entries(list: &[(&str, i64)]) -> Vec<(String, i64)> {
    list.iter().map(|(n, t)| (n.to_string(), *t)).collect()
}

#[test]
fn unchanged_folder_is_not_modified() {
    let e = entries(&[("001.jpg", 10), ("config.toml", 5), ("notes.txt", 99)]);
    assert!(!files_modified(&e, 10, 2, ".jpg"));
}

#[test]
fn newer_photo_is_modified() {
    let e = entries(&[("001.jpg", 11), ("config.toml", 5)]);
    assert!(files_modified(&e, 10, 2, ".jpg"));
}

#[test]
fn different_file_count_is_modified() {
    let e = entries(&[("001.jpg", 1), ("002.jpg", 1), ("config.toml", 1)]);
    assert!(files_modified(&e, 10, 2, ".jpg"));
    assert!(files_modified(&e, 10, 4, ".jpg"));
    assert!(!files_modified(&e, 10, 3, ".jpg"));
}

fn dated(index: u8, t: i64) -> Photo {
    let mut p = Photo::default();
    p.index = index;
    p.date_taken = Some(Moment { timestamp: t, offset: 0 });
    p.tags = vec!["Trail".to_owned()];
    p
}

#[test]
fn post_from_photos_collates_and_dates() {
    let photos = vec![dated(1, 300), dated(2, 100), dated(3, 200)];
    let p = post_from_photos("trip".to_owned(), config("Trip"), PostLog::empty(), 7, photos).unwrap();
    assert_eq!(p.path, "trip");
    assert_eq!(p.photo_count, 3);
    assert_eq!(p.happened_on.unwrap().timestamp, 100);
    assert_eq!(p.tags.entries[0].0, "trail");
    assert_eq!(p.tags.entries[0].1.photos, vec![1, 2, 3]);
    assert_eq!(p.cover_photo_index, 1);
    assert_eq!(p.updated_on, 7);
    assert!(post_from_photos("none".to_owned(), config("None"), PostLog::empty(), 7, Vec::new()).is_none());
}

#[test]
fn logged_post_comes_back() {
    let photos = vec![dated(1, 300), dated(2, 100)];
    let mut p = post_from_photos("trip".to_owned(), config("Trip"), PostLog::empty(), 7, photos).unwrap();
    p.next_path = Some("later".to_owned());
    let log = PostLog::from_post(p, 1000);
    assert!(!log.files_changed);
    assert_eq!(log.as_of, 1000);
    assert_eq!(log.cover_photo.as_ref().unwrap().index, 2);
    let q = post_from_log("trip".to_owned(), config("Trip"), log, 8);
    assert_eq!(q.happened_on.unwrap().timestamp, 100);
    assert_eq!(q.photo_count, 2);
    assert_eq!(q.tags.entries[0].0, "trail");
    assert_eq!(q.tags.entries[0].1.photos, vec![1, 2]);
    assert!(q.photos.is_empty());
    assert_eq!(q.history.next_path.as_deref(), Some("later"));
}

#[test]
fn series_parts_come_from_folder_names() {
    let re = Pattern::new(r"^(\d+)\.").unwrap();
    assert_eq!(series_part(&re, "2.trying-to-survive"), Some(2));
    assert_eq!(series_part(&re, "0.prologue"), None);
    assert_eq!(series_part(&re, "no-number"), None);
    assert!(Pattern::new("(unclosed").is_none());
}

#[test]
fn first_part_takes_series_path() {
    let series = SeriesConfig { title: "Brother Ride".to_owned(), parts: 3, path: "brother-ride".to_owned() };
    let mut p = Post::from_config(config("Day One"), PostLog::empty(), 0);
    p.path = "brother-ride/1.day-one".to_owned();
    let first = join_series(p, 1, "1.day-one".to_owned(), &series);
    assert_eq!(first.path, "brother-ride");
    let s: &PostSeries = first.series.as_ref().unwrap();
    assert_eq!((s.part, s.total_parts, s.prev_is_part, s.next_is_part), (1, 3, false, true));
    assert_eq!(first.next_label("Next"), "Part 2");
    assert_eq!(first.prev_label("Previous"), "Previous");

    let mut p = Post::from_config(config("Day Three"), PostLog::empty(), 0);
    p.path = "brother-ride/3.day-three".to_owned();
    let last = join_series(p, 3, "3.day-three".to_owned(), &series);
    assert_eq!(last.path, "brother-ride/3.day-three");
    assert_eq!(last.next_label("Next"), "Next");
    assert_eq!(last.prev_label("Previous"), "Part 2");
}

#[test]
fn arranged_photos_are_in_index_order_with_outliers_flagged() {
    let photos = vec![dated(3, 1000), dated(1, 1010), dated(2, 10), dated(4, 1020)];
    let out = arrange_photos(photos);
    let order: Vec<u8> = out.iter().map(|p| p.index).collect();
    assert_eq!(order, vec![1, 2, 3, 4]);
    assert!(out[1].outlier_date);
    assert!(!out[0].outlier_date);
    assert_eq!(earliest_photo_date(&out).unwrap().timestamp, 1000);
}

fn record(file: &str, make: Option<&str>, model: Option<&str>) -> ExifRecord {
    ExifRecord {
        artist: Some("Jason Abbott".to_owned()),
        camera_make: make.map(|s| s.to_owned()),
        camera_model: model.map(|s| s.to_owned()),
        caption: Some("Fuel stop".to_owned()),
        created_on: Some(Moment { timestamp: 50, offset: 0 }),
        exposure_compensation: None,
        exposure_mode: ExposureMode::default(),
        file_created_on: None,
        file_name: file.to_owned(),
        height: 768,
        iso: Some(100),
        lens: None,
        software: "Lightroom".to_owned(),
        tags: vec!["Motorcycle".to_owned()],
        title: Some("Gas Station".to_owned()),
        shutter_speed: Some("1/500".to_owned()),
        taken_on: None,
        width: 1024,
    }
}

fn photo_config() -> exifweb::config::PhotoConfig {
    exifweb::config::PhotoConfig {
        capture_index: Pattern::new(r"(\d{3})\.jpg$").unwrap(),
        size: exifweb::config::SizeConfig { large: 2048, medium: 1024, small: 320, thumb: 256 },
        exif: exifweb::config::ExifConfig { camera: Vec::new(), software: Vec::new(), lens: Vec::new() },
        remove_tags: Vec::new(),
        source_ext: ".jpg".to_owned(),
        output_ext: ".webp".to_owned(),
        source_size: 2048,
    }
}

#[test]
fn records_become_photos() {
    let records = vec![
        record("002.jpg", Some("Apple"), Some("iPhone 6s")),
        record("cover.jpg", Some("Apple"), None),
        record("001.jpg", Some("Apple"), None),
    ];
    let photos = photos_from_records(records, &photo_config());
    assert_eq!(photos.len(), 2);
    assert_eq!(photos[0].index, 2);
    assert_eq!(photos[0].camera.as_ref().unwrap().name, "iPhone 6s");
    assert_eq!(photos[1].camera.as_ref().unwrap().name, "Apple");
    assert_eq!(photos[0].caption.as_deref(), Some("<p>Fuel stop</p>"));
    assert_eq!(photos[0].date_taken.unwrap().timestamp, 50);
    assert_eq!(photos[0].size.medium.name, "002_m.webp");
    assert_eq!(photos[0].size.medium.width, 1024);
    let checked = try_photos_from_records(vec![record("003.jpg", None, None)], &photo_config()).unwrap();
    assert!(checked[0].camera.is_none());
}

#[test]
fn exif_tool_reads_json_for_pattern() {
    let args = exif_tool_args("*.jpg");
    assert_eq!(args.len(), 33);
    assert_eq!(args[0], "*.jpg");
    assert_eq!(args[1], "-json");
    assert_eq!(args[32], "-UsageTerms");
}

#[test]
fn image_magick_output_reads_as_latin1() {
    assert_eq!(exif_text(&[0x63, 0x61, 0x66, 0xE9]).as_deref(), Some("café"));
    assert!(exif_text(&[]).is_none());
}

#[test]
fn tag_maps_copy() {
    let mut m: TagMap<u8> = TagMap::new();
    m.insert_new("b".to_owned(), TagPhotos { name: "B".to_owned(), photos: vec![1], changed: true });
    m.insert_new("a".to_owned(), TagPhotos { name: "A".to_owned(), photos: vec![2, 3], changed: false });
    let c = m.duplicate();
    assert_eq!(c.entries[0].0, "a");
    assert_eq!(c.entries[0].1.photos, vec![2, 3]);
    assert_eq!(c.entries[1].1.name, "B");
    assert!(c.entries[1].1.changed);
}

#[test]
fn folder_without_series_posts_is_no_series() {
    assert!(series_posts(Vec::new()).is_none());
    let p = post_from_log("a/1".to_owned(), config("One"), PostLog::empty(), 0);
    let posts = series_posts(vec![p]).unwrap();
    assert_eq!(posts.len(), 1);
    assert_eq!(posts[0].path, "a/1");
}

#[test]
fn series_labels_name_the_adjacent_parts() {
    let s = PostSeries {
        path: "brother-ride".to_owned(),
        part_path: "1.day-one".to_owned(),
        title: "Brother Ride".to_owned(),
        part: 1,
        total_parts: 3,
        next_is_part: true,
        prev_is_part: false,
    };
    assert_eq!(s.next_label().as_deref(), Some("Part 2"));
    assert_eq!(s.prev_label(), None);
    let last = PostSeries { part: 3, part_path: "3.day-three".to_owned(), ..s };
    assert_eq!(last.next_label(), None);
    assert_eq!(last.prev_label().as_deref(), Some("Part 2"));
}

#[test]
fn log_is_used_only_when_nothing_changed() {
    let mut log = PostLog::empty();
    assert!(!from_log(&log, false));
    log.files_changed = false;
    assert!(from_log(&log, false));
    assert!(!from_log(&log, true));
    assert_eq!(post_path_depth(true), 2);
    assert_eq!(post_path_depth(false), 1);
}

#[test]
fn cover_photo_comparison_follows_the_logged_photo() {
    let mut photos = Vec::new();
    for (i, name) in ["a.jpg", "b.jpg"].iter().enumerate() {
        let mut p = Photo::default();
        p.file.name = name.to_string();
        p.index = i as u8 + 1;
        photos.push(p);
    }
    let p = post_from_photos("p".to_owned(), config("P"), PostLog::empty(), 0, photos).unwrap();
    // the configured cover is the second photo
    let mut log = PostLog::empty();
    assert!(log.cover_photo_changed(&p));
    let mut same = Photo::default();
    same.file.name = "b.jpg".to_owned();
    log.cover_photo = Some(same);
    assert!(log.cover_photo_changed(&p));
    let mut other = Photo::default();
    other.file.name = "a.jpg".to_owned();
    log.cover_photo = Some(other);
    assert!(!log.cover_photo_changed(&p));
}
