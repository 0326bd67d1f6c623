//! Photo sizes.
use exifweb::config::{ExifConfig, PhotoConfig, SizeConfig};
use exifweb::models::size::{SUFFIX_LARGE, SUFFIX_MEDIUM, SUFFIX_ORIGINAL, SUFFIX_SMALL, SUFFIX_THUMB};
use exifweb::models::{Size, SizeCollection};
use exifweb::pattern::Pattern;

#[test]
fn test_resize() {
    let name = |end: &'static str| format!("001_{}.wepb", end);

    let source = Size::new(1024, 768, name(SUFFIX_LARGE));
    let target = Size::new(800, 600, name(SUFFIX_MEDIUM));

    assert_eq!(source.limit_to(800, name(SUFFIX_MEDIUM)), target);

    let source = Size::new(768, 1024, name(SUFFIX_LARGE));
    let target = Size::new(600, 800, name(SUFFIX_MEDIUM));

    assert_eq!(source.limit_to(800, name(SUFFIX_MEDIUM)), target);
}

#[test]
fn limit_keeps_smaller_sizes() {
    let source = Size::new(640, 480, "a".to_owned());
    assert_eq!(source.limit_to(800, "b".to_owned()), Size::new(640, 480, "b".to_owned()));
}

#[test]
fn limit_rounds_to_nearest() {
    // 1000 x 333 limited to 500: 166.5 rounds up
    let source = Size::new(1000, 333, "a".to_owned());
    assert_eq!(source.limit_to(500, "b".to_owned()), Size::new(500, 167, "b".to_owned()));
    // a square edge equal to the limit keeps its size
    let source = Size::new(300, 300, "a".to_owned());
    assert_eq!(source.limit_to(300, "b".to_owned()), Size::new(300, 300, "b".to_owned()));
}

#[test]
fn center_square_crops_long_edge() {
    assert_eq!(Size::new(1024, 768, String::new()).center_square(), (128, 0, 768));
    assert_eq!(Size::new(768, 1024, String::new()).center_square(), (0, 128, 768));
}

fn photo_config() -> PhotoConfig {
    PhotoConfig {
        capture_index: Pattern::new(r"_(\d{3})-of-\d{3}\.jpg$").unwrap(),
        size: SizeConfig { large: 2048, medium: 1024, small: 320, thumb: 256 },
        exif: ExifConfig { camera: Vec::new(), software: Vec::new(), lens: Vec::new() },
        remove_tags: Vec::new(),
        source_ext: ".jpg".to_owned(),
        output_ext: ".webp".to_owned(),
        source_size: 2048,
    }
}

#[test]
fn size_collection_from_dimensions() {
    let c = SizeCollection::from(4000, 3000, 7, &photo_config());
    assert_eq!(c.original, Size::new(4000, 3000, format!("007_{}.webp", SUFFIX_ORIGINAL)));
    assert_eq!(c.large, Size::new(2048, 1536, format!("007_{}.webp", SUFFIX_LARGE)));
    assert_eq!(c.medium, Size::new(1024, 768, format!("007_{}.webp", SUFFIX_MEDIUM)));
    assert_eq!(c.small, Size::new(320, 240, format!("007_{}.webp", SUFFIX_SMALL)));
    assert_eq!(c.thumb, Size::new(256, 256, format!("007_{}.webp", SUFFIX_THUMB)));
    assert!(c.is_landscape());
    assert!(!c.is_portrait());
}
