//! Slugs, medians, fences and outliers.
use exifweb::models::{Moment, Photo, PhotoFile};
use exifweb::tools::{boundary, identify_outliers, median, slugify};

#[test]
fn slugify_test() {
    let expect: Vec<(&str, &str)> = vec![
        ("Wiggle and Roll", "wiggle-and-roll"),
        ("Wiggle and    Sing", "wiggle-and-sing"),
        ("Too---dashing", "too-dashing"),
        ("powerful/oz", "powerful-oz"),
        ("three o' clock", "three-o-clock"),
        ("one_two_Three-48px", "one-two-three-48px"),
        ("camelCase", "camel-case"),
    ];

    for (k, v) in expect.iter() {
        assert_eq!(slugify(k), *v);
    }
}

#[test]
fn median_test() {
    // the median is returned doubled, so that it stays whole
    assert_eq!(median(&mut [1, 2, 3]) as f64 / 2.0, 2.0);
    assert_eq!(median(&mut [1, 2, 13]) as f64 / 2.0, 2.0);
    assert_eq!(median(&mut [3]) as f64 / 2.0, 3.0);
    assert_eq!(median(&mut [4, 5, 6, 7]) as f64 / 2.0, 5.5);
    assert_eq!(median(&mut [4, 5, 6, 9]) as f64 / 2.0, 5.5);

    let mut numbers = [1, 2, 36, 9, 27, 3, 22];

    assert_eq!(median(&mut numbers) as f64 / 2.0, 9.0);

    let len = numbers.len();
    let mid = len / 2;
    // first quartile
    assert_eq!(median(&mut numbers[0..mid]) as f64 / 2.0, 2.0);
    // third quartile
    assert_eq!(median(&mut numbers[mid + 1..len]) as f64 / 2.0, 27.0);
}

#[test]
fn boundary_test() {
    // q2 = [1, 2, 3, 9, 22, 27, 36] = 9
    // q1 = [1, 2, 3] = 2
    // q3 = [22, 27, 36] = 27
    // range = q3 - q1 = 25
    // min = 2 - 3(25) = -73
    // max = 27 + 3(25) = 102
    let fence = boundary(&mut [1, 2, 36, 9, 27, 3, 22], 3, 1).unwrap();

    assert_eq!(fence.min as f64 / fence.den as f64, -73.0);
    assert_eq!(fence.max as f64 / fence.den as f64, 102.0);
}

fn dated(name: &str, rfc3339: &str) -> Photo {
    let d = chrono::DateTime::parse_from_rfc3339(rfc3339).unwrap();
    let mut p = Photo::default();
    p.file = PhotoFile { name: name.to_owned(), created: 0 };
    p.date_taken = Some(Moment { timestamp: d.timestamp(), offset: d.offset().local_minus_utc() });
    p
}

#[test]
fn outlier_test() {
    let mut photos: Vec<Photo> = vec![
        dated("One", "1996-12-19T16:39:57-08:00"),
        dated("Two", "1996-12-19T16:40:57-08:00"),
        // the outlier
        dated("Three", "1992-12-19T16:39:57-08:00"),
        dated("Four", "1996-12-19T16:43:57-08:00"),
    ];

    identify_outliers(&mut photos);

    assert!(!photos[0].outlier_date);
    assert_eq!(photos[2].file.name, "Three");
    assert!(photos[2].outlier_date);
}
