//! Concrete cases of what holds of every input.
use exifweb::html::{caption, try_caption, try_link_urls};
use exifweb::models::Size;
use exifweb::tools::{boundary, slugify};

#[test]
fn slugs_hold_only_slug_characters() {
    for text in ["--Hello__World--", "Ça va? ¡Sí!", "a - & - b", "x&y", "ÄÖÜ straße", "", "   ", "A/B\\C"] {
        let slug = slugify(text);
        assert!(slug.chars().all(|c| c == '-' || c.is_ascii_lowercase() || c.is_ascii_digit()), "{}", slug);
        assert!(!slug.contains("--"), "{}", slug);
    }
    assert_eq!(slugify("Rock & Roll"), "rock-and-roll");
}

#[test]
fn fences_are_ordered() {
    for numbers in [vec![5, 1, 9], vec![-3, -3, -3, -3], vec![100, 1, 50, 2, 75, 3]] {
        let mut n = numbers.clone();
        let f = boundary(&mut n, 1, 20).unwrap();
        assert!(f.min <= f.max);
        assert!(n.windows(2).all(|w| w[0] <= w[1]));
    }
    assert!(boundary(&mut [], 1, 20).is_none());
}

#[test]
fn limits_never_enlarge() {
    for (w, h, l) in [(10u16, 20u16, 5u16), (20, 10, 15), (7, 7, 7), (100, 1, 3), (3, 2, 100)] {
        let s = Size::new(w, h, String::new()).limit_to(l, String::new());
        assert!(s.width <= w && s.height <= h);
        if !(l > w && l > h) {
            assert!(s.width <= l && s.height <= l);
        }
    }
}

#[test]
fn empty_caption_is_empty() {
    assert_eq!(caption(""), "");
    assert_eq!(try_caption("").as_deref(), Some(""));
}

#[test]
fn text_without_urls_has_links() {
    assert_eq!(try_link_urls("no links here").as_deref(), Some("no links here"));
}

#[test]
fn slug_of_a_slug_is_itself() {
    for text in ["Wiggle and Roll", "camelCase", "one_two_Three-48px", "--Hello__World--", "Rock & Roll", "x-1-y"] {
        let slug = slugify(text);
        assert_eq!(slugify(&slug), slug);
    }
    assert_eq!(slugify("already-a-slug-42"), "already-a-slug-42");
}

#[test]
fn only_curly_quotes_make_a_block_quote() {
    let q = "Firefighters are working to get a handle on several wildfires that sparked during a lightning storm on Thursday night. Strong winds and poor visibility created challenges for firefighters working the blazes on Saturday.";
    assert!(q.len() >= 200);
    assert_eq!(caption(&format!("“{}”", q)), format!("<blockquote><p>{}</p></blockquote>", q));
    assert_eq!(caption(&format!("\"{}\"", q)), format!("<p>\"{}\"</p>", q));
}
