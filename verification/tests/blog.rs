//! The blog: posts in path order, categories, chronology and tags.
use exifweb::config::{PostCategories, PostConfig, PostLog};
use exifweb::models::{Blog, Category, CategoryKind, Moment, Photo, Post, TagMap, TagPhotos};

fn post_config(title: &str, chronological: bool, categories: Option<PostCategories>) -> PostConfig {
    PostConfig {
        title: title.to_owned(),
        summary: format!("About {}", title),
        category_list: categories,
        cover_photo_index: 1,
        youtube_id: None,
        chronological,
        part: 0,
    }
}

fn post(path: &str, time: Option<i64>) -> Post {
    let mut p = Post::from_config(post_config(path, true, None), PostLog::empty(), 0);
    p.path = path.to_owned();
    p.happened_on = time.map(|t| Moment { timestamp: t, offset: 0 });
    p
}

fn tagged(path: &str, tags: &[(&str, &str, &[u8])]) -> Post {
    let mut p = post(path, Some(0));
    let mut map: TagMap<u8> = TagMap::new();
    for (slug, name, photos) in tags.iter() {
        map.insert_new(
            slug.to_string(),
            TagPhotos { name: name.to_string(), photos: photos.to_vec(), changed: false },
        );
    }
    p.tags = map;
    p
}

#[test]
fn posts_stay_in_path_order() {
    let mut blog = Blog::new();
    blog.add_post(post("b", None));
    blog.add_post(post("c", None));
    blog.add_post(post("a", None));
    let paths: Vec<&str> = blog.posts.iter().map(|p| p.path.as_str()).collect();
    assert_eq!(paths, vec!["a", "b", "c"]);
    assert_eq!(blog.post_count(), 3);
    assert!(!blog.is_empty());
}

#[test]
fn correlated_posts_link_to_neighbours() {
    let mut blog = Blog::new();
    blog.add_post(post("middle", Some(200)));
    blog.add_post(post("oldest", Some(100)));
    blog.add_post(post("newest", Some(300)));
    blog.add_post(post("undated", None));
    blog.correlate_posts();

    let oldest = blog.get("oldest").unwrap();
    let middle = blog.get("middle").unwrap();
    let newest = blog.get("newest").unwrap();
    let undated = blog.get("undated").unwrap();

    assert_eq!(oldest.prev_path, None);
    assert_eq!(oldest.next_path.as_deref(), Some("middle"));
    assert_eq!(middle.prev_path.as_deref(), Some("oldest"));
    assert_eq!(middle.next_path.as_deref(), Some("newest"));
    assert_eq!(newest.prev_path.as_deref(), Some("middle"));
    assert_eq!(newest.next_path, None);
    assert_eq!(undated.prev_path, None);
    assert_eq!(undated.next_path, None);

    assert_eq!(blog.get_next(middle).unwrap().path, "newest");
    assert_eq!(blog.get_prev(middle).unwrap().path, "oldest");
    assert!(blog.get_next(newest).is_none());
}

#[test]
fn equal_times_keep_path_order() {
    let mut blog = Blog::new();
    blog.add_post(post("b", Some(5)));
    blog.add_post(post("a", Some(5)));
    blog.correlate_posts();
    assert_eq!(blog.get("a").unwrap().next_path.as_deref(), Some("b"));
    assert_eq!(blog.get("b").unwrap().prev_path.as_deref(), Some("a"));
}

#[test]
fn empty_path_finds_no_post() {
    let mut blog = Blog::new();
    blog.add_post(post("a", None));
    assert!(blog.get("").is_none());
    assert!(blog.get("z").is_none());
}

#[test]
fn featured_post_is_marked() {
    let mut blog = Blog::new();
    blog.add_post(post("a", None));
    assert!(blog.get_featured("a").unwrap().featured);
    assert!(blog.get("a").unwrap().featured);
    assert!(blog.get_featured("missing").is_none());
}

#[test]
fn posts_join_their_categories() {
    let mut blog = Blog::new();
    let cats = |who: &str, year: u16| {
        Some(PostCategories { who: Some(who.to_owned()), when: Some(year), where_: vec!["Idaho".to_owned()], what: None })
    };
    let mut p1 = Post::from_config(post_config("one", true, cats("Jason", 2019)), PostLog::empty(), 0);
    p1.path = "one".to_owned();
    let mut p2 = Post::from_config(post_config("two", true, cats("Abe", 2020)), PostLog::empty(), 0);
    p2.path = "two".to_owned();
    blog.add_post(p2);
    blog.add_post(p1);

    assert_eq!(blog.category_count(), 3);
    let list = |kind: CategoryKind| -> &Vec<Category> { &blog.categories.iter().find(|c| c.0 == kind).unwrap().1 };
    let who: Vec<&str> = list(CategoryKind::Who).iter().map(|c| c.name.as_str()).collect();
    assert_eq!(who, vec!["Abe", "Jason"]);
    // years newest first
    let when: Vec<&str> = list(CategoryKind::When).iter().map(|c| c.name.as_str()).collect();
    assert_eq!(when, vec!["2020", "2019"]);
    let idaho = &list(CategoryKind::Where)[0];
    assert_eq!(idaho.path, "where/idaho");
    assert_eq!(idaho.post_paths, vec!["one".to_owned(), "two".to_owned()]);
}

#[test]
fn blog_tags_list_photos_of_every_post() {
    let mut blog = Blog::new();
    blog.add_post(tagged("p1", &[("bike", "Bike", &[1, 2]), ("idaho", "Idaho", &[2])]));
    blog.add_post(tagged("p2", &[("bike", "bike", &[3])]));
    blog.collate_tags();

    assert_eq!(blog.tag_count(), 2);
    let bike = &blog.tags.entries[0];
    assert_eq!(bike.0, "bike");
    assert_eq!(bike.1.name, "Bike");
    let photos: Vec<(String, u8)> = bike.1.photos.iter().map(|p| (p.post_path.clone(), p.photo_index)).collect();
    assert_eq!(photos, vec![("p1".to_owned(), 1), ("p1".to_owned(), 2), ("p2".to_owned(), 3)]);
    assert!(bike.1.changed);
    assert_eq!(blog.tags.entries[1].0, "idaho");
}

#[test]
fn logged_tags_with_same_count_are_unchanged() {
    let mut blog = Blog::new();
    blog.add_post(tagged("p1", &[("bike", "Bike", &[1, 2]), ("idaho", "Idaho", &[2])]));
    blog.collate_tags();
    // log the first collation, then add a photo to one tag
    blog.history.tags = TagMap::new();
    for (slug, tag) in blog.tags.entries.iter() {
        let photos = tag.photos.iter().map(|p| exifweb::models::PhotoPath {
            post_path: p.post_path.clone(),
            photo_index: p.photo_index,
        }).collect();
        blog.history.tags.insert_new(slug.clone(), TagPhotos { name: tag.name.clone(), photos, changed: false });
    }
    blog.add_post(tagged("p2", &[("bike", "Bike", &[3])]));
    blog.collate_tags();
    assert!(blog.tags.entries[0].1.changed);
    assert!(!blog.tags.entries[1].1.changed);
}

#[test]
fn render_count_follows_changes() {
    let mut blog = Blog::new();
    let mut unchanged = post("a", Some(1));
    unchanged.history.files_changed = false;
    blog.add_post(unchanged);
    blog.add_post(post("b", Some(2)));
    // "b" has changed files; correlating gives "a" a new next path
    assert_eq!(blog.needs_render_count(), 1);
    blog.correlate_posts();
    assert_eq!(blog.needs_render_count(), 2);
}

#[test]
fn photo_tags_collate_by_slug() {
    let mut a = Photo::default();
    a.index = 1;
    a.tags = vec!["Big Sky".to_owned(), "Idaho".to_owned()];
    let mut b = Photo::default();
    b.index = 2;
    b.tags = vec!["big-sky".to_owned()];
    let tags = exifweb::models::tag::collate_tags(&vec![a, b]);
    assert_eq!(tags.len(), 2);
    assert_eq!(tags.entries[0].0, "big-sky");
    assert_eq!(tags.entries[0].1.name, "Big Sky");
    assert_eq!(tags.entries[0].1.photos, vec![1, 2]);
    assert_eq!(tags.entries[1].0, "idaho");
}

#[test]
fn default_post_is_empty_and_chronological() {
    let p = Post::default();
    assert!(p.path.is_empty() && p.title.is_empty() && p.photos.is_empty());
    assert!(p.chronological && !p.featured);
    assert_eq!(p.cover_photo_index, 0);
    assert!(p.history.files_changed);
    assert!(p.updated_on > 0);
}

#[test]
fn kind_names_round_trip_lowered() {
    for k in [CategoryKind::Who, CategoryKind::What, CategoryKind::When, CategoryKind::Where] {
        assert_eq!(CategoryKind::from_str(&k.to_string().to_lowercase()), Some(k));
    }
    assert_eq!(CategoryKind::from_str("Who"), None);
    assert_eq!(CategoryKind::from_str(""), None);
    assert_eq!(CategoryKind::from_str("how"), None);
}
