//! Linked data, map addresses, image tool arguments and render decisions.
use exifweb::config::{
    BlogConfig, CategoryConfig, CategoryIcon, ExifConfig, FacebookConfig, FeaturedPost, GoogleConfig,
    ImageConfig, MapBoxConfig, MapBoxStyles, OwnerConfig, PhotoConfig, PostCategories, PostConfig,
    PostLog, SiteConfig, SizeConfig, StyleConfig,
};
use exifweb::exif::EXIF;
use exifweb::image::{cwebp_args, cwebp_commands, magick_args};
use exifweb::json_ld::{full_url, owner, CategoryLd};
use exifweb::mapbox::{post_maps, static_map_url};
use exifweb::models::size::SUFFIX_THUMB;
use exifweb::models::{Blog, Category, CategoryKind, ExposureMode, Photo, PhotoFile, PhotoPath, Post, SizeCollection};
use exifweb::pattern::Pattern;
use exifweb::run::{feature, is_ignored, photos_to_resize, plural, posts_to_complete, render_plan, Features, Override};
use exifweb::tools::config_regex;

fn photo_config() -> PhotoConfig {
    PhotoConfig {
        capture_index: Pattern::new(r"(\d{3})\.jpg$").unwrap(),
        size: SizeConfig { large: 2048, medium: 1024, small: 320, thumb: 256 },
        exif: ExifConfig {
            camera: vec![("NIKON".to_owned(), "Nikon".to_owned())],
            software: Vec::new(),
            lens: vec![("FE ".to_owned(), "Sony FE ".to_owned())],
        },
        remove_tags: Vec::new(),
        source_ext: ".jpg".to_owned(),
        output_ext: ".webp".to_owned(),
        source_size: 2048,
    }
}

fn blog_config() -> BlogConfig {
    BlogConfig {
        author_name: "Jason".to_owned(),
        repo_url: String::new(),
        featured_post: None,
        ignore_folders: vec!["public".to_owned()],
        force_rerender: false,
        capture_series_index: Pattern::new(r"^(\d+)\.").unwrap(),
        redirects: None,
        site: SiteConfig {
            url: "http://www.trailimage.com".to_owned(),
            title: "Trail Image".to_owned(),
            subtitle: String::new(),
            description: "Stories".to_owned(),
            logo: ImageConfig { url: "img/logo.png".to_owned(), width: 308, height: 60 },
            company_logo: None,
            post_alias: "Adventure".to_owned(),
        },
        owner: OwnerConfig {
            name: "Test Person".to_owned(),
            email: Some("user@email.io".to_owned()),
            urls: Some(vec!["http://first.url".to_owned(), "http://second.url".to_owned()]),
            image: None,
        },
        style: StyleConfig { inline_map_height: 200, content_width: 1000 },
        category: CategoryConfig {
            what_regex: None,
            icon: CategoryIcon {
                who: "person".to_owned(),
                what: "directions".to_owned(),
                when: "date_range".to_owned(),
                where_: "map".to_owned(),
                default: "local_offer".to_owned(),
            },
            display: Vec::new(),
        },
        photo: photo_config(),
        facebook: FacebookConfig {
            app_id: String::new(),
            admin_id: String::new(),
            page_id: String::new(),
            site_id: String::new(),
            author_url: String::new(),
        },
        mapbox: MapBoxConfig {
            access_token: "TOKEN".to_owned(),
            max_static_markers: 70,
            style: MapBoxStyles { dynamic: "dyn".to_owned(), static_: "user/style".to_owned() },
            pin_image: String::new(),
        },
        google: GoogleConfig {
            api_key: String::new(),
            project_id: String::new(),
            analytics_id: String::new(),
            search_engine_id: String::new(),
            blog_id: String::new(),
        },
    }
}

fn photo(index: u8, width: u16, height: u16) -> Photo {
    let mut p = Photo::default();
    p.index = index;
    p.file = PhotoFile { name: format!("{:03}.jpg", index), created: 10 * index as i64 };
    p.size = SizeCollection::from(width, height, index, &photo_config());
    p
}

fn post_with(path: &str, photos: Vec<Photo>) -> Post {
    let config = PostConfig {
        title: "Title".to_owned(),
        summary: "Summary".to_owned(),
        category_list: Some(PostCategories { who: Some("Me".to_owned()), when: None, where_: Vec::new(), what: Some("Ride".to_owned()) }),
        cover_photo_index: 1,
        youtube_id: None,
        chronological: true,
        part: 0,
    };
    let mut p = Post::from_config(config, PostLog::empty(), 99);
    p.path = path.to_owned();
    p.add_photos(photos);
    p
}

#[test]
fn site_addresses_are_absolute() {
    assert_eq!(full_url(&blog_config(), "about"), "http://www.trailimage.com/about");
}

#[test]
fn owner_is_described_as_person() {
    let p = owner(&blog_config());
    assert_eq!(p.name, "Test Person");
    assert_eq!(p.url, "http://www.trailimage.com/about");
    assert!(p.image.is_none());
    assert_eq!(p.same_as.unwrap(), vec!["http://first.url".to_owned(), "http://second.url".to_owned()]);
}

#[test]
fn category_pages_have_breadcrumbs() {
    let config = blog_config();
    let c = Category::new("Big Sky", CategoryKind::Where);
    match c.json_ld(&config, false) {
        CategoryLd::Page(p) => {
            assert_eq!(p.url, "http://www.trailimage.com/where/big-sky");
            let crumbs: Vec<(String, String, usize)> =
                p.breadcrumb.iter().map(|b| (b.url.clone(), b.name.clone(), b.position)).collect();
            assert_eq!(crumbs, vec![
                ("http://www.trailimage.com/".to_owned(), "Home".to_owned(), 1),
                ("http://www.trailimage.com/where".to_owned(), "Where".to_owned(), 2),
                ("http://www.trailimage.com/where/big-sky".to_owned(), "Big Sky".to_owned(), 3),
            ]);
            assert_eq!(p.publisher.logo.url, "http://www.trailimage.com/img/logo.png");
        },
        CategoryLd::Blog(_) => panic!("expected a category page"),
    }
    match c.json_ld(&config, true) {
        CategoryLd::Blog(b) => assert_eq!(b.main_entity_of_page.id, "http://www.trailimage.com/"),
        CategoryLd::Page(_) => panic!("expected the blog"),
    }
    let kind = CategoryKind::When.json_ld(&config);
    assert_eq!(kind.url, "http://www.trailimage.com/when");
    assert_eq!(kind.breadcrumb.len(), 2);
}

#[test]
fn post_linked_data_lists_categories() {
    let p = post_with("trip", vec![photo(1, 1024, 768)]);
    let ld = p.json_ld(&blog_config());
    assert_eq!(ld.headline, "Title");
    assert_eq!(ld.article_section, "Me,Ride");
    assert_eq!(ld.image.url, "001_m.webp");
    assert_eq!(ld.date_modified, 99);
}

#[test]
fn static_maps_encode_pins() {
    let config = blog_config();
    let pins = vec!["url-a b(1,2)".to_owned(), "x*y".to_owned()];
    let url = static_map_url(&config.mapbox, &pins, 300, 200);
    assert_eq!(
        url,
        "https://api.mapbox.com/styles/v1/user/style/static/url-a+b%281%2C2%29%2Cx*y/auto/300x200@2x?access_token=TOKEN&attribution=false&logo=false"
    );
    let mut p = post_with("trip", vec![photo(1, 1024, 768)]);
    p.prepare_maps(&config);
    let maps = post_maps(&p, &config, &pins);
    assert_eq!(maps[0].0, "map.png");
    assert!(maps[0].1.contains("/auto/1000x200@2x"));
    assert_eq!(maps[1].0, "map_small.png");
    assert!(maps[1].1.contains("/auto/680x240@2x"));
}

#[test]
fn cwebp_resizes_each_size() {
    let config = photo_config();
    let landscape = photo(4, 4000, 3000);
    let args = cwebp_args(&landscape, &config, 1024, "m", false);
    assert_eq!(args, vec![
        "-mt", "-noalpha", "-quiet", "-near_lossless", "0", "-m", "6", "-metadata", "icc", "-resize", "1024", "0",
        "004.jpg", "-o", "004_m.webp",
    ]);
    let portrait = photo(5, 3000, 4000);
    let args = cwebp_args(&portrait, &config, 320, "s", false);
    assert_eq!(&args[9..12], &["-resize", "0", "320"]);
    let thumb = cwebp_args(&landscape, &config, 256, SUFFIX_THUMB, true);
    assert_eq!(&thumb[9..17], &["-crop", "500", "0", "3000", "3000", "-resize", "256", "0"]);
    // the source size needs no resizing
    let large = cwebp_args(&landscape, &config, 2048, "l", false);
    assert_eq!(large.len(), 12);
    assert_eq!(cwebp_commands(&landscape, &config).len(), 4);
}

#[test]
fn magick_writes_all_sizes() {
    let args = magick_args(&photo(2, 4000, 3000), &photo_config());
    assert_eq!(&args[0..3], &["convert", "002.jpg", "-quiet"]);
    assert_eq!(&args[3..11], &["(", "+clone", "-resize", "2048x", "-write", "002_l.webp", "+delete", ")"]);
    assert_eq!(&args[27..], &["-resize", "256x256^", "-gravity", "center", "-extent", "256x256", "002_t.webp"]);
}

#[test]
fn render_plan_follows_overrides() {
    let none = Override { posts: false, maps: false, photos: false, tags: false };
    let plan = render_plan(0, &none);
    assert!(!plan.render_html && !plan.process);
    let plan = render_plan(2, &none);
    assert!(plan.render_html && plan.process);
    let maps = Override { maps: true, ..none };
    let plan = render_plan(0, &maps);
    assert!(!plan.render_html && plan.process);
    let tags = Override { tags: true, ..none };
    assert!(render_plan(0, &tags).render_html);
}

#[test]
fn ignored_folders_and_plurals() {
    let config = blog_config();
    assert!(is_ignored("public", &config));
    assert!(!is_ignored("trip", &config));
    assert_eq!(plural(1), "");
    assert_eq!(plural(0), "s");
    assert_eq!(plural(2), "s");
    let f = Features::at(42);
    assert!(!f.scroll_nav && f.use_facebook && f.timestamp == 42);
    let d = Features::default();
    assert!(d.use_facebook);
}

#[test]
fn new_photos_need_resizing() {
    let p = post_with("trip", vec![photo(1, 10, 10), photo(2, 10, 10), photo(3, 10, 10)]);
    assert_eq!(photos_to_resize(&p, 15), vec![1, 2]);
    assert_eq!(photos_to_resize(&p, 30), Vec::<usize>::new());
}

#[test]
fn posts_with_new_neighbours_need_photos() {
    let mut blog = Blog::new();
    let mut a = Post::from_config(post_config_plain(), PostLog::empty(), 0);
    a.path = "a".to_owned();
    a.next_path = Some("b".to_owned());
    blog.add_post(a);
    let mut b = post_with("b", vec![photo(1, 10, 10)]);
    b.prev_path = Some("a".to_owned());
    blog.add_post(b);
    assert_eq!(posts_to_complete(&blog), vec![0]);

    let chosen = feature(&mut blog, Some(FeaturedPost { path: "b".to_owned(), title: String::new() })).unwrap();
    assert_eq!(chosen.title, "Title");
    assert!(blog.get("b").unwrap().featured);
    assert!(feature(&mut blog, Some(FeaturedPost { path: "z".to_owned(), title: String::new() })).is_none());
    assert!(feature(&mut blog, None).is_none());
}

fn post_config_plain() -> PostConfig {
    PostConfig {
        title: "Plain".to_owned(),
        summary: String::new(),
        category_list: None,
        cover_photo_index: 0,
        youtube_id: None,
        chronological: false,
        part: 0,
    }
}

#[test]
fn icon_table_keeps_last_pattern_per_name() {
    let pairs = Some(vec![
        ("motorcycle".to_owned(), "KTM".to_owned()),
        ("bicycle".to_owned(), "bicycle".to_owned()),
        ("motorcycle".to_owned(), "(BMW|Honda)".to_owned()),
    ]);
    let table = config_regex(&pairs).unwrap();
    assert_eq!(table.len(), 2);
    assert_eq!(table[0].0, "motorcycle");
    assert_eq!(table[0].1.as_str(), "(BMW|Honda)");
    assert!(config_regex(&Some(vec![("bad".to_owned(), "(".to_owned())])).is_none());
    assert_eq!(config_regex(&None).unwrap().len(), 0);
}

#[test]
fn exif_is_sanitized_once() {
    let mut e = EXIF {
        artist: String::new(),
        compensation: String::new(),
        time: String::new(),
        f_number: 4,
        focal_length: 35,
        iso: 100,
        camera: "NIKON D850".to_owned(),
        lens: "FE 35mm".to_owned(),
        software: String::new(),
        sanitized: false,
    };
    e.sanitize(photo_config().exif);
    assert_eq!(e.camera, "Nikon D850");
    assert_eq!(e.lens, "Sony FE 35mm");
    assert!(e.sanitized);
    e.sanitize(photo_config().exif);
    assert_eq!(e.lens, "Sony FE 35mm");
}

#[test]
fn categories_and_paths() {
    assert_eq!(CategoryKind::from_str("where"), Some(CategoryKind::Where));
    assert_eq!(CategoryKind::from_str("Where"), None);
    assert_eq!(CategoryKind::When.to_string(), "When");
    let c = Category::new("Sun Valley", CategoryKind::Where);
    assert_eq!(c.path, "where/sun-valley");
    let p = PhotoPath { post_path: "brother-ride".to_owned(), photo_index: 7 };
    assert_eq!(p.post_url(), "brother-ride#007");
    assert_eq!(p.thumb_url(".webp"), "brother-ride/007_t.webp");
    assert_eq!(ExposureMode::from_u64(3).unwrap().label(), "Aperture Priority");
    assert!(ExposureMode::from_u64(10).is_none());
}
