//! Linked data (JSON-LD, http://schema.org) describing pages, posts,
//! categories and photos. Each record is one schema.org type; its fields are
//! the properties written for it.
use crate::config::BlogConfig;
use crate::models::category::{kind_label, Category, CategoryKind};
use crate::models::photo::{Moment, Photo};
use crate::models::post::Post;
use crate::order::strings_view;
use crate::text::{joined, push_str, string_of};
use crate::tools::{slug, slugify};
use vstd::prelude::*;

verus! {

/// JSON-LD context of root records.
pub const CONTEXT: &'static str = "http://schema.org";

/// Absolute address of a path of the site.
pub open spec fn full_url_spec(site: Seq<char>, path: Seq<char>) -> Seq<char> {
    site + "/"@ + path
}

/// Absolute address of a path of the site.
pub fn full_url(config: &BlogConfig, path: &str) -> (url: String)
    ensures
        url@ == full_url_spec(config.site.url@, path@),
{
    let mut v: Vec<char> = Vec::new();
    push_str(&mut v, config.site.url.as_str());
    push_str(&mut v, "/");
    push_str(&mut v, path);
    string_of(&v)
}

/// A property value of a record: a structured `PropertyValue` or plain text.
#[derive(Debug)]
pub enum Value {
    Property(PropertyValue),
    Text(String),
}

/// A record given in full or by its address. (A schema.org `URL` may itself
/// be a `Thing`; that option is not used.)
#[derive(Debug)]
pub enum ObjectOrURL<'a, T> {
    Object(&'a T),
    URL(String),
}

/// http://schema.org/PropertyValue: a value between bounds, named by a
/// property identifier.
#[derive(Debug)]
pub struct PropertyValue {
    max_value: Option<usize>,
    min_value: Option<usize>,
    property_id: Option<String>,
}

/// http://schema.org/ImageObject
#[derive(Debug)]
pub struct ImageLd {
    pub width: u16,
    pub height: u16,
    pub url: String,
}

/// An image of `width` by `height` pixels at `url`.
pub fn image(width: u16, height: u16, url: String) -> (i: ImageLd)
    ensures
        i.width == width,
        i.height == height,
        i.url == url,
{
    ImageLd { width, height, url }
}

/// http://schema.org/Person
#[derive(Debug)]
pub struct PersonLd {
    pub name: String,
    pub url: String,
    pub image: Option<ImageLd>,
    pub same_as: Option<Vec<String>>,
}

/// The site owner: name, about page, photo and other addresses.
pub fn owner(config: &BlogConfig) -> (p: PersonLd)
    ensures
        p.name@ == config.owner.name@,
        p.url@ == full_url_spec(config.site.url@, "about"@),
        match config.owner.image {
            Some(i) => p.image matches Some(j) && j.width == i.width && j.height == i.height && j.url@
                == full_url_spec(config.site.url@, i.url@),
            None => p.image is None,
        },
        match config.owner.urls {
            Some(u) => p.same_as matches Some(v) && strings_view(v@) == strings_view(u@),
            None => p.same_as is None,
        },
{
    let photo = match &config.owner.image {
        Some(i) => Some(image(i.width, i.height, full_url(config, i.url.as_str()))),
        None => None,
    };
    let same_as = match &config.owner.urls {
        Some(u) => Some(copy_strings(u)),
        None => None,
    };
    PersonLd { name: config.owner.name.clone(), url: full_url(config, "about"), image: photo, same_as }
}

/// A copy of the strings.
fn copy_strings(v: &Vec<String>) -> (c: Vec<String>)
    ensures
        strings_view(c@) == strings_view(v@),
{
    let mut c: Vec<String> = Vec::new();
    let mut k: usize = 0;
    while k < v.len()
        invariant
            k <= v@.len(),
            strings_view(c@) == strings_view(v@.take(k as int)),
        decreases v.len() - k,
    {
        let ghost before = c@;
        c.push(v[k].clone());
        assert(strings_view(c@) =~= strings_view(before).push(v@[k as int]@));
        assert(v@.take(k + 1) =~= v@.take(k as int).push(v@[k as int]));
        assert(strings_view(v@.take(k + 1)) =~= strings_view(v@.take(k as int)).push(v@[k as int]@));
        k += 1;
    }
    assert(v@.take(k as int) =~= v@);
    c
}

/// http://schema.org/Organization
#[derive(Debug)]
pub struct OrganizationLd {
    pub name: String,
    pub logo: ImageLd,
}

/// The site as publisher: its title and logo.
pub fn organization(config: &BlogConfig) -> (o: OrganizationLd)
    ensures
        o.name@ == config.site.title@,
        o.logo.width == config.site.logo.width,
        o.logo.height == config.site.logo.height,
        o.logo.url@ == full_url_spec(config.site.url@, config.site.logo.url@),
{
    let logo = &config.site.logo;
    OrganizationLd {
        name: config.site.title.clone(),
        logo: image(logo.width, logo.height, full_url(config, logo.url.as_str())),
    }
}

/// http://schema.org/WebPage, by its address.
#[derive(Debug)]
pub struct WebPageLd {
    pub id: String,
}

/// The page at a path of the site.
pub fn web_page(config: &BlogConfig, path: &str) -> (w: WebPageLd)
    ensures
        w.id@ == full_url_spec(config.site.url@, path@),
{
    WebPageLd { id: full_url(config, path) }
}

/// A `ListItem` of a `BreadcrumbList` holding a `Breadcrumb`: a chain of
/// linked pages from the home page to the current one, positions counting
/// from 1 at the top.
#[derive(Debug)]
pub struct BreadcrumbLd {
    pub url: String,
    pub name: String,
    pub position: usize,
}

/// Breadcrumb at `position` for the page at `path` named `name`.
pub fn breadcrumb(config: &BlogConfig, path: &str, name: &str, position: usize) -> (b: BreadcrumbLd)
    ensures
        b.url@ == full_url_spec(config.site.url@, path@),
        b.name@ == name@,
        b.position == position,
{
    BreadcrumbLd { url: full_url(config, path), name: String::from_str(name), position }
}

/// Address, name and position of each breadcrumb.
pub open spec fn crumbs_view(v: Seq<BreadcrumbLd>) -> Seq<(Seq<char>, Seq<char>, usize)> {
    v.map_values(|b: BreadcrumbLd| (b.url@, b.name@, b.position))
}

/// http://schema.org/WebPage of a category kind or of a category.
#[derive(Debug)]
pub struct CategoryPageLd {
    pub url: String,
    pub name: String,
    pub publisher: OrganizationLd,
    pub breadcrumb: Vec<BreadcrumbLd>,
}

/// http://schema.org/Blog of the home page.
#[derive(Debug)]
pub struct BlogLd {
    pub url: String,
    pub name: String,
    pub author: PersonLd,
    pub description: String,
    pub main_entity_of_page: WebPageLd,
    pub publisher: OrganizationLd,
}

/// Linked data of a category page: the blog itself on the home page.
#[derive(Debug)]
pub enum CategoryLd {
    Blog(BlogLd),
    Page(CategoryPageLd),
}

/// Whether `o` is the site as publisher.
pub open spec fn is_publisher(o: OrganizationLd, config: BlogConfig) -> bool {
    &&& o.name@ == config.site.title@
    &&& o.logo.width == config.site.logo.width
    &&& o.logo.height == config.site.logo.height
    &&& o.logo.url@ == full_url_spec(config.site.url@, config.site.logo.url@)
}

impl CategoryKind {
    /// Page listing the categories of this kind: named by the kind, at its
    /// slug, with breadcrumbs home and to itself.
    pub fn json_ld(&self, config: &BlogConfig) -> (page: CategoryPageLd)
        ensures
            page.name@ == kind_label(*self),
            page.url@ == full_url_spec(config.site.url@, slug(kind_label(*self))),
            is_publisher(page.publisher, *config),
            crumbs_view(page.breadcrumb@) == seq![
                (full_url_spec(config.site.url@, ""@), "Home"@, 1usize),
                (full_url_spec(config.site.url@, slug(kind_label(*self))), kind_label(*self), 2usize),
            ],
    {
        let name = self.to_string();
        let path = slugify(name.as_str());
        let mut crumbs: Vec<BreadcrumbLd> = Vec::new();
        crumbs.push(breadcrumb(config, "", "Home", 1));
        crumbs.push(breadcrumb(config, path.as_str(), name.as_str(), 2));
        assert(crumbs_view(crumbs@) =~= seq![
            (full_url_spec(config.site.url@, ""@), "Home"@, 1usize),
            (full_url_spec(config.site.url@, slug(kind_label(*self))), kind_label(*self), 2usize),
        ]);
        CategoryPageLd { url: full_url(config, path.as_str()), name, publisher: organization(config), breadcrumb: crumbs }
    }
}

impl Category {
    /// Linked data of the category's page: on the home page the blog, with
    /// its owner, description and publisher; otherwise the category's page,
    /// with breadcrumbs home, to its kind and to itself.
    pub fn json_ld(&self, config: &BlogConfig, home_page: bool) -> (ld: CategoryLd)
        ensures
            home_page ==> (ld matches CategoryLd::Blog(b) && {
                &&& b.url@ == config.site.url@
                &&& b.name@ == config.site.title@
                &&& b.description@ == config.site.description@
                &&& b.main_entity_of_page.id@ == full_url_spec(config.site.url@, ""@)
                &&& is_publisher(b.publisher, *config)
                &&& b.author.name@ == config.owner.name@
                &&& b.author.url@ == full_url_spec(config.site.url@, "about"@)
            }),
            !home_page ==> (ld matches CategoryLd::Page(p) && {
                &&& p.url@ == full_url_spec(config.site.url@, self.path@)
                &&& p.name@ == self.name@
                &&& is_publisher(p.publisher, *config)
                &&& crumbs_view(p.breadcrumb@) == seq![
                    (full_url_spec(config.site.url@, ""@), "Home"@, 1usize),
                    (full_url_spec(config.site.url@, slug(kind_label(self.kind))), kind_label(self.kind), 2usize),
                    (full_url_spec(config.site.url@, self.path@), self.name@, 3usize),
                ]
            }),
    {
        if home_page {
            CategoryLd::Blog(
                BlogLd {
                    url: config.site.url.clone(),
                    name: config.site.title.clone(),
                    author: owner(config),
                    description: config.site.description.clone(),
                    main_entity_of_page: web_page(config, ""),
                    publisher: organization(config),
                },
            )
        } else {
            let kind = self.kind.to_string();
            let kind_path = slugify(kind.as_str());
            let mut crumbs: Vec<BreadcrumbLd> = Vec::new();
            crumbs.push(breadcrumb(config, "", "Home", 1));
            crumbs.push(breadcrumb(config, kind_path.as_str(), kind.as_str(), 2));
            crumbs.push(breadcrumb(config, self.path.as_str(), self.name.as_str(), 3));
            assert(crumbs_view(crumbs@) =~= seq![
                (full_url_spec(config.site.url@, ""@), "Home"@, 1usize),
                (full_url_spec(config.site.url@, slug(kind_label(self.kind))), kind_label(self.kind), 2usize),
                (full_url_spec(config.site.url@, self.path@), self.name@, 3usize),
            ]);
            CategoryLd::Page(
                CategoryPageLd {
                    url: full_url(config, self.path.as_str()),
                    name: self.name.clone(),
                    publisher: organization(config),
                    breadcrumb: crumbs,
                },
            )
        }
    }
}

impl Photo {
    /// The photo's size shown within a post, as an image.
    pub fn json_ld(&self) -> (i: ImageLd)
        ensures
            i.url@ == self.size.medium.name@,
            i.width == self.size.medium.width,
            i.height == self.size.medium.height,
    {
        let size = &self.size.medium;
        image(size.width, size.height, size.name.clone())
    }
}

/// http://schema.org/BlogPosting of a post.
#[derive(Debug)]
pub struct PostLd {
    pub author: PersonLd,
    pub name: String,
    pub headline: String,
    pub description: String,
    pub image: ImageLd,
    pub publisher: OrganizationLd,
    pub main_entity_of_page: WebPageLd,
    /// When the depicted events happened
    pub date_published: Option<Moment>,
    /// When the post was last updated, in seconds since the Unix epoch
    pub date_modified: i64,
    /// Names of the post's categories, joined by commas
    pub article_section: String,
}

impl Post {
    /// Linked data of the post: its owner as author, title as name and
    /// headline, summary, cover photo, publisher, dates and category names.
    pub fn json_ld(&self, config: &BlogConfig) -> (ld: PostLd)
        requires
            self.has_cover(),
        ensures
            ld.author.name@ == config.owner.name@,
            ld.author.url@ == full_url_spec(config.site.url@, "about"@),
            ld.name@ == self.title@,
            ld.headline@ == self.title@,
            ld.description@ == self.summary@,
            ld.image.url@ == self.cover().size.medium.name@,
            ld.image.width == self.cover().size.medium.width,
            ld.image.height == self.cover().size.medium.height,
            is_publisher(ld.publisher, *config),
            ld.main_entity_of_page.id@ == full_url_spec(config.site.url@, "about"@),
            ld.date_published == self.happened_on,
            ld.date_modified == self.updated_on,
            ld.article_section@ == joined(
                self.categories@.map_values(|c: Category| c.name@),
                ","@,
            ),
    {
        let cover = self.cover_photo().unwrap();
        let mut names: Vec<String> = Vec::new();
        let mut k: usize = 0;
        while k < self.categories.len()
            invariant
                k <= self.categories@.len(),
                strings_view(names@) == self.categories@.take(k as int).map_values(|c: Category| c.name@),
            decreases self.categories.len() - k,
        {
            let ghost before = names@;
            names.push(self.categories[k].name.clone());
            assert(strings_view(names@) =~= strings_view(before).push(self.categories@[k as int].name@));
            assert(self.categories@.take(k + 1) =~= self.categories@.take(k as int).push(self.categories@[k as int]));
            assert(self.categories@.take(k + 1).map_values(|c: Category| c.name@) =~= self.categories@.take(
                k as int,
            ).map_values(|c: Category| c.name@).push(self.categories@[k as int].name@));
            k += 1;
        }
        assert(self.categories@.take(k as int) =~= self.categories@);
        let section = crate::text::join(&names, ",");
        assert(names@.map_values(|s: String| s@) =~= strings_view(names@));
        PostLd {
            author: owner(config),
            name: self.title.clone(),
            headline: self.title.clone(),
            description: self.summary.clone(),
            image: cover.json_ld(),
            publisher: organization(config),
            main_entity_of_page: web_page(config, "about"),
            date_published: self.happened_on,
            date_modified: self.updated_on,
            article_section: section,
        }
    }
}

} // verus!
