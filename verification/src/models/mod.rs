//! Blog, post, photo, category and tag models.
pub mod blog;
pub mod category;
pub mod photo;
pub mod post;
pub mod size;
pub mod tag;

pub use blog::Blog;
pub use category::{Category, CategoryKind};
pub use photo::{Camera, ExposureMode, Moment, Photo, PhotoFile, PhotoPath};
pub use post::{Post, PostSeries};
pub use size::{Size, SizeCollection};
pub use tag::{TagMap, TagPhotos};
