//! Static photo blog generation: caption markup, slugs, photo sizes, post
//! sequencing and tag collation.
pub mod order;
pub mod pattern;
pub mod run;
pub mod outside;
pub mod scan;
pub mod text;
pub mod config;
pub mod exif;
pub mod html;
pub mod image;
pub mod json_ld;
pub mod loading;
pub mod mapbox;
pub mod models;
pub mod tools;
pub mod xmp;
