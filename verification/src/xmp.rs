//! Adobe XMP metadata of a photo, as RDF containers.
use vstd::prelude::*;

verus! {

/// A single RDF list item.
#[derive(Debug)]
pub struct Item {
    pub value: String,
}

/// The items of an RDF list.
#[derive(Debug)]
pub struct Items {
    pub value: Vec<String>,
}

/// Alternative container (https://www.w3.org/TR/rdf-schema/#ch_alt).
#[derive(Debug)]
pub struct Alt {
    pub item: Item,
}

/// Unordered container of items.
#[derive(Debug)]
pub struct List {
    pub items: Items,
}

/// Description of a photo: usage terms, title, rights, description and tags.
#[derive(Debug)]
pub struct Description {
    pub usage_terms: Alt,
    pub title: Alt,
    pub rights: Alt,
    pub description: Alt,
    pub tags: List,
}

/// XMP metadata of a photo.
#[derive(Debug)]
pub struct XMP {
    pub description: Description,
}

} // verus!
