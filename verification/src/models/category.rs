//! Post categories.
use crate::order::{lex_le, lex_le_exec};
use crate::outside::{all_ascii, ascii_lowercase};
use crate::text::{chars_of, push_str, str_is, string_of};
use crate::tools::{slug, slugify};
use vstd::prelude::*;

verus! {

/// The kind of category. Each category belongs to a kind.
#[derive(Clone, Copy, Debug, PartialEq, Eq, Structural)]
pub enum CategoryKind {
    Who,
    What,
    When,
    Where,
}

/// The category kind named `name` in configuration, if any.
pub open spec fn kind_named(name: Seq<char>) -> Option<CategoryKind> {
    if name == "who"@ {
        Some(CategoryKind::Who)
    } else if name == "what"@ {
        Some(CategoryKind::What)
    } else if name == "when"@ {
        Some(CategoryKind::When)
    } else if name == "where"@ {
        Some(CategoryKind::Where)
    } else {
        None
    }
}

/// Display name of a category kind.
pub open spec fn kind_label(k: CategoryKind) -> Seq<char> {
    match k {
        CategoryKind::Who => "Who"@,
        CategoryKind::What => "What"@,
        CategoryKind::When => "When"@,
        CategoryKind::Where => "Where"@,
    }
}

/// Each kind's display name is ASCII, and lowered it is the configuration
/// name that gives the kind back; names are matched as written, so the
/// display name itself names no kind.
pub proof fn lemma_kind_name_round_trip(k: CategoryKind)
    ensures
        all_ascii(kind_label(k)),
        kind_named(ascii_lowercase(kind_label(k))) == Some(k),
        kind_named(kind_label(k)) is None,
{
    reveal_strlit("Who");
    reveal_strlit("What");
    reveal_strlit("When");
    reveal_strlit("Where");
    reveal_strlit("who");
    reveal_strlit("what");
    reveal_strlit("when");
    reveal_strlit("where");
    let l = kind_label(k);
    assert("who"@ != "what"@ && "who"@ != "when"@ && "who"@ != "where"@) by {
        assert("who"@.len() != "what"@.len() && "who"@.len() != "where"@.len());
        assert("who"@[2] != "when"@[2]);
    }
    assert("what"@ != "when"@ && "what"@ != "where"@) by {
        assert("what"@[2] != "when"@[2]);
        assert("what"@.len() != "where"@.len());
    }
    assert("when"@ != "where"@) by {
        assert("when"@.len() != "where"@.len());
    }
    match k {
        CategoryKind::Who => {
            assert(ascii_lowercase("Who"@) =~= "who"@);
        },
        CategoryKind::What => {
            assert(ascii_lowercase("What"@) =~= "what"@);
        },
        CategoryKind::When => {
            assert(ascii_lowercase("When"@) =~= "when"@);
        },
        CategoryKind::Where => {
            assert(ascii_lowercase("Where"@) =~= "where"@);
        },
    }
    if l == "who"@ || l == "what"@ || l == "when"@ || l == "where"@ {
        assert(l[0] == 'w');
    }
}

impl CategoryKind {
    /// Category kind that matches a configuration name.
    pub fn from_str(name: &str) -> (k: Option<Self>)
        ensures
            k == kind_named(name@),
    {
        if str_is(name, "who") {
            Some(CategoryKind::Who)
        } else if str_is(name, "what") {
            Some(CategoryKind::What)
        } else if str_is(name, "when") {
            Some(CategoryKind::When)
        } else if str_is(name, "where") {
            Some(CategoryKind::Where)
        } else {
            None
        }
    }

    /// Display name: `Who`, `What`, `When` or `Where`.
    pub fn label(&self) -> (s: &'static str)
        ensures
            s@ == kind_label(*self),
    {
        match self {
            CategoryKind::Who => "Who",
            CategoryKind::What => "What",
            CategoryKind::When => "When",
            CategoryKind::Where => "Where",
        }
    }

    /// Display name as an owned string.
    pub fn to_string(&self) -> (s: String)
        ensures
            s@ == kind_label(*self),
    {
        String::from_str(self.label())
    }
}

#[derive(Debug)]
pub struct Category {
    pub path: String,
    pub name: String,
    pub kind: CategoryKind,
    pub post_paths: Vec<String>,
}

/// Order of categories of one kind: by name, newest first for years.
pub open spec fn category_le(kind: CategoryKind, a: Seq<char>, b: Seq<char>) -> bool {
    if kind == CategoryKind::When {
        lex_le(b, a)
    } else {
        lex_le(a, b)
    }
}

/// Path of a category: slug of its kind, a slash, slug of its name.
pub open spec fn category_path(name: Seq<char>, kind: CategoryKind) -> Seq<char> {
    slug(kind_label(kind)) + "/"@ + slug(name)
}

impl Category {
    pub fn new(name: &str, kind: CategoryKind) -> (c: Self)
        ensures
            c.name@ == name@,
            c.kind == kind,
            c.path@ == category_path(name@, kind),
            c.post_paths@.len() == 0,
    {
        let mut path = chars_of(slugify(kind.label()).as_str());
        push_str(&mut path, "/");
        let s = slugify(name);
        push_str(&mut path, s.as_str());
        Category {
            name: String::from_str(name),
            kind,
            path: string_of(&path),
            post_paths: Vec::new(),
        }
    }

    /// Whether two categories are the same: same name and kind.
    pub fn same_as(&self, other: &Category) -> (b: bool)
        ensures
            b == (self.name@ == other.name@ && self.kind == other.kind),
    {
        crate::models::photo::string_eq(&self.name, &other.name) && self.kind == other.kind
    }

    /// Whether `self` sorts no later than `other` among categories of its
    /// kind.
    pub fn sorts_before(&self, other: &Category) -> (b: bool)
        ensures
            b == category_le(self.kind, self.name@, other.name@),
    {
        let a = chars_of(self.name.as_str());
        let b = chars_of(other.name.as_str());
        if self.kind == CategoryKind::When {
            lex_le_exec(&b, &a)
        } else {
            lex_le_exec(&a, &b)
        }
    }
}

} // verus!
