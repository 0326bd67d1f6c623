//! Regular expressions that are known to compile.
use crate::outside::{pattern_compiles, regex_compiles};
use vstd::prelude::*;

verus! {

/// A regular expression that `regex::Regex::new` accepts, kept as its source
/// text.
#[derive(Debug)]
pub struct Pattern {
    text: String,
}

impl Pattern {
    #[verifier::type_invariant]
    spec fn compiles(self) -> bool {
        regex_compiles(self.text@)
    }

    /// The pattern of `text`, if it compiles.
    pub fn new(text: &str) -> (p: Option<Pattern>)
        ensures
            p matches Some(q) ==> q@ == text@,
            p is None <==> !regex_compiles(text@),
    {
        if pattern_compiles(text) {
            Some(Pattern { text: String::from_str(text) })
        } else {
            None
        }
    }

    /// Source text of the pattern, which compiles.
    pub fn as_str(&self) -> (s: &str)
        ensures
            s@ == self@,
            regex_compiles(s@),
    {
        proof {
            use_type_invariant(self);
        }
        self.text.as_str()
    }
}

impl View for Pattern {
    type V = Seq<char>;

    closed spec fn view(&self) -> Seq<char> {
        self.text@
    }
}

} // verus!
