use std::borrow::Cow;
use vstd::prelude::*;

verus! {

/// Anything that can hand out its text. Candidates are searched through this
/// trait, so owned strings, string slices and references to either all serve.
pub trait SearchItem {
    /// The code points of the item.
    spec fn text(&self) -> Seq<char>;

    /// The item's text as a string slice.
    fn as_str(&self) -> (s: &str)
        ensures
            s@ == self.text(),
    ;
}

impl SearchItem for str {
    open spec fn text(&self) -> Seq<char> {
        self@
    }

    fn as_str(&self) -> (s: &str) {
        self
    }
}

impl SearchItem for String {
    open spec fn text(&self) -> Seq<char> {
        self@
    }

    fn as_str(&self) -> (s: &str) {
        String::as_str(self)
    }
}

impl<'a> SearchItem for Cow<'a, str> {
    open spec fn text(&self) -> Seq<char> {
        self@
    }

    fn as_str(&self) -> (s: &str) {
        match self {
            Cow::Borrowed(b) => b,
            Cow::Owned(o) => String::as_str(o),
        }
    }
}

impl<'a, S: SearchItem> SearchItem for &'a S {
    open spec fn text(&self) -> Seq<char> {
        (*self).text()
    }

    fn as_str(&self) -> (s: &str) {
        (*self).as_str()
    }
}

} // verus!
