//! Sorting of utility-class lists inside `class="..."` attributes.
//!
//! File content is scanned for `class` / `className` attributes; the class
//! list of each is split into tokens, the tokens are stably sorted by their
//! rank in a canonical order table, repeats are optionally dropped, and the
//! list is written back joined by single spaces. Every other character of the
//! content is kept as it is.
use vstd::prelude::*;

pub mod extract;
pub mod laws;
pub mod order;
pub mod rescan;
pub mod sort;
pub mod tokens;

use crate::extract::{has_class_lists, rewrite, rewrite_contents, spans};

verus! {

/// What the sorting takes from the command line.
#[derive(Clone, Copy, Debug, PartialEq, Eq)]
pub struct Options {
    /// Keep repeated classes in a list instead of dropping all but the first.
    pub allow_duplicates: bool,
}

impl Options {
    pub fn new(allow_duplicates: bool) -> (r: Options)
        ensures
            r.allow_duplicates == allow_duplicates,
    {
        Options { allow_duplicates }
    }

    pub open spec fn removes_duplicates(self) -> bool {
        !self.allow_duplicates
    }
}

/// The characters of `s`.
pub fn chars_of(s: &str) -> (r: Vec<char>)
    ensures
        r@ == s@,
{
    let mut r: Vec<char> = Vec::new();
    for c in it: s.chars()
        invariant
            r@.len() == it.index(),
            forall|i: int| 0 <= i < r@.len() ==> r@[i] == it.seq()[i],
    {
        r.push(c);
    }
    assert(r@ =~= s@);
    r
}

/// Relies on `FromIterator<&char> for String` (through `Iterator::collect`):
/// the string holds the characters in order.
#[verifier::external_body]
fn string_of(v: &Vec<char>) -> (r: String)
    ensures
        r@ == v@,
{
    v.iter().collect()
}

/// Whether `content` holds at least one class list to sort.
pub fn has_classes(content: &str) -> (r: bool)
    ensures
        r == (spans(content@).len() > 0),
{
    let s = chars_of(content);
    has_class_lists(s.as_slice())
}

/// `content` with the class list of every class attribute sorted; all other
/// text is kept as it is.
pub fn sort_file_contents(content: &str, options: &Options) -> (r: String)
    ensures
        r@ == rewrite(content@, options.removes_duplicates()),
{
    let s = chars_of(content);
    let out = rewrite_contents(s.as_slice(), !options.allow_duplicates);
    string_of(&out)
}

} // verus!
