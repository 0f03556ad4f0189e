//! Searching a text for a regular expression.

use vstd::prelude::*;

verus! {

/// What a search came to.
pub enum Search {
    /// The pattern is no regular expression that the engine accepts.
    BadPattern,
    /// The text holds no match of the pattern.
    NoMatch,
    /// The first match. The list holds one entry for each capture group of
    /// the pattern, in the order of their opening brackets, after an entry
    /// for the whole match: the part of the text that the group captured, or
    /// nothing where the group took no part in the match.
    Found(Vec<Option<String>>),
}

/// What a search came to, as the mathematics sees it.
pub enum SearchView {
    BadPattern,
    NoMatch,
    Found(Seq<Option<Seq<char>>>),
}

/// What a list of captured texts holds.
pub open spec fn groups_view(groups: Seq<Option<String>>) -> Seq<Option<Seq<char>>> {
    Seq::new(
        groups.len(),
        |i: int|
            match groups[i] {
                Some(text) => Some(text@),
                None => None,
            },
    )
}

impl View for Search {
    type V = SearchView;

    open spec fn view(&self) -> SearchView {
        match self {
            Search::BadPattern => SearchView::BadPattern,
            Search::NoMatch => SearchView::NoMatch,
            Search::Found(groups) => SearchView::Found(groups_view(groups@)),
        }
    }
}

/// What the `regex` crate finds of `pattern` in `text`: whether `Regex::new`
/// accepts the pattern and, if so, the first match that `Regex::captures`
/// reports, with the text of each of its groups.
pub uninterp spec fn regex_search(pattern: Seq<char>, text: Seq<char>) -> SearchView;

/// Compiles `pattern` with `Regex::new`, searches `text` with
/// `Regex::captures` and reads the groups of the match in the order of
/// `Captures::iter`, each as the text that `Match::as_str` gives.
///
/// The contract gives the outcome its name and claims no more than that: the
/// outcome depends on the pattern and the text alone. What the engine takes
/// for a match is not stated here and nothing proved in this crate rests on
/// it.
#[verifier::external_body]
pub(crate) fn search(pattern: &str, text: &str) -> (found: Search)
    ensures
        found@ == regex_search(pattern@, text@),
{
    match regex::Regex::new(pattern) {
        Err(_) => Search::BadPattern,
        Ok(compiled) => match compiled.captures(text) {
            None => Search::NoMatch,
            Some(captures) => Search::Found(
                captures.iter().map(|group| group.map(|part| part.as_str().to_string())).collect(),
            ),
        },
    }
}

} // verus!
