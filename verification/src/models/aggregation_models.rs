//! A single search result and the engines that confirmed it.

use vstd::prelude::*;
use vstd::string::StringExecFns;

verus! {

/// One result of a search. Its `url` identifies it; `engine` lists, without
/// repetition, the engines that returned it.
#[derive(Debug)]
pub struct SearchResult {
    /// The title of the page.
    pub title: String,
    /// The address of the page.
    pub url: String,
    /// A short description of the page.
    pub description: String,
    /// The names of the engines that returned the page, in the order in which
    /// they were merged.
    pub engine: Vec<String>,
}

/// The mathematical value of a [`SearchResult`].
pub struct SearchResultView {
    pub title: Seq<char>,
    pub url: Seq<char>,
    pub description: Seq<char>,
    pub engine: Seq<Seq<char>>,
}

/// The values of a sequence of strings.
pub open spec fn names_view(names: Seq<String>) -> Seq<Seq<char>> {
    names.map_values(|name: String| name@)
}

/// The values of a sequence of results.
pub open spec fn results_view(results: Seq<SearchResult>) -> Seq<SearchResultView> {
    results.map_values(|result: SearchResult| result@)
}

impl View for SearchResult {
    type V = SearchResultView;

    open spec fn view(&self) -> SearchResultView {
        SearchResultView {
            title: self.title@,
            url: self.url@,
            description: self.description@,
            engine: names_view(self.engine@),
        }
    }
}

impl SearchResultView {
    /// A result that has neither a title nor a description carries nothing a
    /// person could read.
    pub open spec fn is_noise(self) -> bool {
        self.title.len() == 0 && self.description.len() == 0
    }
}

/// A copy of `names`.
pub fn clone_names(names: &Vec<String>) -> (copy: Vec<String>)
    ensures
        names_view(copy@) == names_view(names@),
{
    let mut copy: Vec<String> = Vec::new();
    let mut i: usize = 0;
    while i < names.len()
        invariant
            i <= names.len(),
            copy@.len() == i,
            forall|j: int| 0 <= j < i ==> copy@[j]@ == names@[j]@,
        decreases names.len() - i,
    {
        copy.push(names[i].clone());
        i += 1;
    }
    assert(names_view(copy@) =~= names_view(names@));
    copy
}

/// Whether `names` holds `name`, letter for letter.
pub fn holds_name(names: &Vec<String>, name: &str) -> (found: bool)
    ensures
        found == names_view(names@).contains(name@),
{
    let wanted = String::from_str(name);
    let mut i: usize = 0;
    while i < names.len()
        invariant
            i <= names.len(),
            wanted@ == name@,
            forall|j: int| 0 <= j < i ==> names@[j]@ != name@,
        decreases names.len() - i,
    {
        if names[i] == wanted {
            assert(names_view(names@)[i as int] == name@);
            return true;
        }
        i += 1;
    }
    false
}

impl SearchResult {
    /// A result returned by the engines named in `engine`.
    pub fn new(title: &str, url: &str, description: &str, engine: &Vec<String>) -> (result:
        SearchResult)
        ensures
            result@ == (SearchResultView {
                title: title@,
                url: url@,
                description: description@,
                engine: names_view(engine@),
            }),
    {
        SearchResult {
            title: title.to_owned(),
            url: url.to_owned(),
            description: description.to_owned(),
            engine: clone_names(engine),
        }
    }

    /// A copy of this result.
    pub fn duplicate(&self) -> (copy: SearchResult)
        ensures
            copy@ == self@,
    {
        SearchResult {
            title: self.title.clone(),
            url: self.url.clone(),
            description: self.description.clone(),
            engine: clone_names(&self.engine),
        }
    }
}

} // verus!
