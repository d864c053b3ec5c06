//! The values that the site's pages yield.
use vstd::prelude::*;

verus! {

/// A manga found by a search, or a chapter of a manga: its title and the id
/// that the site's addresses use.
#[derive(Debug)]
pub struct SearchResult {
    pub title: String,
    pub id: String,
}

impl View for SearchResult {
    /// The title, then the id.
    type V = (Seq<char>, Seq<char>);

    open spec fn view(&self) -> (Seq<char>, Seq<char>) {
        (self.title@, self.id@)
    }
}

impl Clone for SearchResult {
    fn clone(&self) -> (res: Self)
        ensures
            res@ == self@,
    {
        SearchResult { title: self.title.clone(), id: self.id.clone() }
    }
}

/// The plain values of a list of results.
pub open spec fn results_view(v: Seq<SearchResult>) -> Seq<(Seq<char>, Seq<char>)> {
    v.map_values(|r: SearchResult| r@)
}

/// The plain values of a list of strings.
pub open spec fn strings_view(v: Seq<String>) -> Seq<Seq<char>> {
    v.map_values(|s: String| s@)
}

/// Reads the site's pages.
#[derive(Debug)]
pub struct Scraper {}

impl Default for Scraper {
    fn default() -> (res: Self)
        ensures
            res == (Scraper {}),
    {
        Scraper {}
    }
}

} // verus!
