//! Reading parsed HTML pages.
//!
//! Parsing HTML and matching CSS selectors is left to the `scraper` crate. An
//! element of a page is named here by a path of selection steps from the
//! document: the first step picks one of the elements of the whole document
//! that match a selector, each later step one of the matching descendants of
//! the element reached so far, the index counting matches from zero in the
//! order in which `scraper` walks its tree (`Html::select` goes through the
//! nodes in the order the parser created them, `ElementRef::select` through
//! the element's subtree). What `scraper` answers for such a path is named below and
//! believed as the crate computes it; everything the library decides from
//! those answers is verified.
use vstd::prelude::*;

verus! {

#[verifier::external_type_specification]
#[verifier::external_body]
pub struct ExHtml(::scraper::Html);

/// An HTML document together with the text it was parsed from.
pub struct Page {
    source: String,
    document: ::scraper::Html,
}

impl View for Page {
    type V = Seq<char>;

    /// A page is known by the text it was parsed from.
    closed spec fn view(&self) -> Seq<char> {
        self.source@
    }
}

/// One selection step: the `index`-th match (from zero, in the order in
/// which `scraper` yields matches) of `selector`.
pub struct SelectStep {
    pub selector: String,
    pub index: usize,
}

impl View for SelectStep {
    type V = (Seq<char>, int);

    open spec fn view(&self) -> (Seq<char>, int) {
        (self.selector@, self.index as int)
    }
}

/// The plain value of a path of steps.
pub open spec fn path_view(path: Seq<SelectStep>) -> Seq<(Seq<char>, int)> {
    path.map_values(|s: SelectStep| s@)
}

/// How many elements match `selector` among the descendants of the element
/// that `path` leads to in the HTML text `page` (among all elements of the
/// document for an empty path), as `scraper` counts them; `None` where a
/// selector does not parse or a step picks a match that is not there.
pub uninterp spec fn html_match_count(
    page: Seq<char>,
    path: Seq<(Seq<char>, int)>,
    selector: Seq<char>,
) -> Option<nat>;

/// The value of attribute `name` of the element that `path` leads to in the
/// HTML text `page`, as `scraper` reads it (`Some(None)` where the element
/// lacks the attribute); `None` where the path is empty, a selector does not
/// parse or a step picks a match that is not there.
pub uninterp spec fn html_attribute(
    page: Seq<char>,
    path: Seq<(Seq<char>, int)>,
    name: Seq<char>,
) -> Option<Option<Seq<char>>>;

/// Parses `source` as an HTML document with `scraper::Html::parse_document`,
/// which accepts any text. Claims only that the page keeps the text it was
/// made from.
#[verifier::external_body]
pub(crate) fn parse_page(source: &str) -> (page: Page)
    ensures
        page@ == source@,
{
    Page { source: source.to_string(), document: ::scraper::Html::parse_document(source) }
}

/// Counts the matches of `selector` below `path` with `scraper`: the path is
/// followed step by step, the first with `Html::select`, each later one with
/// `ElementRef::select`, taking the `index`-th match (`Iterator::nth`), and
/// every selector is read with `Selector::parse`. The count is claimed to be
/// the named one; nothing more is claimed of it.
#[verifier::external_body]
fn match_count(page: &Page, path: &Vec<SelectStep>, selector: &str) -> (res: Option<usize>)
    ensures
        match res {
            Some(n) => html_match_count(page@, path_view(path@), selector@) == Some(n as nat),
            None => html_match_count(page@, path_view(path@), selector@).is_none(),
        },
{
    let doc = &page.document;
    let scope = path.iter().try_fold(None, |scope: Option<::scraper::ElementRef>, step| {
        let sel = ::scraper::Selector::parse(&step.selector).ok()?;
        match scope {
            None => doc.select(&sel).nth(step.index),
            Some(e) => e.select(&sel).nth(step.index),
        }.map(Some)
    })?;
    let sel = ::scraper::Selector::parse(selector).ok()?;
    Some(match scope { None => doc.select(&sel).count(), Some(e) => e.select(&sel).count() })
}

/// Reads attribute `name` of the element at `path` with `ElementRef::attr`,
/// after following the path as `match_count` does. The answer is claimed to
/// be the named one; nothing more is claimed of it.
#[verifier::external_body]
pub(crate) fn attribute(page: &Page, path: &Vec<SelectStep>, name: &str) -> (res: Option<Option<String>>)
    ensures
        answer_view(res) == html_attribute(page@, path_view(path@), name@),
{
    let doc = &page.document;
    let found = path.iter().try_fold(None, |scope: Option<::scraper::ElementRef>, step| {
        let sel = ::scraper::Selector::parse(&step.selector).ok()?;
        match scope {
            None => doc.select(&sel).nth(step.index),
            Some(e) => e.select(&sel).nth(step.index),
        }.map(Some)
    })?;
    Some(found?.value().attr(name).map(|v| v.to_string()))
}

// ---------------------------------------------------------------------------
// Queries as the library uses them
// ---------------------------------------------------------------------------

/// Why a page could not be read.
#[derive(Debug, Clone, Copy, PartialEq, Eq, Structural)]
pub enum ScrapeError {
    /// A selector did not parse, or a path led to no element.
    BadQuery,
    /// An entry lacks an element that it must have.
    MissingElement,
    /// An element lacks an attribute that it must have.
    MissingAttribute,
    /// A link lacks the marker after which its id stands.
    MissingId,
}

/// The number of matches, or `BadQuery`.
pub open spec fn count_of(page: Seq<char>, path: Seq<(Seq<char>, int)>, selector: Seq<char>) -> Result<nat, ScrapeError> {
    match html_match_count(page, path, selector) {
        Some(n) => Ok(n),
        None => Err(ScrapeError::BadQuery),
    }
}

/// The plain value of an answer about an attribute.
pub open spec fn answer_view(answer: Option<Option<String>>) -> Option<Option<Seq<char>>> {
    match answer {
        Some(Some(v)) => Some(Some(v@)),
        Some(None) => Some(None),
        None => None,
    }
}

/// The value of an attribute that must be there, from what `scraper`
/// answered about it.
pub open spec fn required_of(answer: Option<Option<Seq<char>>>) -> Result<Seq<char>, ScrapeError> {
    match answer {
        Some(Some(v)) => Ok(v),
        Some(None) => Err(ScrapeError::MissingAttribute),
        None => Err(ScrapeError::BadQuery),
    }
}

/// The path one step further.
pub open spec fn extend(path: Seq<(Seq<char>, int)>, selector: Seq<char>, index: int) -> Seq<(Seq<char>, int)> {
    path.push((selector, index))
}

/// Counts the matches of `selector` below `path`.
pub fn count(page: &Page, path: &Vec<SelectStep>, selector: &str) -> (res: Result<usize, ScrapeError>)
    ensures
        match res {
            Ok(n) => count_of(page@, path_view(path@), selector@) == Ok::<nat, ScrapeError>(n as nat),
            Err(e) => count_of(page@, path_view(path@), selector@) == Err::<nat, ScrapeError>(e),
        },
{
    match match_count(page, path, selector) {
        Some(n) => Ok(n),
        None => Err(ScrapeError::BadQuery),
    }
}

/// The value of an attribute that must be there, from what `scraper`
/// answered about it: an error where the element lacks it or could not be
/// found.
pub fn required_value(answer: Option<Option<String>>) -> (res: Result<String, ScrapeError>)
    ensures
        match res {
            Ok(v) => required_of(answer_view(answer)) == Ok::<Seq<char>, ScrapeError>(v@),
            Err(e) => required_of(answer_view(answer)) == Err::<Seq<char>, ScrapeError>(e),
        },
{
    match answer {
        Some(Some(v)) => Ok(v),
        Some(None) => Err(ScrapeError::MissingAttribute),
        None => Err(ScrapeError::BadQuery),
    }
}

proof fn lemma_path_view_push(p: Seq<SelectStep>, s: SelectStep)
    ensures
        path_view(p.push(s)) == path_view(p).push(s@),
{
    assert(path_view(p.push(s)) =~= path_view(p).push(s@));
}

/// A copy of a step.
pub fn copy_step(step: &SelectStep) -> (res: SelectStep)
    ensures
        res@ == step@,
{
    SelectStep { selector: step.selector.clone(), index: step.index }
}

/// `path` followed by the step that picks the `index`-th match of `selector`.
pub fn extended(path: &Vec<SelectStep>, selector: &str, index: usize) -> (res: Vec<SelectStep>)
    ensures
        path_view(res@) == extend(path_view(path@), selector@, index as int),
{
    let mut res: Vec<SelectStep> = Vec::new();
    for i in 0..path.len()
        invariant
            path_view(res@) == path_view(path@).take(i as int),
    {
        let ghost before = res@;
        let step = copy_step(&path[i]);
        res.push(step);
        proof {
            lemma_path_view_push(before, step);
            assert(path_view(path@).take(i + 1) =~= path_view(path@).take(i as int).push(
                path@[i as int]@,
            ));
        }
    }
    assert(path_view(path@).take(path@.len() as int) =~= path_view(path@));
    let ghost before = res@;
    let last = SelectStep { selector: crate::text::owned(selector), index };
    res.push(last);
    proof {
        lemma_path_view_push(before, last);
    }
    res
}

} // verus!
