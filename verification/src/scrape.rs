//! The site's addresses, and what its pages list.
use vstd::prelude::*;
use crate::page::{
    answer_view, attribute, count, count_of, extend, extended, html_attribute, html_match_count,
    parse_page,
    path_view, required_of, required_value, Page, ScrapeError, SelectStep,
};
use crate::selectors::{
    CHAPTERS, CHAPTERS_LIST, CHAPTERS_PANEL, CHAPTER_IMAGES_PANEL, IMG, RESULTS, RESULTS_PANEL, URL,
};
use crate::structs::{results_view, strings_view, Scraper, SearchResult};
use crate::text::{
    append_str, chars_of, contains_pattern, is_first_occurrence, lemma_first_occurrence_is,
    lemma_no_occurrence, occurs_at, second_piece, second_piece_chars,
};

verus! {

/// A path of selection steps, as a plain value.
pub type PathView = Seq<(Seq<char>, int)>;

// ---------------------------------------------------------------------------
// Addresses
// ---------------------------------------------------------------------------

/// `s` with every `from` replaced by `to`.
pub open spec fn replace_char(s: Seq<char>, from: char, to: char) -> Seq<char> {
    s.map_values(|c: char| if c == from { to } else { c })
}

/// The start of every search address.
pub const SEARCH_PREFIX: &'static str = "https://chapmanganato.com/search/story/";

/// The address of the search for `query`: spaces become underscores.
pub open spec fn search_url_spec(query: Seq<char>) -> Seq<char> {
    "https://chapmanganato.com/search/story/"@ + replace_char(query, ' ', '_')
}

/// The search address is the search prefix followed by the query, character
/// for character, except that every space becomes an underscore.
pub proof fn lemma_search_url_characters(query: Seq<char>)
    ensures
        search_url_spec(query).len() == SEARCH_PREFIX@.len() + query.len(),
        search_url_spec(query).take(SEARCH_PREFIX@.len() as int) == SEARCH_PREFIX@,
        forall|k: int|
            0 <= k < query.len() ==> #[trigger] search_url_spec(query)[SEARCH_PREFIX@.len() + k] == (
            if query[k] == ' ' {
                '_'
            } else {
                query[k]
            }),
{
    let url = search_url_spec(query);
    let p = SEARCH_PREFIX@;
    assert(p == "https://chapmanganato.com/search/story/"@);
    assert(url.take(p.len() as int) =~= p);
    assert forall|k: int| 0 <= k < query.len() implies #[trigger] url[p.len() + k] == (if query[k]
        == ' ' {
        '_'
    } else {
        query[k]
    }) by {
        assert(url[p.len() + k] == replace_char(query, ' ', '_')[k]);
    }
}

/// The address of the page of manga `manga_id`, which lists its chapters.
pub open spec fn manga_url_spec(manga_id: Seq<char>) -> Seq<char> {
    "https://chapmanganato.com/manga-"@ + manga_id
}

/// The address of the page of one chapter, which holds its images.
pub open spec fn chapter_url_spec(manga_id: Seq<char>, chapter_id: Seq<char>) -> Seq<char> {
    "https://chapmanganato.com/manga-"@ + manga_id + "/chapter-"@ + chapter_id
}

// ---------------------------------------------------------------------------
// What the pages list
// ---------------------------------------------------------------------------

/// The path to the first match of `selector` below `path`; `None` when there
/// is none.
pub open spec fn first_below(page: Seq<char>, path: PathView, selector: Seq<char>) -> Result<Option<PathView>, ScrapeError> {
    match count_of(page, path, selector) {
        Err(e) => Err(e),
        Ok(n) => if n == 0 {
            Ok(None)
        } else {
            Ok(Some(extend(path, selector, 0)))
        },
    }
}

/// The path to the first match of `selector` below `path`, which an entry
/// must have.
pub open spec fn required_first(page: Seq<char>, path: PathView, selector: Seq<char>) -> Result<PathView, ScrapeError> {
    match first_below(page, path, selector) {
        Err(e) => Err(e),
        Ok(None) => Err(ScrapeError::MissingElement),
        Ok(Some(p)) => Ok(p),
    }
}

/// The entries read from the first `n` matches of `item` below `list`, in
/// order; the error of the first entry that cannot be read.
pub open spec fn collect_entries<T>(
    list: PathView,
    item: Seq<char>,
    n: nat,
    entry: spec_fn(PathView) -> Result<T, ScrapeError>,
) -> Result<Seq<T>, ScrapeError>
    decreases n,
{
    if n == 0 {
        Ok(Seq::empty())
    } else {
        match collect_entries(list, item, (n - 1) as nat, entry) {
            Err(e) => Err(e),
            Ok(s) => match entry(extend(list, item, n - 1)) {
                Err(e) => Err(e),
                Ok(x) => Ok(s.push(x)),
            },
        }
    }
}

/// A listing: `None` where the list is empty, else its entries.
pub open spec fn listing<T>(
    page: Seq<char>,
    list: PathView,
    item: Seq<char>,
    entry: spec_fn(PathView) -> Result<T, ScrapeError>,
) -> Result<Option<Seq<T>>, ScrapeError> {
    match count_of(page, list, item) {
        Err(e) => Err(e),
        Ok(n) => if n == 0 {
            Ok(None)
        } else {
            match collect_entries(list, item, n, entry) {
                Err(e) => Err(e),
                Ok(s) => Ok(Some(s)),
            }
        },
    }
}

/// What a listed entry is, from the answers about its title and its link's
/// address: the id is what follows `marker` in the address.
pub open spec fn result_of_answers(
    title: Option<Option<Seq<char>>>,
    href: Option<Option<Seq<char>>>,
    marker: Seq<char>,
) -> Result<(Seq<char>, Seq<char>), ScrapeError> {
    match required_of(title) {
        Err(e) => Err(e),
        Ok(t) => match required_of(href) {
            Err(e) => Err(e),
            Ok(h) => match second_piece(h, marker) {
                None => Err(ScrapeError::MissingId),
                Some(id) => Ok((t, id)),
            },
        },
    }
}

/// One search result: the title is the `alt` text of the image in its first
/// link, the id what follows `manga-` in that link's address.
pub open spec fn search_entry(page: Seq<char>, item: PathView) -> Result<(Seq<char>, Seq<char>), ScrapeError> {
    match required_first(page, item, URL@) {
        Err(e) => Err(e),
        Ok(link) => match required_first(page, link, IMG@) {
            Err(e) => Err(e),
            Ok(image) => result_of_answers(
                html_attribute(page, image, "alt"@),
                html_attribute(page, link, "href"@),
                "manga-"@,
            ),
        },
    }
}

/// What a search page lists: `None` where it has no result panel or the
/// panel no result.
pub open spec fn search_page(page: Seq<char>) -> Result<Option<Seq<(Seq<char>, Seq<char>)>>, ScrapeError> {
    match first_below(page, Seq::empty(), RESULTS_PANEL@) {
        Err(e) => Err(e),
        Ok(None) => Ok(None),
        Ok(Some(panel)) => listing(page, panel, RESULTS@, |item: PathView| search_entry(page, item)),
    }
}

/// One chapter: the title is the `title` of its first link, the id what
/// follows `chapter-` in that link's address.
pub open spec fn chapter_entry(page: Seq<char>, item: PathView) -> Result<(Seq<char>, Seq<char>), ScrapeError> {
    match required_first(page, item, URL@) {
        Err(e) => Err(e),
        Ok(link) => result_of_answers(
            html_attribute(page, link, "title"@),
            html_attribute(page, link, "href"@),
            "chapter-"@,
        ),
    }
}

/// What a manga page lists: its chapters as the page orders them; `None`
/// where it has no chapter panel, the panel no list or the list no chapter.
pub open spec fn chapters_page(page: Seq<char>) -> Result<Option<Seq<(Seq<char>, Seq<char>)>>, ScrapeError> {
    match first_below(page, Seq::empty(), CHAPTERS_PANEL@) {
        Err(e) => Err(e),
        Ok(None) => Ok(None),
        Ok(Some(panel)) => match first_below(page, panel, CHAPTERS_LIST@) {
            Err(e) => Err(e),
            Ok(None) => Ok(None),
            Ok(Some(list)) => listing(page, list, CHAPTERS@, |item: PathView| chapter_entry(page, item)),
        },
    }
}

/// One image of a chapter: its `src`.
pub open spec fn image_entry(page: Seq<char>, item: PathView) -> Result<Seq<char>, ScrapeError> {
    required_of(html_attribute(page, item, "src"@))
}

/// What a chapter page lists: the addresses of its images; `None` where it
/// has no image panel or the panel no image.
pub open spec fn images_page(page: Seq<char>) -> Result<Option<Seq<Seq<char>>>, ScrapeError> {
    match first_below(page, Seq::empty(), CHAPTER_IMAGES_PANEL@) {
        Err(e) => Err(e),
        Ok(None) => Ok(None),
        Ok(Some(panel)) => listing(page, panel, IMG@, |item: PathView| image_entry(page, item)),
    }
}

/// The plain value of a listing of results.
pub open spec fn results_listing_view(res: Result<Option<Vec<SearchResult>>, ScrapeError>) -> Result<Option<Seq<(Seq<char>, Seq<char>)>>, ScrapeError> {
    match res {
        Ok(Some(v)) => Ok(Some(results_view(v@))),
        Ok(None) => Ok(None),
        Err(e) => Err(e),
    }
}

/// The plain value of a listing of strings.
pub open spec fn strings_listing_view(res: Result<Option<Vec<String>>, ScrapeError>) -> Result<Option<Seq<Seq<char>>>, ScrapeError> {
    match res {
        Ok(Some(v)) => Ok(Some(strings_view(v@))),
        Ok(None) => Ok(None),
        Err(e) => Err(e),
    }
}

/// Once an entry fails, every longer prefix fails with the same error.
proof fn lemma_collect_error_persists<T>(
    list: PathView,
    item: Seq<char>,
    k: nat,
    n: nat,
    entry: spec_fn(PathView) -> Result<T, ScrapeError>,
    e: ScrapeError,
)
    requires
        k <= n,
        collect_entries(list, item, k, entry) == Err::<Seq<T>, ScrapeError>(e),
    ensures
        collect_entries(list, item, n, entry) == Err::<Seq<T>, ScrapeError>(e),
    decreases n - k,
{
    if k < n {
        lemma_collect_error_persists(list, item, k, (n - 1) as nat, entry, e);
    }
}

// ---------------------------------------------------------------------------
// Executable reading
// ---------------------------------------------------------------------------

/// The path to the first match of `selector` below `path`, if any.
fn find_first(page: &Page, path: &Vec<SelectStep>, selector: &str) -> (res: Result<Option<Vec<SelectStep>>, ScrapeError>)
    ensures
        match res {
            Ok(Some(p)) => first_below(page@, path_view(path@), selector@) == Ok::<Option<PathView>, ScrapeError>(Some(path_view(p@))),
            Ok(None) => first_below(page@, path_view(path@), selector@) == Ok::<Option<PathView>, ScrapeError>(None),
            Err(e) => first_below(page@, path_view(path@), selector@) == Err::<Option<PathView>, ScrapeError>(e),
        },
{
    let n = count(page, path, selector)?;
    if n == 0 {
        Ok(None)
    } else {
        Ok(Some(extended(path, selector, 0)))
    }
}

/// The path to the first match of `selector` below `path`, which must be there.
fn find_required(page: &Page, path: &Vec<SelectStep>, selector: &str) -> (res: Result<Vec<SelectStep>, ScrapeError>)
    ensures
        match res {
            Ok(p) => required_first(page@, path_view(path@), selector@) == Ok::<PathView, ScrapeError>(path_view(p@)),
            Err(e) => required_first(page@, path_view(path@), selector@) == Err::<PathView, ScrapeError>(e),
        },
{
    match find_first(page, path, selector)? {
        Some(p) => Ok(p),
        None => Err(ScrapeError::MissingElement),
    }
}

/// The id that follows `marker` in the address `href` (the second piece of
/// `href` split at `marker`); an error where `marker` does not occur.
pub fn link_id(href: &str, marker: &str) -> (res: Result<String, ScrapeError>)
    ensures
        match res {
            Ok(id) => second_piece(href@, marker@) == Some(id@),
            Err(e) => e == ScrapeError::MissingId && second_piece(href@, marker@).is_none(),
        },
{
    let h = chars_of(href);
    let m = chars_of(marker);
    match second_piece_chars(h.as_slice(), m.as_slice()) {
        Some(id) => Ok(id),
        None => Err(ScrapeError::MissingId),
    }
}

/// What a listed entry is, from what `scraper` answered about its title and
/// its link's address.
pub fn result_from_answers(
    title: Option<Option<String>>,
    href: Option<Option<String>>,
    marker: &str,
) -> (res: Result<SearchResult, ScrapeError>)
    ensures
        match res {
            Ok(r) => result_of_answers(answer_view(title), answer_view(href), marker@) == Ok::<
                (Seq<char>, Seq<char>),
                ScrapeError,
            >(r@),
            Err(e) => result_of_answers(answer_view(title), answer_view(href), marker@) == Err::<
                (Seq<char>, Seq<char>),
                ScrapeError,
            >(e),
        },
{
    let title = required_value(title)?;
    let href = required_value(href)?;
    let id = link_id(&href, marker)?;
    Ok(SearchResult { title, id })
}

fn read_search_entry(page: &Page, item: &Vec<SelectStep>) -> (res: Result<SearchResult, ScrapeError>)
    ensures
        match res {
            Ok(r) => search_entry(page@, path_view(item@)) == Ok::<(Seq<char>, Seq<char>), ScrapeError>(r@),
            Err(e) => search_entry(page@, path_view(item@)) == Err::<(Seq<char>, Seq<char>), ScrapeError>(e),
        },
{
    let link = find_required(page, item, URL)?;
    let image = find_required(page, &link, IMG)?;
    result_from_answers(attribute(page, &image, "alt"), attribute(page, &link, "href"), "manga-")
}

fn read_chapter_entry(page: &Page, item: &Vec<SelectStep>) -> (res: Result<SearchResult, ScrapeError>)
    ensures
        match res {
            Ok(r) => chapter_entry(page@, path_view(item@)) == Ok::<(Seq<char>, Seq<char>), ScrapeError>(r@),
            Err(e) => chapter_entry(page@, path_view(item@)) == Err::<(Seq<char>, Seq<char>), ScrapeError>(e),
        },
{
    let link = find_required(page, item, URL)?;
    result_from_answers(attribute(page, &link, "title"), attribute(page, &link, "href"), "chapter-")
}

/// Which kind of entry a listing of results holds.
enum ResultKind {
    Search,
    Chapter,
}

spec fn result_entry(kind: ResultKind, page: Seq<char>) -> spec_fn(PathView) -> Result<(Seq<char>, Seq<char>), ScrapeError> {
    match kind {
        ResultKind::Search => |item: PathView| search_entry(page, item),
        ResultKind::Chapter => |item: PathView| chapter_entry(page, item),
    }
}

/// Reads a listing of results below `list`.
fn read_results(page: &Page, list: &Vec<SelectStep>, item: &str, kind: ResultKind) -> (res: Result<Option<Vec<SearchResult>>, ScrapeError>)
    ensures
        results_listing_view(res) == listing(page@, path_view(list@), item@, result_entry(kind, page@)),
{
    let ghost entry = result_entry(kind, page@);
    let n = count(page, list, item)?;
    if n == 0 {
        return Ok(None);
    }
    let mut out: Vec<SearchResult> = Vec::new();
    assert(results_view(out@) =~= Seq::<(Seq<char>, Seq<char>)>::empty());
    for i in 0..n
        invariant
            entry == result_entry(kind, page@),
            n > 0,
            count_of(page@, path_view(list@), item@) == Ok::<nat, ScrapeError>(n as nat),
            collect_entries(path_view(list@), item@, i as nat, entry) == Ok::<Seq<(Seq<char>, Seq<char>)>, ScrapeError>(results_view(out@)),
    {
        let path = extended(list, item, i);
        let read = match kind {
            ResultKind::Search => read_search_entry(page, &path),
            ResultKind::Chapter => read_chapter_entry(page, &path),
        };
        assert(entry(path_view(path@)) == match kind {
            ResultKind::Search => search_entry(page@, path_view(path@)),
            ResultKind::Chapter => chapter_entry(page@, path_view(path@)),
        });
        match read {
            Ok(r) => {
                let ghost before = out@;
                out.push(r);
                assert(results_view(out@) =~= results_view(before).push(r@));
            },
            Err(e) => {
                proof {
                    assert(collect_entries(path_view(list@), item@, (i + 1) as nat, entry) == Err::<Seq<(Seq<char>, Seq<char>)>, ScrapeError>(e));
                    lemma_collect_error_persists(path_view(list@), item@, (i + 1) as nat, n as nat, entry, e);
                }
                return Err(e);
            },
        }
    }
    Ok(Some(out))
}

/// Reads the addresses of the images below `list`.
fn read_images(page: &Page, list: &Vec<SelectStep>) -> (res: Result<Option<Vec<String>>, ScrapeError>)
    ensures
        strings_listing_view(res) == listing(page@, path_view(list@), IMG@, |item: PathView| image_entry(page@, item)),
{
    let ghost entry = |item: PathView| image_entry(page@, item);
    let n = count(page, list, IMG)?;
    if n == 0 {
        return Ok(None);
    }
    let mut out: Vec<String> = Vec::new();
    assert(strings_view(out@) =~= Seq::<Seq<char>>::empty());
    for i in 0..n
        invariant
            entry == (|item: PathView| image_entry(page@, item)),
            n > 0,
            count_of(page@, path_view(list@), IMG@) == Ok::<nat, ScrapeError>(n as nat),
            collect_entries(path_view(list@), IMG@, i as nat, entry) == Ok::<Seq<Seq<char>>, ScrapeError>(strings_view(out@)),
    {
        let path = extended(list, IMG, i);
        match required_value(attribute(page, &path, "src")) {
            Ok(src) => {
                let ghost before = out@;
                out.push(src);
                assert(strings_view(out@) =~= strings_view(before).push(src@));
            },
            Err(e) => {
                proof {
                    assert(entry(path_view(path@)) == image_entry(page@, path_view(path@)));
                    assert(collect_entries(path_view(list@), IMG@, (i + 1) as nat, entry) == Err::<Seq<Seq<char>>, ScrapeError>(e));
                    lemma_collect_error_persists(path_view(list@), IMG@, (i + 1) as nat, n as nat, entry, e);
                }
                return Err(e);
            },
        }
    }
    Ok(Some(out))
}

impl Scraper {
    /// The address of the search for `query`.
    pub fn search_url(&self, query: &str) -> (url: String)
        ensures
            url@ == search_url_spec(query@),
            url@.len() == SEARCH_PREFIX@.len() + query@.len(),
            url@.take(SEARCH_PREFIX@.len() as int) == SEARCH_PREFIX@,
            forall|k: int|
                0 <= k < query@.len() ==> #[trigger] url@[SEARCH_PREFIX@.len() + k] == (if query@[k]
                    == ' ' {
                    '_'
                } else {
                    query@[k]
                }),
    {
        proof {
            lemma_search_url_characters(query@);
        }
        let mut url = crate::text::owned(SEARCH_PREFIX);
        let ghost prefix = url@;
        for c in it: query.chars()
            invariant
                url@ == prefix + replace_char(it.seq().take(it.index()), ' ', '_'),
        {
            let ghost before = url@;
            crate::text::append_char(&mut url, if c == ' ' { '_' } else { c });
            assert(replace_char(it.seq().take(it.index() + 1), ' ', '_') =~= replace_char(
                it.seq().take(it.index()),
                ' ',
                '_',
            ).push(if c == ' ' { '_' } else { c }));
        }
        url
    }

    /// The address of the page of manga `manga_id`.
    pub fn manga_url(&self, manga_id: &str) -> (url: String)
        ensures
            url@ == manga_url_spec(manga_id@),
    {
        let mut url = crate::text::owned("https://chapmanganato.com/manga-");
        append_str(&mut url, manga_id);
        url
    }

    /// The address of the page of chapter `chapter_id` of manga `manga_id`.
    pub fn chapter_url(&self, manga_id: &str, chapter_id: &str) -> (url: String)
        ensures
            url@ == chapter_url_spec(manga_id@, chapter_id@),
    {
        let mut url = crate::text::owned("https://chapmanganato.com/manga-");
        append_str(&mut url, manga_id);
        append_str(&mut url, "/chapter-");
        append_str(&mut url, chapter_id);
        url
    }

    /// What a search page lists, read from its HTML text: an error names
    /// what a result lacks (its link, its image, the image's `alt`, the
    /// link's `href` or the `manga-` marker in it; the first such result
    /// decides). The error is returned exactly where `search_manga` may not
    /// be called.
    pub fn read_search_page(&self, page_source: &str) -> (res: Result<Option<Vec<SearchResult>>, ScrapeError>)
        ensures
            results_listing_view(res) == search_page(page_source@),
    {
        match search_listing(page_source) {
            Err(e) => Err(e),
            Ok(_) => Ok(self.search_manga(page_source)),
        }
    }

    /// The mangas that a search page lists, read from its HTML text: `None`
    /// where it has no result panel or the panel no result. A page with a
    /// result that lacks its link, its image, the image's `alt`, the link's
    /// `href` or the `manga-` marker in it is refused (see
    /// `read_search_page`, which tells such pages apart).
    pub fn search_manga(&self, page_source: &str) -> (res: Option<Vec<SearchResult>>)
        requires
            readable(search_page(page_source@)),
        ensures
            search_page(page_source@) matches Ok(listed) && listed == results_option_view(res),
    {
        match search_listing(page_source) {
            Ok(r) => r,
            Err(_) => None,
        }
    }

    /// What a manga page lists, read from its HTML text: an error names what
    /// a chapter lacks (its link, the link's `title` or `href`, or the
    /// `chapter-` marker in it; the first such chapter decides). The error
    /// is returned exactly where `get_chapters` may not be called.
    pub fn read_chapters_page(&self, page_source: &str) -> (res: Result<Option<Vec<SearchResult>>, ScrapeError>)
        ensures
            results_listing_view(res) == chapters_page(page_source@),
    {
        match chapters_listing(page_source) {
            Err(e) => Err(e),
            Ok(_) => Ok(self.get_chapters(page_source)),
        }
    }

    /// The chapters that a manga page lists, newest first, read from its
    /// HTML text: `None` where it has no chapter panel, the panel no list or
    /// the list no chapter. A page with a chapter that lacks its link, the
    /// link's `title` or `href`, or the `chapter-` marker in it is refused
    /// (see `read_chapters_page`).
    pub fn get_chapters(&self, page_source: &str) -> (res: Option<Vec<SearchResult>>)
        requires
            readable(chapters_page(page_source@)),
        ensures
            chapters_page(page_source@) matches Ok(listed) && listed == results_option_view(res),
    {
        match chapters_listing(page_source) {
            Ok(r) => r,
            Err(_) => None,
        }
    }

    /// What a chapter page shows, read from its HTML text: the error
    /// `MissingAttribute` where an image lacks its `src` (the first such
    /// image decides). The error is returned exactly where
    /// `get_chapter_images` may not be called.
    pub fn read_chapter_images_page(&self, page_source: &str) -> (res: Result<Option<Vec<String>>, ScrapeError>)
        ensures
            strings_listing_view(res) == images_page(page_source@),
    {
        match images_listing(page_source) {
            Err(e) => Err(e),
            Ok(_) => Ok(self.get_chapter_images(page_source)),
        }
    }

    /// The addresses of the images that a chapter page shows, read from its
    /// HTML text: `None` where it has no image panel or the panel no image.
    /// A page with an image that lacks its `src` is refused (see
    /// `read_chapter_images_page`).
    pub fn get_chapter_images(&self, page_source: &str) -> (res: Option<Vec<String>>)
        requires
            readable(images_page(page_source@)),
        ensures
            images_page(page_source@) matches Ok(listed) && listed == strings_option_view(res),
    {
        match images_listing(page_source) {
            Ok(r) => r,
            Err(_) => None,
        }
    }
}

/// A page can be read: nothing that must be there is missing.
pub open spec fn readable<T>(listing: Result<T, ScrapeError>) -> bool {
    listing is Ok
}

/// The plain value of an optional list of results.
pub open spec fn results_option_view(res: Option<Vec<SearchResult>>) -> Option<Seq<(Seq<char>, Seq<char>)>> {
    match res {
        Some(v) => Some(results_view(v@)),
        None => None,
    }
}

/// The plain value of an optional list of strings.
pub open spec fn strings_option_view(res: Option<Vec<String>>) -> Option<Seq<Seq<char>>> {
    match res {
        Some(v) => Some(strings_view(v@)),
        None => None,
    }
}

fn search_listing(page_source: &str) -> (res: Result<Option<Vec<SearchResult>>, ScrapeError>)
    ensures
        results_listing_view(res) == search_page(page_source@),
{
    let page = parse_page(page_source);
    let root: Vec<SelectStep> = Vec::new();
    assert(path_view(root@) =~= Seq::<(Seq<char>, int)>::empty());
    match find_first(&page, &root, RESULTS_PANEL)? {
        None => Ok(None),
        Some(panel) => {
            let res = read_results(&page, &panel, RESULTS, ResultKind::Search);
            assert(result_entry(ResultKind::Search, page@) == (|item: PathView| search_entry(page@, item)));
            res
        },
    }
}

fn chapters_listing(page_source: &str) -> (res: Result<Option<Vec<SearchResult>>, ScrapeError>)
    ensures
        results_listing_view(res) == chapters_page(page_source@),
{
    let page = parse_page(page_source);
    let root: Vec<SelectStep> = Vec::new();
    assert(path_view(root@) =~= Seq::<(Seq<char>, int)>::empty());
    match find_first(&page, &root, CHAPTERS_PANEL)? {
        None => Ok(None),
        Some(panel) => match find_first(&page, &panel, CHAPTERS_LIST)? {
            None => Ok(None),
            Some(list) => {
                let res = read_results(&page, &list, CHAPTERS, ResultKind::Chapter);
                assert(result_entry(ResultKind::Chapter, page@) == (|item: PathView| chapter_entry(page@, item)));
                res
            },
        },
    }
}

fn images_listing(page_source: &str) -> (res: Result<Option<Vec<String>>, ScrapeError>)
    ensures
        strings_listing_view(res) == images_page(page_source@),
{
    let page = parse_page(page_source);
    let root: Vec<SelectStep> = Vec::new();
    assert(path_view(root@) =~= Seq::<(Seq<char>, int)>::empty());
    match find_first(&page, &root, CHAPTER_IMAGES_PANEL)? {
        None => Ok(None),
        Some(panel) => read_images(&page, &panel),
    }
}

// ---------------------------------------------------------------------------
// Addresses read back
// ---------------------------------------------------------------------------

/// The id that a link's address yields after `marker`, where the address is
/// `head`, the marker, then `id`: the id itself, provided the marker occurs
/// neither in `head` followed by the marker's first characters nor in `id`.
proof fn lemma_id_after_marker(head: Seq<char>, marker: Seq<char>, id: Seq<char>)
    requires
        marker.len() > 0,
        !contains_pattern(head + marker.drop_last(), marker),
        !contains_pattern(id, marker),
    ensures
        second_piece(head + marker + id, marker) == Some(id),
{
    let s = head + marker + id;
    let k = head.len() as int;
    let n = marker.len() as int;
    assert(s.subrange(k, k + n) =~= marker);
    assert forall|j: int| 0 <= j < k implies !occurs_at(s, marker, j) by {
        if occurs_at(s, marker, j) {
            let prefix = head + marker.drop_last();
            assert(prefix =~= s.take(k + n - 1));
            assert(prefix.subrange(j, j + n) =~= s.subrange(j, j + n));
            assert(occurs_at(prefix, marker, j));
        }
    }
    assert(is_first_occurrence(s, marker, k));
    lemma_first_occurrence_is(s, marker, k);
    assert(s.skip(k + n) =~= id);
    assert forall|j: int| 0 <= j implies !occurs_at(id, marker, j) by {}
    lemma_no_occurrence(id, marker);
}

/// `chapter-` occurs before a chapter's place in its address only where it
/// occurs in the manga's id.
proof fn lemma_no_chapter_marker_before(manga_id: Seq<char>)
    requires
        !contains_pattern(manga_id, "chapter-"@),
    ensures
        !contains_pattern(manga_url_spec(manga_id) + "/chapter"@, "chapter-"@),
{
    reveal_strlit("https://chapmanganato.com/manga-");
    reveal_strlit("chapter-");
    reveal_strlit("/chapter");
    let p = "https://chapmanganato.com/manga-"@;
    let q = "/chapter"@;
    let pat = "chapter-"@;
    let s = manga_url_spec(manga_id) + q;
    let n = manga_id.len() as int;
    assert(s =~= p + manga_id + q);
    assert forall|j: int| 0 <= j implies !occurs_at(s, pat, j) by {
        if occurs_at(s, pat, j) {
            let e = j + 7;
            assert(s.subrange(j, j + 8)[7] == s[e]);
            assert(s[e] == '-');
            assert(s.subrange(j, j + 8)[0] == s[j]);
            assert(s[j] == 'c');
            if e < 32 {
                assert(s[e] == p[e]);
                assert(s[j] == p[j]);
            } else if e < 32 + n {
                if j >= 32 {
                    assert(manga_id.subrange(j - 32, j - 24) =~= s.subrange(j, j + 8));
                    assert(occurs_at(manga_id, pat, j - 32));
                } else {
                    assert(s[31] == p[31]);
                    assert(s.subrange(j, j + 8)[31 - j] == s[31]);
                }
            } else {
                assert(s[e] == q[e - 32 - n]);
            }
        }
    }
    lemma_no_occurrence(s, pat);
}

/// The id read from a chapter's link is the id of the chapter whose address
/// the link holds, provided `chapter-` occurs neither in the manga's id nor
/// in the chapter's.
pub proof fn lemma_chapter_link_id(manga_id: Seq<char>, chapter_id: Seq<char>)
    requires
        !contains_pattern(manga_id, "chapter-"@),
        !contains_pattern(chapter_id, "chapter-"@),
    ensures
        second_piece(chapter_url_spec(manga_id, chapter_id), "chapter-"@) == Some(chapter_id),
{
    lemma_no_chapter_marker_before(manga_id);
    reveal_strlit("/chapter-");
    reveal_strlit("chapter-");
    reveal_strlit("/chapter");
    let head = manga_url_spec(manga_id) + "/"@;
    reveal_strlit("/");
    assert(head + "chapter-"@.drop_last() =~= manga_url_spec(manga_id) + "/chapter"@);
    assert(chapter_url_spec(manga_id, chapter_id) =~= head + "chapter-"@ + chapter_id);
    lemma_id_after_marker(head, "chapter-"@, chapter_id);
}

/// The id read from a search result's link is the id of the manga whose
/// address the link holds, provided `manga-` does not occur in that id.
pub proof fn lemma_manga_link_id(manga_id: Seq<char>)
    requires
        !contains_pattern(manga_id, "manga-"@),
    ensures
        second_piece(manga_url_spec(manga_id), "manga-"@) == Some(manga_id),
{
    reveal_strlit("https://chapmanganato.com/manga-");
    reveal_strlit("https://chapmanganato.com/");
    reveal_strlit("manga-");
    let head = "https://chapmanganato.com/"@;
    let marker = "manga-"@;
    let before = head + marker.drop_last();
    assert forall|j: int| 0 <= j implies !occurs_at(before, marker, j) by {
        if occurs_at(before, marker, j) {
            assert(before.subrange(j, j + 6)[5] == '-');
            assert(before[j + 5] == '-');
        }
    }
    lemma_no_occurrence(before, marker);
    assert(manga_url_spec(manga_id) =~= head + marker + manga_id);
    lemma_id_after_marker(head, marker, manga_id);
}

/// Every entry of a listing that was read is the entry read from its place.
proof fn lemma_collected_entry<T>(
    list: PathView,
    item: Seq<char>,
    n: nat,
    entry: spec_fn(PathView) -> Result<T, ScrapeError>,
    s: Seq<T>,
    i: int,
)
    requires
        collect_entries(list, item, n, entry) == Ok::<Seq<T>, ScrapeError>(s),
        0 <= i < n,
    ensures
        s.len() == n,
        entry(extend(list, item, i)) == Ok::<T, ScrapeError>(s[i]),
    decreases n,
{
    match collect_entries(list, item, (n - 1) as nat, entry) {
        Ok(prev) => {
            if n > 1 {
                if i < n - 1 {
                    lemma_collected_entry(list, item, (n - 1) as nat, entry, prev, i);
                } else {
                    lemma_collected_length(list, item, (n - 1) as nat, entry, prev);
                }
            }
            if i < n - 1 && n > 1 {
                assert(s[i] == prev[i]);
            }
            lemma_collected_length(list, item, (n - 1) as nat, entry, prev);
        },
        Err(_) => {},
    }
}

proof fn lemma_collected_length<T>(
    list: PathView,
    item: Seq<char>,
    n: nat,
    entry: spec_fn(PathView) -> Result<T, ScrapeError>,
    s: Seq<T>,
)
    requires
        collect_entries(list, item, n, entry) == Ok::<Seq<T>, ScrapeError>(s),
    ensures
        s.len() == n,
    decreases n,
{
    if n > 0 {
        match collect_entries(list, item, (n - 1) as nat, entry) {
            Ok(prev) => lemma_collected_length(list, item, (n - 1) as nat, entry, prev),
            Err(_) => {},
        }
    }
}

/// The path to the link of the `i`-th result of a search page.
pub open spec fn search_result_link(i: int) -> PathView {
    extend(extend(extend(Seq::empty(), RESULTS_PANEL@, 0), RESULTS@, i), URL@, 0)
}

/// The path to the link of the `i`-th chapter of a manga page.
pub open spec fn chapter_link(i: int) -> PathView {
    extend(
        extend(extend(extend(Seq::empty(), CHAPTERS_PANEL@, 0), CHAPTERS_LIST@, 0), CHAPTERS@, i),
        URL@,
        0,
    )
}

/// The id of a search result leads back to the page its link points at:
/// where the link of the `i`-th result holds the address of manga `x`
/// (without `manga-` in `x`), the result's id is `x`, so the address that
/// `manga_url` makes of it, to read the manga's chapters, is that link.
pub proof fn lemma_search_result_leads_to_its_page(
    page: Seq<char>,
    results: Seq<(Seq<char>, Seq<char>)>,
    i: int,
    x: Seq<char>,
)
    requires
        search_page(page) == Ok::<Option<Seq<(Seq<char>, Seq<char>)>>, ScrapeError>(Some(results)),
        0 <= i < results.len(),
        html_attribute(page, search_result_link(i), "href"@) == Some(Some(manga_url_spec(x))),
        !contains_pattern(x, "manga-"@),
    ensures
        results[i].1 == x,
        manga_url_spec(results[i].1) == manga_url_spec(x),
{
    let panel = extend(Seq::empty(), RESULTS_PANEL@, 0);
    let entry = |item: PathView| search_entry(page, item);
    assert(first_below(page, Seq::empty(), RESULTS_PANEL@) == Ok::<Option<PathView>, ScrapeError>(Some(panel)));
    let n = count_of(page, panel, RESULTS@)->Ok_0;
    assert(collect_entries(panel, RESULTS@, n, entry) == Ok::<Seq<(Seq<char>, Seq<char>)>, ScrapeError>(results));
    lemma_collected_length(panel, RESULTS@, n, entry, results);
    lemma_collected_entry(panel, RESULTS@, n, entry, results, i);
    let item = extend(panel, RESULTS@, i);
    assert(required_first(page, item, URL@) == Ok::<PathView, ScrapeError>(search_result_link(i)));
    lemma_manga_link_id(x);
}

/// The id of a chapter leads back to the page its link points at: where
/// the link of the `i`-th chapter of manga `m` holds the address of its
/// chapter `x` (without `chapter-` in `m` or `x`), the chapter's id is `x`,
/// so the address that `chapter_url` makes of `m` and it, to read the
/// chapter's images, is that link.
pub proof fn lemma_chapter_leads_to_its_page(
    page: Seq<char>,
    chapters: Seq<(Seq<char>, Seq<char>)>,
    i: int,
    m: Seq<char>,
    x: Seq<char>,
)
    requires
        chapters_page(page) == Ok::<Option<Seq<(Seq<char>, Seq<char>)>>, ScrapeError>(Some(chapters)),
        0 <= i < chapters.len(),
        html_attribute(page, chapter_link(i), "href"@) == Some(Some(chapter_url_spec(m, x))),
        !contains_pattern(m, "chapter-"@),
        !contains_pattern(x, "chapter-"@),
    ensures
        chapters[i].1 == x,
        chapter_url_spec(m, chapters[i].1) == chapter_url_spec(m, x),
{
    let panel = extend(Seq::empty(), CHAPTERS_PANEL@, 0);
    let list = extend(panel, CHAPTERS_LIST@, 0);
    let entry = |item: PathView| chapter_entry(page, item);
    assert(first_below(page, Seq::empty(), CHAPTERS_PANEL@) == Ok::<Option<PathView>, ScrapeError>(Some(panel)));
    assert(first_below(page, panel, CHAPTERS_LIST@) == Ok::<Option<PathView>, ScrapeError>(Some(list)));
    let n = count_of(page, list, CHAPTERS@)->Ok_0;
    assert(collect_entries(list, CHAPTERS@, n, entry) == Ok::<Seq<(Seq<char>, Seq<char>)>, ScrapeError>(chapters));
    lemma_collected_length(list, CHAPTERS@, n, entry, chapters);
    lemma_collected_entry(list, CHAPTERS@, n, entry, chapters, i);
    let item = extend(list, CHAPTERS@, i);
    assert(required_first(page, item, URL@) == Ok::<PathView, ScrapeError>(chapter_link(i)));
    lemma_chapter_link_id(m, x);
}

/// The path to the first image panel of a chapter page.
pub open spec fn image_panel() -> PathView {
    extend(Seq::empty(), CHAPTER_IMAGES_PANEL@, 0)
}

/// A chapter page that can be read lists the `src` of every image in its
/// first image panel, in order: as many addresses as the panel has images,
/// the `k`-th being the `src` of the `k`-th image.
pub proof fn lemma_images_are_every_src(page: Seq<char>, srcs: Seq<Seq<char>>)
    requires
        images_page(page) == Ok::<Option<Seq<Seq<char>>>, ScrapeError>(Some(srcs)),
    ensures
        html_match_count(page, Seq::empty(), CHAPTER_IMAGES_PANEL@) matches Some(c) && c > 0,
        html_match_count(page, image_panel(), IMG@) == Some(srcs.len()),
        forall|k: int|
            0 <= k < srcs.len() ==> html_attribute(page, extend(image_panel(), IMG@, k), "src"@)
                == Some(Some(#[trigger] srcs[k])),
{
    let panel = image_panel();
    let entry = |item: PathView| image_entry(page, item);
    assert(first_below(page, Seq::empty(), CHAPTER_IMAGES_PANEL@) == Ok::<Option<PathView>, ScrapeError>(Some(panel)));
    let n = count_of(page, panel, IMG@)->Ok_0;
    assert(collect_entries(panel, IMG@, n, entry) == Ok::<Seq<Seq<char>>, ScrapeError>(srcs));
    lemma_collected_length(panel, IMG@, n, entry, srcs);
    assert forall|k: int| 0 <= k < srcs.len() implies html_attribute(page, extend(panel, IMG@, k), "src"@)
        == Some(Some(#[trigger] srcs[k])) by {
        lemma_collected_entry(panel, IMG@, n, entry, srcs, k);
    }
}

/// The path to the first result panel of a search page.
pub open spec fn result_panel() -> PathView {
    extend(Seq::empty(), RESULTS_PANEL@, 0)
}

/// A search page that can be read lists every result of its first result
/// panel, in order: as many as the panel has results, the `k`-th titled by
/// the `alt` of the image in its first link and named by what follows
/// `manga-` in that link's address.
pub proof fn lemma_search_lists_every_result(page: Seq<char>, results: Seq<(Seq<char>, Seq<char>)>)
    requires
        search_page(page) == Ok::<Option<Seq<(Seq<char>, Seq<char>)>>, ScrapeError>(Some(results)),
    ensures
        html_match_count(page, Seq::empty(), RESULTS_PANEL@) matches Some(c) && c > 0,
        html_match_count(page, result_panel(), RESULTS@) == Some(results.len()),
        forall|k: int|
            0 <= k < results.len() ==> {
                &&& html_attribute(page, extend(search_result_link(k), IMG@, 0), "alt"@) == Some(
                    Some((#[trigger] results[k]).0),
                )
                &&& html_attribute(page, search_result_link(k), "href"@) matches Some(Some(href))
                    && second_piece(href, "manga-"@) == Some(results[k].1)
            },
{
    let panel = result_panel();
    let entry = |item: PathView| search_entry(page, item);
    assert(first_below(page, Seq::empty(), RESULTS_PANEL@) == Ok::<Option<PathView>, ScrapeError>(Some(panel)));
    let n = count_of(page, panel, RESULTS@)->Ok_0;
    assert(collect_entries(panel, RESULTS@, n, entry) == Ok::<Seq<(Seq<char>, Seq<char>)>, ScrapeError>(results));
    lemma_collected_length(panel, RESULTS@, n, entry, results);
    assert forall|k: int| 0 <= k < results.len() implies {
        &&& html_attribute(page, extend(search_result_link(k), IMG@, 0), "alt"@) == Some(
            Some((#[trigger] results[k]).0),
        )
        &&& html_attribute(page, search_result_link(k), "href"@) matches Some(Some(href))
            && second_piece(href, "manga-"@) == Some(results[k].1)
    } by {
        lemma_collected_entry(panel, RESULTS@, n, entry, results, k);
        let item = extend(panel, RESULTS@, k);
        assert(required_first(page, item, URL@) == Ok::<PathView, ScrapeError>(search_result_link(k)));
        let link = search_result_link(k);
        assert(required_first(page, link, IMG@) == Ok::<PathView, ScrapeError>(extend(link, IMG@, 0)));
    }
}

/// The path to the first chapter list of a manga page.
pub open spec fn chapter_list() -> PathView {
    extend(extend(Seq::empty(), CHAPTERS_PANEL@, 0), CHAPTERS_LIST@, 0)
}

/// A manga page that can be read lists every chapter of its first chapter
/// list, in the page's order: as many as the list has chapters, the `k`-th
/// titled by the `title` of its first link and named by what follows
/// `chapter-` in that link's address.
pub proof fn lemma_chapters_lists_every_chapter(page: Seq<char>, chapters: Seq<(Seq<char>, Seq<char>)>)
    requires
        chapters_page(page) == Ok::<Option<Seq<(Seq<char>, Seq<char>)>>, ScrapeError>(Some(chapters)),
    ensures
        html_match_count(page, chapter_list(), CHAPTERS@) == Some(chapters.len()),
        forall|k: int|
            0 <= k < chapters.len() ==> {
                &&& html_attribute(page, chapter_link(k), "title"@) == Some(
                    Some((#[trigger] chapters[k]).0),
                )
                &&& html_attribute(page, chapter_link(k), "href"@) matches Some(Some(href))
                    && second_piece(href, "chapter-"@) == Some(chapters[k].1)
            },
{
    let panel = extend(Seq::empty(), CHAPTERS_PANEL@, 0);
    let list = chapter_list();
    let entry = |item: PathView| chapter_entry(page, item);
    assert(first_below(page, Seq::empty(), CHAPTERS_PANEL@) == Ok::<Option<PathView>, ScrapeError>(Some(panel)));
    assert(first_below(page, panel, CHAPTERS_LIST@) == Ok::<Option<PathView>, ScrapeError>(Some(list)));
    let n = count_of(page, list, CHAPTERS@)->Ok_0;
    assert(collect_entries(list, CHAPTERS@, n, entry) == Ok::<Seq<(Seq<char>, Seq<char>)>, ScrapeError>(chapters));
    lemma_collected_length(list, CHAPTERS@, n, entry, chapters);
    assert forall|k: int| 0 <= k < chapters.len() implies {
        &&& html_attribute(page, chapter_link(k), "title"@) == Some(
            Some((#[trigger] chapters[k]).0),
        )
        &&& html_attribute(page, chapter_link(k), "href"@) matches Some(Some(href))
            && second_piece(href, "chapter-"@) == Some(chapters[k].1)
    } by {
        lemma_collected_entry(list, CHAPTERS@, n, entry, chapters, k);
        let item = extend(list, CHAPTERS@, k);
        assert(required_first(page, item, URL@) == Ok::<PathView, ScrapeError>(chapter_link(k)));
    }
}

} // verus!
