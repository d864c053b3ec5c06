//! Exporting a manga as an EPUB book: the names and the text of its parts.
use vstd::prelude::*;
use crate::structs::strings_view;
use crate::text::{
    append_decimal, append_str, chars_of, decimal, digit_char, is_blank_str, owned, split_char,
    split_char_bounds, string_from_chars, trim,
};

verus! {

/// The folder, in a library, that receives the books.
pub const EXPORTS_FOLDER: &'static str = "exports";

/// The name within the book of image `j` of chapter `i` of manga `id`.
pub open spec fn resource_name(id: Seq<char>, i: nat, j: nat) -> Seq<char> {
    "manga-"@ + id + "-chapter-"@ + decimal(i) + "-"@ + decimal(j) + ".jpg"@
}

/// The markup that shows image `j` of chapter `i`.
pub open spec fn image_tag(id: Seq<char>, i: nat, j: nat) -> Seq<char> {
    "<img src=\""@ + resource_name(id, i, j) + "\"></img><br>"@
}

/// The markup of a chapter with `n` images: their tags, in order.
pub open spec fn chapter_body(id: Seq<char>, i: nat, n: nat) -> Seq<char>
    decreases n,
{
    if n == 0 {
        Seq::empty()
    } else {
        chapter_body(id, i, (n - 1) as nat) + image_tag(id, i, (n - 1) as nat)
    }
}

/// The name within the book of the page of chapter `i`.
pub open spec fn chapter_file(i: nat) -> Seq<char> {
    "chapter-"@ + decimal(i) + ".xhtml"@
}

/// The title of the page of a chapter.
pub open spec fn chapter_heading(chapter: Seq<char>) -> Seq<char> {
    "Chapter "@ + chapter
}

/// The name, in a chapter's folder, of its image `j`.
pub open spec fn image_file(j: nat) -> Seq<char> {
    decimal(j) + ".jpg"@
}

/// The name of the book of a manga titled `title`.
pub open spec fn book_file(title: Seq<char>) -> Seq<char> {
    title + ".epub"@
}

/// The name within the book of image `j` of chapter `i` of manga `manga_id`.
pub fn image_resource_name(manga_id: &str, i: usize, j: usize) -> (name: String)
    ensures
        name@ == resource_name(manga_id@, i as nat, j as nat),
{
    let mut name = owned("manga-");
    append_str(&mut name, manga_id);
    append_str(&mut name, "-chapter-");
    append_decimal(&mut name, i);
    append_str(&mut name, "-");
    append_decimal(&mut name, j);
    append_str(&mut name, ".jpg");
    name
}

/// The page of chapter `i` within the book.
pub fn chapter_file_name(i: usize) -> (name: String)
    ensures
        name@ == chapter_file(i as nat),
{
    let mut name = owned("chapter-");
    append_decimal(&mut name, i);
    append_str(&mut name, ".xhtml");
    name
}

/// The title of the page of a chapter.
pub fn chapter_title(chapter: &str) -> (title: String)
    ensures
        title@ == chapter_heading(chapter@),
{
    let mut title = owned("Chapter ");
    append_str(&mut title, chapter);
    title
}

/// The name, in a chapter's folder, of its image `j`.
pub fn image_file_name(j: usize) -> (name: String)
    ensures
        name@ == image_file(j as nat),
{
    let mut name = String::new();
    append_decimal(&mut name, j);
    append_str(&mut name, ".jpg");
    name
}

/// The name of the book of a manga titled `title`.
pub fn book_file_name(title: &str) -> (name: String)
    ensures
        name@ == book_file(title@),
{
    let mut name = owned(title);
    append_str(&mut name, ".epub");
    name
}

/// The chapters that `order.txt` lists: its text split at line breaks.
pub fn order_lines(text: &str) -> (lines: Vec<String>)
    ensures
        strings_view(lines@) == split_char(text@, '\n'),
{
    let chars = chars_of(text);
    let bounds = split_char_bounds(chars.as_slice(), '\n');
    let mut lines: Vec<String> = Vec::new();
    for k in 0..bounds.len()
        invariant
            chars@ == text@,
            bounds@.len() == split_char(text@, '\n').len(),
            forall|m: int|
                0 <= m < bounds@.len() ==> {
                    &&& (#[trigger] bounds@[m]).0 <= bounds@[m].1 <= chars@.len()
                    &&& chars@.subrange(bounds@[m].0 as int, bounds@[m].1 as int) == split_char(
                        text@,
                        '\n',
                    )[m]
                },
            strings_view(lines@) == split_char(text@, '\n').take(k as int),
    {
        let (a, b) = bounds[k];
        let line = string_from_chars(chars.as_slice(), a, b);
        let ghost before = lines@;
        lines.push(line);
        assert(strings_view(lines@) =~= strings_view(before).push(line@));
        assert(split_char(text@, '\n').take(k + 1) =~= split_char(text@, '\n').take(k as int).push(
            split_char(text@, '\n')[k as int],
        ));
    }
    assert(split_char(text@, '\n').take(bounds@.len() as int) =~= split_char(text@, '\n'));
    lines
}

/// What the last look at the disk found while exporting a manga.
#[derive(Debug, Clone, Copy, PartialEq, Eq, Structural)]
pub enum ExportProbe {
    /// Whether the folder of the next chapter listed in `order.txt` exists.
    ChapterFolder(bool),
    /// Whether image `j` (file `j.jpg`) of the current chapter exists.
    ImageFile(usize, bool),
}

/// What to do next while exporting a manga.
#[derive(Debug, Clone, Copy, PartialEq, Eq, Structural)]
pub enum ExportAction {
    /// No more chapters: write the book.
    Stop,
    /// Look for image `j` of the current chapter.
    ProbeImage(usize),
    /// Add the current chapter with this many images, then look for the
    /// next chapter's folder.
    AddChapter(usize),
}

/// The next step of exporting after `probe`: the export stops at the first
/// chapter listed without a folder, and a chapter holds the images
/// `0.jpg`, `1.jpg`, ... up to the first one missing.
pub fn next_export_action(probe: ExportProbe) -> (action: ExportAction)
    requires
        probe matches ExportProbe::ImageFile(j, true) ==> j < usize::MAX,
    ensures
        action == match probe {
            ExportProbe::ChapterFolder(true) => ExportAction::ProbeImage(0),
            ExportProbe::ChapterFolder(false) => ExportAction::Stop,
            ExportProbe::ImageFile(j, true) => ExportAction::ProbeImage((j + 1) as usize),
            ExportProbe::ImageFile(j, false) => ExportAction::AddChapter(j),
        },
{
    match probe {
        ExportProbe::ChapterFolder(exists) => if exists {
            ExportAction::ProbeImage(0)
        } else {
            ExportAction::Stop
        },
        ExportProbe::ImageFile(j, exists) => if exists {
            ExportAction::ProbeImage(j + 1)
        } else {
            ExportAction::AddChapter(j)
        },
    }
}

/// What a chapter adds to the book.
pub struct ChapterExport {
    /// The names within the book of its images, in order.
    pub resources: Vec<String>,
    /// The markup that shows them.
    pub body: String,
    /// The name and the title of its page; `None` for a chapter whose name is
    /// blank, which adds its images but no page.
    pub page: Option<(String, String)>,
}

/// What chapter `index` (counted from zero in `order.txt`), named `chapter`,
/// with `image_count` images, adds to the book of manga `manga_id`.
pub fn plan_chapter_export(manga_id: &str, chapter: &str, index: usize, image_count: usize) -> (plan: ChapterExport)
    ensures
        strings_view(plan.resources@) == Seq::new(
            image_count as nat,
            |j: int| resource_name(manga_id@, index as nat, j as nat),
        ),
        plan.body@ == chapter_body(manga_id@, index as nat, image_count as nat),
        match plan.page {
            Some((file, title)) => trim(chapter@).len() != 0 && file@ == chapter_file(index as nat)
                && title@ == chapter_heading(chapter@),
            None => trim(chapter@).len() == 0,
        },
{
    let mut resources: Vec<String> = Vec::new();
    let mut body = String::new();
    for j in 0..image_count
        invariant
            strings_view(resources@) == Seq::new(
                j as nat,
                |k: int| resource_name(manga_id@, index as nat, k as nat),
            ),
            body@ == chapter_body(manga_id@, index as nat, j as nat),
    {
        let name = image_resource_name(manga_id, index, j);
        append_str(&mut body, "<img src=\"");
        append_str(&mut body, name.as_str());
        append_str(&mut body, "\"></img><br>");
        let ghost before = resources@;
        resources.push(name);
        assert(strings_view(resources@) =~= strings_view(before).push(resources@[j as int]@));
        assert(strings_view(resources@) =~= Seq::new(
            (j + 1) as nat,
            |k: int| resource_name(manga_id@, index as nat, k as nat),
        ));
    }
    let page = if is_blank_str(chapter) {
        None
    } else {
        Some((chapter_file_name(index), chapter_title(chapter)))
    };
    ChapterExport { resources, body, page }
}

proof fn lemma_digit_char_injective(a: nat, b: nat)
    requires
        a < 10,
        b < 10,
        digit_char(a) == digit_char(b),
    ensures
        a == b,
{
}

proof fn lemma_decimal_shape(n: nat)
    ensures
        decimal(n).len() >= 1,
        n >= 10 ==> decimal(n).len() >= 2,
        forall|k: int| 0 <= k < decimal(n).len() ==> #[trigger] decimal(n)[k] != '-',
    decreases n,
{
    if n >= 10 {
        lemma_decimal_shape(n / 10);
        let d = decimal(n);
        assert forall|k: int| 0 <= k < d.len() implies #[trigger] d[k] != '-' by {
            if k < d.len() - 1 {
                assert(d[k] == decimal(n / 10)[k]);
            }
        }
    }
}

proof fn lemma_decimal_injective(n: nat, m: nat)
    requires
        decimal(n) == decimal(m),
    ensures
        n == m,
    decreases n,
{
    lemma_decimal_shape(n);
    lemma_decimal_shape(m);
    if n < 10 && m < 10 {
        assert(decimal(n) == seq![digit_char(n)]);
        assert(decimal(m) == seq![digit_char(m)]);
        assert(decimal(n)[0] == digit_char(n));
        assert(decimal(m)[0] == digit_char(m));
        lemma_digit_char_injective(n, m);
    } else if n >= 10 && m >= 10 {
        assert(decimal(n) == decimal(n / 10).push(digit_char(n % 10)));
        assert(decimal(m) == decimal(m / 10).push(digit_char(m % 10)));
        assert(decimal(n).last() == digit_char(n % 10));
        assert(decimal(m).last() == digit_char(m % 10));
        lemma_digit_char_injective(n % 10, m % 10);
        assert(decimal(n).drop_last() =~= decimal(n / 10));
        assert(decimal(m).drop_last() =~= decimal(m / 10));
        lemma_decimal_injective(n / 10, m / 10);
    }
}

/// Two decimals joined by `-` are told apart at the `-`.
proof fn lemma_dash_pair_injective(a: nat, b: nat, c: nat, d: nat)
    requires
        decimal(a) + "-"@ + decimal(b) == decimal(c) + "-"@ + decimal(d),
    ensures
        a == c,
        b == d,
{
    reveal_strlit("-");
    lemma_decimal_shape(a);
    lemma_decimal_shape(c);
    let x = decimal(a) + "-"@ + decimal(b);
    let y = decimal(c) + "-"@ + decimal(d);
    let la = decimal(a).len() as int;
    let lc = decimal(c).len() as int;
    if la < lc {
        assert(x[la] == '-');
        assert(y[la] == decimal(c)[la]);
    } else if lc < la {
        assert(y[lc] == '-');
        assert(x[lc] == decimal(a)[lc]);
    }
    assert(x.take(la) =~= decimal(a));
    assert(y.take(lc) =~= decimal(c));
    lemma_decimal_injective(a, c);
    assert(x.skip(la + 1) =~= decimal(b));
    assert(y.skip(lc + 1) =~= decimal(d));
    lemma_decimal_injective(b, d);
}

/// Each image of a book gets a name of its own: two images of one manga
/// share a name only where they are the same image of the same chapter.
pub proof fn lemma_resource_names_distinct(id: Seq<char>, i: nat, j: nat, k: nat, l: nat)
    requires
        resource_name(id, i, j) == resource_name(id, k, l),
    ensures
        i == k,
        j == l,
{
    let head = "manga-"@ + id + "-chapter-"@;
    let x = resource_name(id, i, j);
    let y = resource_name(id, k, l);
    let tail = ".jpg"@;
    let p = decimal(i) + "-"@ + decimal(j);
    let q = decimal(k) + "-"@ + decimal(l);
    assert(x =~= head + p + tail);
    assert(y =~= head + q + tail);
    assert(p.len() == q.len());
    assert(p =~= x.subrange(head.len() as int, (head.len() + p.len()) as int));
    assert(q =~= y.subrange(head.len() as int, (head.len() + q.len()) as int));
    lemma_dash_pair_injective(i, j, k, l);
}

/// The page of a chapter shows every one of its images, in order: with `n`
/// images it is empty for none, and otherwise the page for the first `n - 1`
/// followed by the tag of image `n - 1`; so for each `j < n` the page for
/// the first `j` images is its beginning and the tag of image `j` follows
/// right after it.
pub proof fn lemma_body_shows_every_image(id: Seq<char>, i: nat, n: nat)
    ensures
        n == 0 ==> chapter_body(id, i, n).len() == 0,
        n > 0 ==> chapter_body(id, i, n) == chapter_body(id, i, (n - 1) as nat) + image_tag(
            id,
            i,
            (n - 1) as nat,
        ),
        forall|j: nat|
            j < n ==> {
                &&& (#[trigger] chapter_body(id, i, j)).len() + image_tag(id, i, j).len()
                    <= chapter_body(id, i, n).len()
                &&& chapter_body(id, i, n).take(chapter_body(id, i, j).len() as int) == chapter_body(
                    id,
                    i,
                    j,
                )
                &&& chapter_body(id, i, n).subrange(
                    chapter_body(id, i, j).len() as int,
                    (chapter_body(id, i, j).len() + image_tag(id, i, j).len()) as int,
                ) == image_tag(id, i, j)
            },
    decreases n,
{
    if n > 0 {
        let m = (n - 1) as nat;
        lemma_body_shows_every_image(id, i, m);
        let whole = chapter_body(id, i, n);
        let before = chapter_body(id, i, m);
        let tag = image_tag(id, i, m);
        assert(whole == before + tag);
        assert forall|j: nat| j < n implies {
            &&& (#[trigger] chapter_body(id, i, j)).len() + image_tag(id, i, j).len()
                <= chapter_body(id, i, n).len()
            &&& chapter_body(id, i, n).take(chapter_body(id, i, j).len() as int) == chapter_body(
                id,
                i,
                j,
            )
            &&& chapter_body(id, i, n).subrange(
                chapter_body(id, i, j).len() as int,
                (chapter_body(id, i, j).len() + image_tag(id, i, j).len()) as int,
            ) == image_tag(id, i, j)
        } by {
            let bj = chapter_body(id, i, j);
            let tj = image_tag(id, i, j);
            if j < m {
                assert(before.take(bj.len() as int) == bj);
                assert(before.subrange(bj.len() as int, (bj.len() + tj.len()) as int) == tj);
                assert(whole.take(bj.len() as int) =~= before.take(bj.len() as int));
                assert(whole.subrange(bj.len() as int, (bj.len() + tj.len()) as int) =~= before.subrange(
                    bj.len() as int,
                    (bj.len() + tj.len()) as int,
                ));
            } else {
                assert(whole.take(bj.len() as int) =~= bj);
                assert(whole.subrange(bj.len() as int, (bj.len() + tj.len()) as int) =~= tj);
            }
        }
    }
}

} // verus!
