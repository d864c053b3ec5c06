use mangalike::export::{
    next_export_action, ExportAction, ExportProbe,
    book_file_name, chapter_file_name, chapter_title, image_file_name, image_resource_name,
    order_lines, plan_chapter_export,
};
use mangalike::manga_list::{
    add_manga, bracketed_folder_name, get_mangas, manga_folder_name, manga_from_folder_name,
    FolderEntry,
};
use mangalike::page::{required_value, ScrapeError};
use mangalike::scrape::{link_id, result_from_answers};
use mangalike::progress::{
    chapter_label, manga_label, next_download_action, progress_message, DownloadAction,
    DownloadEvent, IMAGE_LABEL,
};
use mangalike::query::{choose_index, choose_result, Choice};
use mangalike::structs::{Scraper, SearchResult};
use mangalike::sync::{after_image_request, chapters_from_start, order_file_contents, ImageRequest};
use mangalike::text::{chars_of, parse_i32, same_text, trimmed};
use mangalike::utils::{get_manga_starting_chapter, starting_chapter_of, ConfigError};

fn result(title: &str, id: &str) -> SearchResult {
    SearchResult { title: title.to_string(), id: id.to_string() }
}

fn ids(v: &[SearchResult]) -> Vec<String> {
    v.iter().map(|r| r.id.clone()).collect()
}

// ----------------------------------------------------------------------------
// The library's folders
// ----------------------------------------------------------------------------

#[test]
fn folder_name_joins_id_and_title() {
    assert_eq!(manga_folder_name("to970571", "One Piece"), "to970571 - One Piece");
    assert_eq!(bracketed_folder_name("to970571", "One Piece"), "[to970571] One Piece");
}

#[test]
fn add_manga_creates_folder_unless_bracketed_one_exists() {
    assert_eq!(add_manga("qm951521", "Berserk", false), Some("qm951521 - Berserk".to_string()));
    assert_eq!(add_manga("qm951521", "Berserk", true), None);
}

#[test]
fn folder_name_splits_at_first_separator() {
    let m = manga_from_folder_name("to970571 - One Piece - Part 2").unwrap();
    assert_eq!(m.id, "to970571");
    assert_eq!(m.title, "One Piece - Part 2");
    assert!(manga_from_folder_name("exports").is_none());
    assert!(manga_from_folder_name("a-b").is_none());
    let empty = manga_from_folder_name(" - ").unwrap();
    assert_eq!(empty.id, "");
    assert_eq!(empty.title, "");
}

#[test]
fn folder_name_round_trip() {
    let name = manga_folder_name("mv989778", "Chainsaw Man");
    let m = manga_from_folder_name(&name).unwrap();
    assert_eq!(m.id, "mv989778");
    assert_eq!(m.title, "Chainsaw Man");
}

#[test]
fn get_mangas_keeps_named_folders_in_order() {
    let entries = vec![
        FolderEntry { name: "to970571 - One Piece".to_string(), is_dir: true },
        FolderEntry { name: "mangalike.toml".to_string(), is_dir: false },
        FolderEntry { name: "exports".to_string(), is_dir: true },
        FolderEntry { name: "a - b.txt".to_string(), is_dir: false },
        FolderEntry { name: "hl984994 - Frieren".to_string(), is_dir: true },
    ];
    let mangas = get_mangas(&entries);
    assert_eq!(mangas.len(), 2);
    assert_eq!(mangas[0].id, "to970571");
    assert_eq!(mangas[0].title, "One Piece");
    assert_eq!(mangas[1].id, "hl984994");
    assert_eq!(mangas[1].title, "Frieren");
}

#[test]
fn added_manga_is_listed() {
    let folder = add_manga("hl984994", "Frieren", false).unwrap();
    let entries = vec![
        FolderEntry { name: "to970571 - One Piece".to_string(), is_dir: true },
        FolderEntry { name: folder, is_dir: true },
    ];
    let mangas = get_mangas(&entries);
    assert_eq!(ids(&mangas), vec!["to970571", "hl984994"]);
    assert_eq!(mangas[1].title, "Frieren");
}

// ----------------------------------------------------------------------------
// mangalike.toml
// ----------------------------------------------------------------------------

const CONFIG: &str = "to970571=146\nqm951521=76.5\nmv989778=14\nhl984994=36\n";

#[test]
fn starting_chapter_found_for_listed_manga() {
    let found = get_manga_starting_chapter("qm951521", CONFIG.as_bytes().to_vec());
    assert_eq!(found, Ok(Some("76.5".to_string())));
    let found = get_manga_starting_chapter("hl984994", CONFIG.as_bytes().to_vec());
    assert_eq!(found, Ok(Some("36".to_string())));
}

#[test]
fn starting_chapter_absent_for_other_manga() {
    assert_eq!(get_manga_starting_chapter("zz000000", CONFIG.as_bytes().to_vec()), Ok(None));
    assert_eq!(get_manga_starting_chapter("to970571", Vec::new()), Ok(None));
}

#[test]
fn starting_chapter_rejects_bytes_that_are_not_utf8() {
    assert_eq!(
        get_manga_starting_chapter("to970571", vec![0x74, 0xff, 0x3d, 0x31]),
        Err(ConfigError::NotUtf8)
    );
}

#[test]
fn starting_chapter_search_stops_at_line_without_equals() {
    assert_eq!(starting_chapter_of("a=1\nnot an entry\nb=2", "b"), None);
    assert_eq!(starting_chapter_of("\na=1", "a"), None);
}

#[test]
fn starting_chapter_first_entry_wins_and_keeps_later_equals() {
    assert_eq!(starting_chapter_of("a=1\na=2", "a"), Some("1".to_string()));
    assert_eq!(starting_chapter_of("a=b=c", "a"), Some("b=c".to_string()));
    assert_eq!(starting_chapter_of("é=ü", "é"), Some("ü".to_string()));
}

// ----------------------------------------------------------------------------
// Syncing
// ----------------------------------------------------------------------------

fn listed() -> Vec<SearchResult> {
    // The site lists the newest chapter first.
    vec![result("Chapter 4", "4"), result("Chapter 3", "3"), result("Chapter 2", "2"), result("Chapter 1", "1")]
}

#[test]
fn sync_without_start_keeps_all_in_reading_order() {
    assert_eq!(ids(&chapters_from_start(listed(), None)), vec!["1", "2", "3", "4"]);
}

#[test]
fn sync_from_start_chapter() {
    assert_eq!(ids(&chapters_from_start(listed(), Some("3"))), vec!["3", "4"]);
    assert_eq!(ids(&chapters_from_start(listed(), Some("1"))), vec!["1", "2", "3", "4"]);
    assert_eq!(ids(&chapters_from_start(listed(), Some("9"))), vec!["1", "2", "3", "4"]);
    assert!(chapters_from_start(Vec::new(), Some("1")).is_empty());
}

#[test]
fn sync_from_repeated_id_takes_last_in_reading_order() {
    let chapters = vec![result("d", "x"), result("c", "y"), result("b", "x"), result("a", "z")];
    let got = chapters_from_start(chapters, Some("x"));
    assert_eq!(ids(&got), vec!["x"]);
    assert_eq!(got[0].title, "d");
}

#[test]
fn order_file_lists_ids_one_per_line() {
    let chapters = chapters_from_start(listed(), Some("2"));
    let text = order_file_contents(&chapters);
    assert_eq!(text, "2\n3\n4\n");
    assert_eq!(order_lines(&text), vec!["2", "3", "4", ""]);
    assert_eq!(order_file_contents(&Vec::new()), "");
}

// ----------------------------------------------------------------------------
// Export
// ----------------------------------------------------------------------------

#[test]
fn export_names() {
    assert_eq!(image_resource_name("to970571", 12, 0), "manga-to970571-chapter-12-0.jpg");
    assert_eq!(image_resource_name("x", 0, 105), "manga-x-chapter-0-105.jpg");
    assert_eq!(chapter_file_name(7), "chapter-7.xhtml");
    assert_eq!(chapter_file_name(1234567890), "chapter-1234567890.xhtml");
    assert_eq!(chapter_title("76.5"), "Chapter 76.5");
    assert_eq!(image_file_name(10), "10.jpg");
    assert_eq!(book_file_name("One Piece"), "One Piece.epub");
}

#[test]
fn resource_names_are_distinct() {
    assert_ne!(image_resource_name("x", 1, 23), image_resource_name("x", 12, 3));
    assert_ne!(image_resource_name("x", 0, 10), image_resource_name("x", 1, 0));
}

#[test]
fn export_plan_for_chapter() {
    let plan = plan_chapter_export("ab", "146", 3, 2);
    assert_eq!(plan.resources, vec!["manga-ab-chapter-3-0.jpg", "manga-ab-chapter-3-1.jpg"]);
    assert_eq!(
        plan.body,
        "<img src=\"manga-ab-chapter-3-0.jpg\"></img><br><img src=\"manga-ab-chapter-3-1.jpg\"></img><br>"
    );
    assert_eq!(plan.page, Some(("chapter-3.xhtml".to_string(), "Chapter 146".to_string())));
}

#[test]
fn export_plan_for_blank_chapter_adds_images_only() {
    let plan = plan_chapter_export("ab", " \t", 4, 1);
    assert_eq!(plan.resources, vec!["manga-ab-chapter-4-0.jpg"]);
    assert_eq!(plan.page, None);
    let plan = plan_chapter_export("ab", "", 5, 0);
    assert!(plan.resources.is_empty());
    assert_eq!(plan.body, "");
    assert_eq!(plan.page, None);
}

#[test]
fn order_lines_split_like_str_split() {
    for text in ["", "a", "a\n", "\n\n", "1\n2\n3", "é\nü\n"] {
        let expected: Vec<String> = text.split('\n').map(|s| s.to_string()).collect();
        assert_eq!(order_lines(text), expected);
    }
}

#[test]
fn trimmed_matches_str_trim() {
    for text in ["", "  ", " a b ", "\u{3000}x\u{85}", "\t\n12\r\n", "x"] {
        assert_eq!(trimmed(text), text.trim());
    }
}

// ----------------------------------------------------------------------------
// Progress
// ----------------------------------------------------------------------------

#[test]
fn progress_messages_are_padded_to_thirty_bytes() {
    let m = progress_message(&manga_label("to970571", true));
    assert_eq!(m, "Manga [to970571 Checking]:    ");
    assert_eq!(m.len(), 30);
    let c = progress_message(&chapter_label("146", false));
    assert_eq!(c, format!("Chapter [146]:{}", " ".repeat(16)));
    let i = progress_message(IMAGE_LABEL);
    assert_eq!(i, format!("Image:{}", " ".repeat(24)));
    let exact = progress_message("abcdefghijklmnopqrstuvwxyz0123");
    assert_eq!(exact, "abcdefghijklmnopqrstuvwxyz0123");
    let wide = progress_message("é");
    assert_eq!(wide.len(), 30);
    assert_eq!(wide.chars().count(), 29);
}

#[test]
fn download_steps() {
    assert_eq!(next_download_action(DownloadEvent::Checked(true)), DownloadAction::ReportExisting);
    assert_eq!(next_download_action(DownloadEvent::Checked(false)), DownloadAction::Fetch);
    assert_eq!(next_download_action(DownloadEvent::Fetched(true)), DownloadAction::SaveAndReport);
    assert_eq!(next_download_action(DownloadEvent::Fetched(false)), DownloadAction::Check);
}

// ----------------------------------------------------------------------------
// Choosing a result
// ----------------------------------------------------------------------------

#[test]
fn choose_result_by_number() {
    assert_eq!(choose_result("1\n", 3), Choice::Selected(0));
    assert_eq!(choose_result("  3 ", 3), Choice::Selected(2));
    assert_eq!(choose_result("+2", 3), Choice::Selected(1));
    assert_eq!(choose_result("4", 3), Choice::OutOfRange);
    assert_eq!(choose_result("0", 3), Choice::OutOfRange);
    assert_eq!(choose_result("-1", 3), Choice::OutOfRange);
    assert_eq!(choose_result("0", 0), Choice::Retry);
    assert_eq!(choose_result("-2147483648", 3), Choice::Overflow);
    assert_eq!(choose_result("", 3), Choice::NotANumber);
    assert_eq!(choose_result("two", 3), Choice::NotANumber);
    assert_eq!(choose_result("2147483648", 3), Choice::NotANumber);
    assert_eq!(choose_index(2, 5), Choice::Selected(1));
}

#[test]
fn parse_i32_matches_std() {
    for text in [
        "0", "7", "-7", "+7", "", "-", "+", "12a", "2147483647", "2147483648", "-2147483648",
        "-2147483649", "0000000000000012", "99999999999999999999", "١",
    ] {
        let chars = chars_of(text);
        assert_eq!(parse_i32(&chars), text.parse::<i32>().ok(), "{}", text);
    }
}

#[test]
fn same_text_compares_characters() {
    assert!(same_text("abc", "abc"));
    assert!(!same_text("abc", "abd"));
    assert!(!same_text("abc", "ab"));
}

// ----------------------------------------------------------------------------
// The site's pages
// ----------------------------------------------------------------------------

#[test]
fn addresses() {
    let s = Scraper::default();
    assert_eq!(s.search_url("one piece"), "https://chapmanganato.com/search/story/one_piece");
    assert_eq!(s.manga_url("to970571"), "https://chapmanganato.com/manga-to970571");
    assert_eq!(
        s.chapter_url("to970571", "146"),
        "https://chapmanganato.com/manga-to970571/chapter-146"
    );
}

const SEARCH_PAGE: &str = r#"<html><body>
<div class="panel-search-story">
  <div class="search-story-item">
    <a class="item-img" href="https://chapmanganato.com/manga-to970571"><img src="a.jpg" alt="One Piece"></a>
    <a class="item-title" href="https://chapmanganato.com/manga-to970571">One Piece</a>
  </div>
  <div class="search-story-item">
    <a class="item-img" href="https://chapmanganato.com/manga-qm951521"><img src="b.jpg" alt="Berserk"></a>
  </div>
</div>
</body></html>"#;

#[test]
fn search_page_lists_results() {
    let results = Scraper::default().search_manga(SEARCH_PAGE).unwrap();
    assert_eq!(results.len(), 2);
    assert_eq!(results[0].title, "One Piece");
    assert_eq!(results[0].id, "to970571");
    assert_eq!(results[1].title, "Berserk");
    assert_eq!(results[1].id, "qm951521");
}

#[test]
fn search_page_without_results() {
    let s = Scraper::default();
    assert_eq!(s.search_manga("<html><body><p>nothing</p></body></html>").map(|v| v.len()), None);
    let empty_panel = r#"<div class="panel-search-story"></div>"#;
    assert!(s.search_manga(empty_panel).is_none());
}

#[test]
fn search_page_with_broken_entries() {
    let s = Scraper::default();
    let no_link = r#"<div class="panel-search-story"><div class="search-story-item"><p>x</p></div></div>"#;
    assert_eq!(s.read_search_page(no_link).unwrap_err(), ScrapeError::MissingElement);
    let no_alt = r#"<div class="panel-search-story"><div class="search-story-item"><a href="/manga-x"><img src="a"></a></div></div>"#;
    assert_eq!(s.read_search_page(no_alt).unwrap_err(), ScrapeError::MissingAttribute);
    let no_id = r#"<div class="panel-search-story"><div class="search-story-item"><a href="/comic-x"><img alt="t"></a></div></div>"#;
    assert_eq!(s.read_search_page(no_id).unwrap_err(), ScrapeError::MissingId);
}

const MANGA_PAGE: &str = r#"<html><body>
<div class="panel-story-chapter-list">
  <ul class="row-content-chapter">
    <li class="a-h"><a class="chapter-name" href="https://chapmanganato.com/manga-to970571/chapter-147" title="One Piece Chapter 147">Chapter 147</a></li>
    <li class="a-h"><a class="chapter-name" href="https://chapmanganato.com/manga-to970571/chapter-146" title="One Piece Chapter 146">Chapter 146</a></li>
    <li class="a-h"><a class="chapter-name" href="https://chapmanganato.com/manga-to970571/chapter-76.5" title="One Piece Chapter 76.5">Chapter 76.5</a></li>
  </ul>
</div>
</body></html>"#;

#[test]
fn manga_page_lists_chapters_newest_first() {
    let chapters = Scraper::default().get_chapters(MANGA_PAGE).unwrap();
    assert_eq!(ids(&chapters), vec!["147", "146", "76.5"]);
    assert_eq!(chapters[2].title, "One Piece Chapter 76.5");
    let synced = chapters_from_start(chapters, Some("146"));
    assert_eq!(ids(&synced), vec!["146", "147"]);
}

#[test]
fn manga_page_without_chapters() {
    let s = Scraper::default();
    assert!(s.get_chapters("<p>gone</p>").is_none());
    assert!(s.get_chapters(r#"<div class="panel-story-chapter-list"></div>"#).is_none());
    let empty_list = r#"<div class="panel-story-chapter-list"><ul class="row-content-chapter"></ul></div>"#;
    assert!(s.get_chapters(empty_list).is_none());
    let no_title = r#"<div class="panel-story-chapter-list"><ul class="row-content-chapter"><li><a href="/chapter-1">1</a></li></ul></div>"#;
    assert_eq!(s.read_chapters_page(no_title).unwrap_err(), ScrapeError::MissingAttribute);
}

const CHAPTER_PAGE: &str = r#"<html><body>
<div class="container-chapter-reader">
  <img src="https://v1.example/1.jpg" alt="page 1">
  <img src="https://v1.example/2.jpg" alt="page 2">
</div>
<img src="https://v1.example/ad.jpg">
</body></html>"#;

#[test]
fn chapter_page_lists_images() {
    let images = Scraper::default().get_chapter_images(CHAPTER_PAGE).unwrap();
    assert_eq!(images, vec!["https://v1.example/1.jpg", "https://v1.example/2.jpg"]);
}

#[test]
fn chapter_page_without_images() {
    let s = Scraper::default();
    assert!(s.get_chapter_images("<p></p>").is_none());
    assert!(s.get_chapter_images(r#"<div class="container-chapter-reader"></div>"#).is_none());
    let no_src = r#"<div class="container-chapter-reader"><img alt="x"></div>"#;
    assert_eq!(s.read_chapter_images_page(no_src).unwrap_err(), ScrapeError::MissingAttribute);
}

#[test]
fn link_ids_follow_their_marker() {
    assert_eq!(link_id("https://chapmanganato.com/manga-to970571", "manga-"), Ok("to970571".to_string()));
    assert_eq!(
        link_id("https://chapmanganato.com/manga-to970571/chapter-146", "chapter-"),
        Ok("146".to_string())
    );
    assert_eq!(link_id("/manga-a/manga-b", "manga-"), Ok("a/".to_string()));
    assert_eq!(link_id("/manga-", "manga-"), Ok("".to_string()));
    assert_eq!(link_id("/comic-a", "manga-"), Err(ScrapeError::MissingId));
}

#[test]
fn results_from_answers() {
    let some = |s: &str| Some(Some(s.to_string()));
    let r = result_from_answers(some("Berserk"), some("https://chapmanganato.com/manga-qm951521"), "manga-").unwrap();
    assert_eq!((r.title.as_str(), r.id.as_str()), ("Berserk", "qm951521"));
    assert_eq!(result_from_answers(Some(None), some("/manga-x"), "manga-").unwrap_err(), ScrapeError::MissingAttribute);
    assert_eq!(result_from_answers(None, some("/manga-x"), "manga-").unwrap_err(), ScrapeError::BadQuery);
    assert_eq!(result_from_answers(some("t"), Some(None), "manga-").unwrap_err(), ScrapeError::MissingAttribute);
    assert_eq!(result_from_answers(some("t"), some("/x"), "manga-").unwrap_err(), ScrapeError::MissingId);
    assert_eq!(required_value(some("v")), Ok("v".to_string()));
    assert_eq!(required_value(None), Err(ScrapeError::BadQuery));
}

#[test]
fn export_steps() {
    assert_eq!(next_export_action(ExportProbe::ChapterFolder(true)), ExportAction::ProbeImage(0));
    assert_eq!(next_export_action(ExportProbe::ChapterFolder(false)), ExportAction::Stop);
    assert_eq!(next_export_action(ExportProbe::ImageFile(4, true)), ExportAction::ProbeImage(5));
    assert_eq!(next_export_action(ExportProbe::ImageFile(4, false)), ExportAction::AddChapter(4));
    // A chapter whose folder holds 0.jpg, 1.jpg and 3.jpg has two images.
    let present = [true, true, false, true];
    let mut action = next_export_action(ExportProbe::ChapterFolder(true));
    while let ExportAction::ProbeImage(j) = action {
        action = next_export_action(ExportProbe::ImageFile(j, present.get(j).copied().unwrap_or(false)));
    }
    assert_eq!(action, ExportAction::AddChapter(2));
}

#[test]
fn sync_image_requests_retry_until_received() {
    assert_eq!(after_image_request(true), ImageRequest::Save);
    assert_eq!(after_image_request(false), ImageRequest::Retry);
}

#[test]
fn added_manga_listed_once_wherever_its_folder_stands() {
    let folder = add_manga("hl984994", "Frieren", false).unwrap();
    let entries = vec![
        FolderEntry { name: "to970571 - One Piece".to_string(), is_dir: true },
        FolderEntry { name: folder, is_dir: true },
        FolderEntry { name: "qm951521 - Berserk".to_string(), is_dir: true },
    ];
    let mangas = get_mangas(&entries);
    let found: Vec<_> = mangas.iter().filter(|m| m.id == "hl984994" && m.title == "Frieren").collect();
    assert_eq!(found.len(), 1);
}

#[test]
fn ids_lead_back_to_their_pages() {
    let s = Scraper::default();
    let results = s.search_manga(SEARCH_PAGE).unwrap();
    assert_eq!(s.read_search_page(SEARCH_PAGE).unwrap().unwrap().len(), results.len());
    assert_eq!(s.manga_url(&results[0].id), "https://chapmanganato.com/manga-to970571");
    let chapters = s.get_chapters(MANGA_PAGE).unwrap();
    assert_eq!(
        s.chapter_url("to970571", &chapters[1].id),
        "https://chapmanganato.com/manga-to970571/chapter-146"
    );
}
