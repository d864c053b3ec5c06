//! Where things stand on the site's pages, as CSS selectors.
use vstd::prelude::*;

verus! {

/// The panel of a search page that lists the results.
pub const RESULTS_PANEL: &'static str = ".panel-search-story";

/// One result within that panel.
pub const RESULTS: &'static str = ".search-story-item";

/// A link.
pub const URL: &'static str = "a";

/// An image.
pub const IMG: &'static str = "img";

/// The panel of a manga page that lists its chapters.
pub const CHAPTERS_PANEL: &'static str = ".panel-story-chapter-list";

/// The list of chapters within that panel.
pub const CHAPTERS_LIST: &'static str = ".row-content-chapter";

/// One chapter within that list.
pub const CHAPTERS: &'static str = "li";

/// The panel of a chapter page that holds its images.
pub const CHAPTER_IMAGES_PANEL: &'static str = ".container-chapter-reader";

} // verus!
