//! Keeping a manga library in sync with the chapmanganato site.
pub mod export;
pub mod manga_list;
pub mod page;
pub mod scrape;
pub mod selectors;
pub mod structs;
pub mod text;
pub mod utils;
pub mod sync;
pub mod progress;
pub mod query;
