//! A verified core for a webcomic-catalogue crawler and search tool.
//!
//! The library holds the logic that is worth stating precisely: the text
//! extraction rules that turn parsed wiki pages into typed records, the
//! record assembly and ordering done by the crawl pipeline, and the
//! multi-pattern, multi-field search engine over the finished catalogue.
//! Network transport, HTML parsing and persistence are collaborators that
//! live outside this crate; they hand the library plain values.

pub mod crawler;
pub mod page;
pub mod search;
pub mod text;
pub mod utils;
