//! The crawl frontier of a breadth-first web crawler: URL normalisation,
//! link collection, robots directives and the generation-by-generation
//! scheduling of fetches.
//!
//! The library decides; it neither fetches nor tokenizes. A caller drives
//! a [`frontier::CrawlSession`], does the fetches that it asks for, and
//! hands the answers back as plain values.
//!
//! - [`text`]: strings as sequences of characters.
//! - [`web`]: the operations of the `url` crate, by name.
//! - [`query`]: removal of tracking parameters from a query string.
//! - [`url_utils`]: from a link on a page to its candidate URLs.
//! - [`html`]: the links and the `<meta>` directives of a page.
//! - [`robots`]: the policies of sites and their cache.
//! - [`frontier`]: the session that schedules the fetches.

pub mod frontier;
pub mod html;
pub mod query;
pub mod robots;
pub mod text;
pub mod url_utils;
pub mod web;
