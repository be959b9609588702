//! A single-site crawler core: URL normalization, frontier and visited-set
//! management, link filtering, priority scoring and response classification
//! for building a sitemap.
//!
//! The crawl engine itself never performs I/O: an outer driver fetches each
//! URL that [`engine::CrawlEngine::next_url`] hands out and reports the
//! outcome back through [`engine::CrawlEngine::handle_event`].

pub mod config;
pub mod engine;
pub mod frontier;
pub mod html;
pub mod rules;
pub mod score;
pub mod scores;
pub mod text;
pub mod urlops;
