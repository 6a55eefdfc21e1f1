//! A search provider that drives a remote-debugging browser session, with the logic that
//! checks debug-endpoint URLs, provisions containerized browsers and falls back between
//! browser backends.
pub mod browser;
pub mod docker;
pub mod download;
pub mod endpoint;
pub mod fallback;
pub mod scraper;
