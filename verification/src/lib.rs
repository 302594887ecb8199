//! Render pipeline of a Markdown document server: document scraping, peer
//! discovery, page composition, the bounded result cache and the search index
//! bookkeeping, each with a verified contract.

pub mod access_log_format;
pub mod anchors;
pub mod cache_info;
pub mod chimera_error;
pub mod document_scraper;
pub mod file_manager;
pub mod full_text_index;
pub mod html_generator;
pub mod image_size_cache;
pub mod markdown;
pub mod metadata;
pub mod perf_timer;
pub mod result_cache;
pub mod server;
pub mod text;
pub mod title_finder;
pub mod toml_config;
