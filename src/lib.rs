//! A web page scraper: URL normalization, domain-scoped link filtering,
//! breadth-first crawl control, structured content extraction from parsed
//! pages, anti-bot heuristics and HTTP status classification.

pub mod antibot;
pub mod crawl;
pub mod domain;
pub mod error;
pub mod extract;
pub mod html;
pub mod model;
pub mod page;
pub mod report;
pub mod status;
pub mod strset;
pub mod summary;
pub mod text;
pub mod url;

pub use antibot::detect_anti_bot_features;
pub use crawl::{CrawlConfig, Crawler};
pub use domain::{parse_domain_list, should_add_to_crawl_queue};
pub use error::ScraperError;
pub use extract::{
    extract_code_blocks, extract_headings, extract_images, extract_links, extract_metadata,
    extract_paragraphs, extract_tables, extract_title, process_custom_selectors,
};
pub use html::{CssQuery, Document};
pub use model::{CodeBlock, CustomSelectorResult, Image, Link, Metadata, ScrapedData, Table};
pub use page::{scrape_page, ScrapeOptions};
pub use report::{
    format_text, format_text_custom_selectors, format_text_list, format_text_metadata,
};
pub use status::classify_http_status;
pub use strset::TextSet;
pub use summary::format_csv;
pub use text::truncate_text;
pub use url::{is_same_domain, normalize_url, select_url_lines, urls_from_lines, WebUrl};
