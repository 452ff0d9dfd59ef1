//! Scraping one fetched page: status, anti-bot check, then every facet.

use vstd::prelude::*;
use crate::antibot::{anti_bot_reason, detect_anti_bot_features};
use crate::error::ScraperError;
use crate::extract::{
    code_blocks_of, custom_views, extract_code_blocks, extract_headings, extract_images,
    extract_links, extract_metadata, extract_paragraphs, extract_tables, extract_title, is_page_metadata,
    headings_of, images_from, kept_texts, links_from, process_custom_selectors, selector_result,
    tables_from, tagged, title_of,
};
use crate::html::{css_valid, selected, DocView, Document};
use crate::model::{code_views, image_views, link_views, opt_view, table_views, texts, ScrapedData};
use crate::status::{classify_http_status, is_success, rate_limit_message, status_message};
use crate::text::{concat_str, owned};
use crate::url::{is_absolute, normalized, opens_with_scheme, url_parse, WebUrl};

verus! {

/// What to extract beyond the fixed facets.
pub struct ScrapeOptions {
    /// Whether to read the page's metadata.
    pub metadata: bool,
    /// CSS selectors whose matches to collect, in order.
    pub selectors: Vec<String>,
}

pub open spec fn page_doc(body: Seq<char>) -> DocView {
    DocView { source: body, fragment: false }
}

pub open spec fn all_valid(selectors: Seq<String>) -> bool {
    forall|i: int| 0 <= i < selectors.len() ==> css_valid(#[trigger] selectors[i]@)
}

/// The pipeline reaches extraction: the status is a success, the URL parses
/// and no bot challenge shows.
pub open spec fn passes_checks(url: Seq<char>, status_code: u16, body: Seq<char>) -> bool {
    is_success(status_code) && url_parse(url) is Some && anti_bot_reason(
        body,
        title_of(page_doc(body)),
    ) is None
}

/// Scrapes a fetched page: fails on a non-success status, on a URL that does
/// not parse, on a bot challenge, or on a selector that does not parse;
/// otherwise extracts every facet from the body.
#[verifier::rlimit(30)]
pub fn scrape_page(
    url: &str,
    status_code: u16,
    body: &str,
    options: &ScrapeOptions,
    depth: Option<usize>,
) -> (r: Result<ScrapedData, ScraperError>)
    ensures
        !is_success(status_code) ==> r is Err,
        status_code == 429 ==> (r matches Err(ScraperError::RateLimited(m)) && m@ == rate_limit_message(url@)),
        !is_success(status_code) && status_code != 429 ==> (r matches Err(ScraperError::HttpStatus(c, m))
            && c == status_code && m@ == status_message(status_code, url@)),
        is_success(status_code) && url_parse(url@) is None ==> r matches Err(ScraperError::InvalidUrl(_)),
        is_success(status_code) && url_parse(url@) is Some ==> (anti_bot_reason(body@, title_of(page_doc(body@))) matches Some(m)
            ==> r matches Err(ScraperError::AntiBotDetected(x)) && x@ == m),
        passes_checks(url@, status_code, body@) ==> (r is Ok <==> all_valid(options.selectors@)),
        passes_checks(url@, status_code, body@) && !all_valid(options.selectors@) ==> r matches Err(ScraperError::InvalidSelector(_)),
        r matches Ok(p) ==> ({
            let doc = page_doc(body@);
            let base = url_parse(url@)->Some_0.href;
            &&& passes_checks(url@, status_code, body@)
            &&& p.url@ == url@
            &&& p.status_code == status_code
            &&& opt_view(p.title) == title_of(doc)
            &&& texts(p.headings@) == headings_of(doc)
            &&& texts(p.paragraphs@) == kept_texts(tagged(doc, "p"@))
            &&& link_views(p.links@) == links_from(selected(doc, "a"@, seq!["href"@]), base)
            &&& image_views(p.images@) == images_from(selected(doc, "img"@, seq!["src"@, "alt"@]), base)
            &&& forall|j: int| 0 <= j < p.links@.len() ==> opens_with_scheme(#[trigger] p.links@[j].url@)
            &&& forall|j: int| 0 <= j < p.images@.len() ==> opens_with_scheme(#[trigger] p.images@[j].src@)
            &&& forall|j: int| 0 <= j < p.links@.len() ==> (is_absolute(base) ==> is_absolute(#[trigger] p.links@[j].url@)
                || exists|h: Seq<char>| opens_with_scheme(h) && normalized(base, h) == Some(p.links@[j].url@))
            &&& forall|j: int| 0 <= j < p.images@.len() ==> (is_absolute(base) ==> is_absolute(#[trigger] p.images@[j].src@)
                || exists|h: Seq<char>| opens_with_scheme(h) && normalized(base, h) == Some(p.images@[j].src@))
            &&& table_views(p.tables@) == tables_from(tagged(doc, "table"@))
            &&& code_views(p.code_blocks@) == code_blocks_of(doc)
            &&& (p.metadata is Some <==> options.metadata)
            &&& (p.metadata matches Some(m) ==> is_page_metadata(m, doc))
            &&& p.custom_selectors@.len() == options.selectors@.len()
            &&& forall|i: int| 0 <= i < options.selectors@.len() ==> #[trigger] custom_views(p.custom_selectors@)[i]
                == selector_result(doc, options.selectors@[i]@)
            &&& p.depth == depth
        }),
{
    match classify_http_status(status_code, url) {
        Ok(()) => {},
        Err(e) => return Err(e),
    }
    let document = Document::parse(body);
    let base_url = match WebUrl::parse(url) {
        Some(u) => u,
        None => return Err(ScraperError::InvalidUrl(concat_str(url, ": not an absolute URL"))),
    };
    let title = extract_title(&document);
    let title_ref: Option<&str> = match &title {
        Some(t) => Some(t.as_str()),
        None => None,
    };
    match detect_anti_bot_features(body, title_ref) {
        Some(m) => return Err(ScraperError::AntiBotDetected(m)),
        None => {},
    }
    let headings = extract_headings(&document);
    let paragraphs = extract_paragraphs(&document);
    let links = extract_links(&document, &base_url);
    let images = extract_images(&document, &base_url);
    let tables = extract_tables(&document);
    let code_blocks = extract_code_blocks(&document);
    let metadata = if options.metadata {
        Some(extract_metadata(&document))
    } else {
        None
    };
    let custom_selectors = match process_custom_selectors(&document, options.selectors.as_slice()) {
        Ok(v) => v,
        Err(e) => return Err(e),
    };
    Ok(ScrapedData {
        url: owned(url),
        status_code,
        title,
        headings,
        paragraphs,
        links,
        images,
        tables,
        code_blocks,
        metadata,
        custom_selectors,
        depth,
    })
}

} // verus!
