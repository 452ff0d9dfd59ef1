use simple_web_scraper::{
    extract_code_blocks, extract_headings, extract_images, extract_links, extract_metadata,
    extract_paragraphs, extract_tables, extract_title, process_custom_selectors, scrape_page,
    Document, ScrapeOptions, ScraperError, WebUrl,
};

#[test]
fn test_extract_title_present() {
    let html = r#"<html><head><title>Test Page Title</title></head><body></body></html>"#;
    let document = Document::parse(html);
    let title = extract_title(&document);
    assert_eq!(title, Some("Test Page Title".to_string()));
}

#[test]
fn test_extract_title_with_whitespace() {
    let html = r#"<html><head><title>  Trimmed Title  </title></head><body></body></html>"#;
    let document = Document::parse(html);
    let title = extract_title(&document);
    assert_eq!(title, Some("Trimmed Title".to_string()));
}

#[test]
fn test_extract_title_missing() {
    let html = r#"<html><head></head><body></body></html>"#;
    let document = Document::parse(html);
    let title = extract_title(&document);
    assert_eq!(title, None);
}

#[test]
fn test_extract_title_empty() {
    let html = r#"<html><head><title></title></head><body></body></html>"#;
    let document = Document::parse(html);
    let title = extract_title(&document);
    assert_eq!(title, Some("".to_string()));
}

// ========== Headings Extraction Tests ==========

#[test]
fn test_extract_headings_all_levels() {
    let html = r#"
        <html><body>
            <h1>Heading 1</h1>
            <h2>Heading 2</h2>
            <h3>Heading 3</h3>
            <h4>Heading 4</h4>
            <h5>Heading 5</h5>
            <h6>Heading 6</h6>
        </body></html>
    "#;
    let document = Document::parse(html);
    let headings = extract_headings(&document);
    assert_eq!(headings.len(), 6);
    assert_eq!(headings[0], "Heading 1");
    assert_eq!(headings[5], "Heading 6");
}

#[test]
fn test_extract_headings_empty() {
    let html = r#"<html><body><p>No headings here</p></body></html>"#;
    let document = Document::parse(html);
    let headings = extract_headings(&document);
    assert_eq!(headings.len(), 0);
}

#[test]
fn test_extract_headings_filters_empty() {
    let html = r#"
        <html><body>
            <h1>Valid Heading</h1>
            <h2>   </h2>
            <h3></h3>
        </body></html>
    "#;
    let document = Document::parse(html);
    let headings = extract_headings(&document);
    assert_eq!(headings.len(), 1);
    assert_eq!(headings[0], "Valid Heading");
}

#[test]
fn test_extract_headings_trims_whitespace() {
    let html = r#"<html><body><h1>  Trimmed  </h1></body></html>"#;
    let document = Document::parse(html);
    let headings = extract_headings(&document);
    assert_eq!(headings[0], "Trimmed");
}

// ========== Paragraphs Extraction Tests ==========

#[test]
fn test_extract_paragraphs_multiple() {
    let html = r#"
        <html><body>
            <p>First paragraph</p>
            <p>Second paragraph</p>
            <p>Third paragraph</p>
        </body></html>
    "#;
    let document = Document::parse(html);
    let paragraphs = extract_paragraphs(&document);
    assert_eq!(paragraphs.len(), 3);
    assert_eq!(paragraphs[0], "First paragraph");
}

#[test]
fn test_extract_paragraphs_filters_empty() {
    let html = r#"
        <html><body>
            <p>Valid paragraph</p>
            <p></p>
            <p>   </p>
        </body></html>
    "#;
    let document = Document::parse(html);
    let paragraphs = extract_paragraphs(&document);
    assert_eq!(paragraphs.len(), 1);
    assert_eq!(paragraphs[0], "Valid paragraph");
}

#[test]
fn test_extract_paragraphs_none() {
    let html = r#"<html><body><div>Not a paragraph</div></body></html>"#;
    let document = Document::parse(html);
    let paragraphs = extract_paragraphs(&document);
    assert_eq!(paragraphs.len(), 0);
}

// ========== Links Extraction Tests ==========

#[test]
fn test_extract_links_absolute() {
    let html = r#"
        <html><body>
            <a href="https://example.com/page">Link Text</a>
        </body></html>
    "#;
    let document = Document::parse(html);
    let base_url = WebUrl::parse("https://example.com").unwrap();
    let links = extract_links(&document, &base_url);

    assert_eq!(links.len(), 1);
    assert_eq!(links[0].text, "Link Text");
    assert_eq!(links[0].url, "https://example.com/page");
}

#[test]
fn test_extract_links_relative() {
    let html = r#"
        <html><body>
            <a href="/about">About</a>
        </body></html>
    "#;
    let document = Document::parse(html);
    let base_url = WebUrl::parse("https://example.com").unwrap();
    let links = extract_links(&document, &base_url);

    assert_eq!(links.len(), 1);
    assert_eq!(links[0].text, "About");
    assert_eq!(links[0].url, "https://example.com/about");
}

#[test]
fn test_extract_links_empty_text_uses_href() {
    let html = r#"
        <html><body>
            <a href="/contact"></a>
        </body></html>
    "#;
    let document = Document::parse(html);
    let base_url = WebUrl::parse("https://example.com").unwrap();
    let links = extract_links(&document, &base_url);

    assert_eq!(links.len(), 1);
    assert_eq!(links[0].text, "/contact");
}

#[test]
fn test_extract_links_no_href() {
    let html = r#"
        <html><body>
            <a>No href attribute</a>
        </body></html>
    "#;
    let document = Document::parse(html);
    let base_url = WebUrl::parse("https://example.com").unwrap();
    let links = extract_links(&document, &base_url);

    assert_eq!(links.len(), 0);
}

#[test]
fn test_extract_links_protocol_relative() {
    let html = r#"
        <html><body>
            <a href="//cdn.example.com/page">CDN Link</a>
        </body></html>
    "#;
    let document = Document::parse(html);
    let base_url = WebUrl::parse("https://example.com").unwrap();
    let links = extract_links(&document, &base_url);

    assert_eq!(links.len(), 1);
    assert_eq!(links[0].url, "https://cdn.example.com/page");
}

// ========== Images Extraction Tests ==========

#[test]
fn test_extract_images_absolute() {
    let html = r#"
        <html><body>
            <img src="https://example.com/image.jpg" alt="Test Image">
        </body></html>
    "#;
    let document = Document::parse(html);
    let base_url = WebUrl::parse("https://example.com").unwrap();
    let images = extract_images(&document, &base_url);

    assert_eq!(images.len(), 1);
    assert_eq!(images[0].alt, "Test Image");
    assert_eq!(images[0].src, "https://example.com/image.jpg");
}

#[test]
fn test_extract_images_relative() {
    let html = r#"
        <html><body>
            <img src="/images/photo.jpg" alt="Photo">
        </body></html>
    "#;
    let document = Document::parse(html);
    let base_url = WebUrl::parse("https://example.com").unwrap();
    let images = extract_images(&document, &base_url);

    assert_eq!(images.len(), 1);
    assert_eq!(images[0].src, "https://example.com/images/photo.jpg");
}

#[test]
fn test_extract_images_no_alt() {
    let html = r#"
        <html><body>
            <img src="https://example.com/image.jpg">
        </body></html>
    "#;
    let document = Document::parse(html);
    let base_url = WebUrl::parse("https://example.com").unwrap();
    let images = extract_images(&document, &base_url);

    assert_eq!(images.len(), 1);
    assert_eq!(images[0].alt, "");
}

#[test]
fn test_extract_images_protocol_relative() {
    let html = r#"
        <html><body>
            <img src="//cdn.example.com/image.jpg" alt="CDN Image">
        </body></html>
    "#;
    let document = Document::parse(html);
    let base_url = WebUrl::parse("https://example.com").unwrap();
    let images = extract_images(&document, &base_url);

    assert_eq!(images.len(), 1);
    assert_eq!(images[0].src, "https://cdn.example.com/image.jpg");
}

#[test]
fn test_extract_images_no_src() {
    let html = r#"
        <html><body>
            <img alt="No source">
        </body></html>
    "#;
    let document = Document::parse(html);
    let base_url = WebUrl::parse("https://example.com").unwrap();
    let images = extract_images(&document, &base_url);

    assert_eq!(images.len(), 0);
}

// ========== Metadata Extraction Tests ==========

#[test]
fn test_extract_metadata_complete() {
    let html = r#"
        <html><head>
            <meta name="description" content="Test description">
            <meta name="keywords" content="test, keywords">
            <meta name="author" content="Test Author">
            <meta property="og:title" content="OG Title">
            <meta property="og:description" content="OG Description">
            <meta property="og:image" content="https://example.com/og.jpg">
            <meta property="og:url" content="https://example.com">
            <link rel="canonical" href="https://example.com/canonical">
            <link rel="icon" href="/favicon.ico">
        </head><body></body></html>
    "#;
    let document = Document::parse(html);
    let metadata = extract_metadata(&document);

    assert_eq!(metadata.description, Some("Test description".to_string()));
    assert_eq!(metadata.keywords, Some("test, keywords".to_string()));
    assert_eq!(metadata.author, Some("Test Author".to_string()));
    assert_eq!(metadata.og_title, Some("OG Title".to_string()));
    assert_eq!(metadata.og_description, Some("OG Description".to_string()));
    assert_eq!(metadata.og_image, Some("https://example.com/og.jpg".to_string()));
    assert_eq!(metadata.og_url, Some("https://example.com".to_string()));
    assert_eq!(metadata.canonical_url, Some("https://example.com/canonical".to_string()));
    assert_eq!(metadata.favicon, Some("/favicon.ico".to_string()));
}

#[test]
fn test_extract_metadata_empty() {
    let html = r#"<html><head></head><body></body></html>"#;
    let document = Document::parse(html);
    let metadata = extract_metadata(&document);

    assert_eq!(metadata.description, None);
    assert_eq!(metadata.keywords, None);
    assert_eq!(metadata.author, None);
    assert_eq!(metadata.og_title, None);
}

#[test]
fn test_extract_metadata_partial() {
    let html = r#"
        <html><head>
            <meta name="description" content="Just description">
            <meta property="og:title" content="Just OG title">
        </head><body></body></html>
    "#;
    let document = Document::parse(html);
    let metadata = extract_metadata(&document);

    assert_eq!(metadata.description, Some("Just description".to_string()));
    assert_eq!(metadata.og_title, Some("Just OG title".to_string()));
    assert_eq!(metadata.keywords, None);
    assert_eq!(metadata.author, None);
}

#[test]
fn test_extract_metadata_shortcut_icon() {
    let html = r#"
        <html><head>
            <link rel="shortcut icon" href="/favicon.png">
        </head><body></body></html>
    "#;
    let document = Document::parse(html);
    let metadata = extract_metadata(&document);

    assert_eq!(metadata.favicon, Some("/favicon.png".to_string()));
}

// ========== Custom Selectors Tests ==========

#[test]
fn test_process_custom_selectors_valid() {
    let html = r#"
        <html><body>
            <div class="item">Item 1</div>
            <div class="item">Item 2</div>
            <div class="item">Item 3</div>
        </body></html>
    "#;
    let document = Document::parse(html);
    let selectors = vec![".item".to_string()];
    let results = process_custom_selectors(&document, &selectors).unwrap();

    assert_eq!(results.len(), 1);
    assert_eq!(results[0].selector, ".item");
    assert_eq!(results[0].matches.len(), 3);
    assert_eq!(results[0].matches[0], "Item 1");
}

#[test]
fn test_process_custom_selectors_multiple() {
    let html = r#"
        <html><body>
            <h1>Heading</h1>
            <p class="intro">Intro paragraph</p>
        </body></html>
    "#;
    let document = Document::parse(html);
    let selectors = vec!["h1".to_string(), ".intro".to_string()];
    let results = process_custom_selectors(&document, &selectors).unwrap();

    assert_eq!(results.len(), 2);
    assert_eq!(results[0].matches[0], "Heading");
    assert_eq!(results[1].matches[0], "Intro paragraph");
}

#[test]
fn test_process_custom_selectors_no_matches() {
    let html = r#"<html><body><p>Content</p></body></html>"#;
    let document = Document::parse(html);
    let selectors = vec![".nonexistent".to_string()];
    let results = process_custom_selectors(&document, &selectors).unwrap();

    assert_eq!(results.len(), 1);
    assert_eq!(results[0].matches.len(), 0);
}

#[test]
fn test_process_custom_selectors_invalid() {
    let html = r#"<html><body></body></html>"#;
    let document = Document::parse(html);
    let selectors = vec!["invalid[[[selector".to_string()];
    let result = process_custom_selectors(&document, &selectors);

    assert!(result.is_err());
}

#[test]
fn test_process_custom_selectors_filters_empty() {
    let html = r#"
        <html><body>
            <div class="item">Valid</div>
            <div class="item">   </div>
            <div class="item"></div>
        </body></html>
    "#;
    let document = Document::parse(html);
    let selectors = vec![".item".to_string()];
    let results = process_custom_selectors(&document, &selectors).unwrap();

    assert_eq!(results[0].matches.len(), 1);
    assert_eq!(results[0].matches[0], "Valid");
}

#[test]
fn test_extract_tables_with_headers() {
    let html = r#"
        <html><body>
            <table>
                <tr><th>Name</th><th>Age</th></tr>
                <tr><td>Alice</td><td>30</td></tr>
                <tr><td>Bob</td><td>25</td></tr>
            </table>
        </body></html>
    "#;
    let document = Document::parse(html);
    let tables = extract_tables(&document);

    assert_eq!(tables.len(), 1);
    assert_eq!(tables[0].headers, vec!["Name", "Age"]);
    assert_eq!(tables[0].rows.len(), 2);
    assert_eq!(tables[0].rows[0], vec!["Alice", "30"]);
    assert_eq!(tables[0].rows[1], vec!["Bob", "25"]);
}

#[test]
fn test_extract_tables_without_headers() {
    let html = r#"
        <html><body>
            <table>
                <tr><td>Data 1</td><td>Data 2</td></tr>
                <tr><td>Data 3</td><td>Data 4</td></tr>
            </table>
        </body></html>
    "#;
    let document = Document::parse(html);
    let tables = extract_tables(&document);

    assert_eq!(tables.len(), 1);
    assert_eq!(tables[0].headers.len(), 0);
    assert_eq!(tables[0].rows.len(), 2);
    assert_eq!(tables[0].rows[0], vec!["Data 1", "Data 2"]);
}

#[test]
fn test_extract_tables_multiple() {
    let html = r#"
        <html><body>
            <table>
                <tr><th>Column 1</th></tr>
                <tr><td>Value 1</td></tr>
            </table>
            <table>
                <tr><td>Table 2</td></tr>
            </table>
        </body></html>
    "#;
    let document = Document::parse(html);
    let tables = extract_tables(&document);

    assert_eq!(tables.len(), 2);
    assert_eq!(tables[0].headers, vec!["Column 1"]);
    assert_eq!(tables[1].rows.len(), 1);
}

#[test]
fn test_extract_tables_none() {
    let html = r#"<html><body><p>No tables here</p></body></html>"#;
    let document = Document::parse(html);
    let tables = extract_tables(&document);

    assert_eq!(tables.len(), 0);
}

#[test]
fn test_extract_tables_empty() {
    let html = r#"<html><body><table></table></body></html>"#;
    let document = Document::parse(html);
    let tables = extract_tables(&document);

    assert_eq!(tables.len(), 0);
}

// ========== Code Blocks Extraction Tests ==========

#[test]
fn test_extract_code_blocks_pre_code() {
    let html = r#"
        <html><body>
            <pre><code>function hello() {
console.log("Hello");
}</code></pre>
        </body></html>
    "#;
    let document = Document::parse(html);
    let code_blocks = extract_code_blocks(&document);

    assert_eq!(code_blocks.len(), 1);
    assert!(code_blocks[0].content.contains("function hello()"));
    assert_eq!(code_blocks[0].language, None);
}

#[test]
fn test_extract_code_blocks_with_language() {
    let html = r#"
        <html><body>
            <pre><code class="language-rust">fn main() {
println!("Hello");
}</code></pre>
        </body></html>
    "#;
    let document = Document::parse(html);
    let code_blocks = extract_code_blocks(&document);

    assert_eq!(code_blocks.len(), 1);
    assert!(code_blocks[0].content.contains("fn main()"));
    assert_eq!(code_blocks[0].language, Some("rust".to_string()));
}

#[test]
fn test_extract_code_blocks_lang_prefix() {
    let html = r#"
        <html><body>
            <pre><code class="lang-python">def hello():
print("Hello")</code></pre>
        </body></html>
    "#;
    let document = Document::parse(html);
    let code_blocks = extract_code_blocks(&document);

    assert_eq!(code_blocks.len(), 1);
    assert!(code_blocks[0].content.contains("def hello()"));
    assert_eq!(code_blocks[0].language, Some("python".to_string()));
}

#[test]
fn test_extract_code_blocks_pre_only() {
    let html = r#"
        <html><body>
            <pre>Plain preformatted text</pre>
        </body></html>
    "#;
    let document = Document::parse(html);
    let code_blocks = extract_code_blocks(&document);

    assert_eq!(code_blocks.len(), 1);
    assert_eq!(code_blocks[0].content, "Plain preformatted text");
    assert_eq!(code_blocks[0].language, None);
}

#[test]
fn test_extract_code_blocks_inline_code() {
    let html = r#"
        <html><body>
            <p>Use the <code>print()</code> function</p>
        </body></html>
    "#;
    let document = Document::parse(html);
    let code_blocks = extract_code_blocks(&document);

    assert_eq!(code_blocks.len(), 1);
    assert_eq!(code_blocks[0].content, "print()");
    assert_eq!(code_blocks[0].language, None);
}

#[test]
fn test_extract_code_blocks_multiple() {
    let html = r#"
        <html><body>
            <pre><code>code block 1</code></pre>
            <pre><code>code block 2</code></pre>
        </body></html>
    "#;
    let document = Document::parse(html);
    let code_blocks = extract_code_blocks(&document);

    assert_eq!(code_blocks.len(), 2);
    assert_eq!(code_blocks[0].content, "code block 1");
    assert_eq!(code_blocks[1].content, "code block 2");
}

#[test]
fn test_extract_code_blocks_none() {
    let html = r#"<html><body><p>No code blocks here</p></body></html>"#;
    let document = Document::parse(html);
    let code_blocks = extract_code_blocks(&document);

    assert_eq!(code_blocks.len(), 0);
}

#[test]
fn test_extract_code_blocks_filters_empty() {
    let html = r#"
        <html><body>
            <pre><code>Valid code</code></pre>
            <pre><code>   </code></pre>
            <pre><code></code></pre>
        </body></html>
    "#;
    let document = Document::parse(html);
    let code_blocks = extract_code_blocks(&document);

    assert_eq!(code_blocks.len(), 1);
    assert_eq!(code_blocks[0].content, "Valid code");
}

#[test]
fn table_without_headers_counts_rows_with_cells() {
    let html = r#"<table><tr><td>a</td></tr><tr></tr><tr><td> b </td><td>c</td></tr></table>"#;
    let document = Document::parse(html);
    let tables = extract_tables(&document);
    assert_eq!(tables.len(), 1);
    assert!(tables[0].headers.is_empty());
    assert_eq!(tables[0].rows.len(), 2);
    assert_eq!(tables[0].rows[1], vec!["b", "c"]);
}

#[test]
fn nested_table_cells_merge_into_outer() {
    let html = r#"<table><tr><td>outer<table><tr><td>inner</td></tr></table></td></tr></table>"#;
    let document = Document::parse(html);
    let tables = extract_tables(&document);
    assert_eq!(tables.len(), 2);
    assert_eq!(tables[0].rows.len(), 2);
    assert_eq!(tables[1].rows, vec![vec!["inner"]]);
}

#[test]
fn code_block_language_scenario() {
    let document = Document::parse(r#"<pre><code class="language-rust">fn main(){}</code></pre>"#);
    let blocks = extract_code_blocks(&document);
    assert_eq!(blocks.len(), 1);
    assert_eq!(blocks[0].content, "fn main(){}");
    assert_eq!(blocks[0].language, Some("rust".to_string()));
}

#[test]
fn inline_code_keeps_whitespace_and_class_language() {
    let document = Document::parse(r#"<p>Run <code class="x  lang-sh y"> ls -l </code> and <code>  </code></p>"#);
    let blocks = extract_code_blocks(&document);
    assert_eq!(blocks.len(), 1);
    assert_eq!(blocks[0].content, " ls -l ");
    assert_eq!(blocks[0].language, Some("sh".to_string()));
}

#[test]
fn pre_with_several_codes_and_blank_pre() {
    let document = Document::parse(r#"<pre><code>a</code><code class="language-go">b</code></pre><pre>   </pre>"#);
    let blocks = extract_code_blocks(&document);
    assert_eq!(blocks.len(), 2);
    assert_eq!(blocks[0].content, "a");
    assert_eq!(blocks[0].language, None);
    assert_eq!(blocks[1].language, Some("go".to_string()));
}

#[test]
fn metadata_key_case_and_last_wins() {
    let html = r#"<head><meta name="Description" content="first"><meta property="description" content="second"><meta name="author"><link rel="ICON" href="/a.ico"><link rel="canonical" href="/c"></head>"#;
    let metadata = extract_metadata(&Document::parse(html));
    assert_eq!(metadata.description, Some("second".to_string()));
    assert_eq!(metadata.author, None);
    assert_eq!(metadata.favicon, Some("/a.ico".to_string()));
    assert_eq!(metadata.canonical_url, Some("/c".to_string()));
}

#[test]
fn invalid_selector_error_names_selector() {
    let document = Document::parse("<p>x</p>");
    let selectors = vec!["p".to_string(), "invalid[[[selector".to_string(), "also[[bad".to_string()];
    match process_custom_selectors(&document, &selectors) {
        Err(ScraperError::InvalidSelector(m)) => assert!(m.starts_with("invalid[[[selector: ")),
        other => panic!("{:?}", other.map(|v| v.len())),
    }
}

#[test]
fn scrape_page_pipeline() {
    let options = ScrapeOptions { metadata: true, selectors: vec![".x".to_string()] };
    let body = r#"<html><head><title> T </title><meta name="author" content="Me"></head><body><h2>B</h2><h1>A</h1><p>para</p><a href="/about">About</a><img src="i.png"><div class="x">hit</div></body></html>"#;
    let page = scrape_page("https://example.com/dir/", 200, body, &options, Some(1)).unwrap();
    assert_eq!(page.url, "https://example.com/dir/");
    assert_eq!(page.title, Some("T".to_string()));
    assert_eq!(page.headings, vec!["A", "B"]);
    assert_eq!(page.paragraphs, vec!["para"]);
    assert_eq!(page.links[0].url, "https://example.com/about");
    assert_eq!(page.images[0].src, "https://example.com/dir/i.png");
    assert_eq!(page.metadata.unwrap().author, Some("Me".to_string()));
    assert_eq!(page.custom_selectors[0].matches, vec!["hit"]);
    assert_eq!(page.depth, Some(1));
}

#[test]
fn scrape_page_failures() {
    let options = ScrapeOptions { metadata: false, selectors: vec![] };
    assert!(matches!(
        scrape_page("https://example.com", 503, "<p>x</p>", &options, None),
        Err(ScraperError::HttpStatus(503, _))
    ));
    assert!(matches!(
        scrape_page("https://example.com", 429, "<p>x</p>", &options, None),
        Err(ScraperError::RateLimited(_))
    ));
    assert!(matches!(
        scrape_page("not a url", 200, "<p>x</p>", &options, None),
        Err(ScraperError::InvalidUrl(_))
    ));
    match scrape_page("https://example.com", 200, "<title>Access Denied</title>", &options, None) {
        Err(ScraperError::AntiBotDetected(m)) => assert_eq!(m, "Access restriction detected: 'Access Denied'"),
        other => panic!("{:?}", other.map(|p| p.url)),
    }
    let bad = ScrapeOptions { metadata: false, selectors: vec!["[[".to_string()] };
    assert!(matches!(
        scrape_page("https://example.com", 200, "<p>x</p>", &bad, None),
        Err(ScraperError::InvalidSelector(_))
    ));
    let page = scrape_page("https://example.com", 200, "<p>x</p>", &options, None).unwrap();
    assert!(page.metadata.is_none());
}

#[test]
fn scrape_page_metadata_matches_extractor() {
    let body = r#"<head><meta property="og:title" content="OG"><meta name="keywords" content="k"><link rel="shortcut icon" href="/f.png"></head>"#;
    let options = ScrapeOptions { metadata: true, selectors: vec![] };
    let page = scrape_page("https://example.com", 200, body, &options, None).unwrap();
    let m = page.metadata.unwrap();
    let e = extract_metadata(&Document::parse(body));
    assert_eq!(m.og_title, e.og_title);
    assert_eq!(m.keywords, Some("k".to_string()));
    assert_eq!(m.favicon, Some("/f.png".to_string()));
    assert_eq!(m.description, None);
}
