use simple_web_scraper::{
    format_csv, format_text, format_text_custom_selectors, format_text_metadata, truncate_text, CustomSelectorResult,
    Metadata, ScrapedData, Link, CodeBlock, Table, Image,
};

#[test]
fn test_truncate_text_short() {
    let text = "Short text";
    let result = truncate_text(text, 100);
    assert_eq!(result, "Short text");
}

#[test]
fn test_truncate_text_long() {
    let text = "This is a very long piece of text that should be truncated at the specified length with ellipsis added";
    let result = truncate_text(text, 20);
    assert_eq!(result, "This is a very long ...");
    assert_eq!(result.len(), 23); // 20 chars + "..."
}

#[test]
fn test_truncate_text_exact_length() {
    let text = "12345678901234567890"; // exactly 20 chars
    let result = truncate_text(text, 20);
    assert_eq!(result, "12345678901234567890");
}

#[test]
fn test_format_text_metadata() {
    let metadata = Metadata {
        description: Some("Test description".to_string()),
        keywords: Some("test, rust".to_string()),
        author: Some("Author Name".to_string()),
        og_title: Some("OG Title".to_string()),
        og_description: None,
        og_image: Some("https://example.com/image.jpg".to_string()),
        og_url: None,
        canonical_url: None,
        favicon: None,
    };

    let result = format_text_metadata(&metadata);
    assert!(result.contains("Description: Test description"));
    assert!(result.contains("Keywords: test, rust"));
    assert!(result.contains("Author: Author Name"));
    assert!(result.contains("OG Title: OG Title"));
    assert!(result.contains("OG Image: https://example.com/image.jpg"));
}

#[test]
fn test_format_text_custom_selectors() {
    let selectors = vec![
        CustomSelectorResult {
            selector: ".item".to_string(),
            matches: vec!["Match 1".to_string(), "Match 2".to_string()],
        },
    ];

    let result = format_text_custom_selectors(&selectors);
    assert!(result.contains("'.item' (2 matches)"));
    assert!(result.contains("1. Match 1"));
    assert!(result.contains("2. Match 2"));
}

#[test]
fn test_format_text_custom_selectors_truncated() {
    let selectors = vec![
        CustomSelectorResult {
            selector: ".item".to_string(),
            matches: vec![
                "Match 1".to_string(),
                "Match 2".to_string(),
                "Match 3".to_string(),
                "Match 4".to_string(),
            ],
        },
    ];

    let result = format_text_custom_selectors(&selectors);
    assert!(result.contains("... and 1 more"));
}

#[test]
fn truncate_text_respects_character_boundaries() {
    assert_eq!(truncate_text("héllo", 2), "h...");
    assert_eq!(truncate_text("héllo", 3), "hé...");
    assert_eq!(truncate_text("", 0), "");
    assert_eq!(truncate_text("abc", 0), "...");
}

#[test]
fn format_text_metadata_skips_absent_fields() {
    let metadata = Metadata {
        description: None,
        keywords: None,
        author: Some("A".to_string()),
        og_title: None,
        og_description: Some("ignored".to_string()),
        og_image: None,
        og_url: None,
        canonical_url: None,
        favicon: None,
    };
    assert_eq!(format_text_metadata(&metadata), "\nMetadata:\n  Author: A\n");
}

fn page(url: &str) -> ScrapedData {
    ScrapedData {
        url: url.to_string(),
        status_code: 200,
        title: None,
        headings: vec![],
        paragraphs: vec![],
        links: vec![],
        images: vec![],
        tables: vec![],
        code_blocks: vec![],
        metadata: None,
        custom_selectors: vec![],
        depth: None,
    }
}

#[test]
fn format_text_whole_report() {
    let mut first = page("https://example.com");
    first.title = Some("Home".to_string());
    first.depth = Some(0);
    first.headings = vec!["H1".to_string(), "H2".to_string()];
    first.paragraphs = (1..=6).map(|i| format!("P{}", i)).collect();
    first.links = vec![Link { text: "About".to_string(), url: "https://example.com/about".to_string() }];
    first.images = vec![Image { alt: String::new(), src: "https://example.com/i.png".to_string() }];
    first.tables = vec![Table { headers: vec!["A".to_string(), "B".to_string()], rows: vec![vec!["1".to_string(), "2".to_string()]] }];
    first.code_blocks = vec![CodeBlock { content: "fn main(){}".to_string(), language: Some("rust".to_string()) }];
    let second = page("https://example.com/about");
    let out = format_text(&[first, second]);
    let expected = format!(
        "URL: https://example.com\nStatus: 200\nDepth: 0\nTitle: Home\n\
         \nHeadings (2):\n  - H1\n  - H2\n\
         \nParagraphs (6):\n  1. P1\n  2. P2\n  3. P3\n  4. P4\n  5. P5\n  ... and 1 more\n\
         \nLinks (1):\n  - About (https://example.com/about)\n\
         \nImages (1):\n  - No alt text (https://example.com/i.png)\n\
         \nTables (1):\n  Table 1:\n    Headers: A, B\n    Rows: 1\n\
         \nCode Blocks (1):\n  1. fn main(){{}} (rust)\n\
         \n\n{}\n\nURL: https://example.com/about\nStatus: 200\n",
        "=".repeat(80)
    );
    assert_eq!(out, expected);
}

#[test]
fn test_format_csv_headers() {
    let data = vec![ScrapedData {
        url: "https://example.com".to_string(),
        status_code: 200,
        title: Some("Test".to_string()),
        headings: vec![],
        paragraphs: vec![],
        links: vec![],
        images: vec![],
        tables: vec![],
        code_blocks: vec![],
        metadata: None,
        custom_selectors: vec![],
        depth: None,
    }];

    let result = format_csv(&data);
    let lines: Vec<&str> = result.lines().collect();

    assert_eq!(lines[0], "url,status_code,title,headings_count,paragraphs_count,links_count,images_count,tables_count,code_blocks_count,depth");
}

#[test]
fn test_format_csv_data_row() {
    let data = vec![ScrapedData {
        url: "https://example.com".to_string(),
        status_code: 200,
        title: Some("Test".to_string()),
        headings: vec!["H1".to_string()],
        paragraphs: vec!["P1".to_string(), "P2".to_string()],
        links: vec![],
        images: vec![],
        tables: vec![],
        code_blocks: vec![],
        metadata: None,
        custom_selectors: vec![],
        depth: Some(1),
    }];

    let result = format_csv(&data);
    let lines: Vec<&str> = result.lines().collect();

    assert_eq!(lines[1], "https://example.com,200,Test,1,2,0,0,0,0,1");
}

#[test]
fn format_csv_quotes_fields() {
    let mut data = page("https://example.com/a,b");
    data.title = Some("Say \"hi\"".to_string());
    let result = format_csv(&[data]);
    let lines: Vec<&str> = result.lines().collect();
    assert_eq!(lines.len(), 2);
    assert_eq!(lines[1], "\"https://example.com/a,b\",200,\"Say \"\"hi\"\"\",0,0,0,0,0,0,");
}
