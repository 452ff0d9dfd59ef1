use simple_web_scraper::{parse_domain_list, should_add_to_crawl_queue, TextSet, WebUrl};

#[test]
fn test_should_add_to_crawl_queue_same_domain() {
    let base_url = WebUrl::parse("https://example.com").unwrap();
    let visited = TextSet::new();
    let allow_domains = TextSet::new();
    let block_domains = TextSet::new();

    let result = should_add_to_crawl_queue(
        "https://example.com/page",
        &base_url,
        "example.com",
        &visited,
        &allow_domains,
        &block_domains,
        false,
    );

    assert_eq!(result, Some("https://example.com/page".to_string()));
}

#[test]
fn test_should_add_to_crawl_queue_different_domain() {
    let base_url = WebUrl::parse("https://example.com").unwrap();
    let visited = TextSet::new();
    let allow_domains = TextSet::new();
    let block_domains = TextSet::new();

    let result = should_add_to_crawl_queue(
        "https://other.com/page",
        &base_url,
        "example.com",
        &visited,
        &allow_domains,
        &block_domains,
        false,
    );

    assert_eq!(result, None);
}

#[test]
fn test_should_add_to_crawl_queue_already_visited() {
    let base_url = WebUrl::parse("https://example.com").unwrap();
    let mut visited = TextSet::new();
    visited.insert("https://example.com/page".to_string());
    let allow_domains = TextSet::new();
    let block_domains = TextSet::new();

    let result = should_add_to_crawl_queue(
        "https://example.com/page",
        &base_url,
        "example.com",
        &visited,
        &allow_domains,
        &block_domains,
        false,
    );

    assert_eq!(result, None);
}

#[test]
fn test_should_add_to_crawl_queue_relative_url() {
    let base_url = WebUrl::parse("https://example.com").unwrap();
    let visited = TextSet::new();
    let allow_domains = TextSet::new();
    let block_domains = TextSet::new();

    let result = should_add_to_crawl_queue(
        "/about",
        &base_url,
        "example.com",
        &visited,
        &allow_domains,
        &block_domains,
        false,
    );

    assert_eq!(result, Some("https://example.com/about".to_string()));
}

#[test]
fn test_should_add_to_crawl_queue_relative_different_domain() {
    let base_url = WebUrl::parse("https://example.com").unwrap();
    let visited = TextSet::new();
    let allow_domains = TextSet::new();
    let block_domains = TextSet::new();

    // This should resolve to example.com domain
    let result = should_add_to_crawl_queue(
        "../page",
        &base_url,
        "example.com",
        &visited,
        &allow_domains,
        &block_domains,
        false,
    );

    assert!(result.is_some());
    assert!(result.unwrap().starts_with("https://example.com"));
}

// ========== Domain Filtering Tests ==========

#[test]
fn test_domain_filtering_allow_list_includes_allowed_domain() {
    let base_url = WebUrl::parse("https://example.com").unwrap();
    let visited = TextSet::new();
    let mut allow_domains = TextSet::new();
    allow_domains.insert("docs.example.com".to_string());
    let block_domains = TextSet::new();

    let result = should_add_to_crawl_queue(
        "https://docs.example.com/api",
        &base_url,
        "example.com",
        &visited,
        &allow_domains,
        &block_domains,
        false,
    );

    assert_eq!(result, Some("https://docs.example.com/api".to_string()));
}

#[test]
fn test_domain_filtering_allow_list_blocks_non_allowed_domain() {
    let base_url = WebUrl::parse("https://example.com").unwrap();
    let visited = TextSet::new();
    let mut allow_domains = TextSet::new();
    allow_domains.insert("docs.example.com".to_string());
    let block_domains = TextSet::new();

    // other.com is not in allow list, should be blocked
    let result = should_add_to_crawl_queue(
        "https://other.com/page",
        &base_url,
        "example.com",
        &visited,
        &allow_domains,
        &block_domains,
        false,
    );

    assert_eq!(result, None);
}

#[test]
fn test_domain_filtering_allow_list_always_includes_base_domain() {
    let base_url = WebUrl::parse("https://example.com").unwrap();
    let visited = TextSet::new();
    let mut allow_domains = TextSet::new();
    allow_domains.insert("docs.example.com".to_string());
    let block_domains = TextSet::new();

    // Base domain should always be allowed even if not explicitly in allow list
    let result = should_add_to_crawl_queue(
        "https://example.com/page",
        &base_url,
        "example.com",
        &visited,
        &allow_domains,
        &block_domains,
        false,
    );

    assert_eq!(result, Some("https://example.com/page".to_string()));
}

#[test]
fn test_domain_filtering_block_list_blocks_domain() {
    let base_url = WebUrl::parse("https://example.com").unwrap();
    let visited = TextSet::new();
    let allow_domains = TextSet::new();
    let mut block_domains = TextSet::new();
    block_domains.insert("ads.example.com".to_string());

    let result = should_add_to_crawl_queue(
        "https://ads.example.com/tracker",
        &base_url,
        "example.com",
        &visited,
        &allow_domains,
        &block_domains,
        false,
    );

    assert_eq!(result, None);
}

#[test]
fn test_domain_filtering_block_list_allows_non_blocked_same_domain() {
    let base_url = WebUrl::parse("https://example.com").unwrap();
    let visited = TextSet::new();
    let allow_domains = TextSet::new();
    let mut block_domains = TextSet::new();
    block_domains.insert("ads.example.com".to_string());

    // Base domain should still work
    let result = should_add_to_crawl_queue(
        "https://example.com/page",
        &base_url,
        "example.com",
        &visited,
        &allow_domains,
        &block_domains,
        false,
    );

    assert_eq!(result, Some("https://example.com/page".to_string()));
}

#[test]
fn test_domain_filtering_cross_domain_allows_any_domain() {
    let base_url = WebUrl::parse("https://example.com").unwrap();
    let visited = TextSet::new();
    let allow_domains = TextSet::new();
    let block_domains = TextSet::new();

    let result = should_add_to_crawl_queue(
        "https://completely-different.com/page",
        &base_url,
        "example.com",
        &visited,
        &allow_domains,
        &block_domains,
        true, // cross_domain enabled
    );

    assert_eq!(
        result,
        Some("https://completely-different.com/page".to_string())
    );
}

#[test]
fn test_domain_filtering_cross_domain_respects_block_list() {
    let base_url = WebUrl::parse("https://example.com").unwrap();
    let visited = TextSet::new();
    let allow_domains = TextSet::new();
    let mut block_domains = TextSet::new();
    block_domains.insert("blocked.com".to_string());

    // Even with cross-domain enabled, blocked domains should still be blocked
    let result = should_add_to_crawl_queue(
        "https://blocked.com/page",
        &base_url,
        "example.com",
        &visited,
        &allow_domains,
        &block_domains,
        true, // cross_domain enabled
    );

    assert_eq!(result, None);
}

#[test]
fn test_domain_filtering_mixed_allow_and_block() {
    let base_url = WebUrl::parse("https://example.com").unwrap();
    let visited = TextSet::new();
    let mut allow_domains = TextSet::new();
    allow_domains.insert("docs.example.com".to_string());
    allow_domains.insert("api.example.com".to_string());
    let mut block_domains = TextSet::new();
    block_domains.insert("api.example.com".to_string());

    // Block list takes precedence over allow list
    let result = should_add_to_crawl_queue(
        "https://api.example.com/endpoint",
        &base_url,
        "example.com",
        &visited,
        &allow_domains,
        &block_domains,
        false,
    );

    assert_eq!(result, None);
}

#[test]
fn test_parse_domain_list_comma_separated() {
    let domains = parse_domain_list("example.com,docs.example.com,api.example.com");
    assert_eq!(domains.len(), 3);
    assert!(domains.contains("example.com"));
    assert!(domains.contains("docs.example.com"));
    assert!(domains.contains("api.example.com"));
}

#[test]
fn test_parse_domain_list_with_whitespace() {
    let domains = parse_domain_list("  example.com  , docs.example.com , api.example.com  ");
    assert_eq!(domains.len(), 3);
    assert!(domains.contains("example.com"));
    assert!(domains.contains("docs.example.com"));
    assert!(domains.contains("api.example.com"));
}

#[test]
fn test_parse_domain_list_empty_entries() {
    let domains = parse_domain_list("example.com,,docs.example.com,  ,api.example.com");
    assert_eq!(domains.len(), 3);
    assert!(domains.contains("example.com"));
    assert!(domains.contains("docs.example.com"));
    assert!(domains.contains("api.example.com"));
}

#[test]
fn test_parse_domain_list_case_insensitive() {
    let domains = parse_domain_list("Example.COM,DOCS.example.com,api.EXAMPLE.com");
    assert_eq!(domains.len(), 3);
    // All should be lowercased
    assert!(domains.contains("example.com"));
    assert!(domains.contains("docs.example.com"));
    assert!(domains.contains("api.example.com"));
}

#[test]
fn domain_filter_block_wins_under_cross_domain() {
    let base_url = WebUrl::parse("https://example.com").unwrap();
    let visited = TextSet::new();
    let mut allow_domains = TextSet::new();
    allow_domains.insert("api.example.com".to_string());
    let mut block_domains = TextSet::new();
    block_domains.insert("api.example.com".to_string());
    for cross in [false, true] {
        let result = should_add_to_crawl_queue(
            "https://API.example.com/endpoint",
            &base_url,
            "example.com",
            &visited,
            &allow_domains,
            &block_domains,
            cross,
        );
        assert_eq!(result, None);
    }
}

#[test]
fn domain_filter_cross_domain_accepts_any_domain() {
    let base_url = WebUrl::parse("https://example.com").unwrap();
    let visited = TextSet::new();
    let empty = TextSet::new();
    for link in ["https://a.org/x", "http://b.net", "https://sub.c.io/p?q=1"] {
        let result = should_add_to_crawl_queue(link, &base_url, "example.com", &visited, &empty, &empty, true);
        assert!(result.is_some(), "{}", link);
    }
    let result = should_add_to_crawl_queue("http://b.net", &base_url, "example.com", &visited, &empty, &empty, true);
    assert_eq!(result, Some("http://b.net/".to_string()));
    let no_domain = should_add_to_crawl_queue("http://10.0.0.1/x", &base_url, "example.com", &visited, &empty, &empty, true);
    assert_eq!(no_domain, None);
}

#[test]
fn domain_list_dedupes_entries() {
    let domains = parse_domain_list("a.com, A.com ,a.COM,,b.com");
    assert_eq!(domains.len(), 2);
    assert!(domains.contains("a.com"));
    assert!(domains.contains("b.com"));
    assert!(!domains.contains("A.com"));
    assert!(parse_domain_list("").is_empty());
    assert!(parse_domain_list(" , ,").is_empty());
}
