use simple_web_scraper::{classify_http_status, detect_anti_bot_features, ScraperError};

#[test]
fn test_classify_http_status_success() {
    let result = classify_http_status(200, "https://example.com");
    assert!(result.is_ok());
}

#[test]
fn test_classify_http_status_404() {
    let result = classify_http_status(404, "https://example.com/missing");
    assert!(result.is_err());
    let err = result.unwrap_err();
    assert!(err.message().contains("Not Found"));
    assert!(err.message().contains("/missing"));
}

#[test]
fn test_classify_http_status_403() {
    let result = classify_http_status(403, "https://example.com");
    assert!(result.is_err());
    let err = result.unwrap_err();
    assert!(err.message().contains("Forbidden"));
    assert!(err.message().contains("bot protection"));
}

#[test]
fn test_classify_http_status_429() {
    let result = classify_http_status(429, "https://example.com");
    assert!(result.is_err());
    let err = result.unwrap_err();
    assert!(err.message().contains("Rate limited"));
    assert!(err.message().contains("Too many requests"));
}

#[test]
fn test_classify_http_status_500() {
    let result = classify_http_status(500, "https://example.com");
    assert!(result.is_err());
    let err = result.unwrap_err();
    assert!(err.message().contains("Internal Server Error"));
}

#[test]
fn test_classify_http_status_503() {
    let result = classify_http_status(503, "https://example.com");
    assert!(result.is_err());
    let err = result.unwrap_err();
    assert!(err.message().contains("Service Unavailable"));
}

#[test]
fn test_detect_anti_bot_cloudflare() {
    let html = r#"<html><body><div class="cf-browser-verification">Checking your browser</div></body></html>"#;
    let result = detect_anti_bot_features(html, None);
    assert!(result.is_some());
    assert!(result.unwrap().contains("Cloudflare"));
}

#[test]
fn test_detect_anti_bot_cloudflare_challenge() {
    let html = r#"<html><body><div>Just a moment...</div><script>challenge-platform</script></body></html>"#;
    let result = detect_anti_bot_features(html, None);
    assert!(result.is_some());
    assert!(result.unwrap().contains("JavaScript challenge"));
}

#[test]
fn test_detect_anti_bot_recaptcha() {
    let html = r#"<html><body><div class="g-recaptcha"></div></body></html>"#;
    let result = detect_anti_bot_features(html, None);
    assert!(result.is_some());
    assert!(result.unwrap().contains("reCAPTCHA"));
}

#[test]
fn test_detect_anti_bot_hcaptcha() {
    let html = r#"<html><body><div class="h-captcha"></div></body></html>"#;
    let result = detect_anti_bot_features(html, None);
    assert!(result.is_some());
    assert!(result.unwrap().contains("hCaptcha"));
}

#[test]
fn test_detect_anti_bot_perimeterx() {
    let html = r#"<html><body><div class="px-captcha"></div></body></html>"#;
    let result = detect_anti_bot_features(html, None);
    assert!(result.is_some());
    assert!(result.unwrap().contains("PerimeterX"));
}

#[test]
fn test_detect_anti_bot_datadome() {
    let html = r#"<html><body><script src="datadome.js"></script></body></html>"#;
    let result = detect_anti_bot_features(html, None);
    assert!(result.is_some());
    assert!(result.unwrap().contains("DataDome"));
}

#[test]
fn test_detect_anti_bot_title_access_denied() {
    let html = r#"<html><body>Content</body></html>"#;
    let result = detect_anti_bot_features(html, Some("Access Denied - Forbidden"));
    assert!(result.is_some());
    assert!(result.unwrap().contains("Access restriction detected"));
}

#[test]
fn test_detect_anti_bot_title_blocked() {
    let html = r#"<html><body>Content</body></html>"#;
    let result = detect_anti_bot_features(html, Some("You have been blocked"));
    assert!(result.is_some());
    assert!(result.unwrap().contains("Access restriction"));
}

#[test]
fn test_detect_anti_bot_none() {
    let html = r#"<html><body><p>Normal content here</p></body></html>"#;
    let result = detect_anti_bot_features(html, Some("Normal Page"));
    assert!(result.is_none());
}

#[test]
fn test_detect_anti_bot_cloudflare_ray_id() {
    let html = r#"<html><body><div>Cloudflare Ray ID: abc123</div></body></html>"#;
    let result = detect_anti_bot_features(html, None);
    assert!(result.is_some());
    assert!(result.unwrap().contains("Cloudflare error page"));
}

#[test]
fn classify_http_status_kinds() {
    assert!(classify_http_status(204, "u").is_ok());
    assert!(classify_http_status(299, "u").is_ok());
    match classify_http_status(429, "https://x.test") {
        Err(ScraperError::RateLimited(m)) => {
            assert_eq!(m, "Too many requests to https://x.test. Please slow down and try again later.")
        }
        other => panic!("{:?}", other),
    }
    match classify_http_status(404, "https://x.test/missing") {
        Err(ScraperError::HttpStatus(404, m)) => {
            assert_eq!(m, "Not Found - The page https://x.test/missing does not exist")
        }
        other => panic!("{:?}", other),
    }
    match classify_http_status(418, "https://x.test") {
        Err(e @ ScraperError::HttpStatus(418, _)) => {
            assert_eq!(e.message(), "HTTP 418: HTTP error 418 while accessing https://x.test")
        }
        other => panic!("{:?}", other),
    }
    for code in [100u16, 199, 300, 400, 401, 403, 500, 502, 503, 504, 0, 65535] {
        match classify_http_status(code, "u") {
            Err(ScraperError::HttpStatus(c, _)) => assert_eq!(c, code),
            other => panic!("{:?}", other),
        }
    }
}

#[test]
fn error_messages() {
    assert_eq!(ScraperError::InvalidUrl("x".to_string()).message(), "Invalid URL: x");
    assert_eq!(ScraperError::InvalidSelector("p[: bad".to_string()).message(), "Invalid CSS selector: p[: bad");
    assert_eq!(ScraperError::Timeout(30).message(), "Timeout: Request took longer than 30 seconds");
    assert_eq!(ScraperError::DepthExceeded(3).message(), "Crawl depth exceeded maximum: 3");
    assert_eq!(ScraperError::AntiBotDetected("r".to_string()).message(), "Anti-bot protection detected: r");
    assert_eq!(ScraperError::NetworkError("n".to_string()).message(), "Network error: n");
    assert_eq!(ScraperError::RateLimited("slow".to_string()).message(), "Rate limited: slow");
}

#[test]
fn detect_anti_bot_order_and_title_case() {
    let r = detect_anti_bot_features("<div>Just a moment</div>", Some("CAPTCHA required"));
    assert_eq!(r, Some("Access restriction detected: 'CAPTCHA required'".to_string()));
    let r = detect_anti_bot_features("cf-ray recaptcha", None);
    assert_eq!(r, Some("Cloudflare error page detected. Access may be restricted.".to_string()));
    let r = detect_anti_bot_features("akamai edge", None);
    assert_eq!(r, None);
    let r = detect_anti_bot_features("akamai challenge", None);
    assert_eq!(r, Some("Akamai bot protection detected.".to_string()));
    let r = detect_anti_bot_features("<p>Cloudflare</p>", Some("Welcome"));
    assert_eq!(r, None);
    let r = detect_anti_bot_features("<div class=\"cf-browser-verification\"></div>", None);
    assert_eq!(r, Some("Cloudflare protection detected. The site is checking if you're a bot.".to_string()));
}
