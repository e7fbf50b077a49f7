use web_crawler::common::FilterType;
use web_crawler::fetcher::{
    analyse_fetched_page, extract_content, extract_text_from_html, final_fetch_url, is_filtered, next_fetch_step,
    resolve_url, FetcherError, RedirectStep,
};
use web_crawler::web_url::WebUrl;

fn url(s: &str) -> WebUrl {
    WebUrl::parse(s).unwrap()
}

#[test]
fn test_extract_text_from_html() {
    let html = r#"
            <!DOCTYPE html>
            <html>
            <head>
                <title>Sample Title</title>
                <style>body { color: red; }</style>
                <script>console.log("ignore me");</script>
            </head>
            <body>
                <h1>Header &amp; Title</h1>
                <p>This is a <b>test</b> paragraph with &nbsp; spaces.</p>
            </body>
            </html>
        "#;
    let text = extract_text_from_html(html);
    assert_eq!(text, "Sample Title Header & Title This is a test paragraph with spaces.");
}

#[test]
fn test_extract_content_filters() {
    let base_url = url("https://example.com/page");
    let body = r##"
            <html>
            <head>
                <title>Test Page</title>
                <link rel="stylesheet" href="/assets/style.css">
                <link rel="icon" href="https://example.com/favicon.ico">
            </head>
            <body>
                <a href="/about">About Us</a>
                <a href="https://other.com/contact.html">Contact</a>
                <a href="javascript:void(0)">JS Link</a>
                <a href="#section">Fragment Link</a>
                <a href="mailto:info@example.com">Email Us</a>
                <a href="/downloads/report.pdf">Download PDF</a>
                <a href="/static/react.bundle.js">JS Library</a>
                <img src="/img/logo.png" href="/img/logo.png">
                <a href="https://facebook.com/someprofile">Facebook Profile</a>
                <a href="https://other.com/page?utm_campaign=xyz">Campaign Link</a>
            </body>
            </html>
        "##;

    let active_filters = vec![
        ("facebook.com".to_string(), FilterType::DomainBlacklist),
        ("utm_".to_string(), FilterType::Keyword),
        (".css".to_string(), FilterType::Extension),
        (".ico".to_string(), FilterType::Extension),
        (".pdf".to_string(), FilterType::Extension),
        (".js".to_string(), FilterType::Extension),
    ];

    let (title, text, links) = extract_content(&base_url, body, &active_filters);
    assert_eq!(title, "Test Page");
    assert!(text.contains("About Us Contact JS Link"));

    let expected_links: Vec<String> =
        vec!["https://example.com/about".to_string(), "https://other.com/contact.html".to_string()];
    let got: Vec<String> = links.iter().map(|u| u.as_str().to_string()).collect();
    assert_eq!(got, expected_links);
}

#[test]
fn test_extract_content_with_base_tag() {
    let base_url = url("https://example.com/blog/post1");
    let body = r##"
            <html>
            <head>
                <base href="https://example.com/archive/">
                <title>Base Tag Test</title>
            </head>
            <body>
                <a href="about">About (relative to archive)</a>
                <a href="/root">Root-relative</a>
                <a href="https://external.com">External</a>
            </body>
            </html>
        "##;

    let (title, _text, links) = extract_content(&base_url, body, &[]);
    assert_eq!(title, "Base Tag Test");
    let expected_links: Vec<String> = vec![
        "https://example.com/archive/about".to_string(),
        "https://example.com/root".to_string(),
        "https://external.com/".to_string(),
    ];
    let got: Vec<String> = links.iter().map(|u| u.as_str().to_string()).collect();
    assert_eq!(got, expected_links);
}

#[test]
fn extract_content_without_title_gives_empty_title() {
    let (title, text, links) = extract_content(&url("https://example.com/"), "<p>x &lt; y</p>", &[]);
    assert_eq!(title, "");
    assert_eq!(text, "x < y");
    assert!(links.is_empty());
}

#[test]
fn relative_base_tag_is_resolved_against_the_page() {
    let body = r#"<base href="/docs/"><a href="intro">Intro</a>"#;
    let (_, _, links) = extract_content(&url("https://example.com/a/b"), body, &[]);
    assert_eq!(links.len(), 1);
    assert_eq!(links[0].as_str(), "https://example.com/docs/intro");
}

#[test]
fn filters_of_each_kind() {
    let u = url("https://Sub.Facebook.com/Path/File.PDF?ref=utm_x");
    let f = |p: &str, t: FilterType| vec![(p.to_string(), t)];
    assert!(is_filtered(&u, &f("facebook.com", FilterType::DomainBlacklist)));
    assert!(is_filtered(&u, &f("sub.facebook.com", FilterType::DomainBlacklist)));
    assert!(!is_filtered(&u, &f("book.com", FilterType::DomainBlacklist)));
    assert!(is_filtered(&u, &f(".pdf", FilterType::Extension)));
    assert!(!is_filtered(&u, &f(".html", FilterType::Extension)));
    assert!(is_filtered(&u, &f("UTM_", FilterType::Keyword)));
    assert!(is_filtered(&u, &f("ref=utm", FilterType::UrlRegex)));
    assert!(!is_filtered(&u, &f("^http://", FilterType::UrlRegex)));
    // A regular expression that does not compile catches nothing.
    assert!(!is_filtered(&u, &f("(", FilterType::UrlRegex)));
    assert!(!is_filtered(&u, &[]));
}

#[test]
fn redirects_are_followed_up_to_five_times() {
    match next_fetch_step("https://example.com/a", 302, 0, Some(Ok("/b"))).unwrap() {
        RedirectStep::Follow { next_url, redirect_count } => {
            assert_eq!(next_url, "https://example.com/b");
            assert_eq!(redirect_count, 1);
        }
        RedirectStep::Finish => panic!("did not follow"),
    }
    match next_fetch_step("https://example.com/a", 301, 5, Some(Ok("/b"))) {
        Err(FetcherError::HttpFetchFailed { url, status_code, message }) => {
            assert_eq!(url, "https://example.com/a");
            assert_eq!(status_code, 301);
            assert_eq!(message, "Too many redirects");
        }
        _ => panic!("followed a sixth redirect"),
    }
    assert!(matches!(next_fetch_step("https://example.com/a", 200, 5, Some(Ok("/b"))), Ok(RedirectStep::Finish)));
    assert!(matches!(next_fetch_step("https://example.com/a", 304, 1, None), Ok(RedirectStep::Finish)));
    match next_fetch_step("https://example.com/a", 302, 1, Some(Err("ToStrError { _priv: () }"))) {
        Err(FetcherError::HttpFetchFailed { url, status_code, message }) => {
            assert_eq!(url, "https://example.com/a");
            assert_eq!(status_code, 302);
            assert_eq!(message, "Invalid Location header encoding: ToStrError { _priv: () }");
        }
        _ => panic!("followed an unreadable location"),
    }
    match next_fetch_step("https://example.com/a", 302, 5, Some(Err("ToStrError { _priv: () }"))) {
        Err(FetcherError::HttpFetchFailed { message, .. }) => assert_eq!(message, "Too many redirects"),
        _ => panic!("the redirect limit comes first"),
    }
    match next_fetch_step("not a url", 302, 0, Some(Ok("/b"))) {
        Err(FetcherError::InvalidUrl { url, reason }) => {
            assert_eq!(url, "not a url");
            assert!(reason.starts_with("Failed to parse current URL: "));
        }
        _ => panic!("accepted a bad current URL"),
    }
}

#[test]
fn final_url_and_resolution() {
    assert_eq!(final_fetch_url("https://example.com/x").unwrap().as_str(), "https://example.com/x");
    match final_fetch_url("::") {
        Err(FetcherError::InvalidUrl { url, reason }) => {
            assert_eq!(url, "::");
            assert!(reason.starts_with("Failed to parse final URL: "));
        }
        _ => panic!("parsed a bad URL"),
    }
    let base = url("https://example.com/a/b");
    assert_eq!(resolve_url(&base, "c").unwrap().as_str(), "https://example.com/a/c");
    assert!(resolve_url(&base, "http://[").is_none());
}

#[test]
fn fetched_page_urls_are_host_normalized() {
    let prefixes = vec!["www".to_string()];
    let body = r#"<html><head><title> Home </title></head><body>
        <a href="/about">About</a>
        <a href="https://www.other.com/x">Other</a>
        <a href="https://blog.example.com/y">Blog</a>
        </body></html>"#;
    let (final_url, title, _text, links) =
        analyse_fetched_page(&url("https://www.example.com/"), body, &[], &prefixes);
    assert_eq!(final_url.as_str(), "https://example.com/");
    assert_eq!(title, "Home");
    let got: Vec<String> = links.iter().map(|u| u.as_str().to_string()).collect();
    assert_eq!(
        got,
        vec![
            "https://example.com/about".to_string(),
            "https://other.com/x".to_string(),
            "https://blog.example.com/y".to_string(),
        ]
    );
}
