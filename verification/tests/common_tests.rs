use web_crawler::common::{
    group_prioritized_urls_by_domain, group_urls_by_domain,
    group_prioritized_urls_by_normalized_domain, group_urls_by_normalized_domain,
    normalize_domain, normalize_url_domain, prioritized_group_for, url_group_for, FilterType, PrioritizedUrl,
};
use web_crawler::web_url::WebUrl;

fn url(s: &str) -> WebUrl {
    WebUrl::parse(s).unwrap()
}

#[test]
fn test_normalize_domain() {
    let prefixes = vec!["www".to_string(), "m".to_string(), "mobile".to_string()];
    assert_eq!(normalize_domain("www.golem.cloud", &prefixes), "golem.cloud");
    assert_eq!(normalize_domain("m.golem.cloud", &prefixes), "golem.cloud");
    assert_eq!(normalize_domain("mobile.golem.cloud", &prefixes), "golem.cloud");
    assert_eq!(normalize_domain("learn.golem.cloud", &prefixes), "learn.golem.cloud");
    assert_eq!(normalize_domain("golem.cloud", &prefixes), "golem.cloud");
}

#[test]
fn test_group_urls_by_normalized_domain() {
    let prefixes = vec!["www".to_string(), "m".to_string()];
    let urls = vec![
        url("https://www.golem.cloud/docs"),
        url("https://golem.cloud/blog"),
        url("https://m.example.com/index"),
        url("https://example.com/about"),
    ];
    let grouped = group_urls_by_normalized_domain(urls, &prefixes);
    assert_eq!(url_group_for(&grouped, "golem.cloud").unwrap().len(), 2);
    assert_eq!(url_group_for(&grouped, "example.com").unwrap().len(), 2);
}

#[test]
fn test_group_prioritized_urls_by_normalized_domain() {
    let prefixes = vec!["www".to_string(), "m".to_string()];
    let urls = vec![url("https://www.golem.cloud/docs"), url("https://example.com/about")];
    let grouped = group_prioritized_urls_by_normalized_domain(urls, &prefixes, |u: WebUrl| {
        let priority = if u.path().contains("docs") { 20 } else { 5 };
        PrioritizedUrl { url: u, priority }
    });

    let golem_urls = prioritized_group_for(&grouped, "golem.cloud").unwrap();
    assert_eq!(golem_urls.len(), 1);
    assert_eq!(golem_urls[0].priority, 20);

    let example_urls = prioritized_group_for(&grouped, "example.com").unwrap();
    assert_eq!(example_urls.len(), 1);
    assert_eq!(example_urls[0].priority, 5);
}

#[test]
fn normalize_domain_lowercases_and_strips_only_the_first_matching_prefix() {
    let prefixes = vec!["WWW".to_string(), "m".to_string()];
    assert_eq!(normalize_domain("WWW.Golem.Cloud", &prefixes), "golem.cloud");
    assert_eq!(normalize_domain("www.m.golem.cloud", &prefixes), "m.golem.cloud");
    assert_eq!(normalize_domain("wwwx.golem.cloud", &prefixes), "wwwx.golem.cloud");
    assert_eq!(normalize_domain("www", &prefixes), "www");
    assert_eq!(normalize_domain("EXAMPLE.com", &[]), "example.com");
}

#[test]
fn grouping_drops_urls_without_host_and_keeps_order_within_a_domain() {
    let prefixes = vec!["www".to_string()];
    let urls = vec![
        url("https://www.a.com/1"),
        url("mailto:someone@a.com"),
        url("https://b.com/x"),
        url("https://a.com/2"),
    ];
    let grouped = group_urls_by_normalized_domain(urls, &prefixes);
    assert_eq!(grouped.len(), 2);
    let a = url_group_for(&grouped, "a.com").unwrap();
    assert_eq!(a[0].as_str(), "https://www.a.com/1");
    assert_eq!(a[1].as_str(), "https://a.com/2");
    assert!(url_group_for(&grouped, "c.com").is_none());
}

#[test]
fn filter_type_names_round_trip() {
    for t in [FilterType::DomainBlacklist, FilterType::UrlRegex, FilterType::Keyword, FilterType::Extension] {
        let name = t.to_string();
        assert_eq!(FilterType::from_str(&name).unwrap(), t);
    }
    assert_eq!(FilterType::Keyword.to_string(), "keyword");
    assert_eq!(FilterType::from_str("domain_blacklist").unwrap(), FilterType::DomainBlacklist);
}

#[test]
fn filter_type_unknown_name_is_refused() {
    match FilterType::from_str("regex") {
        Err(e) => assert_eq!(e, "Unknown filter type: regex"),
        Ok(_) => panic!("accepted an unknown name"),
    }
}

#[test]
fn web_url_parse_and_join() {
    let u = url("https://Example.com/a/b?x=1");
    assert_eq!(u.as_str(), "https://example.com/a/b?x=1");
    assert_eq!(u.host_str(), Some("example.com"));
    assert_eq!(u.path(), "/a/b");
    assert_eq!(u.scheme(), "https");
    let j = u.join("../c").unwrap();
    assert_eq!(j.as_str(), "https://example.com/c");
    assert!(WebUrl::parse("not a url").is_err());
}

#[test]
fn url_hosts_are_normalized() {
    let prefixes = vec!["www".to_string(), "m".to_string()];
    let u = normalize_url_domain(&url("https://WWW.Golem.cloud/docs?q=1#top"), &prefixes);
    assert_eq!(u.as_str(), "https://golem.cloud/docs?q=1#top");
    assert_eq!(u.host_str(), Some("golem.cloud"));
    assert_eq!(u.path(), "/docs");
    let same = normalize_url_domain(&url("https://learn.golem.cloud/x"), &prefixes);
    assert_eq!(same.as_str(), "https://learn.golem.cloud/x");
    let no_host = normalize_url_domain(&url("mailto:someone@example.com"), &prefixes);
    assert_eq!(no_host.as_str(), "mailto:someone@example.com");
    assert_eq!(no_host.host_str(), None);
}

#[test]
fn no_group_is_empty() {
    let urls = vec![url("https://a.com/1"), url("mailto:x@y.z"), url("https://b.com/2"), url("https://a.com/3")];
    let grouped = group_urls_by_normalized_domain(urls, &[]);
    assert_eq!(grouped.len(), 2);
    for g in &grouped {
        assert!(!g.urls.is_empty());
    }
}

#[test]
fn urls_grouped_by_host_as_it_is() {
    let urls = vec![url("https://www.a.com/1"), url("https://a.com/2"), url("mailto:x@y.z"), url("https://www.a.com/3")];
    let grouped = group_urls_by_domain(urls);
    assert_eq!(grouped.len(), 2);
    let www = url_group_for(&grouped, "www.a.com").unwrap();
    let got: Vec<&str> = www.iter().map(|u| u.as_str()).collect();
    assert_eq!(got, vec!["https://www.a.com/1", "https://www.a.com/3"]);
    assert_eq!(url_group_for(&grouped, "a.com").unwrap().len(), 1);
    let prioritized = group_prioritized_urls_by_domain(vec![url("https://b.com/x")], |u: WebUrl| PrioritizedUrl { url: u, priority: 4 });
    assert_eq!(prioritized.len(), 1);
    assert_eq!(prioritized[0].domain, "b.com");
    assert_eq!(prioritized[0].urls[0].priority, 4);
}
