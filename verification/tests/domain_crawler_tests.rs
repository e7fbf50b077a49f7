use web_crawler::common::PrioritizedUrl;
use web_crawler::domain_crawler::{DomainState, PriorityBucket, ProcessingStatus};
use web_crawler::web_url::WebUrl;

fn url(s: &str) -> WebUrl {
    WebUrl::parse(s).unwrap()
}

fn purl(s: &str, priority: i32) -> PrioritizedUrl {
    PrioritizedUrl { url: url(s), priority }
}

#[test]
fn test_domain_state_new() {
    let state = DomainState::new("example.com".to_string());
    assert_eq!(state.domain, "example.com");
    assert_eq!(state.get_delay(), 1000);
    assert!(state.is_inactive());
    assert!(!state.has_pending());
    assert_eq!(state.processed_count, 0);
    assert_eq!(state.error_count, 0);
}

#[test]
fn test_validate_url() {
    let state = DomainState::new("example.com".to_string());
    assert!(state.validate_url(&url("https://example.com/about")));
    assert!(!state.validate_url(&url("https://other.com/about")));
}

#[test]
fn test_add_and_get_urls() {
    let mut state = DomainState::new("example.com".to_string());
    let url1 = purl("https://example.com/1", 5);
    let url2 = purl("https://example.com/2", 15);
    state.add_urls(vec![url1.clone(), url2.clone()]);
    assert!(state.has_pending());

    let popped1 = state.get_next_url().unwrap();
    assert_eq!(popped1.priority, 15);
    assert_eq!(popped1.url.as_str(), "https://example.com/2");

    let popped2 = state.get_next_url().unwrap();
    assert_eq!(popped2.priority, 5);
    assert_eq!(popped2.url.as_str(), "https://example.com/1");

    assert!(!state.has_pending());
}

#[test]
fn test_robots_exclusion() {
    let mut state = DomainState::new("example.com".to_string());
    state.robots_disallowed = Some(vec!["/private".to_string(), "/temp/".to_string()]);

    let allowed = url("https://example.com/public");
    let disallowed1 = url("https://example.com/private/data");
    let disallowed2 = url("https://example.com/temp/file.txt");

    assert!(state.is_allowed_by_robots(&allowed));
    assert!(!state.is_allowed_by_robots(&disallowed1));
    assert!(!state.is_allowed_by_robots(&disallowed2));
}

#[test]
fn test_add_urls_allowed_by_robots() {
    let mut state = DomainState::new("example.com".to_string());
    state.robots_disallowed = Some(vec!["/private".to_string()]);

    let url1 = purl("https://example.com/public", 10);
    let url2 = purl("https://example.com/private/data", 10);

    state.add_urls_allowed_by_robots(vec![url1, url2]);

    assert!(state.has_pending());
    let next = state.get_next_url().unwrap();
    assert_eq!(next.url.as_str(), "https://example.com/public");
    assert!(!state.has_pending());
}

#[test]
fn test_duplicate_url_priority_promotion() {
    let mut state = DomainState::new("example.com".to_string());
    // Add as low priority (priority 2)
    state.add_urls(vec![purl("https://example.com/item", 2)]);
    assert_eq!(state.queue(PriorityBucket::Low).len(), 1);
    assert_eq!(state.queue(PriorityBucket::High).len(), 0);

    // Re-enqueue with high priority (priority 12)
    state.add_urls(vec![purl("https://example.com/item", 12)]);
    // Should migrate to the high queue and update the priority
    assert_eq!(state.queue(PriorityBucket::Low).len(), 0);
    assert_eq!(state.queue(PriorityBucket::High).len(), 1);
    assert_eq!(state.queue(PriorityBucket::High)[0].priority, 12);
}

#[test]
fn test_lottery_weighted_selection() {
    let mut state = DomainState::new("example.com".to_string());
    state.add_urls(vec![
        purl("https://example.com/low", 2),
        purl("https://example.com/med", 7),
        purl("https://example.com/high", 12),
    ]);

    let mut popped = Vec::new();
    while let Some(item) = state.get_next_url() {
        popped.push(item.url.as_str().to_string());
    }

    assert_eq!(popped.len(), 3);
    assert!(popped.contains(&"https://example.com/low".to_string()));
    assert!(popped.contains(&"https://example.com/med".to_string()));
    assert!(popped.contains(&"https://example.com/high".to_string()));
}

#[test]
fn from_priority_bucket_boundaries() {
    assert_eq!(PriorityBucket::from_priority(10), PriorityBucket::High);
    assert_eq!(PriorityBucket::from_priority(9), PriorityBucket::Medium);
    assert_eq!(PriorityBucket::from_priority(5), PriorityBucket::Medium);
    assert_eq!(PriorityBucket::from_priority(4), PriorityBucket::Low);
    assert_eq!(PriorityBucket::from_priority(-3), PriorityBucket::Low);
}

#[test]
fn lower_priority_duplicate_changes_nothing() {
    let mut state = DomainState::new("example.com".to_string());
    state.add_urls(vec![purl("https://example.com/item", 12)]);
    state.add_urls(vec![purl("https://example.com/item", 3), purl("https://example.com/item", 12)]);
    assert_eq!(state.queue(PriorityBucket::High).len(), 1);
    assert_eq!(state.queue(PriorityBucket::Low).len(), 0);
    assert_eq!(state.queue(PriorityBucket::High)[0].priority, 12);
}

#[test]
fn queues_are_sorted_stably_by_priority() {
    let mut state = DomainState::new("example.com".to_string());
    state.add_urls(vec![
        purl("https://example.com/a", 13),
        purl("https://example.com/b", 11),
        purl("https://example.com/c", 13),
        purl("https://example.com/d", 10),
    ]);
    let q: Vec<String> =
        state.queue(PriorityBucket::High).iter().map(|u| u.url.as_str().to_string()).collect();
    assert_eq!(q, vec![
        "https://example.com/d",
        "https://example.com/b",
        "https://example.com/a",
        "https://example.com/c",
    ]);
}

#[test]
fn get_next_url_follows_the_generator() {
    let mut state = DomainState::new("example.com".to_string());
    // Nothing waits: nothing is drawn and the generator does not move.
    assert!(state.get_next_url().is_none());
    assert_eq!(state.rng_state, 12345);
    state.add_urls(vec![purl("https://example.com/low", 1), purl("https://example.com/high", 11)]);
    // 12345 * 1103515245 + 12345 modulo 2^32 is 3554416254; 3554416254 / 65536 % 100 = 36,
    // so the high queue is tried first.
    let first = state.get_next_url().unwrap();
    assert_eq!(state.rng_state, 3554416254);
    assert_eq!(first.url.as_str(), "https://example.com/high");
    let second = state.get_next_url().unwrap();
    assert_eq!(second.url.as_str(), "https://example.com/low");
    assert!(state.get_next_url().is_none());
}

#[test]
fn robots_root_rule_disallows_everything() {
    let mut state = DomainState::new("example.com".to_string());
    assert!(state.is_allowed_by_robots(&url("https://example.com/x")));
    state.robots_disallowed = Some(vec!["/".to_string()]);
    assert!(!state.is_allowed_by_robots(&url("https://example.com/x")));
    state.robots_disallowed = Some(vec![]);
    assert!(state.is_allowed_by_robots(&url("https://example.com/x")));
}

#[test]
fn status_and_delay_accessors() {
    let mut state = DomainState::new("example.com".to_string());
    state.set_status(ProcessingStatus::Scheduled);
    assert!(state.is_scheduled());
    assert_eq!(*state.get_status(), ProcessingStatus::Scheduled);
    state.set_status(ProcessingStatus::Processing);
    assert!(state.is_processing());
    state.set_delay(2500);
    assert_eq!(state.get_delay(), 2500);
}
