use web_crawler::common::PrioritizedUrl;
use web_crawler::domain_agent::{filter_uncrawled, DomainCrawlerError, ProcessStep};
use web_crawler::domain_crawler::{DomainState, ProcessingStatus};
use web_crawler::orchestrator::{domain_infos, plan_start_crawl, OrchestratorError};
use web_crawler::priority::calculate_priority;
use web_crawler::robots::{last_crawl_delay, parse_robots_txt};
use web_crawler::web_url::WebUrl;

fn url(s: &str) -> WebUrl {
    WebUrl::parse(s).unwrap()
}

fn purl(s: &str, priority: i32) -> PrioritizedUrl {
    PrioritizedUrl { url: url(s), priority }
}

#[test]
fn robots_rules_for_this_crawler() {
    let content = "# comment\r\nUser-agent: other\nDisallow: /no-other\n\nUser-Agent: *\r\nDisallow: /private\nDisallow:\nCrawl-delay: 2.5\nnonsense line\n  DISALLOW :  /tmp/  \nUser-agent: Golem\nCrawl-delay: x\n";
    let r = parse_robots_txt(content);
    assert_eq!(r.disallowed, vec!["/private".to_string(), "/tmp/".to_string()]);
    assert_eq!(r.crawl_delay_values, vec!["2.5".to_string(), "x".to_string()]);
    assert!(parse_robots_txt("").disallowed.is_empty());
}

#[test]
fn last_readable_crawl_delay_wins() {
    assert_eq!(last_crawl_delay(&vec![Some(2500), None]), Some(2500));
    assert_eq!(last_crawl_delay(&vec![Some(1), Some(7)]), Some(7));
    assert_eq!(last_crawl_delay(&vec![]), None);
}

#[test]
fn priority_of_links() {
    let words = vec!["docs".to_string()];
    assert_eq!(calculate_priority("https://example.com/", &words), 10);
    assert_eq!(calculate_priority("https://example.com/a/b/", &words), 8);
    assert_eq!(calculate_priority("https://example.com/a?x=1", &words), 7);
    assert_eq!(calculate_priority("https://example.com/docs/x", &words), 10);
    assert_eq!(calculate_priority("example.com/a/b", &words), 10);
    assert_eq!(calculate_priority("https://example.com", &[]), 10);
}

#[test]
fn enqueue_refuses_urls_of_other_domains() {
    let mut state = DomainState::new("example.com".to_string());
    let res = state.enqueue(vec![purl("https://example.com/a", 5), purl("https://other.com/b", 5)]);
    match res {
        Err(DomainCrawlerError::InvalidUrlForDomain { url, domain }) => {
            assert_eq!(url, "https://other.com/b");
            assert_eq!(domain, "example.com");
        }
        _ => panic!("accepted a foreign URL"),
    }
    assert!(!state.has_pending());
}

#[test]
fn enqueue_schedules_an_inactive_agent() {
    let mut state = DomainState::new("example.com".to_string());
    state.set_delay(1500);
    let res = state.enqueue(vec![purl("https://example.com/a", 5)]).unwrap();
    assert_eq!(res, Some(2));
    assert!(state.is_scheduled());
    let again = state.enqueue(vec![purl("https://example.com/b", 5)]).unwrap();
    assert_eq!(again, None);
}

#[test]
fn processing_steps() {
    let mut state = DomainState::new("example.com".to_string());
    assert!(matches!(state.begin_process_next(), ProcessStep::Idle));
    assert!(state.is_inactive());
    state.add_urls(vec![purl("https://example.com/private/x", 12), purl("https://example.com/ok", 3)]);
    assert!(matches!(state.begin_process_next(), ProcessStep::FetchRobots));
    match state.robots_fetched(vec!["/private".to_string()], Some(3000)) {
        ProcessStep::Scheduled(secs) => assert_eq!(secs, 3),
        _ => panic!("a disallowed URL was not skipped"),
    }
    assert_eq!(state.get_delay(), 3000);
    assert!(state.is_scheduled());
    match state.begin_process_next() {
        ProcessStep::Fetch(u) => assert_eq!(u.as_str(), "https://example.com/ok"),
        _ => panic!("no fetch"),
    }
    assert_eq!(*state.get_status(), ProcessingStatus::Processing);
    state.fetch_finished(true);
    state.fetch_finished(false);
    assert_eq!(state.processed_count, 1);
    assert_eq!(state.error_count, 1);
    assert_eq!(state.schedule_next_step(), None);
    assert!(state.is_inactive());
}

#[test]
fn link_routing() {
    let mut state = DomainState::new("example.com".to_string());
    state.robots_disallowed = Some(vec!["/secret".to_string()]);
    let links = vec![
        url("https://example.com/a"),
        url("https://other.com/b"),
        url("https://example.com/secret/c"),
        url("https://example.com/a-very-long-link-indeed"),
        url("https://other.com/d?x"),
    ];
    let candidates = state.select_candidate_links(links, 30, true);
    assert_eq!(candidates.len(), 4);
    let only_own = state.select_candidate_links(candidates.iter().cloned().collect(), 100, false);
    assert_eq!(only_own.len(), 2);
    let uncrawled = filter_uncrawled(candidates, &vec!["https://other.com/b".to_string()]);
    assert_eq!(uncrawled.len(), 3);
    let foreign = state.route_links(uncrawled, &[]);
    assert_eq!(foreign.len(), 1);
    assert_eq!(foreign[0].domain, "other.com");
    assert_eq!(foreign[0].urls.len(), 1);
    assert_eq!(foreign[0].urls[0].priority, 7);
    assert!(state.has_pending());
    let next = state.get_next_url().unwrap();
    assert_eq!(next.url.as_str(), "https://example.com/a");
    assert_eq!(next.priority, 9);
    assert!(!state.has_pending());
}

#[test]
fn starting_a_crawl() {
    assert!(matches!(plan_start_crawl(vec![], &[]), Err(OrchestratorError::EmptySeedList)));
    match plan_start_crawl(vec!["https://a.com".to_string(), "bad".to_string(), "worse".to_string()], &[]) {
        Err(OrchestratorError::InvalidUrl { url }) => assert_eq!(url, "bad"),
        _ => panic!("accepted a bad seed"),
    }
    let prefixes = vec!["www".to_string()];
    let groups = plan_start_crawl(
        vec!["https://www.a.com/x".to_string(), "https://a.com/y".to_string(), "https://b.com".to_string()],
        &prefixes,
    )
    .unwrap();
    assert_eq!(groups.len(), 2);
    for g in &groups {
        for u in &g.urls {
            assert_eq!(u.priority, 10);
        }
    }
}

#[test]
fn domain_counts() {
    let infos = domain_infos(vec![("a.com".to_string(), 3), ("b.com".to_string(), -1)]);
    assert_eq!(infos[0].domain, "a.com");
    assert_eq!(infos[0].page_count, 3);
    assert_eq!(infos[1].page_count, u64::MAX);
}

#[test]
fn seeds_reach_their_domain_agent_normalized() {
    let prefixes = vec!["www".to_string()];
    let mut groups = plan_start_crawl(vec!["https://www.golem.cloud/docs".to_string()], &prefixes).unwrap();
    assert_eq!(groups.len(), 1);
    let g = groups.remove(0);
    assert_eq!(g.domain, "golem.cloud");
    assert_eq!(g.urls[0].url.as_str(), "https://golem.cloud/docs");
    let mut state = DomainState::new(g.domain.clone());
    assert!(state.enqueue(g.urls).is_ok());
    assert!(state.has_pending());
}

#[test]
fn no_foreign_groups_without_cross_domain_links() {
    let mut state = DomainState::new("example.com".to_string());
    let links = vec![url("https://example.com/a"), url("https://other.com/b"), url("https://third.org/c")];
    let own = state.select_candidate_links(links, 100, false);
    assert_eq!(own.len(), 1);
    let foreign = state.route_links(own, &[]);
    assert!(foreign.is_empty());
    assert!(state.has_pending());
}

#[test]
fn normalized_seeds_are_grouped_by_their_host() {
    let prefixes = vec!["www".to_string()];
    let mut groups = plan_start_crawl(vec!["https://www.www.example.com/".to_string()], &prefixes).unwrap();
    assert_eq!(groups.len(), 1);
    let g = groups.remove(0);
    assert_eq!(g.domain, "www.example.com");
    assert_eq!(g.urls[0].url.as_str(), "https://www.example.com/");
    let mut state = DomainState::new(g.domain.clone());
    assert!(state.enqueue(g.urls).is_ok());
}
