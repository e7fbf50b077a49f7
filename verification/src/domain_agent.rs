//! The decisions of a domain's crawling agent. The agent's work that
//! reaches outside (fetching robots.txt and pages, the database, other
//! agents, the clock, scheduling) is done by its caller; each function here
//! takes what came back and says what to do next.

use vstd::prelude::*;
use crate::common::{names_view, PrioritizedGroup, PrioritizedUrl};
use crate::domain_crawler::{
    allowed_urls, insert_all, queues_sorted_from, rules_view, same_but_queues, DomainState,
    ProcessingStatus,
};
use crate::priority::{calculate_priority, url_priority};
use crate::web_url::WebUrl;

verus! {

/// What went wrong in a domain's crawling agent.
#[derive(Debug)]
pub enum DomainCrawlerError {
    QueueFull { max_size: usize },
    InvalidUrlForDomain { url: String, domain: String },
    ConfigurationError { message: String },
    FetcherFailed { message: String },
}

/// How discovered links are treated.
#[derive(Clone, Debug)]
pub struct UrlProcessingConfig {
    /// Words that raise the priority of a link that holds one.
    pub boost_words: Vec<String>,
    /// Links longer than this (in bytes) are dropped.
    pub max_url_length: u32,
    /// Whether links to other domains are followed.
    pub allow_cross_domain: bool,
    /// Host prefixes (such as `www`) that domain normalization strips.
    pub normalize_prefixes: Vec<String>,
}

/// What the agent is to do next.
#[derive(Debug)]
pub enum ProcessStep {
    /// Fetch the domain's robots.txt and hand the result to `robots_fetched`.
    FetchRobots,
    /// Fetch this page and hand the outcome to `fetch_finished`.
    Fetch(WebUrl),
    /// Run the next step after this many seconds.
    Scheduled(u64),
    /// Nothing waits; the agent is inactive.
    Idle,
}

/// Seconds to wait for a delay in milliseconds: the delay divided by 1000,
/// rounded up.
pub open spec fn delay_seconds(delay_ms: u32) -> int {
    (delay_ms + 999) / 1000
}

/// Whether a URL belongs to the domain.
pub open spec fn url_in_domain(u: WebUrl, domain: Seq<char>) -> bool {
    u.host is Some && u.host->0@ == domain
}

/// The byte length of a URL's serialization, as the agent compares it with
/// the limit (cast to `u32`).
pub open spec fn url_byte_len(u: WebUrl) -> u32 {
    (vstd::utf8::encode_utf8(u.href@).len() as usize) as u32
}

/// Whether a discovered link is a candidate: within the length limit, with
/// a host that is the domain or, where that is allowed, any host.
pub open spec fn link_is_candidate(u: WebUrl, domain: Seq<char>, max_len: u32, cross: bool) -> bool {
    &&& url_byte_len(u) <= max_len
    &&& u.host is Some
    &&& (u.host->0@ == domain || cross)
}

/// The links of `us` that are candidates, in order.
pub open spec fn candidate_links(us: Seq<WebUrl>, domain: Seq<char>, max_len: u32, cross: bool) -> Seq<
    WebUrl,
>
    decreases us.len(),
{
    if us.len() == 0 {
        us
    } else if link_is_candidate(us.last(), domain, max_len, cross) {
        candidate_links(us.drop_last(), domain, max_len, cross).push(us.last())
    } else {
        candidate_links(us.drop_last(), domain, max_len, cross)
    }
}

/// The links of `us` whose serialization is not among `crawled`, in order.
pub open spec fn uncrawled_links(us: Seq<WebUrl>, crawled: Seq<Seq<char>>) -> Seq<WebUrl>
    decreases us.len(),
{
    if us.len() == 0 {
        us
    } else if crawled.contains(us.last().href@) {
        uncrawled_links(us.drop_last(), crawled)
    } else {
        uncrawled_links(us.drop_last(), crawled).push(us.last())
    }
}

/// The links of `us` with host `host`, each with its priority, in order.
pub open spec fn prioritized_for_host(
    us: Seq<WebUrl>,
    host: Seq<char>,
    words: Seq<Seq<char>>,
) -> Seq<PrioritizedUrl>
    decreases us.len(),
{
    if us.len() == 0 {
        Seq::empty()
    } else if url_in_domain(us.last(), host) {
        prioritized_for_host(us.drop_last(), host, words).push(
            PrioritizedUrl { url: us.last(), priority: url_priority(us.last().href@, words) as i32 },
        )
    } else {
        prioritized_for_host(us.drop_last(), host, words)
    }
}

/// `groups` holds the links of `us` to hosts other than `domain`, grouped by
/// host and prioritized: no host twice, none is `domain`, each group holds
/// the links of its host in order, every link to another host has its
/// group, and every group's host is the host of some link (so no group is
/// empty). (Which order the groups come in is left open.)
pub open spec fn foreign_groups_exact(
    groups: Seq<PrioritizedGroup>,
    us: Seq<WebUrl>,
    domain: Seq<char>,
    words: Seq<Seq<char>>,
) -> bool {
    &&& forall|i: int, j: int|
        0 <= i < groups.len() && 0 <= j < groups.len() && i != j ==> #[trigger] groups[i].domain@
            != #[trigger] groups[j].domain@
    &&& forall|i: int| 0 <= i < groups.len() ==> #[trigger] groups[i].domain@ != domain
    &&& forall|i: int|
        0 <= i < groups.len() ==> #[trigger] groups[i].urls@ == prioritized_for_host(
            us,
            groups[i].domain@,
            words,
        )
    &&& forall|k: int|
        0 <= k < us.len() && (#[trigger] us[k]).host is Some && us[k].host->0@ != domain
            ==> exists|i: int| 0 <= i < groups.len() && #[trigger] groups[i].domain@ == us[k].host->0@
    &&& forall|i: int|
        #![trigger groups[i]]
        0 <= i < groups.len() ==> exists|k: int|
            0 <= k < us.len() && url_in_domain(#[trigger] us[k], groups[i].domain@)
}

proof fn lemma_prioritized_absent(us: Seq<WebUrl>, host: Seq<char>, words: Seq<Seq<char>>)
    requires
        forall|m: int| 0 <= m < us.len() ==> !url_in_domain(#[trigger] us[m], host),
    ensures
        prioritized_for_host(us, host, words) == Seq::<PrioritizedUrl>::empty(),
    decreases us.len(),
{
    if us.len() > 0 {
        assert(!url_in_domain(us[us.len() - 1], host));
        lemma_prioritized_absent(us.drop_last(), host, words);
    }
}

proof fn lemma_prioritized_present(us: Seq<WebUrl>, host: Seq<char>, words: Seq<Seq<char>>, m: int)
    requires
        0 <= m < us.len(),
        url_in_domain(us[m], host),
    ensures
        prioritized_for_host(us, host, words).len() > 0,
    decreases us.len(),
{
    if m < us.len() - 1 {
        assert(us.drop_last()[m] == us[m]);
        lemma_prioritized_present(us.drop_last(), host, words, m);
    }
}

proof fn lemma_candidates_in_domain(us: Seq<WebUrl>, domain: Seq<char>, max_len: u32)
    ensures
        forall|k: int|
            0 <= k < candidate_links(us, domain, max_len, false).len() ==> url_in_domain(
                #[trigger] candidate_links(us, domain, max_len, false)[k],
                domain,
            ),
    decreases us.len(),
{
    if us.len() > 0 {
        lemma_candidates_in_domain(us.drop_last(), domain, max_len);
        let prev = candidate_links(us.drop_last(), domain, max_len, false);
        if link_is_candidate(us.last(), domain, max_len, false) {
            assert forall|k: int|
                0 <= k < prev.push(us.last()).len() implies url_in_domain(#[trigger] prev.push(us.last())[k], domain) by {
                if k < prev.len() {
                    assert(prev.push(us.last())[k] == prev[k]);
                }
            }
        }
    }
}

/// No foreign group is empty: each holds at least one link to its host.
pub proof fn law_no_empty_foreign_group(
    groups: Seq<PrioritizedGroup>,
    us: Seq<WebUrl>,
    domain: Seq<char>,
    words: Seq<Seq<char>>,
)
    requires
        foreign_groups_exact(groups, us, domain, words),
    ensures
        forall|i: int| 0 <= i < groups.len() ==> (#[trigger] groups[i]).urls@.len() > 0,
{
    assert forall|i: int| 0 <= i < groups.len() implies (#[trigger] groups[i]).urls@.len() > 0 by {
        let k = choose|k: int| 0 <= k < us.len() && url_in_domain(#[trigger] us[k], groups[i].domain@);
        lemma_prioritized_present(us, groups[i].domain@, words, k);
    }
}

/// Where links to other domains are not allowed, the candidate links give
/// no group for another host, so nothing is sent to another agent.
pub proof fn law_no_foreign_groups_without_cross_domain(
    groups: Seq<PrioritizedGroup>,
    links: Seq<WebUrl>,
    domain: Seq<char>,
    max_len: u32,
    words: Seq<Seq<char>>,
)
    requires
        foreign_groups_exact(groups, candidate_links(links, domain, max_len, false), domain, words),
    ensures
        groups.len() == 0,
{
    let cs = candidate_links(links, domain, max_len, false);
    lemma_candidates_in_domain(links, domain, max_len);
    if groups.len() > 0 {
        let g = groups[0];
        let k = choose|k: int| 0 <= k < cs.len() && url_in_domain(#[trigger] cs[k], g.domain@);
        assert(url_in_domain(cs[k], domain));
        assert(g.domain@ != domain);
    }
}

impl DomainState {
    /// After the queues changed: where URLs wait, the agent is scheduled to
    /// run again after the politeness delay (in seconds, rounded up);
    /// otherwise it becomes inactive.
    pub fn schedule_next_step(&mut self) -> (res: Option<u64>)
        ensures
            same_but_queues(
                DomainState { status: old(self).status, ..*final(self) },
                *old(self),
            ),
            final(self).queues() == old(self).queues(),
            old(self).queues().total() > 0 ==> final(self).status == ProcessingStatus::Scheduled
                && res == Some(delay_seconds(old(self).politeness_delay_ms) as u64),
            old(self).queues().total() == 0 ==> final(self).status == ProcessingStatus::Inactive
                && res is None,
    {
        if self.has_pending() {
            let delay_ms = self.get_delay();
            let secs = (delay_ms as u64 + 999) / 1000;
            self.set_status(ProcessingStatus::Scheduled);
            Some(secs)
        } else {
            self.set_status(ProcessingStatus::Inactive);
            None
        }
    }

    /// Takes URLs offered for this domain. Where one of them does not belong
    /// to the domain, the first such is refused and nothing changes.
    /// Otherwise they are offered (see `add_urls`), and an inactive agent
    /// with URLs waiting is scheduled (see `schedule_next_step`).
    pub fn enqueue(&mut self, urls: Vec<PrioritizedUrl>) -> (res: Result<Option<u64>, DomainCrawlerError>)
        ensures
            (exists|k: int| 0 <= k < urls@.len() && !url_in_domain(urls@[k].url, old(self).domain@))
                ==> {
                let k = choose|k: int|
                    0 <= k < urls@.len() && !url_in_domain(urls@[k].url, old(self).domain@)
                        && forall|j: int|
                        0 <= j < k ==> url_in_domain(#[trigger] urls@[j].url, old(self).domain@);
                &&& *final(self) == *old(self)
                &&& res matches Err(DomainCrawlerError::InvalidUrlForDomain { url, domain })
                &&& res->Err_0->url@ == urls@[k].url.href@
                &&& res->Err_0->domain@ == old(self).domain@
            },
            (forall|k: int| 0 <= k < urls@.len() ==> url_in_domain(#[trigger] urls@[k].url, old(self).domain@))
                ==> {
                &&& res is Ok
                &&& queues_sorted_from(insert_all(old(self).queues(), urls@), final(self).queues())
                &&& final(self).domain == old(self).domain
                &&& final(self).politeness_delay_ms == old(self).politeness_delay_ms
                &&& final(self).robots_disallowed == old(self).robots_disallowed
                &&& final(self).rng_state == old(self).rng_state
                &&& final(self).processed_count == old(self).processed_count
                &&& final(self).error_count == old(self).error_count
                &&& if old(self).status == ProcessingStatus::Inactive && final(self).queues().total() > 0 {
                    final(self).status == ProcessingStatus::Scheduled && res == Ok::<
                        Option<u64>,
                        DomainCrawlerError,
                    >(Some(delay_seconds(old(self).politeness_delay_ms) as u64))
                } else {
                    final(self).status == old(self).status && res == Ok::<
                        Option<u64>,
                        DomainCrawlerError,
                    >(None)
                }
            },
    {
        let mut i: usize = 0;
        while i < urls.len()
            invariant
                i <= urls@.len(),
                forall|j: int| 0 <= j < i ==> url_in_domain(#[trigger] urls@[j].url, self.domain@),
            decreases urls@.len() - i,
        {
            if !self.validate_url(&urls[i].url) {
                proof {
                    let k = choose|k: int|
                        0 <= k < urls@.len() && !url_in_domain(urls@[k].url, self.domain@)
                            && forall|j: int|
                            0 <= j < k ==> url_in_domain(#[trigger] urls@[j].url, self.domain@);
                    if k < i {
                        assert(url_in_domain(urls@[k].url, self.domain@));
                    }
                    if k > i {
                        assert(url_in_domain(urls@[i as int].url, self.domain@));
                    }
                }
                return Err(
                    DomainCrawlerError::InvalidUrlForDomain {
                        url: urls[i].url.href.clone(),
                        domain: self.domain.clone(),
                    },
                );
            }
            i = i + 1;
        }
        self.add_urls(urls);
        if self.is_inactive() && self.has_pending() {
            let s = self.schedule_next_step();
            Ok(s)
        } else {
            Ok(None)
        }
    }

    /// What to do when the processing step runs: with nothing waiting the
    /// agent becomes inactive; before the robots.txt rules are loaded they
    /// are fetched; otherwise the next URL is taken (see `take_next_target`).
    pub fn begin_process_next(&mut self) -> (res: ProcessStep)
        ensures
            old(self).queues().total() == 0 ==> res is Idle && *final(self) == (DomainState {
                status: ProcessingStatus::Inactive,
                ..*old(self)
            }),
            old(self).queues().total() > 0 && old(self).robots_disallowed is None ==> res is FetchRobots
                && *final(self) == *old(self),
            old(self).queues().total() > 0 && old(self).robots_disallowed is Some
                ==> next_target_taken(*old(self), *final(self), res),
    {
        if !self.has_pending() {
            self.set_status(ProcessingStatus::Inactive);
            return ProcessStep::Idle;
        }
        if self.robots_disallowed.is_none() {
            return ProcessStep::FetchRobots;
        }
        self.take_next_target()
    }

    /// Stores the robots.txt rules that were fetched, and the crawl delay
    /// where one was given, then takes the next URL (see `take_next_target`).
    pub fn robots_fetched(&mut self, disallowed: Vec<String>, crawl_delay_ms: Option<u32>) -> (res:
        ProcessStep)
        ensures
            ({
                let loaded = DomainState {
                    robots_disallowed: Some(disallowed),
                    politeness_delay_ms: match crawl_delay_ms {
                        Some(d) => d,
                        None => old(self).politeness_delay_ms,
                    },
                    ..*old(self)
                };
                next_target_taken(loaded, *final(self), res)
            }),
    {
        self.robots_disallowed = Some(disallowed);
        match crawl_delay_ms {
            Some(d) => self.set_delay(d),
            None => {},
        }
        self.take_next_target()
    }

    /// Takes the next URL (see `get_next_url`). With none, the agent becomes
    /// inactive. A URL that robots.txt disallows is skipped and the next step
    /// scheduled (see `schedule_next_step`); any other is to be fetched, and
    /// the agent is processing.
    pub fn take_next_target(&mut self) -> (res: ProcessStep)
        ensures
            next_target_taken(*old(self), *final(self), res),
    {
        let ghost before = *self;
        match self.get_next_url() {
            None => {
                self.set_status(ProcessingStatus::Inactive);
                ProcessStep::Idle
            },
            Some(target) => {
                let ghost popped = *self;
                if !self.is_allowed_by_robots(&target.url) {
                    match self.schedule_next_step() {
                        Some(d) => ProcessStep::Scheduled(d),
                        None => ProcessStep::Idle,
                    }
                } else {
                    self.set_status(ProcessingStatus::Processing);
                    ProcessStep::Fetch(target.url)
                }
            },
        }
    }

    /// Records how fetching a page went: one more page processed, or one more
    /// error.
    pub fn fetch_finished(&mut self, succeeded: bool)
        requires
            succeeded ==> old(self).processed_count < u64::MAX,
            !succeeded ==> old(self).error_count < u64::MAX,
        ensures
            succeeded ==> *final(self) == (DomainState {
                processed_count: (old(self).processed_count + 1) as u64,
                ..*old(self)
            }),
            !succeeded ==> *final(self) == (DomainState {
                error_count: (old(self).error_count + 1) as u64,
                ..*old(self)
            }),
    {
        if succeeded {
            self.processed_count = self.processed_count + 1;
        } else {
            self.error_count = self.error_count + 1;
        }
    }
}

fn find_group(groups: &Vec<PrioritizedGroup>, domain: &String) -> (res: Option<usize>)
    ensures
        match res {
            Some(g) => g < groups@.len() && groups@[g as int].domain@ == domain@,
            None => forall|i: int| 0 <= i < groups@.len() ==> #[trigger] groups@[i].domain@ != domain@,
        },
{
    let mut i: usize = 0;
    while i < groups.len()
        invariant
            i <= groups@.len(),
            forall|j: int| 0 <= j < i ==> #[trigger] groups@[j].domain@ != domain@,
        decreases groups@.len() - i,
    {
        if groups[i].domain == *domain {
            return Some(i);
        }
        i = i + 1;
    }
    None
}

impl DomainState {
    /// The discovered links that are candidates (see `link_is_candidate`), in
    /// order.
    pub fn select_candidate_links(&self, links: Vec<WebUrl>, max_url_length: u32, allow_cross_domain: bool) -> (res: Vec<WebUrl>)
        ensures
            res@ == candidate_links(links@, self.domain@, max_url_length, allow_cross_domain),
    {
        let mut out: Vec<WebUrl> = Vec::new();
        let mut i: usize = 0;
        assert(links@.take(0) =~= Seq::<WebUrl>::empty());
        while i < links.len()
            invariant
                i <= links@.len(),
                out@ == candidate_links(links@.take(i as int), self.domain@, max_url_length, allow_cross_domain),
            decreases links@.len() - i,
        {
            assert(links@.take(i + 1).drop_last() =~= links@.take(i as int));
            let u = &links[i];
            let len = u.href.as_str().len() as u32;
            if len <= max_url_length {
                match &u.host {
                    Some(h) => {
                        if *h == self.domain || allow_cross_domain {
                            out.push(u.clone());
                        }
                    },
                    None => {},
                }
            }
            i = i + 1;
        }
        assert(links@.take(links@.len() as int) =~= links@);
        out
    }

    /// Prioritizes the links (see `url_priority`) and groups them by host.
    /// The links to this domain that robots.txt allows are offered to the
    /// queues (see `add_urls_allowed_by_robots`) where there is any link to
    /// this domain at all; the groups for the other hosts are returned, to be
    /// sent to their agents.
    pub fn route_links(&mut self, links: Vec<WebUrl>, boost_words: &[String]) -> (res: Vec<PrioritizedGroup>)
        requires
            forall|k: int| 0 <= k < links@.len() ==> (#[trigger] links@[k]).href@.len() <= i32::MAX,
        ensures
            foreign_groups_exact(res@, links@, old(self).domain@, names_view(boost_words@)),
            same_but_queues(*old(self), *final(self)),
            (exists|k: int| 0 <= k < links@.len() && url_in_domain(#[trigger] links@[k], old(self).domain@))
                ==> queues_sorted_from(
                insert_all(
                    old(self).queues(),
                    allowed_urls(
                        rules_view(old(self).robots_disallowed),
                        prioritized_for_host(links@, old(self).domain@, names_view(boost_words@)),
                    ),
                ),
                final(self).queues(),
            ),
            (forall|k: int| 0 <= k < links@.len() ==> !url_in_domain(#[trigger] links@[k], old(self).domain@))
                ==> final(self).queues() == old(self).queues(),
    {
        let ghost words = names_view(boost_words@);
        let ghost dom = self.domain@;
        let mut own: Vec<PrioritizedUrl> = Vec::new();
        let mut own_found = false;
        let mut groups: Vec<PrioritizedGroup> = Vec::new();
        let mut i: usize = 0;
        assert(links@.take(0) =~= Seq::<WebUrl>::empty());
        while i < links.len()
            invariant
                i <= links@.len(),
                words == names_view(boost_words@),
                dom == self.domain@,
                forall|k: int| 0 <= k < links@.len() ==> (#[trigger] links@[k]).href@.len() <= i32::MAX,
                own@ == prioritized_for_host(links@.take(i as int), dom, words),
                own_found == exists|k: int| 0 <= k < i && url_in_domain(#[trigger] links@[k], dom),
                foreign_groups_exact(groups@, links@.take(i as int), dom, words),
            decreases links@.len() - i,
        {
            let ghost pre = links@.take(i as int);
            let ghost post = links@.take(i + 1);
            let ghost old_groups = groups@;
            assert(post.drop_last() =~= pre);
            assert(post.last() == links@[i as int]);
            assert forall|k: int| 0 <= k < pre.len() implies #[trigger] pre[k] == post[k] by {}
            let u = links[i].clone();
            match &u.host {
                None => {
                    assert forall|g: int| 0 <= g < groups@.len() implies #[trigger] groups@[g].urls@
                        == prioritized_for_host(post, groups@[g].domain@, words) by {}
                    assert forall|k: int| 0 <= k < post.len() && (#[trigger] post[k]).host is Some && post[k].host->0@ != dom implies exists|
                        g: int,
                    | 0 <= g < groups@.len() && #[trigger] groups@[g].domain@ == post[k].host->0@ by {
                        assert(pre[k] == post[k]);
                    }
                assert forall|g: int| #![trigger groups@[g]] 0 <= g < groups@.len() implies exists|k: int|
                    0 <= k < post.len() && url_in_domain(#[trigger] post[k], groups@[g].domain@) by {
                    let k = choose|k: int| 0 <= k < pre.len() && url_in_domain(#[trigger] pre[k], groups@[g].domain@);
                    assert(pre[k] == post[k]);
                }
                },
                Some(h) => {
                    let p = calculate_priority(u.href.as_str(), boost_words);
                    let h2 = h.clone();
                    let pu = PrioritizedUrl { url: u, priority: p };
                    if h2 == self.domain {
                        own.push(pu);
                        own_found = true;
                        assert forall|g: int| 0 <= g < groups@.len() implies #[trigger] groups@[g].urls@
                            == prioritized_for_host(post, groups@[g].domain@, words) by {}
                        assert forall|k: int| 0 <= k < post.len() && (#[trigger] post[k]).host is Some && post[k].host->0@ != dom implies exists|
                            g: int,
                        | 0 <= g < groups@.len() && #[trigger] groups@[g].domain@ == post[k].host->0@ by {
                            assert(pre[k] == post[k]);
                        }
                    assert forall|g: int| #![trigger groups@[g]] 0 <= g < groups@.len() implies exists|k: int|
                        0 <= k < post.len() && url_in_domain(#[trigger] post[k], groups@[g].domain@) by {
                        let k = choose|k: int| 0 <= k < pre.len() && url_in_domain(#[trigger] pre[k], groups@[g].domain@);
                        assert(pre[k] == post[k]);
                    }
                    } else {
                        match find_group(&groups, &h2) {
                            Some(g) => {
                                let mut grp = groups.remove(g);
                                grp.urls.push(pu);
                                groups.insert(g, grp);
                                assert forall|j: int| 0 <= j < groups@.len() implies #[trigger] groups@[j].domain@
                                    == old_groups[j].domain@ by {}
                                assert forall|j: int| 0 <= j < groups@.len() implies #[trigger] groups@[j].urls@
                                    == prioritized_for_host(post, groups@[j].domain@, words) by {
                                    if j != g {
                                        assert(groups@[j] == old_groups[j]);
                                    }
                                }
                                assert forall|k: int| 0 <= k < post.len() && (#[trigger] post[k]).host is Some && post[k].host->0@ != dom implies exists|
                                    j: int,
                                | 0 <= j < groups@.len() && #[trigger] groups@[j].domain@ == post[k].host->0@ by {
                                    if k < pre.len() {
                                        assert(pre[k] == post[k]);
                                        let j = choose|j: int|
                                            0 <= j < old_groups.len() && #[trigger] old_groups[j].domain@
                                                == pre[k].host->0@;
                                        assert(groups@[j].domain@ == old_groups[j].domain@);
                                    } else {
                                        assert(groups@[g as int].domain@ == h2@);
                                    }
                                }
                                assert forall|j: int| #![trigger groups@[j]] 0 <= j < groups@.len() implies exists|k: int|
                                    0 <= k < post.len() && url_in_domain(#[trigger] post[k], groups@[j].domain@) by {
                                    assert(groups@[j].domain@ == old_groups[j].domain@);
                                    let k = choose|k: int| 0 <= k < pre.len() && url_in_domain(#[trigger] pre[k], old_groups[j].domain@);
                                    assert(pre[k] == post[k]);
                                }
                            },
                            None => {
                                proof {
                                    assert forall|m: int| 0 <= m < pre.len() implies !url_in_domain(#[trigger] pre[m], h2@) by {
                                        if url_in_domain(pre[m], h2@) {
                                            let j = choose|j: int|
                                                0 <= j < old_groups.len() && #[trigger] old_groups[j].domain@
                                                    == pre[m].host->0@;
                                            assert(old_groups[j].domain@ != h2@);
                                        }
                                    }
                                    lemma_prioritized_absent(pre, h2@, words);
                                }
                                let ghost hv = h2@;
                                let mut v: Vec<PrioritizedUrl> = Vec::new();
                                v.push(pu);
                                groups.push(PrioritizedGroup { domain: h2, urls: v });
                                let ghost n: int = groups@.len() - 1;
                                assert(groups@[n].urls@ =~= Seq::<PrioritizedUrl>::empty().push(pu));
                                assert forall|j: int| 0 <= j < groups@.len() implies #[trigger] groups@[j].urls@
                                    == prioritized_for_host(post, groups@[j].domain@, words) by {
                                    if j < n {
                                        assert(groups@[j] == old_groups[j]);
                                    }
                                }
                                assert forall|j: int| 0 <= j < groups@.len() implies #[trigger] groups@[j].domain@ != dom by {
                                    if j < n {
                                        assert(groups@[j] == old_groups[j]);
                                    }
                                }
                                assert forall|a: int, b: int|
                                    0 <= a < groups@.len() && 0 <= b < groups@.len() && a != b implies #[trigger] groups@[a].domain@
                                    != #[trigger] groups@[b].domain@ by {
                                    if a < n && b < n {
                                        assert(groups@[a] == old_groups[a]);
                                        assert(groups@[b] == old_groups[b]);
                                    } else if a < n {
                                        assert(groups@[a] == old_groups[a]);
                                    } else {
                                        assert(groups@[b] == old_groups[b]);
                                    }
                                }
                                assert forall|k: int| 0 <= k < post.len() && (#[trigger] post[k]).host is Some && post[k].host->0@ != dom implies exists|
                                    j: int,
                                | 0 <= j < groups@.len() && #[trigger] groups@[j].domain@ == post[k].host->0@ by {
                                    if k < pre.len() {
                                        assert(pre[k] == post[k]);
                                        let j = choose|j: int|
                                            0 <= j < old_groups.len() && #[trigger] old_groups[j].domain@
                                                == pre[k].host->0@;
                                        assert(groups@[j] == old_groups[j]);
                                    } else {
                                        assert(groups@[n].domain@ == hv);
                                    }
                                }
                                assert forall|j: int| #![trigger groups@[j]] 0 <= j < groups@.len() implies exists|k: int|
                                    0 <= k < post.len() && url_in_domain(#[trigger] post[k], groups@[j].domain@) by {
                                    if j < n {
                                        assert(groups@[j] == old_groups[j]);
                                        let k = choose|k: int| 0 <= k < pre.len() && url_in_domain(#[trigger] pre[k], old_groups[j].domain@);
                                        assert(pre[k] == post[k]);
                                    } else {
                                        assert(url_in_domain(post[i as int], hv));
                                    }
                                }
                            },
                        }
                    }
                },
            }
            i = i + 1;
        }
        assert(links@.take(links@.len() as int) =~= links@);
        if own_found {
            self.add_urls_allowed_by_robots(own);
        }
        groups
    }
}

/// The links whose serialization is not among those already crawled, in
/// order.
pub fn filter_uncrawled(urls: Vec<WebUrl>, crawled: &Vec<String>) -> (res: Vec<WebUrl>)
    ensures
        res@ == uncrawled_links(urls@, names_view(crawled@)),
{
    let ghost cv = names_view(crawled@);
    let mut out: Vec<WebUrl> = Vec::new();
    let mut i: usize = 0;
    assert(urls@.take(0) =~= Seq::<WebUrl>::empty());
    while i < urls.len()
        invariant
            i <= urls@.len(),
            cv == names_view(crawled@),
            out@ == uncrawled_links(urls@.take(i as int), cv),
        decreases urls@.len() - i,
    {
        assert(urls@.take(i + 1).drop_last() =~= urls@.take(i as int));
        let mut j: usize = 0;
        let mut seen = false;
        while j < crawled.len() && !seen
            invariant
                j <= crawled@.len(),
                i < urls@.len(),
                cv == names_view(crawled@),
                seen ==> cv.contains(urls@[i as int].href@),
                !seen ==> forall|m: int| 0 <= m < j ==> #[trigger] cv[m] != urls@[i as int].href@,
            decreases crawled@.len() - j,
        {
            if crawled[j] == urls[i].href {
                assert(cv[j as int] == crawled@[j as int]@);
                seen = true;
            }
            j = j + 1;
        }
        if !seen {
            out.push(urls[i].clone());
        }
        i = i + 1;
    }
    assert(urls@.take(urls@.len() as int) =~= urls@);
    out
}

/// `after` and `step` are what taking the next URL from `before` gives
/// (see `take_next_target`).
pub open spec fn next_target_taken(before: DomainState, after: DomainState, step: ProcessStep) -> bool {
    if before.queues().total() == 0 {
        step is Idle && after == (DomainState { status: ProcessingStatus::Inactive, ..before })
    } else {
        let rng = crate::domain_crawler::lcg_next(before.rng_state);
        let b = crate::domain_crawler::chosen_bucket(
            before.queues(),
            crate::domain_crawler::lottery_roll(rng),
        );
        let q = before.queues().get(b);
        let target = q.last();
        &&& after.queues() == before.queues().set(b, q.drop_last())
        &&& after.rng_state == rng
        &&& after.domain == before.domain
        &&& after.politeness_delay_ms == before.politeness_delay_ms
        &&& after.robots_disallowed == before.robots_disallowed
        &&& after.processed_count == before.processed_count
        &&& after.error_count == before.error_count
        &&& if crate::domain_crawler::robots_allow(
            rules_view(before.robots_disallowed),
            target.url.path@,
        ) {
            after.status == ProcessingStatus::Processing && step == ProcessStep::Fetch(target.url)
        } else if after.queues().total() > 0 {
            after.status == ProcessingStatus::Scheduled && step == ProcessStep::Scheduled(
                delay_seconds(before.politeness_delay_ms) as u64,
            )
        } else {
            after.status == ProcessingStatus::Inactive && step is Idle
        }
    }
}

} // verus!
