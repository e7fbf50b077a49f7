//! The state that a domain's crawler keeps: three priority queues of URLs
//! that are waiting, the robots.txt rules, the politeness delay, and a
//! pseudo-random lottery that picks the queue to serve next.

use vstd::prelude::*;
use crate::common::{names_view, PrioritizedUrl};
use crate::queue_sort::{is_stable_sort, sort_by_priority};
use crate::web_url::WebUrl;
use crate::queue_laws::{all_urls, holds_at_least, lemma_insert_all_consistent,
    lemma_insert_all_holds, lemma_sorted_queues_wf_or_holds, lemma_take_last_multiset, lemma_take_last_wf,
    queues_consistent, queues_wf};

verus! {

/// Where the processing loop of a domain stands.
#[derive(Clone, Copy, Debug, PartialEq, Eq, Structural)]
pub enum ProcessingStatus {
    Inactive,
    Scheduled,
    Processing,
}

/// The queue that a URL waits in, by its priority.
#[derive(Clone, Copy, Debug, PartialEq, Eq, Hash, Structural)]
pub enum PriorityBucket {
    High,
    Medium,
    Low,
}

/// The bucket of a priority: 10 and above is high, 5 to 9 medium, below 5 low.
pub open spec fn bucket_of(priority: i32) -> PriorityBucket {
    if priority >= 10 {
        PriorityBucket::High
    } else if priority >= 5 {
        PriorityBucket::Medium
    } else {
        PriorityBucket::Low
    }
}

impl PriorityBucket {
    /// The bucket of a priority.
    pub fn from_priority(priority: i32) -> (res: Self)
        ensures
            res == bucket_of(priority),
    {
        if priority >= 10 {
            PriorityBucket::High
        } else if priority >= 5 {
            PriorityBucket::Medium
        } else {
            PriorityBucket::Low
        }
    }
}

/// The contents of the three queues.
pub struct Queues {
    pub high: Seq<PrioritizedUrl>,
    pub medium: Seq<PrioritizedUrl>,
    pub low: Seq<PrioritizedUrl>,
}

impl Queues {
    /// The queue of a bucket.
    pub open spec fn get(self, b: PriorityBucket) -> Seq<PrioritizedUrl> {
        match b {
            PriorityBucket::High => self.high,
            PriorityBucket::Medium => self.medium,
            PriorityBucket::Low => self.low,
        }
    }

    /// The queues with the queue of `b` replaced by `q`.
    pub open spec fn set(self, b: PriorityBucket, q: Seq<PrioritizedUrl>) -> Queues {
        match b {
            PriorityBucket::High => Queues { high: q, ..self },
            PriorityBucket::Medium => Queues { medium: q, ..self },
            PriorityBucket::Low => Queues { low: q, ..self },
        }
    }

    /// The number of URLs waiting.
    pub open spec fn total(self) -> nat {
        self.high.len() + self.medium.len() + self.low.len()
    }
}

/// Whether the URL at `i` of `q` has the serialization `href`.
pub open spec fn href_at(q: Seq<PrioritizedUrl>, href: Seq<char>, i: int) -> bool {
    0 <= i < q.len() && q[i].url.href@ == href
}

/// Whether `i` is the first position of `q` whose URL has the serialization `href`.
pub open spec fn first_href_at(q: Seq<PrioritizedUrl>, href: Seq<char>, i: int) -> bool {
    href_at(q, href, i) && forall|j: int| 0 <= j < i ==> !href_at(q, href, j)
}

/// The first position of `q` whose URL has the serialization `href`.
pub open spec fn find_href(q: Seq<PrioritizedUrl>, href: Seq<char>) -> Option<int> {
    if exists|i: int| href_at(q, href, i) {
        Some(choose|i: int| first_href_at(q, href, i))
    } else {
        None
    }
}

proof fn lemma_find_href_first(q: Seq<PrioritizedUrl>, href: Seq<char>, i: int)
    requires
        first_href_at(q, href, i),
    ensures
        find_href(q, href) == Some(i),
{
    let k = choose|k: int| first_href_at(q, href, k);
    assert(first_href_at(q, href, k));
    if k < i {
        assert(!href_at(q, href, k));
    }
    if i < k {
        assert(!href_at(q, href, i));
    }
}

proof fn lemma_find_href_below(q: Seq<PrioritizedUrl>, href: Seq<char>, w: int)
    requires
        href_at(q, href, w),
    ensures
        first_href_at(q, href, choose|i: int| first_href_at(q, href, i)),
    decreases w,
{
    if forall|j: int| 0 <= j < w ==> !href_at(q, href, j) {
        assert(first_href_at(q, href, w));
    } else {
        let v = choose|j: int| 0 <= j < w && href_at(q, href, j);
        lemma_find_href_below(q, href, v);
    }
}

/// A position that `find_href` gives is the first one with that serialization.
pub proof fn lemma_find_href(q: Seq<PrioritizedUrl>, href: Seq<char>)
    ensures
        match find_href(q, href) {
            Some(i) => first_href_at(q, href, i),
            None => forall|j: int| !href_at(q, href, j),
        },
{
    if exists|i: int| href_at(q, href, i) {
        let w = choose|i: int| href_at(q, href, i);
        lemma_find_href_below(q, href, w);
    }
}

/// Where a URL with the serialization `href` waits: the first position in
/// the first of the high, medium and low queues that holds one.
pub open spec fn find_in_queues(qs: Queues, href: Seq<char>) -> Option<(PriorityBucket, int)> {
    match find_href(qs.high, href) {
        Some(i) => Some((PriorityBucket::High, i)),
        None => match find_href(qs.medium, href) {
            Some(i) => Some((PriorityBucket::Medium, i)),
            None => match find_href(qs.low, href) {
                Some(i) => Some((PriorityBucket::Low, i)),
                None => None,
            },
        },
    }
}

/// The queues after one URL is offered: a URL that is not waiting joins the
/// queue of its priority; one that waits already moves to the queue of the
/// new priority when that is higher than the one it has, and stays as it is
/// otherwise.
pub open spec fn insert_url(qs: Queues, u: PrioritizedUrl) -> Queues {
    let nb = bucket_of(u.priority);
    match find_in_queues(qs, u.url.href@) {
        Some((b, pos)) => if u.priority > qs.get(b)[pos].priority {
            let removed = qs.set(b, qs.get(b).remove(pos));
            removed.set(nb, removed.get(nb).push(u))
        } else {
            qs
        },
        None => qs.set(nb, qs.get(nb).push(u)),
    }
}

/// The queues after the URLs are offered one after the other.
pub open spec fn insert_all(qs: Queues, us: Seq<PrioritizedUrl>) -> Queues
    decreases us.len(),
{
    if us.len() == 0 {
        qs
    } else {
        insert_url(insert_all(qs, us.drop_last()), us.last())
    }
}

/// Each queue of `after` is the same queue of `before`, stably sorted by priority.
pub open spec fn queues_sorted_from(before: Queues, after: Queues) -> bool {
    &&& is_stable_sort(before.high, after.high)
    &&& is_stable_sort(before.medium, after.medium)
    &&& is_stable_sort(before.low, after.low)
}

/// The next state of the linear congruential generator.
pub open spec fn lcg_next(s: u32) -> u32 {
    ((s as int * 1103515245 + 12345) % 0x1_0000_0000) as u32
}

/// The lottery number, from 0 to 99, drawn from a generator state.
pub open spec fn lottery_roll(s: u32) -> u32 {
    (s / 65536) % 100
}

/// The order in which queues are tried for a roll: high first on 0 to 69,
/// medium first on 70 to 89, low first on 90 to 99.
pub open spec fn bucket_order(roll: u32) -> Seq<PriorityBucket> {
    if roll < 70 {
        seq![PriorityBucket::High, PriorityBucket::Medium, PriorityBucket::Low]
    } else if roll < 90 {
        seq![PriorityBucket::Medium, PriorityBucket::High, PriorityBucket::Low]
    } else {
        seq![PriorityBucket::Low, PriorityBucket::High, PriorityBucket::Medium]
    }
}

/// The first queue, in the order of the roll, that is not empty.
pub open spec fn chosen_bucket(qs: Queues, roll: u32) -> PriorityBucket {
    let order = bucket_order(roll);
    if qs.get(order[0]).len() > 0 {
        order[0]
    } else if qs.get(order[1]).len() > 0 {
        order[1]
    } else {
        order[2]
    }
}

/// The view of the robots.txt rules: none loaded, or the disallowed prefixes.
pub open spec fn rules_view(r: Option<Vec<String>>) -> Option<Seq<Seq<char>>> {
    match r {
        Some(v) => Some(names_view(v@)),
        None => None,
    }
}

/// Whether a rule disallows a path: the rule `/` disallows every path, any
/// other rule the paths that begin with it.
pub open spec fn rule_disallows(rule: Seq<char>, path: Seq<char>) -> bool {
    rule == "/"@ || rule.is_prefix_of(path)
}

/// Whether none of the rules disallows a path.
pub open spec fn rules_allow(rs: Seq<Seq<char>>, path: Seq<char>) -> bool {
    forall|i: int| 0 <= i < rs.len() ==> !rule_disallows(#[trigger] rs[i], path)
}

/// Whether the rules let a path be crawled: no rules loaded, or none of them
/// disallows it.
pub open spec fn robots_allow(rules: Option<Seq<Seq<char>>>, path: Seq<char>) -> bool {
    match rules {
        None => true,
        Some(rs) => rules_allow(rs, path),
    }
}

/// A path is crawled only where no rule is a prefix of it: any rule that
/// begins the path, the path itself included, disallows it, and the rule
/// `/` disallows every path. Without rules every path is allowed.
pub proof fn law_prefix_rules_disallow(rs: Seq<Seq<char>>, path: Seq<char>, i: int)
    ensures
        0 <= i < rs.len() && rs[i].is_prefix_of(path) ==> !robots_allow(Some(rs), path),
        0 <= i < rs.len() && rs[i] == path ==> !robots_allow(Some(rs), path),
        0 <= i < rs.len() && rs[i] == "/"@ ==> !robots_allow(Some(rs), path),
        robots_allow(None, path),
        (forall|j: int| 0 <= j < rs.len() ==> !(#[trigger] rs[j]).is_prefix_of(path) && rs[j] != "/"@)
            ==> robots_allow(Some(rs), path),
{
    if 0 <= i < rs.len() {
        assert(rs[i] == path ==> rs[i].is_prefix_of(path));
        if rs[i].is_prefix_of(path) || rs[i] == "/"@ {
            assert(rule_disallows(rs[i], path));
        }
    }
}

/// The URLs of `us` that the rules let be crawled, in order.
pub open spec fn allowed_urls(rules: Option<Seq<Seq<char>>>, us: Seq<PrioritizedUrl>) -> Seq<
    PrioritizedUrl,
>
    decreases us.len(),
{
    if us.len() == 0 {
        us
    } else if robots_allow(rules, us.last().url.path@) {
        allowed_urls(rules, us.drop_last()).push(us.last())
    } else {
        allowed_urls(rules, us.drop_last())
    }
}

/// What a domain's crawler knows and keeps.
#[derive(Debug)]
pub struct DomainState {
    pub domain: String,
    pub politeness_delay_ms: u32,
    pub high_queue: Vec<PrioritizedUrl>,
    pub medium_queue: Vec<PrioritizedUrl>,
    pub low_queue: Vec<PrioritizedUrl>,
    pub status: ProcessingStatus,
    pub robots_disallowed: Option<Vec<String>>,
    pub rng_state: u32,
    pub processed_count: u64,
    pub error_count: u64,
}

/// Whether `a` and `b` agree on everything but the queues.
pub open spec fn same_but_queues(a: DomainState, b: DomainState) -> bool {
    &&& a.domain == b.domain
    &&& a.politeness_delay_ms == b.politeness_delay_ms
    &&& a.status == b.status
    &&& a.robots_disallowed == b.robots_disallowed
    &&& a.rng_state == b.rng_state
    &&& a.processed_count == b.processed_count
    &&& a.error_count == b.error_count
}

impl DomainState {
    /// The three queues.
    pub open spec fn queues(&self) -> Queues {
        Queues { high: self.high_queue@, medium: self.medium_queue@, low: self.low_queue@ }
    }

    /// A fresh state for a domain: empty queues, a delay of 1000 ms, inactive,
    /// no robots.txt rules yet, the generator seeded with 12345, no counts.
    pub fn new(domain: String) -> (res: Self)
        ensures
            res.domain == domain,
            res.politeness_delay_ms == 1000,
            res.queues().total() == 0,
            res.status == ProcessingStatus::Inactive,
            res.robots_disallowed is None,
            res.rng_state == 12345,
            res.processed_count == 0,
            res.error_count == 0,
            queues_wf(res.queues()),
    {
        DomainState {
            domain,
            politeness_delay_ms: 1000,
            high_queue: Vec::new(),
            medium_queue: Vec::new(),
            low_queue: Vec::new(),
            status: ProcessingStatus::Inactive,
            robots_disallowed: None,
            rng_state: 12345,
            processed_count: 0,
            error_count: 0,
        }
    }

    /// The queue of a bucket.
    pub fn queue(&self, bucket: PriorityBucket) -> (res: &Vec<PrioritizedUrl>)
        ensures
            res@ == self.queues().get(bucket),
    {
        match bucket {
            PriorityBucket::High => &self.high_queue,
            PriorityBucket::Medium => &self.medium_queue,
            PriorityBucket::Low => &self.low_queue,
        }
    }

    /// Whether a URL belongs to this state's domain: it has a host, and the
    /// host is the domain.
    pub fn validate_url(&self, url: &WebUrl) -> (res: bool)
        ensures
            res == (url.host is Some && url.host->0@ == self.domain@),
    {
        match &url.host {
            Some(h) => *h == self.domain,
            None => false,
        }
    }

    fn push_to(&mut self, b: PriorityBucket, u: PrioritizedUrl)
        ensures
            same_but_queues(*old(self), *final(self)),
            final(self).queues() == old(self).queues().set(b, old(self).queues().get(b).push(u)),
    {
        match b {
            PriorityBucket::High => self.high_queue.push(u),
            PriorityBucket::Medium => self.medium_queue.push(u),
            PriorityBucket::Low => self.low_queue.push(u),
        }
    }

    fn remove_from(&mut self, b: PriorityBucket, pos: usize)
        requires
            pos < old(self).queues().get(b).len(),
        ensures
            same_but_queues(*old(self), *final(self)),
            final(self).queues() == old(self).queues().set(
                b,
                old(self).queues().get(b).remove(pos as int),
            ),
    {
        match b {
            PriorityBucket::High => {
                self.high_queue.remove(pos);
            },
            PriorityBucket::Medium => {
                self.medium_queue.remove(pos);
            },
            PriorityBucket::Low => {
                self.low_queue.remove(pos);
            },
        }
    }

    fn position_in(q: &Vec<PrioritizedUrl>, href: &String) -> (res: Option<usize>)
        ensures
            match res {
                Some(i) => find_href(q@, href@) == Some(i as int),
                None => find_href(q@, href@) is None,
            },
    {
        let mut i: usize = 0;
        while i < q.len()
            invariant
                i <= q@.len(),
                forall|j: int| 0 <= j < i ==> !href_at(q@, href@, j),
            decreases q@.len() - i,
        {
            if q[i].url.href == *href {
                proof {
                    lemma_find_href_first(q@, href@, i as int);
                }
                return Some(i);
            }
            i = i + 1;
        }
        None
    }

    fn find_url(&self, href: &String) -> (res: Option<(PriorityBucket, usize)>)
        ensures
            match res {
                Some((b, i)) => find_in_queues(self.queues(), href@) == Some((b, i as int)),
                None => find_in_queues(self.queues(), href@) is None,
            },
    {
        match Self::position_in(&self.high_queue, href) {
            Some(i) => Some((PriorityBucket::High, i)),
            None => match Self::position_in(&self.medium_queue, href) {
                Some(i) => Some((PriorityBucket::Medium, i)),
                None => match Self::position_in(&self.low_queue, href) {
                    Some(i) => Some((PriorityBucket::Low, i)),
                    None => None,
                },
            },
        }
    }

    fn offer_url(&mut self, u: PrioritizedUrl)
        ensures
            same_but_queues(*old(self), *final(self)),
            final(self).queues() == insert_url(old(self).queues(), u),
    {
        let nb = PriorityBucket::from_priority(u.priority);
        match self.find_url(&u.url.href) {
            Some((b, pos)) => {
                proof {
                    lemma_find_href(self.queues().get(b), u.url.href@);
                }
                let old_priority = self.queue(b)[pos].priority;
                if u.priority > old_priority {
                    self.remove_from(b, pos);
                    self.push_to(nb, u);
                }
            },
            None => {
                self.push_to(nb, u);
            },
        }
    }

    fn sort_queues(&mut self)
        ensures
            same_but_queues(*old(self), *final(self)),
            queues_sorted_from(old(self).queues(), final(self).queues()),
    {
        let mut h: Vec<PrioritizedUrl> = Vec::new();
        std::mem::swap(&mut h, &mut self.high_queue);
        self.high_queue = sort_by_priority(h);
        let mut m: Vec<PrioritizedUrl> = Vec::new();
        std::mem::swap(&mut m, &mut self.medium_queue);
        self.medium_queue = sort_by_priority(m);
        let mut l: Vec<PrioritizedUrl> = Vec::new();
        std::mem::swap(&mut l, &mut self.low_queue);
        self.low_queue = sort_by_priority(l);
    }

    /// Offers the URLs one after the other (see `insert_url`), then sorts each
    /// queue stably by priority, lowest first. No URL that waited is lost, and
    /// none waits afterwards with a lower priority; each offered URL waits
    /// afterwards with its priority or a higher one; consistent queues come
    /// out consistent and sorted.
    pub fn add_urls(&mut self, urls: Vec<PrioritizedUrl>)
        ensures
            same_but_queues(*old(self), *final(self)),
            queues_sorted_from(insert_all(old(self).queues(), urls@), final(self).queues()),
            queues_consistent(old(self).queues()) ==> queues_wf(final(self).queues()),
            forall|k: int|
                0 <= k < urls@.len() ==> holds_at_least(
                    final(self).queues(),
                    #[trigger] urls@[k].url.href@,
                    urls@[k].priority,
                ),
            forall|h: Seq<char>, p: i32|
                holds_at_least(old(self).queues(), h, p) ==> holds_at_least(
                    final(self).queues(),
                    h,
                    p,
                ),
    {
        let mut i: usize = 0;
        assert(urls@.take(0) =~= Seq::<PrioritizedUrl>::empty());
        while i < urls.len()
            invariant
                i <= urls@.len(),
                same_but_queues(*old(self), *self),
                self.queues() == insert_all(old(self).queues(), urls@.take(i as int)),
            decreases urls@.len() - i,
        {
            let u = urls[i].clone();
            self.offer_url(u);
            assert(urls@.take(i + 1).drop_last() =~= urls@.take(i as int));
            i = i + 1;
        }
        assert(urls@.take(urls@.len() as int) =~= urls@);
        let ghost offered = self.queues();
        self.sort_queues();
        proof {
            lemma_insert_all_holds(old(self).queues(), urls@);
            if queues_consistent(old(self).queues()) {
                lemma_insert_all_consistent(old(self).queues(), urls@);
            }
            lemma_sorted_queues_wf_or_holds(offered, self.queues());
        }
    }

    /// Whether the rules let the URL be crawled (see `robots_allow`).
    pub fn is_allowed_by_robots(&self, url: &WebUrl) -> (res: bool)
        ensures
            res == robots_allow(rules_view(self.robots_disallowed), url.path@),
    {
        match &self.robots_disallowed {
            None => true,
            Some(rules) => {
                assert(self.robots_disallowed == Some(*rules));
                let path = crate::text::chars_of(url.path.as_str());
                let slash = crate::text::chars_of("/");
                let mut i: usize = 0;
                while i < rules.len()
                    invariant
                        i <= rules@.len(),
                        self.robots_disallowed == Some(*rules),
                        path@ == url.path@,
                        slash@ == "/"@,
                        forall|j: int|
                            0 <= j < i ==> !rule_disallows(#[trigger] rules@[j]@, url.path@),
                    decreases rules@.len() - i,
                {
                    let rule = crate::text::chars_of(rules[i].as_str());
                    let is_root = crate::text::chars_eq(rule.as_slice(), slash.as_slice());
                    let is_prefix = crate::text::starts_with_chars(path.as_slice(), rule.as_slice());
                    if is_root || is_prefix {
                        proof {
                            let rs = names_view(rules@);
                            assert(rs[i as int] == rules@[i as int]@);
                            assert(rule_disallows(rs[i as int], url.path@));
                            assert(self.robots_disallowed == Some(*rules));
                            assert(rules_view(self.robots_disallowed) == Some(rs));
                            assert(0 <= i < rs.len());
                            assert(!rules_allow(rs, url.path@));
                            assert(!robots_allow(Some(rs), url.path@));
                        }
                        return false;
                    }
                    i = i + 1;
                }
                proof {
                    let rs = names_view(rules@);
                    assert forall|j: int| 0 <= j < rs.len() implies !rule_disallows(
                        #[trigger] rs[j],
                        url.path@,
                    ) by {
                        assert(rs[j] == rules@[j]@);
                    }
                }
                true
            },
        }
    }

    /// Offers only the URLs that the robots.txt rules let be crawled.
    pub fn add_urls_allowed_by_robots(&mut self, urls: Vec<PrioritizedUrl>)
        ensures
            same_but_queues(*old(self), *final(self)),
            queues_sorted_from(
                insert_all(
                    old(self).queues(),
                    allowed_urls(rules_view(old(self).robots_disallowed), urls@),
                ),
                final(self).queues(),
            ),
    {
        let mut kept: Vec<PrioritizedUrl> = Vec::new();
        let mut i: usize = 0;
        let ghost rules = rules_view(self.robots_disallowed);
        assert(urls@.take(0) =~= Seq::<PrioritizedUrl>::empty());
        while i < urls.len()
            invariant
                i <= urls@.len(),
                rules == rules_view(self.robots_disallowed),
                kept@ == allowed_urls(rules, urls@.take(i as int)),
            decreases urls@.len() - i,
        {
            assert(urls@.take(i + 1).drop_last() =~= urls@.take(i as int));
            if self.is_allowed_by_robots(&urls[i].url) {
                kept.push(urls[i].clone());
            }
            i = i + 1;
        }
        assert(urls@.take(urls@.len() as int) =~= urls@);
        self.add_urls(kept);
    }

    /// Whether any URL waits.
    pub fn has_pending(&self) -> (res: bool)
        ensures
            res == (self.queues().total() > 0),
    {
        !self.high_queue.is_empty() || !self.medium_queue.is_empty() || !self.low_queue.is_empty()
    }

    fn next_random(&mut self) -> (res: u32)
        ensures
            final(self).rng_state == lcg_next(old(self).rng_state),
            res == lottery_roll(final(self).rng_state),
            final(self).domain == old(self).domain,
            final(self).politeness_delay_ms == old(self).politeness_delay_ms,
            final(self).queues() == old(self).queues(),
            final(self).status == old(self).status,
            final(self).robots_disallowed == old(self).robots_disallowed,
            final(self).processed_count == old(self).processed_count,
            final(self).error_count == old(self).error_count,
    {
        let s = self.rng_state;
        let m = s.wrapping_mul(1103515245);
        let n = m.wrapping_add(12345);
        proof {
            let x = s as int * 1103515245;
            vstd::arithmetic::div_mod::lemma_add_mod_noop(x, 12345, 0x1_0000_0000);
            assert(m as int == x % 0x1_0000_0000);
            assert(12345int % 0x1_0000_0000 == 12345);
            assert(0 <= x % 0x1_0000_0000 < 0x1_0000_0000) by (nonlinear_arith)
                requires x >= 0;
            if m as int + 12345 > u32::MAX {
                assert(n as int == m as int + 12345 - 0x1_0000_0000);
            } else {
                assert(n as int == m as int + 12345);
            }
            assert(n as int == (x + 12345) % 0x1_0000_0000);
        }
        self.rng_state = n;
        (n / 65536) % 100
    }

    /// Takes the next URL: none when no URL waits (and nothing changes);
    /// otherwise the generator steps once, the roll picks the order in which
    /// the queues are tried, and the last URL of the first queue in that order
    /// that is not empty is taken out and returned.
    pub fn get_next_url(&mut self) -> (res: Option<PrioritizedUrl>)
        ensures
            old(self).queues().total() == 0 ==> res is None && *final(self) == *old(self),
            old(self).queues().total() > 0 ==> {
                let rng = lcg_next(old(self).rng_state);
                let b = chosen_bucket(old(self).queues(), lottery_roll(rng));
                let q = old(self).queues().get(b);
                &&& final(self).rng_state == rng
                &&& q.len() > 0
                &&& res == Some(q.last())
                &&& final(self).queues() == old(self).queues().set(b, q.drop_last())
                &&& final(self).domain == old(self).domain
                &&& final(self).politeness_delay_ms == old(self).politeness_delay_ms
                &&& final(self).status == old(self).status
                &&& final(self).robots_disallowed == old(self).robots_disallowed
                &&& final(self).processed_count == old(self).processed_count
                &&& final(self).error_count == old(self).error_count
                &&& all_urls(old(self).queues()) == all_urls(final(self).queues()).insert(q.last())
                &&& queues_wf(old(self).queues()) ==> {
                    &&& queues_wf(final(self).queues())
                    &&& forall|i: int| 0 <= i < q.len() ==> #[trigger] q[i].priority <= q.last().priority
                }
            },
    {
        if !self.has_pending() {
            return None;
        }
        let roll = self.next_random();
        let ghost mid = *self;
        let order: [PriorityBucket; 3] = if roll < 70 {
            [PriorityBucket::High, PriorityBucket::Medium, PriorityBucket::Low]
        } else if roll < 90 {
            [PriorityBucket::Medium, PriorityBucket::High, PriorityBucket::Low]
        } else {
            [PriorityBucket::Low, PriorityBucket::High, PriorityBucket::Medium]
        };
        assert(order@ == bucket_order(roll));
        let mut k: usize = 0;
        while k < 3
            invariant
                k <= 3,
                order@ == bucket_order(roll),
                self.queues() == old(self).queues(),
                same_but_queues(mid, *self),
                mid.rng_state == lcg_next(old(self).rng_state),
                roll == lottery_roll(mid.rng_state),
                same_but_queues(mid, DomainState { rng_state: mid.rng_state, ..*old(self) }),
                old(self).queues().total() > 0,
                forall|j: int| 0 <= j < k ==> self.queues().get(#[trigger] order@[j]).len() == 0,
            decreases 3 - k,
        {
            let b = order[k];
            let popped = match b {
                PriorityBucket::High => self.high_queue.pop(),
                PriorityBucket::Medium => self.medium_queue.pop(),
                PriorityBucket::Low => self.low_queue.pop(),
            };
            if popped.is_some() {
                proof {
                    let qs = old(self).queues();
                    assert(order@[k as int] == b);
                    if k >= 1 {
                        assert(qs.get(order@[0]).len() == 0);
                    }
                    if k >= 2 {
                        assert(qs.get(order@[1]).len() == 0);
                    }
                    assert(chosen_bucket(qs, roll) == b);
                    lemma_take_last_multiset(qs, b);
                    if queues_wf(qs) {
                        lemma_take_last_wf(qs, b);
                    }
                }
                return popped;
            }
            k = k + 1;
        }
        None
    }

    /// Sets the status.
    pub fn set_status(&mut self, status: ProcessingStatus)
        ensures
            *final(self) == (DomainState { status, ..*old(self) }),
    {
        self.status = status;
    }

    /// The status.
    pub fn get_status(&self) -> (res: &ProcessingStatus)
        ensures
            *res == self.status,
    {
        &self.status
    }

    /// Whether the status is `Processing`.
    pub fn is_processing(&self) -> (res: bool)
        ensures
            res == (self.status == ProcessingStatus::Processing),
    {
        match self.status {
            ProcessingStatus::Processing => true,
            _ => false,
        }
    }

    /// Whether the status is `Scheduled`.
    pub fn is_scheduled(&self) -> (res: bool)
        ensures
            res == (self.status == ProcessingStatus::Scheduled),
    {
        match self.status {
            ProcessingStatus::Scheduled => true,
            _ => false,
        }
    }

    /// Whether the status is `Inactive`.
    pub fn is_inactive(&self) -> (res: bool)
        ensures
            res == (self.status == ProcessingStatus::Inactive),
    {
        match self.status {
            ProcessingStatus::Inactive => true,
            _ => false,
        }
    }

    /// Sets the politeness delay.
    pub fn set_delay(&mut self, delay_ms: u32)
        ensures
            *final(self) == (DomainState { politeness_delay_ms: delay_ms, ..*old(self) }),
    {
        self.politeness_delay_ms = delay_ms;
    }

    /// The politeness delay.
    pub fn get_delay(&self) -> (res: u32)
        ensures
            res == self.politeness_delay_ms,
    {
        self.politeness_delay_ms
    }
}

} // verus!

verus! {

/// Offering only the URLs that robots.txt allows keeps each of them, in
/// order, and every URL kept is one that the rules allow.
pub proof fn law_allowed_urls_are_allowed(rules: Option<Seq<Seq<char>>>, us: Seq<PrioritizedUrl>)
    ensures
        allowed_urls(rules, us).len() <= us.len(),
        forall|k: int|
            0 <= k < allowed_urls(rules, us).len() ==> robots_allow(
                rules,
                #[trigger] allowed_urls(rules, us)[k].url.path@,
            ) && us.contains(allowed_urls(rules, us)[k]),
        forall|k: int| 0 <= k < us.len() && robots_allow(rules, #[trigger] us[k].url.path@) ==> allowed_urls(rules, us).contains(us[k]),
    decreases us.len(),
{
    if us.len() > 0 {
        let prev = us.drop_last();
        law_allowed_urls_are_allowed(rules, prev);
        let a = allowed_urls(rules, us);
        let pa = allowed_urls(rules, prev);
        assert forall|k: int| 0 <= k < a.len() implies robots_allow(rules, #[trigger] a[k].url.path@)
            && us.contains(a[k]) by {
            if k < pa.len() {
                assert(a[k] == pa[k]);
                assert(robots_allow(rules, pa[k].url.path@));
                assert(prev.contains(pa[k]));
                let j = choose|j: int| 0 <= j < prev.len() && prev[j] == pa[k];
                assert(us[j] == prev[j]);
            } else {
                assert(a[k] == us.last());
                assert(us[us.len() - 1] == us.last());
            }
        }
        assert forall|k: int| 0 <= k < us.len() && robots_allow(rules, #[trigger] us[k].url.path@) implies a.contains(us[k]) by {
            if k < us.len() - 1 {
                assert(prev[k] == us[k]);
                assert(robots_allow(rules, prev[k].url.path@));
                assert(pa.contains(us[k]));
                let j = choose|j: int| 0 <= j < pa.len() && pa[j] == us[k];
                assert(a[j] == pa[j]);
            } else {
                assert(a[a.len() - 1] == us.last());
            }
        }
    }
}

} // verus!
