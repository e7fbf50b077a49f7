//! The orchestrator's decisions: which seeds start a crawl, grouped by
//! domain, and how the per-domain page counts are reported.

use vstd::prelude::*;
use crate::common::{
    group_prioritized_urls_by_domain, host_groups_exact, names_view, normalize_url_domain,
    url_with_normalized_host, PrioritizedGroup, PrioritizedUrl, UrlGroup,
};
use crate::web_url::{parsed_url, WebUrl};

verus! {

/// The priority that seed URLs get.
pub const SEED_PRIORITY: i32 = 10;

/// A crawled domain and how many of its pages are stored.
#[derive(Clone, Debug)]
pub struct DomainInfo {
    pub domain: String,
    pub page_count: u64,
}

/// What went wrong in the orchestrator.
#[derive(Debug)]
pub enum OrchestratorError {
    EmptySeedList,
    InvalidUrl { url: String },
    DbError { message: String },
}

/// Whether the seed at `k` is the first one that does not parse.
pub open spec fn first_bad_seed(seeds: Seq<String>, k: int) -> bool {
    &&& 0 <= k < seeds.len()
    &&& parsed_url(seeds[k]@) is Err
    &&& forall|j: int| 0 <= j < k ==> parsed_url(#[trigger] seeds[j]@) is Ok
}

/// The seeds parsed, each with its host normalized (see
/// `url_with_normalized_host`), in order, where all parse.
pub open spec fn parsed_seeds(seeds: Seq<String>, urls: Seq<WebUrl>, prefixes: Seq<Seq<char>>) -> bool {
    &&& urls.len() == seeds.len()
    &&& forall|k: int|
        0 <= k < seeds.len() ==> parsed_url(seeds[k]@) is Ok && (#[trigger] urls[k])@
            == url_with_normalized_host(parsed_url(seeds[k]@)->Ok_0, prefixes)
}

/// A seed URL with the seed priority.
pub open spec fn seed_of(u: WebUrl) -> PrioritizedUrl {
    PrioritizedUrl { url: u, priority: SEED_PRIORITY }
}

fn seed_url(u: WebUrl) -> (res: PrioritizedUrl)
    ensures
        res == seed_of(u),
{
    PrioritizedUrl { url: u, priority: SEED_PRIORITY }
}

/// The plan for starting a crawl: no seeds is an error; the first seed that
/// does not parse as a URL is refused; otherwise the seeds, each with its
/// host normalized and with the seed priority, grouped by that (normalized)
/// host, one group for each domain agent.
pub fn plan_start_crawl(seeds: Vec<String>, normalize_prefixes: &[String]) -> (res: Result<
    Vec<PrioritizedGroup>,
    OrchestratorError,
>)
    ensures
        seeds@.len() == 0 ==> (res matches Err(OrchestratorError::EmptySeedList)),
        seeds@.len() > 0 && (exists|k: int| first_bad_seed(seeds@, k)) ==> {
            let k = choose|k: int| first_bad_seed(seeds@, k);
            res matches Err(OrchestratorError::InvalidUrl { url }) && url@ == seeds@[k]@
        },
        seeds@.len() > 0 && (forall|k: int| 0 <= k < seeds@.len() ==> parsed_url(#[trigger] seeds@[k]@) is Ok) ==> {
            &&& res is Ok
            &&& exists|urls: Seq<WebUrl>, groups: Seq<UrlGroup>|
                {
                    &&& parsed_seeds(seeds@, urls, names_view(normalize_prefixes@))
                    &&& host_groups_exact(groups, urls)
                    &&& groups.len() == res->Ok_0@.len()
                    &&& forall|i: int|
                        0 <= i < groups.len() ==> {
                            &&& #[trigger] res->Ok_0@[i].domain@ == groups[i].domain@
                            &&& res->Ok_0@[i].urls@.len() == groups[i].urls@.len()
                            &&& forall|j: int|
                                0 <= j < groups[i].urls@.len() ==> #[trigger] res->Ok_0@[i].urls@[j] == seed_of(
                                groups[i].urls@[j],
                            )
                        }
                }
        },
{
    if seeds.len() == 0 {
        return Err(OrchestratorError::EmptySeedList);
    }
    let mut parsed: Vec<WebUrl> = Vec::new();
    let mut i: usize = 0;
    while i < seeds.len()
        invariant
            i <= seeds@.len(),
            parsed@.len() == i,
            forall|k: int|
                0 <= k < i ==> parsed_url(seeds@[k]@) is Ok && (#[trigger] parsed@[k])@
                    == url_with_normalized_host(parsed_url(seeds@[k]@)->Ok_0, names_view(normalize_prefixes@)),
        decreases seeds@.len() - i,
    {
        match WebUrl::parse(seeds[i].as_str()) {
            Ok(u) => {
                let n = normalize_url_domain(&u, normalize_prefixes);
                parsed.push(n);
            },
            Err(_) => {
                proof {
                    assert forall|j: int| 0 <= j < i implies parsed_url(#[trigger] seeds@[j]@) is Ok by {
                        assert(parsed@[j]@ == url_with_normalized_host(parsed_url(seeds@[j]@)->Ok_0, names_view(normalize_prefixes@)));
                    }
                    assert(first_bad_seed(seeds@, i as int));
                    let k = choose|k: int| first_bad_seed(seeds@, k);
                    if k < i {
                        assert(parsed_url(seeds@[k]@) is Ok) by {
                            assert(parsed@[k]@ == url_with_normalized_host(parsed_url(seeds@[k]@)->Ok_0, names_view(normalize_prefixes@)));
                        }
                    }
                    if k > i {
                        assert(parsed_url(seeds@[i as int]@) is Ok);
                    }
                }
                return Err(OrchestratorError::InvalidUrl { url: seeds[i].clone() });
            },
        }
        i = i + 1;
    }
    assert forall|k: int| 0 <= k < seeds@.len() implies parsed_url(#[trigger] seeds@[k]@) is Ok by {
        assert(parsed@[k]@ == url_with_normalized_host(parsed_url(seeds@[k]@)->Ok_0, names_view(normalize_prefixes@)));
    }
    let ghost urls = parsed@;
    let groups = group_prioritized_urls_by_domain(parsed, seed_url);
    assert(parsed_seeds(seeds@, urls, names_view(normalize_prefixes@)));
    Ok(groups)
}

/// The per-domain page counts read from storage, the counts taken as `u64`.
pub fn domain_infos(rows: Vec<(String, i64)>) -> (res: Vec<DomainInfo>)
    ensures
        res@.len() == rows@.len(),
        forall|i: int|
            0 <= i < rows@.len() ==> #[trigger] res@[i].domain == rows@[i].0 && res@[i].page_count
                == rows@[i].1 as u64,
{
    let mut out: Vec<DomainInfo> = Vec::new();
    let mut rest = rows;
    let ghost all = rest@;
    let ghost mut done: int = 0;
    assert(all.skip(0) =~= all);
    while rest.len() > 0
        invariant
            0 <= done <= all.len(),
            rest@ == all.skip(done),
            out@.len() == done,
            forall|i: int|
                0 <= i < done ==> #[trigger] out@[i].domain == all[i].0 && out@[i].page_count
                    == all[i].1 as u64,
        decreases rest@.len(),
    {
        let (domain, count) = rest.remove(0);
        assert(all[done] == (domain, count));
        out.push(DomainInfo { domain, page_count: count as u64 });
        proof {
            done = done + 1;
        }
        assert(rest@ =~= all.skip(done));
    }
    out
}

} // verus!
