//! Types shared by the agents, and domain normalisation and grouping.

use vstd::prelude::*;
use crate::text::{chars_of, concat_str, starts_with_chars, slice_chars, str_eq, string_from, to_lowercase, to_owned_string, lowercased};
use crate::web_url::{host_set_url, opt_view, WebUrl, WebUrlView};

verus! {

/// A URL with the priority at which it is to be crawled.
#[derive(Debug)]
pub struct PrioritizedUrl {
    pub url: WebUrl,
    pub priority: i32,
}

impl Clone for PrioritizedUrl {
    fn clone(&self) -> (res: Self)
        ensures
            res == *self,
    {
        PrioritizedUrl { url: self.url.clone(), priority: self.priority }
    }
}

/// The kinds of rule by which extracted links are filtered out.
#[derive(Clone, Copy, Debug, PartialEq, Eq, Structural)]
pub enum FilterType {
    DomainBlacklist,
    UrlRegex,
    Keyword,
    Extension,
}

/// The name under which a filter type is stored and shown.
pub open spec fn filter_type_name(t: FilterType) -> Seq<char> {
    match t {
        FilterType::DomainBlacklist => "domain_blacklist"@,
        FilterType::UrlRegex => "url_regex"@,
        FilterType::Keyword => "keyword"@,
        FilterType::Extension => "extension"@,
    }
}

/// The filter type whose name is `s`, if any.
pub open spec fn filter_type_named(s: Seq<char>) -> Option<FilterType> {
    if s == "domain_blacklist"@ {
        Some(FilterType::DomainBlacklist)
    } else if s == "url_regex"@ {
        Some(FilterType::UrlRegex)
    } else if s == "keyword"@ {
        Some(FilterType::Keyword)
    } else if s == "extension"@ {
        Some(FilterType::Extension)
    } else {
        None
    }
}

impl FilterType {
    /// Reads a filter type from its name; any other text is refused with the
    /// message `Unknown filter type: ` followed by the text.
    pub fn from_str(s: &str) -> (res: Result<FilterType, String>)
        ensures
            match filter_type_named(s@) {
                Some(t) => res == Ok::<FilterType, String>(t),
                None => res is Err && res->Err_0@ == "Unknown filter type: "@ + s@,
            },
    {
        if str_eq(s, "domain_blacklist") {
            Ok(FilterType::DomainBlacklist)
        } else if str_eq(s, "url_regex") {
            Ok(FilterType::UrlRegex)
        } else if str_eq(s, "keyword") {
            Ok(FilterType::Keyword)
        } else if str_eq(s, "extension") {
            Ok(FilterType::Extension)
        } else {
            Err(concat_str("Unknown filter type: ", s))
        }
    }

    /// The name of the filter type.
    pub fn to_string(&self) -> (res: String)
        ensures
            res@ == filter_type_name(*self),
    {
        match self {
            FilterType::DomainBlacklist => to_owned_string("domain_blacklist"),
            FilterType::UrlRegex => to_owned_string("url_regex"),
            FilterType::Keyword => to_owned_string("keyword"),
            FilterType::Extension => to_owned_string("extension"),
        }
    }
}

impl std::str::FromStr for FilterType {
    type Err = String;

    fn from_str(s: &str) -> (res: Result<FilterType, String>)
        ensures
            match filter_type_named(s@) {
                Some(t) => res == Ok::<FilterType, String>(t),
                None => res is Err && res->Err_0@ == "Unknown filter type: "@ + s@,
            },
    {
        FilterType::from_str(s)
    }
}

/// A filter rule as stored.
#[derive(Clone, Debug)]
pub struct LinkFilter {
    pub id: i32,
    pub pattern: String,
    pub filter_type: FilterType,
    pub is_active: bool,
    pub created_at: String,
}

/// Reading back the name of a filter type gives the filter type.
pub proof fn law_filter_type_name_round_trip(t: FilterType)
    ensures
        filter_type_named(filter_type_name(t)) == Some(t),
{
    reveal_strlit("domain_blacklist");
    reveal_strlit("url_regex");
    reveal_strlit("keyword");
    reveal_strlit("extension");
    assert("domain_blacklist"@.len() != "url_regex"@.len());
    assert("domain_blacklist"@.len() != "keyword"@.len());
    assert("domain_blacklist"@.len() != "extension"@.len());
    assert("url_regex"@.len() != "keyword"@.len());
    assert("keyword"@.len() != "extension"@.len());
    assert("url_regex"@[0] != "extension"@[0]);
}

/// A name that is read as a filter type is that filter type's name.
pub proof fn law_filter_type_named_is_name(s: Seq<char>)
    ensures
        filter_type_named(s) matches Some(t) ==> filter_type_name(t) == s,
{
}

} // verus!

verus! {

/// The views of a list of strings.
pub open spec fn names_view(v: Seq<String>) -> Seq<Seq<char>> {
    v.map_values(|s: String| s@)
}

/// A lowercased domain without the first of the (lowercased) prefixes that
/// it starts with, followed by a dot; the domain as it is where none does.
pub open spec fn strip_known_prefix(d: Seq<char>, prefixes: Seq<Seq<char>>) -> Seq<char>
    decreases prefixes.len(),
{
    if prefixes.len() == 0 {
        d
    } else if (prefixes[0] + "."@).is_prefix_of(d) {
        d.skip(prefixes[0].len() as int + 1)
    } else {
        strip_known_prefix(d, prefixes.drop_first())
    }
}

/// A domain, lowercased, without the first of the prefixes (compared
/// lowercased) that it starts with, followed by a dot.
pub open spec fn normalized_domain(domain: Seq<char>, prefixes: Seq<Seq<char>>) -> Seq<char> {
    strip_known_prefix(lowercased(domain), prefixes.map_values(|p: Seq<char>| lowercased(p)))
}

/// Strips from a lowercased domain the first of the lowercased prefixes that
/// it starts with, followed by a dot.
pub fn strip_domain_prefix(domain_lower: &str, prefixes_lower: &[String]) -> (res: String)
    ensures
        res@ == strip_known_prefix(domain_lower@, names_view(prefixes_lower@)),
{
    let d = chars_of(domain_lower);
    let ghost ps = names_view(prefixes_lower@);
    let mut i: usize = 0;
    assert(ps.skip(0) =~= ps);
    while i < prefixes_lower.len()
        invariant
            i <= prefixes_lower@.len(),
            ps == names_view(prefixes_lower@),
            d@ == domain_lower@,
            strip_known_prefix(d@, ps) == strip_known_prefix(d@, ps.skip(i as int)),
        decreases prefixes_lower@.len() - i,
    {
        let mut pd = chars_of(prefixes_lower[i].as_str());
        pd.push('.');
        proof {
            reveal_strlit(".");
            assert(ps.skip(i as int)[0] == ps[i as int]);
            assert(pd@ =~= ps[i as int] + "."@);
            assert(ps.skip(i as int).drop_first() =~= ps.skip(i + 1));
        }
        if starts_with_chars(d.as_slice(), pd.as_slice()) {
            let rest = slice_chars(d.as_slice(), pd.len(), d.len());
            assert(rest@ =~= d@.skip(pd@.len() as int));
            return string_from(rest.as_slice());
        }
        i = i + 1;
    }
    assert(ps.skip(i as int).len() == 0);
    string_from(d.as_slice())
}

/// Normalizes a domain (see `normalized_domain`).
pub fn normalize_domain(domain: &str, normalize_prefixes: &[String]) -> (res: String)
    ensures
        res@ == normalized_domain(domain@, names_view(normalize_prefixes@)),
{
    let domain_lower = to_lowercase(domain);
    let mut lowered: Vec<String> = Vec::new();
    let mut i: usize = 0;
    let ghost target = names_view(normalize_prefixes@).map_values(|p: Seq<char>| lowercased(p));
    while i < normalize_prefixes.len()
        invariant
            i <= normalize_prefixes@.len(),
            target == names_view(normalize_prefixes@).map_values(|p: Seq<char>| lowercased(p)),
            names_view(lowered@) == target.take(i as int),
        decreases normalize_prefixes@.len() - i,
    {
        let ghost before = lowered@;
        let l = to_lowercase(normalize_prefixes[i].as_str());
        assert(names_view(normalize_prefixes@)[i as int] == normalize_prefixes@[i as int]@);
        assert(l@ == target[i as int]);
        lowered.push(l);
        assert(names_view(lowered@) =~= names_view(before).push(l@));
        assert(target.take(i + 1) =~= target.take(i as int).push(target[i as int]));
        i = i + 1;
    }
    assert(target.take(i as int) =~= target);
    strip_domain_prefix(domain_lower.as_str(), lowered.as_slice())
}

/// A URL with its host set to the host's normalized domain (see
/// `normalized_domain`); a URL without a host stays as it is, and so does
/// one whose host cannot be set.
pub open spec fn url_with_normalized_host(u: WebUrlView, prefixes: Seq<Seq<char>>) -> WebUrlView {
    match u.host {
        None => u,
        Some(h) => match host_set_url(u.href, normalized_domain(h, prefixes)) {
            Ok(v) => v,
            Err(_) => u,
        },
    }
}

/// Sets the URL's host to its normalized domain (see
/// `url_with_normalized_host`).
pub fn normalize_url_domain(url: &WebUrl, normalize_prefixes: &[String]) -> (res: WebUrl)
    ensures
        res@ == url_with_normalized_host(url@, names_view(normalize_prefixes@)),
        url.host is None ==> res == *url,
        url.host is Some && host_set_url(
            url.href@,
            normalized_domain(url.host->0@, names_view(normalize_prefixes@)),
        ) is Err ==> res == *url,
{
    match &url.host {
        None => url.clone(),
        Some(h) => {
            let d = normalize_domain(h.as_str(), normalize_prefixes);
            match url.with_host(d.as_str()) {
                Ok(v) => v,
                Err(_) => url.clone(),
            }
        },
    }
}

} // verus!

verus! {

/// The URLs of one domain.
#[derive(Debug)]
pub struct UrlGroup {
    pub domain: String,
    pub urls: Vec<WebUrl>,
}

/// The prioritized URLs of one domain.
#[derive(Debug)]
pub struct PrioritizedGroup {
    pub domain: String,
    pub urls: Vec<PrioritizedUrl>,
}

/// The normalized domain of a URL's host; none for a URL without a host.
pub open spec fn url_key(u: WebUrl, prefixes: Seq<Seq<char>>) -> Option<Seq<char>> {
    match u.host {
        Some(h) => Some(normalized_domain(h@, prefixes)),
        None => None,
    }
}

/// The normalized domains of the URLs' hosts, in order.
pub open spec fn url_keys(us: Seq<WebUrl>, prefixes: Seq<Seq<char>>) -> Seq<Option<Seq<char>>> {
    us.map_values(|u: WebUrl| url_key(u, prefixes))
}

/// The hosts of the URLs, in order.
pub open spec fn host_keys(us: Seq<WebUrl>) -> Seq<Option<Seq<char>>> {
    us.map_values(|u: WebUrl| opt_view(u.host))
}

/// The views of optional strings.
pub open spec fn opt_views(v: Seq<Option<String>>) -> Seq<Option<Seq<char>>> {
    v.map_values(|o: Option<String>| opt_view(o))
}

/// The URLs of `us` whose key (the entry of `keys` at the same place) is
/// `k`, in order.
pub open spec fn urls_with_key(us: Seq<WebUrl>, keys: Seq<Option<Seq<char>>>, k: Seq<char>) -> Seq<
    WebUrl,
>
    decreases us.len(),
{
    if us.len() == 0 {
        us
    } else if keys.last() == Some(k) {
        urls_with_key(us.drop_last(), keys.drop_last(), k).push(us.last())
    } else {
        urls_with_key(us.drop_last(), keys.drop_last(), k)
    }
}

/// `groups` groups `us` by key (`keys` holds each URL's key, none for a URL
/// that belongs to no group): no key twice, each group holds the URLs of
/// its key in their order, every URL with a key has its group, and every
/// group's key is the key of some URL, so that no group is empty. (Which
/// order the groups come in is left open.)
pub open spec fn grouped_by(groups: Seq<UrlGroup>, us: Seq<WebUrl>, keys: Seq<Option<Seq<char>>>) -> bool {
    &&& keys.len() == us.len()
    &&& forall|i: int, j: int|
        0 <= i < groups.len() && 0 <= j < groups.len() && i != j ==> #[trigger] groups[i].domain@
            != #[trigger] groups[j].domain@
    &&& forall|i: int|
        0 <= i < groups.len() ==> #[trigger] groups[i].urls@ == urls_with_key(
            us,
            keys,
            groups[i].domain@,
        )
    &&& forall|k: int|
        0 <= k < keys.len() && #[trigger] keys[k] is Some ==> exists|i: int|
            0 <= i < groups.len() && Some(#[trigger] groups[i].domain@) == keys[k]
    &&& forall|i: int|
        #![trigger groups[i]]
        0 <= i < groups.len() ==> exists|k: int|
            0 <= k < keys.len() && #[trigger] keys[k] == Some(groups[i].domain@)
}

/// `groups` groups `us` by the normalized domain of their host (see
/// `grouped_by`); URLs without a host are in no group.
pub open spec fn groups_exact(groups: Seq<UrlGroup>, us: Seq<WebUrl>, prefixes: Seq<Seq<char>>) -> bool {
    grouped_by(groups, us, url_keys(us, prefixes))
}

/// `groups` groups `us` by their host, as it is (see `grouped_by`); URLs
/// without a host are in no group.
pub open spec fn host_groups_exact(groups: Seq<UrlGroup>, us: Seq<WebUrl>) -> bool {
    grouped_by(groups, us, host_keys(us))
}

proof fn lemma_urls_with_key_absent(us: Seq<WebUrl>, keys: Seq<Option<Seq<char>>>, k: Seq<char>)
    requires
        keys.len() == us.len(),
        forall|m: int| 0 <= m < keys.len() ==> #[trigger] keys[m] != Some(k),
    ensures
        urls_with_key(us, keys, k) == Seq::<WebUrl>::empty(),
    decreases us.len(),
{
    if us.len() > 0 {
        assert(keys[keys.len() - 1] != Some(k));
        lemma_urls_with_key_absent(us.drop_last(), keys.drop_last(), k);
    }
}

proof fn lemma_urls_with_key_present(us: Seq<WebUrl>, keys: Seq<Option<Seq<char>>>, k: Seq<char>, m: int)
    requires
        keys.len() == us.len(),
        0 <= m < keys.len(),
        keys[m] == Some(k),
    ensures
        urls_with_key(us, keys, k).len() > 0,
    decreases us.len(),
{
    if m < us.len() - 1 {
        assert(keys.drop_last()[m] == keys[m]);
        lemma_urls_with_key_present(us.drop_last(), keys.drop_last(), k, m);
    }
}

/// No group of a grouping is empty: each holds at least one URL of its key.
pub proof fn law_no_empty_group(groups: Seq<UrlGroup>, us: Seq<WebUrl>, keys: Seq<Option<Seq<char>>>)
    requires
        grouped_by(groups, us, keys),
    ensures
        forall|i: int| 0 <= i < groups.len() ==> (#[trigger] groups[i]).urls@.len() > 0,
{
    assert forall|i: int| 0 <= i < groups.len() implies (#[trigger] groups[i]).urls@.len() > 0 by {
        let k = choose|k: int| 0 <= k < keys.len() && #[trigger] keys[k] == Some(groups[i].domain@);
        lemma_urls_with_key_present(us, keys, groups[i].domain@, k);
    }
}

fn find_url_group(groups: &Vec<UrlGroup>, domain: &String) -> (res: Option<usize>)
    ensures
        match res {
            Some(g) => g < groups@.len() && groups@[g as int].domain@ == domain@,
            None => forall|i: int| 0 <= i < groups@.len() ==> #[trigger] groups@[i].domain@ != domain@,
        },
{
    let mut i: usize = 0;
    while i < groups.len()
        invariant
            i <= groups@.len(),
            forall|j: int| 0 <= j < i ==> #[trigger] groups@[j].domain@ != domain@,
        decreases groups@.len() - i,
    {
        if groups[i].domain == *domain {
            return Some(i);
        }
        i = i + 1;
    }
    None
}

/// Groups URLs by the keys given for them (see `grouped_by`).
fn group_by_keys(urls: Vec<WebUrl>, keys: Vec<Option<String>>) -> (res: Vec<UrlGroup>)
    requires
        keys@.len() == urls@.len(),
    ensures
        grouped_by(res@, urls@, opt_views(keys@)),
{
    let ghost ks = opt_views(keys@);
    let mut groups: Vec<UrlGroup> = Vec::new();
    let mut i: usize = 0;
    assert(urls@.take(0) =~= Seq::<WebUrl>::empty());
    assert(ks.take(0) =~= Seq::<Option<Seq<char>>>::empty());
    while i < urls.len()
        invariant
            i <= urls@.len(),
            keys@.len() == urls@.len(),
            ks == opt_views(keys@),
            grouped_by(groups@, urls@.take(i as int), ks.take(i as int)),
        decreases urls@.len() - i,
    {
        let ghost pre = urls@.take(i as int);
        let ghost post = urls@.take(i + 1);
        let ghost kpre = ks.take(i as int);
        let ghost kpost = ks.take(i + 1);
        let ghost old_groups = groups@;
        assert(post.drop_last() =~= pre);
        assert(kpost.drop_last() =~= kpre);
        assert(post.last() == urls@[i as int]);
        assert(kpost.last() == ks[i as int]);
        assert(ks[i as int] == opt_view(keys@[i as int]));
        assert forall|k: int| 0 <= k < kpre.len() implies #[trigger] kpre[k] == kpost[k] by {}
        let u = urls[i].clone();
        match &keys[i] {
            None => {
                assert forall|g: int| 0 <= g < groups@.len() implies #[trigger] groups@[g].urls@
                    == urls_with_key(post, kpost, groups@[g].domain@) by {}
                assert forall|k: int| 0 <= k < kpost.len() && #[trigger] kpost[k] is Some implies exists|
                    g: int,
                | 0 <= g < groups@.len() && Some(#[trigger] groups@[g].domain@) == kpost[k] by {
                    assert(kpre[k] == kpost[k]);
                }
                assert forall|g: int| #![trigger groups@[g]] 0 <= g < groups@.len() implies exists|k: int|
                    0 <= k < kpost.len() && #[trigger] kpost[k] == Some(groups@[g].domain@) by {
                    let k = choose|k: int| 0 <= k < kpre.len() && #[trigger] kpre[k] == Some(groups@[g].domain@);
                    assert(kpre[k] == kpost[k]);
                }
            },
            Some(key0) => {
                let key = key0.clone();
                assert(kpost[i as int] == Some(key@));
                match find_url_group(&groups, &key) {
                    Some(g) => {
                        let mut grp = groups.remove(g);
                        grp.urls.push(u);
                        groups.insert(g, grp);
                        assert forall|j: int| 0 <= j < groups@.len() implies #[trigger] groups@[j].domain@
                            == old_groups[j].domain@ by {}
                        assert forall|j: int| 0 <= j < groups@.len() implies #[trigger] groups@[j].urls@
                            == urls_with_key(post, kpost, groups@[j].domain@) by {
                            if j != g {
                                assert(groups@[j] == old_groups[j]);
                            }
                        }
                        assert forall|k: int| 0 <= k < kpost.len() && #[trigger] kpost[k] is Some implies exists|
                            j: int,
                        | 0 <= j < groups@.len() && Some(#[trigger] groups@[j].domain@) == kpost[k] by {
                            if k < kpre.len() {
                                assert(kpre[k] == kpost[k]);
                                let j = choose|j: int|
                                    0 <= j < old_groups.len() && Some(#[trigger] old_groups[j].domain@)
                                        == kpre[k];
                                assert(groups@[j].domain@ == old_groups[j].domain@);
                            } else {
                                assert(groups@[g as int].domain@ == key@);
                            }
                        }
                        assert forall|j: int| #![trigger groups@[j]] 0 <= j < groups@.len() implies exists|k: int|
                            0 <= k < kpost.len() && #[trigger] kpost[k] == Some(groups@[j].domain@) by {
                            assert(groups@[j].domain@ == old_groups[j].domain@);
                            let k = choose|k: int| 0 <= k < kpre.len() && #[trigger] kpre[k] == Some(old_groups[j].domain@);
                            assert(kpre[k] == kpost[k]);
                        }
                    },
                    None => {
                        proof {
                            assert forall|m: int| 0 <= m < kpre.len() implies #[trigger] kpre[m]
                                != Some(key@) by {
                                if kpre[m] == Some(key@) {
                                    let j = choose|j: int|
                                        0 <= j < old_groups.len() && Some(#[trigger] old_groups[j].domain@)
                                            == kpre[m];
                                    assert(old_groups[j].domain@ != key@);
                                }
                            }
                            lemma_urls_with_key_absent(pre, kpre, key@);
                        }
                        let ghost ukey = key@;
                        let mut v: Vec<WebUrl> = Vec::new();
                        v.push(u);
                        groups.push(UrlGroup { domain: key, urls: v });
                        let ghost n: int = groups@.len() - 1;
                        assert(groups@[n].urls@ =~= Seq::<WebUrl>::empty().push(urls@[i as int]));
                        assert forall|j: int| 0 <= j < groups@.len() implies #[trigger] groups@[j].urls@
                            == urls_with_key(post, kpost, groups@[j].domain@) by {
                            if j < n {
                                assert(groups@[j] == old_groups[j]);
                            }
                        }
                        assert forall|a: int, b: int|
                            0 <= a < groups@.len() && 0 <= b < groups@.len() && a != b implies #[trigger] groups@[a].domain@
                            != #[trigger] groups@[b].domain@ by {
                            if a < n && b < n {
                                assert(groups@[a] == old_groups[a]);
                                assert(groups@[b] == old_groups[b]);
                            } else if a < n {
                                assert(groups@[a] == old_groups[a]);
                            } else {
                                assert(groups@[b] == old_groups[b]);
                            }
                        }
                        assert forall|k: int| 0 <= k < kpost.len() && #[trigger] kpost[k] is Some implies exists|
                            j: int,
                        | 0 <= j < groups@.len() && Some(#[trigger] groups@[j].domain@) == kpost[k] by {
                            if k < kpre.len() {
                                assert(kpre[k] == kpost[k]);
                                let j = choose|j: int|
                                    0 <= j < old_groups.len() && Some(#[trigger] old_groups[j].domain@)
                                        == kpre[k];
                                assert(groups@[j] == old_groups[j]);
                            } else {
                                assert(groups@[n].domain@ == ukey);
                            }
                        }
                        assert forall|j: int| #![trigger groups@[j]] 0 <= j < groups@.len() implies exists|k: int|
                            0 <= k < kpost.len() && #[trigger] kpost[k] == Some(groups@[j].domain@) by {
                            if j < n {
                                assert(groups@[j] == old_groups[j]);
                                let k = choose|k: int| 0 <= k < kpre.len() && #[trigger] kpre[k] == Some(old_groups[j].domain@);
                                assert(kpre[k] == kpost[k]);
                            } else {
                                assert(kpost[i as int] == Some(ukey));
                            }
                        }
                    },
                }
            },
        }
        i = i + 1;
    }
    assert(urls@.take(urls@.len() as int) =~= urls@);
    assert(ks.take(urls@.len() as int) =~= ks);
    groups
}

/// Groups URLs by the normalized domain of their host (see `groups_exact`);
/// URLs without a host are left out.
pub fn group_urls_by_normalized_domain(urls: Vec<WebUrl>, normalize_prefixes: &[String]) -> (res:
    Vec<UrlGroup>)
    ensures
        groups_exact(res@, urls@, names_view(normalize_prefixes@)),
{
    let ghost target = url_keys(urls@, names_view(normalize_prefixes@));
    let mut keys: Vec<Option<String>> = Vec::new();
    let mut i: usize = 0;
    while i < urls.len()
        invariant
            i <= urls@.len(),
            target == url_keys(urls@, names_view(normalize_prefixes@)),
            opt_views(keys@) == target.take(i as int),
        decreases urls@.len() - i,
    {
        let ghost before = keys@;
        let key = match &urls[i].host {
            Some(h) => Some(normalize_domain(h.as_str(), normalize_prefixes)),
            None => None,
        };
        keys.push(key);
        assert(opt_views(keys@) =~= opt_views(before).push(opt_view(key)));
        assert(target.take(i + 1) =~= target.take(i as int).push(target[i as int]));
        i = i + 1;
    }
    assert(target.take(urls@.len() as int) =~= target);
    group_by_keys(urls, keys)
}

/// Groups URLs by their host, as it is (see `host_groups_exact`); URLs
/// without a host are left out.
pub fn group_urls_by_domain(urls: Vec<WebUrl>) -> (res: Vec<UrlGroup>)
    ensures
        host_groups_exact(res@, urls@),
{
    let ghost target = host_keys(urls@);
    let mut keys: Vec<Option<String>> = Vec::new();
    let mut i: usize = 0;
    while i < urls.len()
        invariant
            i <= urls@.len(),
            target == host_keys(urls@),
            opt_views(keys@) == target.take(i as int),
        decreases urls@.len() - i,
    {
        let ghost before = keys@;
        let key = match &urls[i].host {
            Some(h) => Some(h.clone()),
            None => None,
        };
        keys.push(key);
        assert(opt_views(keys@) =~= opt_views(before).push(opt_view(key)));
        assert(target.take(i + 1) =~= target.take(i as int).push(target[i as int]));
        i = i + 1;
    }
    assert(target.take(urls@.len() as int) =~= target);
    group_by_keys(urls, keys)
}

/// Gives each URL of each group its priority by `prioritize`, keeping the
/// groups and their order.
fn prioritize_groups<F>(grouped: Vec<UrlGroup>, prioritize: F) -> (res: Vec<PrioritizedGroup>) where
    F: Fn(WebUrl) -> PrioritizedUrl,

    requires
        forall|u: WebUrl| #[trigger] prioritize.requires((u,)),
    ensures
        res@.len() == grouped@.len(),
        forall|i: int|
            0 <= i < res@.len() ==> {
                &&& #[trigger] res@[i].domain@ == grouped@[i].domain@
                &&& res@[i].urls@.len() == grouped@[i].urls@.len()
                &&& forall|j: int|
                    0 <= j < res@[i].urls@.len() ==> prioritize.ensures(
                        (grouped@[i].urls@[j],),
                        #[trigger] res@[i].urls@[j],
                    )
            },
{
    let mut res: Vec<PrioritizedGroup> = Vec::new();
    let mut g: usize = 0;
    while g < grouped.len()
        invariant
            g <= grouped@.len(),
            forall|u: WebUrl| #[trigger] prioritize.requires((u,)),
            res@.len() == g,
            forall|i: int|
                0 <= i < g ==> {
                    &&& #[trigger] res@[i].domain@ == grouped@[i].domain@
                    &&& res@[i].urls@.len() == grouped@[i].urls@.len()
                    &&& forall|j: int|
                        0 <= j < res@[i].urls@.len() ==> prioritize.ensures(
                            (grouped@[i].urls@[j],),
                            #[trigger] res@[i].urls@[j],
                        )
                },
        decreases grouped@.len() - g,
    {
        let src = &grouped[g];
        let mut out: Vec<PrioritizedUrl> = Vec::new();
        let mut k: usize = 0;
        while k < src.urls.len()
            invariant
                k <= src.urls@.len(),
                forall|u: WebUrl| #[trigger] prioritize.requires((u,)),
                out@.len() == k,
                forall|j: int|
                    0 <= j < k ==> prioritize.ensures((src.urls@[j],), #[trigger] out@[j]),
            decreases src.urls@.len() - k,
        {
            let u = src.urls[k].clone();
            let p = prioritize(u);
            out.push(p);
            k = k + 1;
        }
        let d = src.domain.clone();
        res.push(PrioritizedGroup { domain: d, urls: out });
        g = g + 1;
    }
    res
}

/// Groups URLs by the normalized domain of their host, as
/// `group_urls_by_normalized_domain` does, and gives each URL its priority
/// by `prioritize`.
pub fn group_prioritized_urls_by_normalized_domain<F>(
    urls: Vec<WebUrl>,
    normalize_prefixes: &[String],
    prioritize: F,
) -> (res: Vec<PrioritizedGroup>) where F: Fn(WebUrl) -> PrioritizedUrl
    requires
        forall|u: WebUrl| #[trigger] prioritize.requires((u,)),
    ensures
        exists|groups: Seq<UrlGroup>|
            {
                &&& groups_exact(groups, urls@, names_view(normalize_prefixes@))
                &&& groups.len() == res@.len()
                &&& forall|i: int|
                    0 <= i < res@.len() ==> {
                        &&& #[trigger] res@[i].domain@ == groups[i].domain@
                        &&& res@[i].urls@.len() == groups[i].urls@.len()
                        &&& forall|j: int|
                            0 <= j < res@[i].urls@.len() ==> prioritize.ensures(
                                (groups[i].urls@[j],),
                                #[trigger] res@[i].urls@[j],
                            )
                    }
            },
{
    let grouped = group_urls_by_normalized_domain(urls, normalize_prefixes);
    let ghost gs = grouped@;
    let res = prioritize_groups(grouped, prioritize);
    assert(groups_exact(gs, urls@, names_view(normalize_prefixes@)));
    res
}

/// Groups URLs by their host, as `group_urls_by_domain` does, and gives
/// each URL its priority by `prioritize`.
pub fn group_prioritized_urls_by_domain<F>(urls: Vec<WebUrl>, prioritize: F) -> (res: Vec<
    PrioritizedGroup,
>) where F: Fn(WebUrl) -> PrioritizedUrl
    requires
        forall|u: WebUrl| #[trigger] prioritize.requires((u,)),
    ensures
        exists|groups: Seq<UrlGroup>|
            {
                &&& host_groups_exact(groups, urls@)
                &&& groups.len() == res@.len()
                &&& forall|i: int|
                    0 <= i < res@.len() ==> {
                        &&& #[trigger] res@[i].domain@ == groups[i].domain@
                        &&& res@[i].urls@.len() == groups[i].urls@.len()
                        &&& forall|j: int|
                            0 <= j < res@[i].urls@.len() ==> prioritize.ensures(
                                (groups[i].urls@[j],),
                                #[trigger] res@[i].urls@[j],
                            )
                    }
            },
{
    let grouped = group_urls_by_domain(urls);
    let ghost gs = grouped@;
    let res = prioritize_groups(grouped, prioritize);
    assert(host_groups_exact(gs, urls@));
    res
}

/// The URLs of the group of a domain, if there is one.
pub fn url_group_for<'a>(groups: &'a Vec<UrlGroup>, domain: &str) -> (res: Option<&'a Vec<WebUrl>>)
    ensures
        match res {
            Some(v) => exists|i: int|
                0 <= i < groups@.len() && groups@[i].domain@ == domain@ && groups@[i].urls == *v,
            None => forall|i: int| 0 <= i < groups@.len() ==> #[trigger] groups@[i].domain@ != domain@,
        },
{
    let d = to_owned_string(domain);
    match find_url_group(groups, &d) {
        Some(i) => Some(&groups[i].urls),
        None => None,
    }
}

/// The URLs of the prioritized group of a domain, if there is one.
pub fn prioritized_group_for<'a>(groups: &'a Vec<PrioritizedGroup>, domain: &str) -> (res: Option<
    &'a Vec<PrioritizedUrl>,
>)
    ensures
        match res {
            Some(v) => exists|i: int|
                0 <= i < groups@.len() && groups@[i].domain@ == domain@ && groups@[i].urls == *v,
            None => forall|i: int| 0 <= i < groups@.len() ==> #[trigger] groups@[i].domain@ != domain@,
        },
{
    let mut i: usize = 0;
    while i < groups.len()
        invariant
            i <= groups@.len(),
            forall|j: int| 0 <= j < i ==> #[trigger] groups@[j].domain@ != domain@,
        decreases groups@.len() - i,
    {
        if str_eq(groups[i].domain.as_str(), domain) {
            return Some(&groups[i].urls);
        }
        i = i + 1;
    }
    None
}

} // verus!
