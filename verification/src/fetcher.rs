//! What the fetcher computes from a page: its title, its text, and the
//! links that it leads to, with the link filters applied; and the decisions
//! taken while following redirects.

use vstd::prelude::*;
use crate::common::{names_view, normalize_url_domain, url_with_normalized_host, FilterType};
use crate::pattern::{
    regex_all_captures, regex_captures_outcome, regex_first_capture,
    regex_first_capture_outcome, regex_is_match, regex_match_outcome, regex_replace_all,
    regex_replace_outcome, opt_text, opt_texts,
};
use crate::text::{
    chars_of, chars_eq, contains_chars, contains_seq, ends_with_chars, lowercase_chars, lowercased,
    replace_chars, replaced, starts_with_chars, string_from, trim_chars, trimmed, append_chars,
};
use crate::web_url::{joined_url, parsed_url, WebUrl, WebUrlView};

verus! {

/// Script elements, with their content.
pub const SCRIPT_PATTERN: &'static str = "(?is)<script.*?>.*?</script>";

/// Style elements, with their content.
pub const STYLE_PATTERN: &'static str = "(?is)<style.*?>.*?</style>";

/// Any tag.
pub const TAG_PATTERN: &'static str = "(?s)<.*?>";

/// A run of white space.
pub const WHITESPACE_PATTERN: &'static str = "\\s+";

/// The title element; its content is the first group.
pub const TITLE_PATTERN: &'static str = "(?i)<title>(?P<title>.*?)</title>";

/// A base element; its `href` is the first group.
pub const BASE_PATTERN: &'static str = "(?i)<base\\s+[^>]*href\\s*=\\s*[\"']([^\"']+)[\"']";

/// An anchor element; its `href` is the first group.
pub const LINK_PATTERN: &'static str = "(?i)<a\\s+[^>]*href\\s*=\\s*[\"']([^\"']+)[\"']";

/// What went wrong while fetching a page.
#[derive(Debug)]
pub enum FetcherError {
    InvalidUrl { url: String, reason: String },
    RobotsDisallowed { url: String },
    HttpFetchFailed { url: String, status_code: u16, message: String },
    DbError { message: String },
}

/// What fetching a page gave.
#[derive(Debug)]
pub struct FetchResult {
    pub url: WebUrl,
    pub original_url: WebUrl,
    pub title: String,
    pub extracted_links: Vec<WebUrl>,
    pub status: u16,
}

/// The views of a list of filters.
pub open spec fn filters_view(f: Seq<(String, FilterType)>) -> Seq<(Seq<char>, FilterType)> {
    f.map_values(|x: (String, FilterType)| (x.0@, x.1))
}

/// Whether one filter catches a URL. Host, path, URL and pattern are
/// compared lowercased, but for regular expressions, which are matched as
/// written against the URL as it is. A domain is caught with its
/// subdomains; a keyword anywhere in the URL; an extension at the end of
/// the path.
pub open spec fn filter_catches(u: WebUrlView, pattern: Seq<char>, ft: FilterType) -> bool {
    let host = lowercased(
        match u.host {
            Some(h) => h,
            None => Seq::<char>::empty(),
        },
    );
    let pl = lowercased(pattern);
    match ft {
        FilterType::DomainBlacklist => host == pl || ("."@ + pl).is_suffix_of(host),
        FilterType::Keyword => contains_seq(lowercased(u.href), pl),
        FilterType::UrlRegex => regex_match_outcome(pattern, u.href) == Some(true),
        FilterType::Extension => pl.is_suffix_of(lowercased(u.path)),
    }
}

/// Whether any of the filters catches a URL.
pub open spec fn filtered_out(u: WebUrlView, filters: Seq<(Seq<char>, FilterType)>) -> bool {
    exists|i: int| 0 <= i < filters.len() && #[trigger] filter_catches(u, filters[i].0, filters[i].1)
}

fn filter_catches_exec(url: &WebUrl, pattern: &String, ft: FilterType) -> (res: bool)
    ensures
        res == filter_catches(url@, pattern@, ft),
{
    let pl = lowercase_chars(chars_of(pattern.as_str()).as_slice());
    match ft {
        FilterType::DomainBlacklist => {
            let raw = match &url.host {
                Some(h) => chars_of(h.as_str()),
                None => Vec::new(),
            };
            let host = lowercase_chars(raw.as_slice());
            if chars_eq(host.as_slice(), pl.as_slice()) {
                return true;
            }
            let mut dotted: Vec<char> = Vec::new();
            dotted.push('.');
            append_chars(&mut dotted, pl.as_slice());
            proof {
                reveal_strlit(".");
                assert(dotted@ =~= "."@ + pl@);
            }
            ends_with_chars(host.as_slice(), dotted.as_slice())
        },
        FilterType::Keyword => {
            let u = lowercase_chars(chars_of(url.href.as_str()).as_slice());
            contains_chars(u.as_slice(), pl.as_slice())
        },
        FilterType::UrlRegex => {
            match regex_is_match(pattern.as_str(), url.href.as_str()) {
                Some(true) => true,
                _ => false,
            }
        },
        FilterType::Extension => {
            let path = lowercase_chars(chars_of(url.path.as_str()).as_slice());
            ends_with_chars(path.as_slice(), pl.as_slice())
        },
    }
}

/// Whether any of the filters catches the URL (see `filter_catches`).
pub fn is_filtered(url: &WebUrl, filters: &[(String, FilterType)]) -> (res: bool)
    ensures
        res == filtered_out(url@, filters_view(filters@)),
{
    let ghost fs = filters_view(filters@);
    let mut i: usize = 0;
    while i < filters.len()
        invariant
            i <= filters@.len(),
            fs == filters_view(filters@),
            forall|j: int| 0 <= j < i ==> !#[trigger] filter_catches(url@, fs[j].0, fs[j].1),
        decreases filters@.len() - i,
    {
        assert(fs[i as int] == (filters@[i as int].0@, filters@[i as int].1));
        if filter_catches_exec(url, &filters[i].0, filters[i].1) {
            assert(filter_catches(url@, fs[i as int].0, fs[i as int].1));
            return true;
        }
        i = i + 1;
    }
    false
}

/// Adding filters never lets a filtered URL through: where every filter of
/// `fs` is among `gs`, a URL that `fs` catches is caught by `gs`.
pub proof fn law_more_filters_keep_filtered(
    u: WebUrlView,
    fs: Seq<(Seq<char>, FilterType)>,
    gs: Seq<(Seq<char>, FilterType)>,
)
    requires
        forall|i: int| 0 <= i < fs.len() ==> gs.contains(#[trigger] fs[i]),
        filtered_out(u, fs),
    ensures
        filtered_out(u, gs),
{
    let i = choose|i: int| 0 <= i < fs.len() && #[trigger] filter_catches(u, fs[i].0, fs[i].1);
    assert(gs.contains(fs[i]));
    let j = choose|j: int| 0 <= j < gs.len() && gs[j] == fs[i];
    assert(filter_catches(u, gs[j].0, gs[j].1));
}

/// Whether a URL is filtered does not depend on the order of the filters,
/// nor on repeats: lists with the same filters agree.
pub proof fn law_filter_order_does_not_matter(
    u: WebUrlView,
    fs: Seq<(Seq<char>, FilterType)>,
    gs: Seq<(Seq<char>, FilterType)>,
)
    requires
        forall|i: int| 0 <= i < fs.len() ==> gs.contains(#[trigger] fs[i]),
        forall|j: int| 0 <= j < gs.len() ==> fs.contains(#[trigger] gs[j]),
    ensures
        filtered_out(u, fs) == filtered_out(u, gs),
{
    if filtered_out(u, fs) {
        law_more_filters_keep_filtered(u, fs, gs);
    }
    if filtered_out(u, gs) {
        law_more_filters_keep_filtered(u, gs, fs);
    }
}

/// No filters filter nothing.
pub proof fn law_no_filters_filter_nothing(u: WebUrlView)
    ensures
        !filtered_out(u, Seq::<(Seq<char>, FilterType)>::empty()),
{
}

/// A regular-expression filter whose pattern does not compile (its outcome
/// is none) catches no URL.
pub proof fn law_uncompiled_regex_catches_nothing(u: WebUrlView, pattern: Seq<char>)
    requires
        regex_match_outcome(pattern, u.href) is None,
    ensures
        !filter_catches(u, pattern, FilterType::UrlRegex),
{
}

/// The outcome of a replacement, or the text as it was where the pattern
/// did not compile.
pub open spec fn or_keep(o: Option<Seq<char>>, s: Seq<char>) -> Seq<char> {
    match o {
        Some(t) => t,
        None => s,
    }
}

/// The HTML entities `&nbsp;`, `&amp;`, `&lt;`, `&gt;`, `&quot;` and `&#39;`
/// replaced, in that order, by the characters they stand for.
pub open spec fn decode_entities(s: Seq<char>) -> Seq<char> {
    replaced(
        replaced(
            replaced(
                replaced(replaced(replaced(s, "&nbsp;"@, " "@), "&amp;"@, "&"@), "&lt;"@, "<"@),
                "&gt;"@,
                ">"@,
            ),
            "&quot;"@,
            "\""@,
        ),
        "&#39;"@,
        "'"@,
    )
}

/// The text of an HTML page: scripts, styles and then all tags replaced by
/// a space, entities decoded, runs of white space made one space, and the
/// ends trimmed.
pub open spec fn html_text(html: Seq<char>) -> Seq<char> {
    let a = or_keep(regex_replace_outcome(SCRIPT_PATTERN@, html, " "@), html);
    let b = or_keep(regex_replace_outcome(STYLE_PATTERN@, a, " "@), a);
    let c = or_keep(regex_replace_outcome(TAG_PATTERN@, b, " "@), b);
    let d = decode_entities(c);
    let e = or_keep(regex_replace_outcome(WHITESPACE_PATTERN@, d, " "@), d);
    trimmed(e)
}

fn replace_by_pattern(pattern: &str, text: String) -> (res: String)
    ensures
        res@ == or_keep(regex_replace_outcome(pattern@, text@, " "@), text@),
{
    match regex_replace_all(pattern, text.as_str(), " ") {
        Some(t) => t,
        None => text,
    }
}

fn replace_literal(s: &Vec<char>, pat: &str, rep: &str) -> (res: Vec<char>)
    requires
        pat@.len() > 0,
    ensures
        res@ == replaced(s@, pat@, rep@),
{
    let p = chars_of(pat);
    let r = chars_of(rep);
    replace_chars(s.as_slice(), p.as_slice(), r.as_slice())
}

/// The text of an HTML page (see `html_text`).
pub fn extract_text_from_html(html: &str) -> (res: String)
    ensures
        res@ == html_text(html@),
{
    let a = replace_by_pattern(SCRIPT_PATTERN, chars_to_string(html));
    let b = replace_by_pattern(STYLE_PATTERN, a);
    let c = replace_by_pattern(TAG_PATTERN, b);
    let d = decode_html_entities(c.as_str());
    let e = replace_by_pattern(WHITESPACE_PATTERN, d);
    let t = trim_chars(chars_of(e.as_str()).as_slice());
    string_from(t.as_slice())
}

/// Decodes the HTML entities of a text (see `decode_entities`).
pub fn decode_html_entities(text: &str) -> (res: String)
    ensures
        res@ == decode_entities(text@),
{
    let cs = chars_of(text);
    proof {
        reveal_strlit("&nbsp;");
        reveal_strlit("&amp;");
        reveal_strlit("&lt;");
        reveal_strlit("&gt;");
        reveal_strlit("&quot;");
        reveal_strlit("&#39;");
    }
    let d1 = replace_literal(&cs, "&nbsp;", " ");
    let d2 = replace_literal(&d1, "&amp;", "&");
    let d3 = replace_literal(&d2, "&lt;", "<");
    let d4 = replace_literal(&d3, "&gt;", ">");
    let d5 = replace_literal(&d4, "&quot;", "\"");
    let d6 = replace_literal(&d5, "&#39;", "'");
    string_from(d6.as_slice())
}

fn chars_to_string(s: &str) -> (res: String)
    ensures
        res@ == s@,
{
    string_from(chars_of(s).as_slice())
}

/// The title of a page: the content of its first title element, trimmed;
/// empty where there is none.
pub open spec fn title_of(body: Seq<char>) -> Seq<char> {
    match regex_first_capture_outcome(TITLE_PATTERN@, body, 1) {
        Some(Some(Some(t))) => trimmed(t),
        _ => Seq::empty(),
    }
}

/// The URL against which a page's links are resolved: the `href` of its
/// first base element (trimmed), read as an absolute URL or else resolved
/// against the page's URL; the page's URL where there is no base element or
/// neither works.
pub open spec fn base_for(base: WebUrlView, body: Seq<char>) -> WebUrlView {
    match regex_first_capture_outcome(BASE_PATTERN@, body, 1) {
        Some(Some(Some(h))) => {
            let bh = trimmed(h);
            match parsed_url(bh) {
                Ok(p) => p,
                Err(_) => match joined_url(base.href, bh) {
                    Ok(j) => j,
                    Err(_) => base,
                },
            }
        },
        _ => base,
    }
}

/// Whether a link (trimmed) is one to follow: not empty, not a fragment, and
/// not a `javascript:`, `mailto:` or `tel:` link.
pub open spec fn link_followable(t: Seq<char>) -> bool {
    &&& t.len() > 0
    &&& !"#"@.is_prefix_of(t)
    &&& !"javascript:"@.is_prefix_of(t)
    &&& !"mailto:"@.is_prefix_of(t)
    &&& !"tel:"@.is_prefix_of(t)
}

/// Where one captured `href` leads: resolved against the base, kept where it
/// is an http or https URL that no filter catches.
pub open spec fn link_target(
    base: WebUrlView,
    cap: Option<Seq<char>>,
    filters: Seq<(Seq<char>, FilterType)>,
) -> Option<WebUrlView> {
    match cap {
        None => None,
        Some(m) => {
            let t = trimmed(m);
            if !link_followable(t) {
                None
            } else {
                match joined_url(base.href, t) {
                    Err(_) => None,
                    Ok(r) => if (r.scheme == "http"@ || r.scheme == "https"@) && !filtered_out(
                        r,
                        filters,
                    ) {
                        Some(r)
                    } else {
                        None
                    },
                }
            }
        },
    }
}

/// The links that the captured `href`s lead to, in order.
pub open spec fn links_from(
    base: WebUrlView,
    caps: Seq<Option<Seq<char>>>,
    filters: Seq<(Seq<char>, FilterType)>,
) -> Seq<WebUrlView>
    decreases caps.len(),
{
    if caps.len() == 0 {
        Seq::empty()
    } else {
        match link_target(base, caps.last(), filters) {
            Some(r) => links_from(base, caps.drop_last(), filters).push(r),
            None => links_from(base, caps.drop_last(), filters),
        }
    }
}

/// Every captured `href` that is followable (not empty, not a fragment, not
/// a `javascript:`, `mailto:` or `tel:` link) and resolves against the base
/// to an http or https URL that no filter catches is among the links.
pub proof fn law_web_links_are_kept(
    base: WebUrlView,
    caps: Seq<Option<Seq<char>>>,
    filters: Seq<(Seq<char>, FilterType)>,
    i: int,
    r: WebUrlView,
)
    requires
        0 <= i < caps.len(),
        caps[i] is Some,
        trimmed(caps[i]->0).len() > 0,
        !"#"@.is_prefix_of(trimmed(caps[i]->0)),
        !"javascript:"@.is_prefix_of(trimmed(caps[i]->0)),
        !"mailto:"@.is_prefix_of(trimmed(caps[i]->0)),
        !"tel:"@.is_prefix_of(trimmed(caps[i]->0)),
        joined_url(base.href, trimmed(caps[i]->0)) == Ok::<WebUrlView, Seq<char>>(r),
        r.scheme == "http"@ || r.scheme == "https"@,
        !filtered_out(r, filters),
    ensures
        links_from(base, caps, filters).contains(r),
    decreases caps.len(),
{
    let rest = caps.drop_last();
    if i == caps.len() - 1 {
        assert(link_target(base, caps.last(), filters) == Some(r));
        let out = links_from(base, caps, filters);
        assert(out == links_from(base, rest, filters).push(r));
        assert(out[out.len() - 1] == r);
    } else {
        assert(rest[i] == caps[i]);
        law_web_links_are_kept(base, rest, filters, i, r);
        let prev = links_from(base, rest, filters);
        let j = choose|j: int| 0 <= j < prev.len() && prev[j] == r;
        match link_target(base, caps.last(), filters) {
            Some(x) => {
                assert(links_from(base, caps, filters)[j] == r);
            },
            None => {},
        }
    }
}

/// Every link is an http or https URL that no filter catches, and the
/// resolution of one of the captured `href`s against the base.
pub proof fn law_links_are_web_links(
    base: WebUrlView,
    caps: Seq<Option<Seq<char>>>,
    filters: Seq<(Seq<char>, FilterType)>,
)
    ensures
        forall|j: int|
            0 <= j < links_from(base, caps, filters).len() ==> {
                let r = #[trigger] links_from(base, caps, filters)[j];
                &&& r.scheme == "http"@ || r.scheme == "https"@
                &&& !filtered_out(r, filters)
                &&& exists|i: int|
                    0 <= i < caps.len() && caps[i] is Some && joined_url(base.href, trimmed(#[trigger] caps[i]->0))
                        == Ok::<WebUrlView, Seq<char>>(r)
            },
    decreases caps.len(),
{
    if caps.len() > 0 {
        let rest = caps.drop_last();
        law_links_are_web_links(base, rest, filters);
        let prev = links_from(base, rest, filters);
        let out = links_from(base, caps, filters);
        assert forall|j: int| 0 <= j < out.len() implies {
            let r = #[trigger] out[j];
            &&& r.scheme == "http"@ || r.scheme == "https"@
            &&& !filtered_out(r, filters)
            &&& exists|i: int|
                0 <= i < caps.len() && caps[i] is Some && joined_url(base.href, trimmed(#[trigger] caps[i]->0))
                    == Ok::<WebUrlView, Seq<char>>(r)
        } by {
            if j < prev.len() {
                assert(out[j] == prev[j]);
                let i = choose|i: int|
                    0 <= i < rest.len() && rest[i] is Some && joined_url(base.href, trimmed(#[trigger] rest[i]->0))
                        == Ok::<WebUrlView, Seq<char>>(prev[j]);
                assert(caps[i] == rest[i]);
            } else {
                let last = caps.len() - 1;
                assert(caps[last] == caps.last());
            }
        }
    }
}

/// The links of a page: the `href`s of its anchor elements, resolved
/// against the base of the page and filtered (see `link_target`).
pub open spec fn extracted_links(
    base: WebUrlView,
    body: Seq<char>,
    filters: Seq<(Seq<char>, FilterType)>,
) -> Seq<WebUrlView> {
    match regex_captures_outcome(LINK_PATTERN@, body, 1) {
        Some(caps) => links_from(base_for(base, body), caps, filters),
        None => Seq::empty(),
    }
}

/// The views of a list of URLs.
pub open spec fn urls_view(v: Seq<WebUrl>) -> Seq<WebUrlView> {
    v.map_values(|u: WebUrl| u@)
}

fn resolve_base(base_url: &WebUrl, body: &str) -> (res: WebUrl)
    ensures
        res@ == base_for(base_url@, body@),
{
    match regex_first_capture(BASE_PATTERN, body, 1) {
        Some(Some(Some(h))) => {
            let bh = string_from(trim_chars(chars_of(h.as_str()).as_slice()).as_slice());
            match WebUrl::parse(bh.as_str()) {
                Ok(p) => p,
                Err(_) => match base_url.join(bh.as_str()) {
                    Ok(j) => j,
                    Err(_) => base_url.clone(),
                },
            }
        },
        _ => base_url.clone(),
    }
}

fn followable(t: &Vec<char>) -> (res: bool)
    ensures
        res == link_followable(t@),
{
    if t.len() == 0 {
        return false;
    }
    let hash = chars_of("#");
    let js = chars_of("javascript:");
    let mail = chars_of("mailto:");
    let tel = chars_of("tel:");
    !starts_with_chars(t.as_slice(), hash.as_slice()) && !starts_with_chars(t.as_slice(), js.as_slice())
        && !starts_with_chars(t.as_slice(), mail.as_slice()) && !starts_with_chars(
        t.as_slice(),
        tel.as_slice(),
    )
}

fn resolve_link(base: &WebUrl, cap: &Option<String>, filters: &[(String, FilterType)]) -> (res: Option<WebUrl>)
    ensures
        match res {
            Some(u) => link_target(base@, opt_text(*cap), filters_view(filters@)) == Some(u@),
            None => link_target(base@, opt_text(*cap), filters_view(filters@)) is None,
        },
{
    match cap {
        None => None,
        Some(m) => {
            let t = trim_chars(chars_of(m.as_str()).as_slice());
            if !followable(&t) {
                return None;
            }
            let link = string_from(t.as_slice());
            match base.join(link.as_str()) {
                Err(_) => None,
                Ok(r) => {
                    let http = chars_of("http");
                    let https = chars_of("https");
                    let scheme = chars_of(r.scheme.as_str());
                    let web = chars_eq(scheme.as_slice(), http.as_slice()) || chars_eq(
                        scheme.as_slice(),
                        https.as_slice(),
                    );
                    if web && !is_filtered(&r, filters) {
                        Some(r)
                    } else {
                        None
                    }
                },
            }
        },
    }
}

/// The title, the text and the links of a page (see `title_of`,
/// `html_text` and `extracted_links`).
pub fn extract_content(base_url: &WebUrl, body: &str, active_filters: &[(String, FilterType)]) -> (res: (
    String,
    String,
    Vec<WebUrl>,
))
    ensures
        res.0@ == title_of(body@),
        res.1@ == html_text(body@),
        urls_view(res.2@) == extracted_links(base_url@, body@, filters_view(active_filters@)),
{
    let title = match regex_first_capture(TITLE_PATTERN, body, 1) {
        Some(Some(Some(t))) => string_from(trim_chars(chars_of(t.as_str()).as_slice()).as_slice()),
        _ => String::new(),
    };
    let text = extract_text_from_html(body);
    let base = resolve_base(base_url, body);
    let mut links: Vec<WebUrl> = Vec::new();
    match regex_all_captures(LINK_PATTERN, body, 1) {
        None => {},
        Some(caps) => {
            let ghost cs = opt_texts(caps@);
            let ghost fs = filters_view(active_filters@);
            let mut i: usize = 0;
            assert(cs.take(0) =~= Seq::<Option<Seq<char>>>::empty());
            assert(urls_view(links@) =~= Seq::<WebUrlView>::empty());
            while i < caps.len()
                invariant
                    i <= caps@.len(),
                    cs == opt_texts(caps@),
                    fs == filters_view(active_filters@),
                    urls_view(links@) == links_from(base@, cs.take(i as int), fs),
                decreases caps@.len() - i,
            {
                assert(cs.take(i + 1).drop_last() =~= cs.take(i as int));
                assert(cs.take(i + 1).last() == opt_text(caps@[i as int]));
                let ghost before = links@;
                match resolve_link(&base, &caps[i], active_filters) {
                    Some(u) => {
                        links.push(u);
                        assert(urls_view(links@) =~= urls_view(before).push(links@.last()@));
                    },
                    None => {},
                }
                i = i + 1;
            }
            assert(cs.take(caps@.len() as int) =~= cs);
        },
    }
    (title, text, links)
}

/// The views of URLs, each with its host normalized.
pub open spec fn normalized_urls(vs: Seq<WebUrlView>, prefixes: Seq<Seq<char>>) -> Seq<WebUrlView> {
    vs.map_values(|v: WebUrlView| url_with_normalized_host(v, prefixes))
}

/// What a fetched page gives: the final URL with its host normalized (see
/// `url_with_normalized_host`), and, read from the body against that URL,
/// the title, the text and the links (see `extract_content`), each link with
/// its host normalized.
pub fn analyse_fetched_page(
    final_url: &WebUrl,
    body: &str,
    active_filters: &[(String, FilterType)],
    normalize_prefixes: &[String],
) -> (res: (WebUrl, String, String, Vec<WebUrl>))
    ensures
        res.0@ == url_with_normalized_host(final_url@, names_view(normalize_prefixes@)),
        res.1@ == title_of(body@),
        res.2@ == html_text(body@),
        urls_view(res.3@) == normalized_urls(
            extracted_links(res.0@, body@, filters_view(active_filters@)),
            names_view(normalize_prefixes@),
        ),
{
    let url = normalize_url_domain(final_url, normalize_prefixes);
    let (title, text, links) = extract_content(&url, body, active_filters);
    let ghost ps = names_view(normalize_prefixes@);
    let ghost found = urls_view(links@);
    let mut out: Vec<WebUrl> = Vec::new();
    let mut i: usize = 0;
    while i < links.len()
        invariant
            i <= links@.len(),
            ps == names_view(normalize_prefixes@),
            found == urls_view(links@),
            urls_view(out@) == normalized_urls(found.take(i as int), ps),
        decreases links@.len() - i,
    {
        let n = normalize_url_domain(&links[i], normalize_prefixes);
        let ghost before = out@;
        out.push(n);
        assert(urls_view(out@) =~= urls_view(before).push(n@));
        assert(found.take(i + 1) =~= found.take(i as int).push(found[i as int]));
        assert(normalized_urls(found.take(i + 1), ps) =~= normalized_urls(found.take(i as int), ps).push(
            url_with_normalized_host(found[i as int], ps),
        ));
        i = i + 1;
    }
    assert(found.take(links@.len() as int) =~= found);
    (url, title, text, out)
}

} // verus!

verus! {

/// How many redirects are followed at most.
pub const MAX_REDIRECTS: u8 = 5;

/// What to do after a response arrived.
#[derive(Debug)]
pub enum RedirectStep {
    /// Request this URL next; this many redirects have then been followed.
    Follow { next_url: String, redirect_count: u8 },
    /// Read this response's body.
    Finish,
}

/// Whether a status is a redirect (300 to 399).
pub open spec fn is_redirect(status: u16) -> bool {
    300 <= status <= 399
}

/// A reference resolved against a URL, if it can be (`Url::join`).
pub fn resolve_url(base_url: &WebUrl, relative: &str) -> (res: Option<WebUrl>)
    ensures
        match joined_url(base_url.href@, relative@) {
            Ok(v) => res is Some && res->0@ == v,
            Err(_) => res is None,
        },
{
    match base_url.join(relative) {
        Ok(u) => Some(u),
        Err(_) => None,
    }
}

/// The decision after a response with `status` to a request for
/// `current_url`, after `redirect_count` redirects, where `location` is the
/// response's `Location` header (its text, or, where it is not valid text,
/// the `Debug` text of the decoding error): a redirect beyond the fifth
/// fails; a redirect whose location is not valid text fails; a redirect
/// with a location is followed to the location resolved against the current
/// URL; anything else is read.
pub fn next_fetch_step(
    current_url: &str,
    status: u16,
    redirect_count: u8,
    location: Option<Result<&str, &str>>,
) -> (res: Result<RedirectStep, FetcherError>)
    ensures
        !is_redirect(status) ==> (res matches Ok(RedirectStep::Finish)),
        is_redirect(status) && redirect_count >= 5 ==> (res matches Err(
            FetcherError::HttpFetchFailed { url, status_code, message },
        ) && url@ == current_url@ && status_code == status && message@ == "Too many redirects"@),
        is_redirect(status) && redirect_count < 5 && location is None ==> (res matches Ok(
            RedirectStep::Finish,
        )),
        is_redirect(status) && redirect_count < 5 && location is Some && location->0 is Err ==> (res matches Err(
            FetcherError::HttpFetchFailed { url, status_code, message },
        ) && url@ == current_url@ && status_code == status && message@
            == "Invalid Location header encoding: "@ + location->0->Err_0@),
        is_redirect(status) && redirect_count < 5 && location is Some && location->0 is Ok ==> match parsed_url(
            current_url@,
        ) {
            Err(e) => (res matches Err(FetcherError::InvalidUrl { url, reason }) && url@
                == current_url@ && reason@ == "Failed to parse current URL: "@ + e),
            Ok(b) => match joined_url(b.href, location->0->Ok_0@) {
                Err(e) => (res matches Err(FetcherError::InvalidUrl { url, reason }) && url@
                    == location->0->Ok_0@ && reason@ == "Failed to resolve redirect location: "@ + e),
                Ok(n) => (res matches Ok(RedirectStep::Follow { next_url, redirect_count: c })
                    && next_url@ == n.href && c == redirect_count + 1),
            },
        },
        res matches Ok(RedirectStep::Follow { redirect_count: c, .. }) ==> c <= MAX_REDIRECTS && c
            == redirect_count + 1,
{
    if !(300 <= status && status <= 399) {
        return Ok(RedirectStep::Finish);
    }
    if redirect_count >= MAX_REDIRECTS {
        return Err(
            FetcherError::HttpFetchFailed {
                url: crate::text::to_owned_string(current_url),
                status_code: status,
                message: crate::text::to_owned_string("Too many redirects"),
            },
        );
    }
    match location {
        None => Ok(RedirectStep::Finish),
        Some(Err(e)) => Err(
            FetcherError::HttpFetchFailed {
                url: crate::text::to_owned_string(current_url),
                status_code: status,
                message: crate::text::concat_str("Invalid Location header encoding: ", e),
            },
        ),
        Some(Ok(loc)) => {
            let base = match WebUrl::parse(current_url) {
                Ok(b) => b,
                Err(e) => {
                    return Err(
                        FetcherError::InvalidUrl {
                            url: crate::text::to_owned_string(current_url),
                            reason: crate::text::concat_str(
                                "Failed to parse current URL: ",
                                e.as_str(),
                            ),
                        },
                    );
                },
            };
            match base.join(loc) {
                Ok(next) => Ok(
                    RedirectStep::Follow { next_url: next.href, redirect_count: redirect_count + 1 },
                ),
                Err(e) => Err(
                    FetcherError::InvalidUrl {
                        url: crate::text::to_owned_string(loc),
                        reason: crate::text::concat_str(
                            "Failed to resolve redirect location: ",
                            e.as_str(),
                        ),
                    },
                ),
            }
        },
    }
}

/// The URL that a fetch ended at, parsed; a URL that does not parse is an
/// invalid URL.
pub fn final_fetch_url(current_url: &str) -> (res: Result<WebUrl, FetcherError>)
    ensures
        match parsed_url(current_url@) {
            Ok(v) => res is Ok && res->Ok_0@ == v,
            Err(e) => (res matches Err(FetcherError::InvalidUrl { url, reason }) && url@
                == current_url@ && reason@ == "Failed to parse final URL: "@ + e),
        },
{
    match WebUrl::parse(current_url) {
        Ok(u) => Ok(u),
        Err(e) => Err(
            FetcherError::InvalidUrl {
                url: crate::text::to_owned_string(current_url),
                reason: crate::text::concat_str("Failed to parse final URL: ", e.as_str()),
            },
        ),
    }
}

} // verus!
