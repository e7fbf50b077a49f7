//! Reading robots.txt: the paths disallowed for this crawler and the
//! crawl-delay values given to it.

use vstd::prelude::*;
use crate::common::names_view;
use crate::text::{
    chars_eq, chars_of, find_seq, first_occurrence, lemma_first_occurrence,
    lowercase_chars, lowercased, pieces_view, slice_chars, split_chars, split_on, string_from,
    trim_chars, trimmed, contains_seq,
};

verus! {

/// What has been read of a robots.txt so far.
pub struct RobotsScan {
    /// The `Disallow` values of the groups for this crawler, in order.
    pub disallowed: Seq<Seq<char>>,
    /// The `Crawl-delay` values of the groups for this crawler, in order.
    pub delays: Seq<Seq<char>>,
    /// Whether the current group is for this crawler.
    pub relevant: bool,
}

/// Whether a `User-agent` value (lowercased) names this crawler: `*` or `golem`.
pub open spec fn agent_is_ours(agent_lower: Seq<char>) -> bool {
    agent_lower == "*"@ || agent_lower == "golem"@
}

/// One line of robots.txt read: blank lines, comments and lines without `:`
/// change nothing; otherwise the text before the first `:` is the key
/// (trimmed, lowercased) and the text after it the value (trimmed). A
/// `user-agent` line starts a group, which is for this crawler when its
/// value is `*` or `golem`; within such a group a non-empty `disallow` value
/// is a disallowed path and a `crawl-delay` value is a delay.
pub open spec fn robots_line(st: RobotsScan, line: Seq<char>) -> RobotsScan {
    let t = trimmed(line);
    if t.len() == 0 || t[0] == '#' || !contains_seq(t, seq![':']) {
        st
    } else {
        let k = first_occurrence(t, seq![':']);
        let key = lowercased(trimmed(t.take(k)));
        let val = trimmed(t.skip(k + 1));
        if key == "user-agent"@ {
            RobotsScan { relevant: agent_is_ours(lowercased(val)), ..st }
        } else if st.relevant && key == "disallow"@ {
            if val.len() > 0 {
                RobotsScan { disallowed: st.disallowed.push(val), ..st }
            } else {
                st
            }
        } else if st.relevant && key == "crawl-delay"@ {
            RobotsScan { delays: st.delays.push(val), ..st }
        } else {
            st
        }
    }
}

/// The lines read one after the other, from nothing read and no group.
pub open spec fn robots_scan(lines: Seq<Seq<char>>) -> RobotsScan
    decreases lines.len(),
{
    if lines.len() == 0 {
        RobotsScan { disallowed: Seq::empty(), delays: Seq::empty(), relevant: false }
    } else {
        robots_line(robots_scan(lines.drop_last()), lines.last())
    }
}

/// What robots.txt says to this crawler. Its lines are the pieces between
/// `\n`s; since every line is trimmed, a `\r` before a `\n` and a last
/// empty line make no difference, as with `str::lines`.
pub open spec fn robots_of(content: Seq<char>) -> RobotsScan {
    robots_scan(split_on(content, '\n'))
}

/// The key of a robots.txt line: the text before its first `:`, trimmed and
/// lowercased; none for a blank line, a comment or a line without `:`.
pub open spec fn line_key(line: Seq<char>) -> Option<Seq<char>> {
    let t = trimmed(line);
    if t.len() == 0 || t[0] == '#' || !contains_seq(t, seq![':']) {
        None
    } else {
        Some(lowercased(trimmed(t.take(first_occurrence(t, seq![':'])))))
    }
}

/// The value of a robots.txt line: the text after its first `:`, trimmed.
pub open spec fn line_value(line: Seq<char>) -> Seq<char> {
    let t = trimmed(line);
    trimmed(t.skip(first_occurrence(t, seq![':']) + 1))
}

/// Each `User-agent` line decides on its own, whatever came before it,
/// whether the group that follows is for this crawler: it is exactly when
/// the agent, lowercased, is `*` or `golem`.
pub proof fn law_user_agent_line_decides(before: Seq<Seq<char>>, ua: Seq<char>)
    requires
        line_key(ua) == Some("user-agent"@),
    ensures
        robots_scan(before.push(ua)).relevant == (lowercased(line_value(ua)) == "*"@
            || lowercased(line_value(ua)) == "golem"@),
        robots_scan(before.push(ua)).disallowed == robots_scan(before).disallowed,
        robots_scan(before.push(ua)).delays == robots_scan(before).delays,
{
    assert(before.push(ua).drop_last() =~= before);
}

/// A group for another agent adds nothing: after a `User-agent` line that
/// names neither `*` nor `golem`, the lines up to the next `User-agent`
/// line add no disallowed path and no delay, whatever groups came before.
pub proof fn law_other_agents_group_adds_nothing(
    before: Seq<Seq<char>>,
    ua: Seq<char>,
    group: Seq<Seq<char>>,
)
    requires
        line_key(ua) == Some("user-agent"@),
        lowercased(line_value(ua)) != "*"@,
        lowercased(line_value(ua)) != "golem"@,
        forall|j: int| 0 <= j < group.len() ==> line_key(#[trigger] group[j]) != Some("user-agent"@),
    ensures
        robots_scan(before.push(ua) + group).disallowed == robots_scan(before).disallowed,
        robots_scan(before.push(ua) + group).delays == robots_scan(before).delays,
        !robots_scan(before.push(ua) + group).relevant,
    decreases group.len(),
{
    if group.len() == 0 {
        assert(before.push(ua) + group =~= before.push(ua));
        law_user_agent_line_decides(before, ua);
    } else {
        let g = group.drop_last();
        assert forall|j: int| 0 <= j < g.len() implies line_key(#[trigger] g[j]) != Some("user-agent"@) by {
            assert(g[j] == group[j]);
        }
        law_other_agents_group_adds_nothing(before, ua, g);
        let all = before.push(ua) + group;
        assert(all.drop_last() =~= before.push(ua) + g);
        assert(all.last() == group.last());
        assert(line_key(group[group.len() - 1]) != Some("user-agent"@));
    }
}

/// In a group for this crawler, a `Disallow` line with a value adds that
/// value to the disallowed paths.
pub proof fn law_own_group_disallow_is_kept(before: Seq<Seq<char>>, ua: Seq<char>, d: Seq<char>)
    requires
        line_key(ua) == Some("user-agent"@),
        lowercased(line_value(ua)) == "*"@ || lowercased(line_value(ua)) == "golem"@,
        line_key(d) == Some("disallow"@),
        line_value(d).len() > 0,
    ensures
        robots_scan(before.push(ua).push(d)).disallowed == robots_scan(before).disallowed.push(
            line_value(d),
        ),
{
    reveal_strlit("user-agent");
    reveal_strlit("disallow");
    assert("disallow"@.len() != "user-agent"@.len());
    law_user_agent_line_decides(before, ua);
    let st = robots_scan(before.push(ua));
    assert(st.relevant);
    assert(before.push(ua).push(d).drop_last() =~= before.push(ua));
    assert(robots_scan(before.push(ua).push(d)) == robots_line(st, d));
}

/// What a robots.txt says to this crawler.
#[derive(Clone, Debug)]
pub struct RobotsTxt {
    /// The disallowed path prefixes, in order.
    pub disallowed: Vec<String>,
    /// The `Crawl-delay` values, in order, as written (trimmed).
    pub crawl_delay_values: Vec<String>,
}

fn push_string(v: &mut Vec<String>, cs: &[char])
    ensures
        names_view(final(v)@) == names_view(old(v)@).push(cs@),
{
    let s = string_from(cs);
    let ghost before = v@;
    v.push(s);
    assert(names_view(v@) =~= names_view(before).push(cs@));
}

/// Reads a robots.txt (see `robots_of`).
pub fn parse_robots_txt(content: &str) -> (res: RobotsTxt)
    ensures
        names_view(res.disallowed@) == robots_of(content@).disallowed,
        names_view(res.crawl_delay_values@) == robots_of(content@).delays,
{
    let cs = chars_of(content);
    let lines = split_chars(cs.as_slice(), '\n');
    let ghost ls = split_on(content@, '\n');
    let colon = chars_of(":");
    let ua = chars_of("user-agent");
    let dis = chars_of("disallow");
    let cd = chars_of("crawl-delay");
    let star = chars_of("*");
    let golem = chars_of("golem");
    proof {
        reveal_strlit(":");
        assert(colon@ =~= seq![':']);
    }
    let mut disallowed: Vec<String> = Vec::new();
    let mut delays: Vec<String> = Vec::new();
    let mut relevant = false;
    let mut i: usize = 0;
    assert(ls.take(0) =~= Seq::<Seq<char>>::empty());
    assert(names_view(disallowed@) =~= Seq::<Seq<char>>::empty());
    assert(names_view(delays@) =~= Seq::<Seq<char>>::empty());
    while i < lines.len()
        invariant
            i <= lines@.len(),
            pieces_view(lines@) == ls,
            colon@ == seq![':'],
            ua@ == "user-agent"@,
            dis@ == "disallow"@,
            cd@ == "crawl-delay"@,
            star@ == "*"@,
            golem@ == "golem"@,
            robots_scan(ls.take(i as int)) == (RobotsScan {
                disallowed: names_view(disallowed@),
                delays: names_view(delays@),
                relevant,
            }),
        decreases lines@.len() - i,
    {
        let ghost st = robots_scan(ls.take(i as int));
        let ghost line = ls[i as int];
        assert(ls.take(i + 1).drop_last() =~= ls.take(i as int));
        assert(ls.take(i + 1).last() == line);
        assert(lines@[i as int]@ == line);
        let t = trim_chars(lines[i].as_slice());
        if t.len() == 0 || t[0] == '#' {
        } else {
            match find_seq(t.as_slice(), colon.as_slice()) {
                None => {},
                Some(k) => {
                    proof {
                        assert(contains_seq(t@, seq![':']));
                        lemma_first_occurrence(t@, seq![':'], k as int);
                    }
                    let before = slice_chars(t.as_slice(), 0, k);
                    let after = slice_chars(t.as_slice(), k + 1, t.len());
                    assert(before@ =~= t@.take(k as int));
                    assert(after@ =~= t@.skip(k + 1));
                    let key_t = trim_chars(before.as_slice());
                    let key = lowercase_chars(key_t.as_slice());
                    let val = trim_chars(after.as_slice());
                    if chars_eq(key.as_slice(), ua.as_slice()) {
                        let agent = lowercase_chars(val.as_slice());
                        relevant = chars_eq(agent.as_slice(), star.as_slice()) || chars_eq(
                            agent.as_slice(),
                            golem.as_slice(),
                        );
                    } else if relevant && chars_eq(key.as_slice(), dis.as_slice()) {
                        if val.len() > 0 {
                            push_string(&mut disallowed, val.as_slice());
                        }
                    } else if relevant && chars_eq(key.as_slice(), cd.as_slice()) {
                        push_string(&mut delays, val.as_slice());
                    }
                },
            }
        }
        i = i + 1;
    }
    assert(ls.take(lines@.len() as int) =~= ls);
    RobotsTxt { disallowed, crawl_delay_values: delays }
}

/// The delay that holds: the last of the values that could be read.
pub open spec fn last_delay(values: Seq<Option<u32>>) -> Option<u32>
    decreases values.len(),
{
    if values.len() == 0 {
        None
    } else {
        match values.last() {
            Some(d) => Some(d),
            None => last_delay(values.drop_last()),
        }
    }
}

/// Of the crawl-delay values, each read as milliseconds or not readable,
/// the last one that could be read.
pub fn last_crawl_delay(values: &Vec<Option<u32>>) -> (res: Option<u32>)
    ensures
        res == last_delay(values@),
{
    let mut res: Option<u32> = None;
    let mut i: usize = 0;
    assert(values@.take(0) =~= Seq::<Option<u32>>::empty());
    while i < values.len()
        invariant
            i <= values@.len(),
            res == last_delay(values@.take(i as int)),
        decreases values@.len() - i,
    {
        assert(values@.take(i + 1).drop_last() =~= values@.take(i as int));
        match values[i] {
            Some(d) => {
                res = Some(d);
            },
            None => {},
        }
        i = i + 1;
    }
    assert(values@.take(values@.len() as int) =~= values@);
    res
}

} // verus!
