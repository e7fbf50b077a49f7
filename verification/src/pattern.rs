//! Regular expressions, through the `regex` crate. Each function compiles
//! its pattern with `regex::Regex::new` and gives no result (`None`) where
//! the pattern does not compile.

use vstd::prelude::*;

verus! {

/// What `regex::Regex::new(pattern)` and then `is_match(text)` give.
pub uninterp spec fn regex_match_outcome(pattern: Seq<char>, text: Seq<char>) -> Option<bool>;

/// What `regex::Regex::new(pattern)` and then `replace_all(text, replacement)` give.
pub uninterp spec fn regex_replace_outcome(
    pattern: Seq<char>,
    text: Seq<char>,
    replacement: Seq<char>,
) -> Option<Seq<char>>;

/// What `regex::Regex::new(pattern)` and then `captures(text)` give for the
/// capture group `group`: no match, or the group's text where it took part
/// in the first match.
pub uninterp spec fn regex_first_capture_outcome(pattern: Seq<char>, text: Seq<char>, group: nat) -> Option<Option<Option<Seq<char>>>>;

/// The view of the outcome of `regex_first_capture`.
pub open spec fn first_capture_view(r: Option<Option<Option<String>>>) -> Option<Option<Option<Seq<char>>>> {
    match r {
        None => None,
        Some(None) => Some(None),
        Some(Some(g)) => Some(Some(opt_text(g))),
    }
}

/// What `regex::Regex::new(pattern)` and then `captures_iter(text)` give for
/// the capture group `group`: one entry per match, in order.
pub uninterp spec fn regex_captures_outcome(pattern: Seq<char>, text: Seq<char>, group: nat) -> Option<Seq<Option<Seq<char>>>>;

/// The view of an optional string.
pub open spec fn opt_text(o: Option<String>) -> Option<Seq<char>> {
    match o {
        Some(s) => Some(s@),
        None => None,
    }
}

/// The views of a list of optional strings.
pub open spec fn opt_texts(v: Seq<Option<String>>) -> Seq<Option<Seq<char>>> {
    v.map_values(|o: Option<String>| opt_text(o))
}

/// Whether `pattern` matches somewhere in `text` (`Regex::is_match`); the
/// contract names the outcome by `regex_match_outcome` and says no more.
#[verifier::external_body]
pub(crate) fn regex_is_match(pattern: &str, text: &str) -> (res: Option<bool>)
    ensures
        res == regex_match_outcome(pattern@, text@),
{
    match regex::Regex::new(pattern) {
        Ok(re) => Some(re.is_match(text)),
        Err(_) => None,
    }
}

/// `text` with every match of `pattern` replaced (`Regex::replace_all`);
/// the contract names the outcome by `regex_replace_outcome` and says no more.
#[verifier::external_body]
pub(crate) fn regex_replace_all(pattern: &str, text: &str, replacement: &str) -> (res: Option<String>)
    ensures
        opt_text(res) == regex_replace_outcome(pattern@, text@, replacement@),
{
    match regex::Regex::new(pattern) {
        Ok(re) => Some(re.replace_all(text, replacement).into_owned()),
        Err(_) => None,
    }
}

/// The capture group `group` of the first match of `pattern` in `text`
/// (`Regex::captures`); the contract names the outcome by
/// `regex_first_capture_outcome` and says no more.
#[verifier::external_body]
pub(crate) fn regex_first_capture(pattern: &str, text: &str, group: usize) -> (res: Option<Option<Option<String>>>)
    ensures
        first_capture_view(res) == regex_first_capture_outcome(pattern@, text@, group as nat),
{
    let re = match regex::Regex::new(pattern) {
        Ok(re) => re,
        Err(_) => return None,
    };
    match re.captures(text) {
        Some(c) => match c.get(group) {
            Some(m) => Some(Some(Some(m.as_str().to_string()))),
            None => Some(Some(None)),
        },
        None => Some(None),
    }
}

/// The capture group `group` of every match of `pattern` in `text`, in
/// order (`Regex::captures_iter`); the contract names the outcome by
/// `regex_captures_outcome` and says no more.
#[verifier::external_body]
pub(crate) fn regex_all_captures(pattern: &str, text: &str, group: usize) -> (res: Option<Vec<Option<String>>>)
    ensures
        match res {
            Some(v) => regex_captures_outcome(pattern@, text@, group as nat) == Some(opt_texts(v@)),
            None => regex_captures_outcome(pattern@, text@, group as nat) is None,
        },
{
    let re = match regex::Regex::new(pattern) {
        Ok(re) => re,
        Err(_) => return None,
    };
    let mut out = Vec::new();
    for c in re.captures_iter(text) {
        match c.get(group) {
            Some(m) => out.push(Some(m.as_str().to_string())),
            None => out.push(None),
        }
    }
    Some(out)
}

} // verus!
