//! The priority at which a discovered link is crawled.

use vstd::prelude::*;
use crate::text::{
    chars_of, contains_chars, occurs_at, contains_seq, find_seq, first_occurrence, lemma_first_occurrence,
    lemma_first_occurrence_exists, pieces_view, slice_chars, split_chars, split_on,
};

verus! {

/// The number of non-empty pieces.
pub open spec fn count_nonempty(pieces: Seq<Seq<char>>) -> nat
    decreases pieces.len(),
{
    if pieces.len() == 0 {
        0
    } else {
        count_nonempty(pieces.drop_last()) + if pieces.last().len() > 0 {
            1nat
        } else {
            0nat
        }
    }
}

/// The number of path segments of a URL: where it has `://`, the non-empty
/// pieces between `/`s from the first `/` after it on; otherwise none.
pub open spec fn path_segments(url: Seq<char>) -> nat {
    if contains_seq(url, "://"@) {
        let rest = url.skip(first_occurrence(url, "://"@) + 3);
        if contains_seq(rest, seq!['/']) {
            count_nonempty(split_on(rest.skip(first_occurrence(rest, seq!['/'])), '/'))
        } else {
            0
        }
    } else {
        0
    }
}

/// Whether one of the words occurs in the URL.
pub open spec fn has_boost_word(url: Seq<char>, words: Seq<Seq<char>>) -> bool {
    exists|i: int| 0 <= i < words.len() && contains_seq(url, #[trigger] words[i])
}

/// The priority of a URL: 10, less one per path segment, less 2 where it
/// has a query (`?`), plus 2 where one of the boost words occurs in it.
pub open spec fn url_priority(url: Seq<char>, words: Seq<Seq<char>>) -> int {
    10 - path_segments(url) - (if contains_seq(url, seq!['?']) {
        2int
    } else {
        0int
    }) + (if has_boost_word(url, words) {
        2int
    } else {
        0int
    })
}

/// The boost: where any one of the words occurs in the URL, wherever it
/// stands in the list, the priority is 2 higher than with no words; where
/// none does, it is the same as with no words.
pub proof fn law_boost_from_any_word(url: Seq<char>, words: Seq<Seq<char>>, i: int)
    ensures
        0 <= i < words.len() && contains_seq(url, words[i]) ==> url_priority(url, words)
            == url_priority(url, Seq::empty()) + 2,
        (forall|j: int| 0 <= j < words.len() ==> !contains_seq(url, #[trigger] words[j]))
            ==> url_priority(url, words) == url_priority(url, Seq::empty()),
{
    if 0 <= i < words.len() && contains_seq(url, words[i]) {
        assert(has_boost_word(url, words));
    }
    assert(!has_boost_word(url, Seq::<Seq<char>>::empty()));
}

/// The priority does not depend on the order of the boost words, nor on
/// repeats: lists with the same words give the same priority.
pub proof fn law_boost_word_order_does_not_matter(url: Seq<char>, ws: Seq<Seq<char>>, vs: Seq<Seq<char>>)
    requires
        forall|i: int| 0 <= i < ws.len() ==> vs.contains(#[trigger] ws[i]),
        forall|j: int| 0 <= j < vs.len() ==> ws.contains(#[trigger] vs[j]),
    ensures
        url_priority(url, ws) == url_priority(url, vs),
{
    if has_boost_word(url, ws) {
        let i = choose|i: int| 0 <= i < ws.len() && contains_seq(url, #[trigger] ws[i]);
        assert(vs.contains(ws[i]));
        let j = choose|j: int| 0 <= j < vs.len() && vs[j] == ws[i];
        assert(has_boost_word(url, vs));
    }
    if has_boost_word(url, vs) {
        let j = choose|j: int| 0 <= j < vs.len() && contains_seq(url, #[trigger] vs[j]);
        assert(ws.contains(vs[j]));
        let i = choose|i: int| 0 <= i < ws.len() && ws[i] == vs[j];
        assert(has_boost_word(url, ws));
    }
}

proof fn lemma_count_nonempty_split_bound(s: Seq<char>, sep: char)
    ensures
        count_nonempty(split_on(s, sep)) <= s.len(),
        split_on(s, sep).len() >= 1,
    decreases s.len(),
{
    if s.len() == 0 {
        let e = seq![Seq::<char>::empty()];
        assert(e.drop_last() =~= Seq::<Seq<char>>::empty());
        assert(e.last().len() == 0);
        assert(count_nonempty(Seq::<Seq<char>>::empty()) == 0);
        assert(count_nonempty(e) == 0);
    } else {
        lemma_count_nonempty_split_bound(s.drop_last(), sep);
        let prev = split_on(s.drop_last(), sep);
        assert(count_nonempty(prev) >= count_nonempty(prev.drop_last()));
        if s.last() == sep {
            let pushed = prev.push(Seq::<char>::empty());
            assert(pushed.drop_last() =~= prev);
            assert(count_nonempty(pushed) == count_nonempty(prev));
        } else {
            let upd = prev.update(prev.len() - 1, prev.last().push(s.last()));
            assert(upd.drop_last() =~= prev.drop_last());
            assert(count_nonempty(upd) == count_nonempty(prev.drop_last()) + 1);
        }
    }
}

/// A URL has no more path segments than characters.
pub proof fn lemma_path_segments_bound(url: Seq<char>)
    ensures
        path_segments(url) <= url.len(),
{
    if contains_seq(url, "://"@) {
        lemma_first_occurrence_exists(url, "://"@);
        let k = first_occurrence(url, "://"@);
        assert(k + "://"@.len() <= url.len());
        let rest = url.skip(k + 3);
        reveal_strlit("://");
        assert(rest.len() <= url.len());
        if contains_seq(rest, seq!['/']) {
            lemma_first_occurrence_exists(rest, seq!['/']);
            let m = first_occurrence(rest, seq!['/']);
            assert(0 <= m <= rest.len());
            lemma_count_nonempty_split_bound(rest.skip(m), '/');
        }
    }
}

fn count_nonempty_pieces(pieces: &Vec<Vec<char>>) -> (res: usize)
    ensures
        res == count_nonempty(pieces_view(pieces@)),
        res <= pieces@.len(),
{
    let ghost ps = pieces_view(pieces@);
    let mut n: usize = 0;
    let mut i: usize = 0;
    assert(ps.take(0) =~= Seq::<Seq<char>>::empty());
    while i < pieces.len()
        invariant
            i <= pieces@.len(),
            ps == pieces_view(pieces@),
            n == count_nonempty(ps.take(i as int)),
            n <= i,
        decreases pieces@.len() - i,
    {
        assert(ps.take(i + 1).drop_last() =~= ps.take(i as int));
        assert(ps[i as int] == pieces@[i as int]@);
        if pieces[i].len() > 0 {
            n = n + 1;
        }
        i = i + 1;
    }
    assert(ps.take(pieces@.len() as int) =~= ps);
    n
}

fn count_path_segments(u: &Vec<char>) -> (res: usize)
    ensures
        res == path_segments(u@),
{
    let sep = chars_of("://");
    let slash = chars_of("/");
    proof {
        reveal_strlit("://");
        assert(sep@.len() == 3);
        reveal_strlit("/");
        assert(slash@ =~= seq!['/']);
    }
    match find_seq(u.as_slice(), sep.as_slice()) {
        None => 0,
        Some(p) => {
            proof {
                reveal_strlit("://");
                lemma_first_occurrence(u@, "://"@, p as int);
            }
            assert(occurs_at(u@, sep@, p as int));
            assert(p + 3 <= u.len());
            let rest = slice_chars(u.as_slice(), p + 3, u.len());
            assert(rest@ =~= u@.skip(p + 3));
            match find_seq(rest.as_slice(), slash.as_slice()) {
                None => 0,
                Some(q) => {
                    proof {
                        lemma_first_occurrence(rest@, seq!['/'], q as int);
                    }
                    let tail = slice_chars(rest.as_slice(), q, rest.len());
                    assert(tail@ =~= rest@.skip(q as int));
                    let pieces = split_chars(tail.as_slice(), '/');
                    count_nonempty_pieces(&pieces)
                },
            }
        },
    }
}

/// The priority of a discovered link (see `url_priority`).
pub fn calculate_priority(url: &str, boost_words: &[String]) -> (res: i32)
    requires
        url@.len() <= i32::MAX,
    ensures
        res == url_priority(url@, boost_words@.map_values(|w: String| w@)),
{
    let u = chars_of(url);
    let segments = count_path_segments(&u);
    proof {
        lemma_path_segments_bound(url@);
    }
    let mut priority: i32 = 10 - segments as i32;
    let q = chars_of("?");
    proof {
        reveal_strlit("?");
        assert(q@ =~= seq!['?']);
    }
    if contains_chars(u.as_slice(), q.as_slice()) {
        priority = priority - 2;
    }
    let ghost words = boost_words@.map_values(|w: String| w@);
    let mut i: usize = 0;
    let mut boosted = false;
    while i < boost_words.len() && !boosted
        invariant
            i <= boost_words@.len(),
            words == boost_words@.map_values(|w: String| w@),
            u@ == url@,
            boosted ==> has_boost_word(url@, words),
            !boosted ==> forall|j: int| 0 <= j < i ==> !contains_seq(url@, #[trigger] words[j]),
        decreases boost_words@.len() - i,
    {
        let w = chars_of(boost_words[i].as_str());
        if contains_chars(u.as_slice(), w.as_slice()) {
            assert(words[i as int] == w@);
            boosted = true;
        }
        i = i + 1;
    }
    if boosted {
        priority = priority + 2;
    } else {
        assert(!has_boost_word(url@, words));
    }
    priority
}

} // verus!
