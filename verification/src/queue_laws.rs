//! What every operation on the queues keeps: each URL waits in the queue of
//! its priority, no URL waits twice, and each queue is ordered by priority;
//! and that offering URLs loses none and never lowers a priority.

use vstd::prelude::*;
use vstd::multiset::Multiset;
use crate::common::PrioritizedUrl;
use crate::domain_crawler::{bucket_of, chosen_bucket, insert_all, insert_url, find_in_queues,
    href_at, lemma_find_href, queues_sorted_from, PriorityBucket, Queues};
use crate::queue_sort::{is_stable_sort, lemma_stable_sort_same_multiset, priority_sorted};

verus! {

/// Each URL waits in the queue of its priority, and no two waiting URLs have
/// the same serialization.
pub open spec fn queues_consistent(qs: Queues) -> bool {
    &&& forall|b: PriorityBucket, i: int|
        0 <= i < qs.get(b).len() ==> bucket_of(#[trigger] qs.get(b)[i].priority) == b
    &&& forall|b1: PriorityBucket, b2: PriorityBucket, i: int, j: int|
        0 <= i < qs.get(b1).len() && 0 <= j < qs.get(b2).len() && (b1 != b2 || i != j)
            ==> #[trigger] qs.get(b1)[i].url.href@ != #[trigger] qs.get(b2)[j].url.href@
}

/// The queues are consistent and each is ordered by priority, lowest first.
pub open spec fn queues_wf(qs: Queues) -> bool {
    &&& queues_consistent(qs)
    &&& priority_sorted(qs.high)
    &&& priority_sorted(qs.medium)
    &&& priority_sorted(qs.low)
}

/// A URL with the serialization `href` waits with priority `p` or higher.
pub open spec fn holds_at_least(qs: Queues, href: Seq<char>, p: i32) -> bool {
    exists|b: PriorityBucket, i: int|
        0 <= i < qs.get(b).len() && #[trigger] qs.get(b)[i].url.href@ == href && qs.get(b)[i].priority
            >= p
}

/// All the URLs that wait, as a multiset.
pub open spec fn all_urls(qs: Queues) -> Multiset<PrioritizedUrl> {
    qs.high.to_multiset().add(qs.medium.to_multiset()).add(qs.low.to_multiset())
}

proof fn lemma_get_set(qs: Queues, b: PriorityBucket, q: Seq<PrioritizedUrl>, c: PriorityBucket)
    ensures
        qs.set(b, q).get(c) == if b == c {
            q
        } else {
            qs.get(c)
        },
{
}

proof fn lemma_all_buckets(b: PriorityBucket)
    ensures
        b == PriorityBucket::High || b == PriorityBucket::Medium || b == PriorityBucket::Low,
{
}

/// Under consistency, a URL with the serialization of the one at `(b, pos)`
/// waits nowhere else.
proof fn lemma_only_position(qs: Queues, b: PriorityBucket, pos: int, c: PriorityBucket, j: int)
    requires
        queues_consistent(qs),
        0 <= pos < qs.get(b).len(),
        0 <= j < qs.get(c).len(),
        qs.get(c)[j].url.href@ == qs.get(b)[pos].url.href@,
    ensures
        c == b && j == pos,
{
    if c != b || j != pos {
        assert(qs.get(b)[pos].url.href@ != qs.get(c)[j].url.href@);
    }
}

proof fn lemma_not_found(qs: Queues, href: Seq<char>)
    requires
        find_in_queues(qs, href) is None,
    ensures
        forall|c: PriorityBucket, j: int|
            0 <= j < qs.get(c).len() ==> #[trigger] qs.get(c)[j].url.href@ != href,
{
    lemma_find_href(qs.high, href);
    lemma_find_href(qs.medium, href);
    lemma_find_href(qs.low, href);
    assert forall|c: PriorityBucket, j: int| 0 <= j < qs.get(c).len() implies #[trigger] qs.get(
        c,
    )[j].url.href@ != href by {
        assert(!href_at(qs.get(c), href, j));
    }
}

proof fn lemma_found(qs: Queues, href: Seq<char>)
    requires
        find_in_queues(qs, href) is Some,
    ensures
        ({
            let (b, pos) = find_in_queues(qs, href)->0;
            0 <= pos < qs.get(b).len() && qs.get(b)[pos].url.href@ == href
        }),
{
    lemma_find_href(qs.high, href);
    lemma_find_href(qs.medium, href);
    lemma_find_href(qs.low, href);
}

/// Pushing a URL whose serialization waits nowhere onto the queue of its
/// priority keeps the queues consistent.
proof fn lemma_push_fresh(qs: Queues, u: PrioritizedUrl)
    requires
        queues_consistent(qs),
        forall|c: PriorityBucket, j: int|
            0 <= j < qs.get(c).len() ==> #[trigger] qs.get(c)[j].url.href@ != u.url.href@,
    ensures
        queues_consistent(qs.set(bucket_of(u.priority), qs.get(bucket_of(u.priority)).push(u))),
{
    let nb = bucket_of(u.priority);
    let r = qs.set(nb, qs.get(nb).push(u));
    assert forall|b: PriorityBucket, i: int| 0 <= i < r.get(b).len() implies bucket_of(
        #[trigger] r.get(b)[i].priority,
    ) == b by {
        lemma_get_set(qs, nb, qs.get(nb).push(u), b);
        if b == nb && i == qs.get(nb).len() {
        } else {
            assert(r.get(b)[i] == qs.get(b)[i]);
        }
    }
    assert forall|b1: PriorityBucket, b2: PriorityBucket, i: int, j: int|
        0 <= i < r.get(b1).len() && 0 <= j < r.get(b2).len() && (b1 != b2 || i != j) implies #[trigger] r.get(
        b1,
    )[i].url.href@ != #[trigger] r.get(b2)[j].url.href@ by {
        lemma_get_set(qs, nb, qs.get(nb).push(u), b1);
        lemma_get_set(qs, nb, qs.get(nb).push(u), b2);
        let new1 = b1 == nb && i == qs.get(nb).len();
        let new2 = b2 == nb && j == qs.get(nb).len();
        if new1 && new2 {
        } else if new1 {
            assert(r.get(b2)[j] == qs.get(b2)[j]);
        } else if new2 {
            assert(r.get(b1)[i] == qs.get(b1)[i]);
        } else {
            assert(r.get(b1)[i] == qs.get(b1)[i]);
            assert(r.get(b2)[j] == qs.get(b2)[j]);
        }
    }
}

/// Taking one URL out keeps the queues consistent, and afterwards no URL
/// with its serialization waits.
proof fn lemma_remove_one(qs: Queues, b: PriorityBucket, pos: int)
    requires
        queues_consistent(qs),
        0 <= pos < qs.get(b).len(),
    ensures
        queues_consistent(qs.set(b, qs.get(b).remove(pos))),
        forall|c: PriorityBucket, j: int|
            0 <= j < qs.set(b, qs.get(b).remove(pos)).get(c).len() ==> #[trigger] qs.set(
                b,
                qs.get(b).remove(pos),
            ).get(c)[j].url.href@ != qs.get(b)[pos].url.href@,
{
    let q = qs.get(b).remove(pos);
    let r = qs.set(b, q);
    let h = qs.get(b)[pos].url.href@;
    // Position of a URL of `r` in `qs`.
    assert forall|c: PriorityBucket, j: int| 0 <= j < r.get(c).len() implies #[trigger] r.get(
        c,
    )[j] == qs.get(c)[if c == b && j >= pos {
        j + 1
    } else {
        j
    }] by {
        lemma_get_set(qs, b, q, c);
    }
    assert forall|c: PriorityBucket, j: int| 0 <= j < r.get(c).len() implies #[trigger] r.get(
        c,
    )[j].url.href@ != h by {
        lemma_get_set(qs, b, q, c);
        let jj = if c == b && j >= pos {
            j + 1
        } else {
            j
        };
        assert(r.get(c)[j] == qs.get(c)[jj]);
        if qs.get(c)[jj].url.href@ == h {
            lemma_only_position(qs, b, pos, c, jj);
        }
    }
    assert forall|c: PriorityBucket, i: int| 0 <= i < r.get(c).len() implies bucket_of(
        #[trigger] r.get(c)[i].priority,
    ) == c by {
        lemma_get_set(qs, b, q, c);
        let ii = if c == b && i >= pos {
            i + 1
        } else {
            i
        };
        assert(r.get(c)[i] == qs.get(c)[ii]);
    }
    assert forall|b1: PriorityBucket, b2: PriorityBucket, i: int, j: int|
        0 <= i < r.get(b1).len() && 0 <= j < r.get(b2).len() && (b1 != b2 || i != j) implies #[trigger] r.get(
        b1,
    )[i].url.href@ != #[trigger] r.get(b2)[j].url.href@ by {
        lemma_get_set(qs, b, q, b1);
        lemma_get_set(qs, b, q, b2);
        let ii = if b1 == b && i >= pos {
            i + 1
        } else {
            i
        };
        let jj = if b2 == b && j >= pos {
            j + 1
        } else {
            j
        };
        assert(r.get(b1)[i] == qs.get(b1)[ii]);
        assert(r.get(b2)[j] == qs.get(b2)[jj]);
        assert(qs.get(b1)[ii].url.href@ != qs.get(b2)[jj].url.href@);
    }
}

/// Offering a URL keeps the queues consistent.
pub proof fn lemma_insert_url_consistent(qs: Queues, u: PrioritizedUrl)
    requires
        queues_consistent(qs),
    ensures
        queues_consistent(insert_url(qs, u)),
{
    let nb = bucket_of(u.priority);
    match find_in_queues(qs, u.url.href@) {
        Some((b, pos)) => {
            lemma_found(qs, u.url.href@);
            if u.priority > qs.get(b)[pos].priority {
                lemma_remove_one(qs, b, pos);
                lemma_push_fresh(qs.set(b, qs.get(b).remove(pos)), u);
            }
        },
        None => {
            lemma_not_found(qs, u.url.href@);
            lemma_push_fresh(qs, u);
        },
    }
}

/// Offering URLs one after the other keeps the queues consistent.
pub proof fn lemma_insert_all_consistent(qs: Queues, us: Seq<PrioritizedUrl>)
    requires
        queues_consistent(qs),
    ensures
        queues_consistent(insert_all(qs, us)),
    decreases us.len(),
{
    if us.len() > 0 {
        lemma_insert_all_consistent(qs, us.drop_last());
        lemma_insert_url_consistent(insert_all(qs, us.drop_last()), us.last());
    }
}

/// A URL of a stable sort's output stands somewhere in its input; where the
/// input has no URL twice, neither has the output.
proof fn lemma_sorted_members(input: Seq<PrioritizedUrl>, output: Seq<PrioritizedUrl>)
    requires
        is_stable_sort(input, output),
    ensures
        forall|k: int| 0 <= k < output.len() ==> input.contains(#[trigger] output[k]),
        input.no_duplicates() ==> output.no_duplicates(),
{
    broadcast use vstd::seq_lib::group_to_multiset_ensures;
    lemma_stable_sort_same_multiset(input, output);
    assert forall|k: int| 0 <= k < output.len() implies input.contains(#[trigger] output[k]) by {
        assert(output.to_multiset().count(output[k]) > 0);
    }
    if input.no_duplicates() {
        input.lemma_multiset_has_no_duplicates();
        output.lemma_multiset_has_no_duplicates_conv();
    }
}

proof fn lemma_hrefs_distinct_no_duplicates(qs: Queues, b: PriorityBucket)
    requires
        queues_consistent(qs),
    ensures
        qs.get(b).no_duplicates(),
{
    let q = qs.get(b);
    assert forall|i: int, j: int| 0 <= i < q.len() && 0 <= j < q.len() && i != j implies q[i]
        != q[j] by {
        assert(qs.get(b)[i].url.href@ != qs.get(b)[j].url.href@);
    }
}

/// Sorting consistent queues gives well-formed queues.
pub proof fn lemma_sorted_queues_wf(before: Queues, after: Queues)
    requires
        queues_consistent(before),
        queues_sorted_from(before, after),
    ensures
        queues_wf(after),
        forall|h: Seq<char>, p: i32| holds_at_least(before, h, p) ==> holds_at_least(after, h, p),
{
    assert forall|b: PriorityBucket| #[trigger] is_stable_sort(before.get(b), after.get(b)) by {
        lemma_all_buckets(b);
    }
    assert forall|b: PriorityBucket, k: int| 0 <= k < after.get(b).len() implies #[trigger] before.get(
        b,
    ).contains(after.get(b)[k]) by {
        lemma_sorted_members(before.get(b), after.get(b));
    }
    assert forall|b: PriorityBucket| #[trigger] after.get(b).no_duplicates() by {
        lemma_hrefs_distinct_no_duplicates(before, b);
        lemma_sorted_members(before.get(b), after.get(b));
    }
    assert forall|b: PriorityBucket, i: int| 0 <= i < after.get(b).len() implies bucket_of(
        #[trigger] after.get(b)[i].priority,
    ) == b by {
        assert(before.get(b).contains(after.get(b)[i]));
        let k = choose|k: int| 0 <= k < before.get(b).len() && before.get(b)[k] == after.get(b)[i];
        assert(bucket_of(before.get(b)[k].priority) == b);
    }
    assert forall|b1: PriorityBucket, b2: PriorityBucket, i: int, j: int|
        0 <= i < after.get(b1).len() && 0 <= j < after.get(b2).len() && (b1 != b2 || i != j) implies #[trigger] after.get(
        b1,
    )[i].url.href@ != #[trigger] after.get(b2)[j].url.href@ by {
        let x = after.get(b1)[i];
        let y = after.get(b2)[j];
        assert(before.get(b1).contains(x));
        assert(before.get(b2).contains(y));
        let ki = choose|k: int| 0 <= k < before.get(b1).len() && before.get(b1)[k] == x;
        let kj = choose|k: int| 0 <= k < before.get(b2).len() && before.get(b2)[k] == y;
        if b1 == b2 {
            assert(after.get(b1).no_duplicates());
            assert(x != y);
        }
        assert(before.get(b1)[ki].url.href@ != before.get(b2)[kj].url.href@);
    }
    assert forall|h: Seq<char>, p: i32| holds_at_least(before, h, p) implies holds_at_least(
        after,
        h,
        p,
    ) by {
        let (b, i) = choose|b: PriorityBucket, i: int|
            0 <= i < before.get(b).len() && #[trigger] before.get(b)[i].url.href@ == h
                && before.get(b)[i].priority >= p;
        lemma_stable_sort_same_multiset(before.get(b), after.get(b));
        broadcast use vstd::seq_lib::group_to_multiset_ensures;
        let x = before.get(b)[i];
        assert(before.get(b).to_multiset().count(x) > 0);
        assert(after.get(b).contains(x));
        let k = choose|k: int| 0 <= k < after.get(b).len() && after.get(b)[k] == x;
        assert(after.get(b)[k].url.href@ == h);
    }
    assert(is_stable_sort(before.high, after.high));
    assert(is_stable_sort(before.medium, after.medium));
    assert(is_stable_sort(before.low, after.low));
}

/// Sorting keeps every URL that waited; sorting consistent queues gives
/// well-formed queues.
pub proof fn lemma_sorted_queues_wf_or_holds(before: Queues, after: Queues)
    requires
        queues_sorted_from(before, after),
    ensures
        queues_consistent(before) ==> queues_wf(after),
        forall|h: Seq<char>, p: i32| holds_at_least(before, h, p) ==> holds_at_least(after, h, p),
{
    if queues_consistent(before) {
        lemma_sorted_queues_wf(before, after);
    }
    assert forall|h: Seq<char>, p: i32| holds_at_least(before, h, p) implies holds_at_least(
        after,
        h,
        p,
    ) by {
        let (b, i) = choose|b: PriorityBucket, i: int|
            0 <= i < before.get(b).len() && #[trigger] before.get(b)[i].url.href@ == h
                && before.get(b)[i].priority >= p;
        lemma_all_buckets(b);
        assert(is_stable_sort(before.get(b), after.get(b)));
        lemma_sorted_members_back(before.get(b), after.get(b));
        let x = before.get(b)[i];
        assert(after.get(b).contains(x));
        let k = choose|k: int| 0 <= k < after.get(b).len() && after.get(b)[k] == x;
        assert(after.get(b)[k].url.href@ == h);
    }
}

proof fn lemma_sorted_members_back(input: Seq<PrioritizedUrl>, output: Seq<PrioritizedUrl>)
    requires
        is_stable_sort(input, output),
    ensures
        forall|k: int| 0 <= k < input.len() ==> output.contains(#[trigger] input[k]),
{
    broadcast use vstd::seq_lib::group_to_multiset_ensures;
    lemma_stable_sort_same_multiset(input, output);
    assert forall|k: int| 0 <= k < input.len() implies output.contains(#[trigger] input[k]) by {
        assert(input.to_multiset().count(input[k]) > 0);
    }
}

/// Offering a URL keeps every URL that waited, with its priority or a higher
/// one, and afterwards the offered URL waits with its priority or a higher one.
pub proof fn lemma_insert_url_holds(qs: Queues, u: PrioritizedUrl)
    ensures
        holds_at_least(insert_url(qs, u), u.url.href@, u.priority),
        forall|h: Seq<char>, p: i32|
            holds_at_least(qs, h, p) ==> holds_at_least(insert_url(qs, u), h, p),
{
    let nb = bucket_of(u.priority);
    let r = insert_url(qs, u);
    match find_in_queues(qs, u.url.href@) {
        Some((b, pos)) => {
            lemma_found(qs, u.url.href@);
            if u.priority > qs.get(b)[pos].priority {
                let removed = qs.set(b, qs.get(b).remove(pos));
                lemma_get_set(removed, nb, removed.get(nb).push(u), nb);
                let top = removed.get(nb).len() as int;
                assert(r.get(nb)[top] == u);
                assert forall|h: Seq<char>, p: i32| holds_at_least(qs, h, p) implies holds_at_least(
                    r,
                    h,
                    p,
                ) by {
                    let (c, j) = choose|c: PriorityBucket, j: int|
                        0 <= j < qs.get(c).len() && #[trigger] qs.get(c)[j].url.href@ == h
                            && qs.get(c)[j].priority >= p;
                    if c == b && j == pos {
                        assert(r.get(nb)[top].url.href@ == h);
                    } else {
                        lemma_get_set(qs, b, qs.get(b).remove(pos), c);
                        lemma_get_set(removed, nb, removed.get(nb).push(u), c);
                        let jj = if c == b && j > pos {
                            j - 1
                        } else {
                            j
                        };
                        assert(removed.get(c)[jj] == qs.get(c)[j]);
                        assert(r.get(c)[jj] == removed.get(c)[jj]);
                        assert(r.get(c)[jj].url.href@ == h);
                    }
                }
                assert(r.get(nb)[top].url.href@ == u.url.href@);
            } else {
                assert(qs.get(b)[pos].url.href@ == u.url.href@);
            }
        },
        None => {
            lemma_get_set(qs, nb, qs.get(nb).push(u), nb);
            let top = qs.get(nb).len() as int;
            assert(r.get(nb)[top] == u);
            assert(r.get(nb)[top].url.href@ == u.url.href@);
            assert forall|h: Seq<char>, p: i32| holds_at_least(qs, h, p) implies holds_at_least(
                r,
                h,
                p,
            ) by {
                let (c, j) = choose|c: PriorityBucket, j: int|
                    0 <= j < qs.get(c).len() && #[trigger] qs.get(c)[j].url.href@ == h
                        && qs.get(c)[j].priority >= p;
                lemma_get_set(qs, nb, qs.get(nb).push(u), c);
                assert(r.get(c)[j] == qs.get(c)[j]);
                assert(r.get(c)[j].url.href@ == h);
            }
        },
    }
}

/// Offering URLs one after the other keeps every URL that waited, with its
/// priority or a higher one, and afterwards each offered URL waits with its
/// priority or a higher one.
pub proof fn lemma_insert_all_holds(qs: Queues, us: Seq<PrioritizedUrl>)
    ensures
        forall|k: int|
            0 <= k < us.len() ==> holds_at_least(
                insert_all(qs, us),
                #[trigger] us[k].url.href@,
                us[k].priority,
            ),
        forall|h: Seq<char>, p: i32|
            holds_at_least(qs, h, p) ==> holds_at_least(insert_all(qs, us), h, p),
    decreases us.len(),
{
    if us.len() > 0 {
        let prev = insert_all(qs, us.drop_last());
        lemma_insert_all_holds(qs, us.drop_last());
        lemma_insert_url_holds(prev, us.last());
        assert forall|k: int| 0 <= k < us.len() implies holds_at_least(
            insert_all(qs, us),
            #[trigger] us[k].url.href@,
            us[k].priority,
        ) by {
            if k < us.len() - 1 {
                assert(us.drop_last()[k] == us[k]);
            }
        }
    }
}

} // verus!

verus! {

/// Taking the last URL of a queue out: the URLs that wait afterwards, with
/// the one taken out, are those that waited before.
pub proof fn lemma_take_last_multiset(qs: Queues, b: PriorityBucket)
    requires
        qs.get(b).len() > 0,
    ensures
        all_urls(qs) == all_urls(qs.set(b, qs.get(b).drop_last())).insert(qs.get(b).last()),
{
    broadcast use vstd::seq_lib::group_to_multiset_ensures;
    broadcast use vstd::multiset::group_multiset_axioms;
    let q = qs.get(b);
    assert(q =~= q.drop_last().push(q.last()));
    let r = qs.set(b, q.drop_last());
    lemma_all_buckets(b);
    assert(all_urls(qs) =~= all_urls(r).insert(q.last()));
}

/// Taking the last URL of a queue out keeps well-formed queues well formed;
/// in a well-formed queue the last URL has the highest priority.
pub proof fn lemma_take_last_wf(qs: Queues, b: PriorityBucket)
    requires
        queues_wf(qs),
        qs.get(b).len() > 0,
    ensures
        queues_wf(qs.set(b, qs.get(b).drop_last())),
        forall|i: int|
            0 <= i < qs.get(b).len() ==> #[trigger] qs.get(b)[i].priority <= qs.get(b).last().priority,
{
    let q = qs.get(b);
    let r = qs.set(b, q.drop_last());
    lemma_all_buckets(b);
    assert forall|c: PriorityBucket, j: int| 0 <= j < r.get(c).len() implies #[trigger] r.get(c)[j]
        == qs.get(c)[j] by {
        lemma_get_set(qs, b, q.drop_last(), c);
    }
    assert forall|c: PriorityBucket, i: int| 0 <= i < r.get(c).len() implies bucket_of(
        #[trigger] r.get(c)[i].priority,
    ) == c by {
        assert(r.get(c)[i] == qs.get(c)[i]);
    }
    assert forall|b1: PriorityBucket, b2: PriorityBucket, i: int, j: int|
        0 <= i < r.get(b1).len() && 0 <= j < r.get(b2).len() && (b1 != b2 || i != j) implies #[trigger] r.get(
        b1,
    )[i].url.href@ != #[trigger] r.get(b2)[j].url.href@ by {
        lemma_get_set(qs, b, q.drop_last(), b1);
        lemma_get_set(qs, b, q.drop_last(), b2);
        assert(r.get(b1)[i] == qs.get(b1)[i]);
        assert(r.get(b2)[j] == qs.get(b2)[j]);
    }
    assert(priority_sorted(q));
    assert forall|i: int| 0 <= i < q.len() implies #[trigger] q[i].priority <= q.last().priority by {
        if i < q.len() - 1 {
            assert(q[i].priority <= q[q.len() - 1].priority);
        }
    }
}

} // verus!

verus! {

/// The weighted lottery over the queues: on a roll below 70 the high queue
/// is served first, then the medium one, then the low one; on 70 to 89 the
/// medium one, then the high one, then the low one; on 90 and above the low
/// one, then the high one, then the medium one. A queue is passed over only
/// when it is empty.
pub proof fn law_lottery_order(qs: Queues, roll: u32)
    ensures
        roll < 70 ==> chosen_bucket(qs, roll) == (if qs.high.len() > 0 {
            PriorityBucket::High
        } else if qs.medium.len() > 0 {
            PriorityBucket::Medium
        } else {
            PriorityBucket::Low
        }),
        70 <= roll < 90 ==> chosen_bucket(qs, roll) == (if qs.medium.len() > 0 {
            PriorityBucket::Medium
        } else if qs.high.len() > 0 {
            PriorityBucket::High
        } else {
            PriorityBucket::Low
        }),
        90 <= roll ==> chosen_bucket(qs, roll) == (if qs.low.len() > 0 {
            PriorityBucket::Low
        } else if qs.high.len() > 0 {
            PriorityBucket::High
        } else {
            PriorityBucket::Medium
        }),
{
}

/// On a roll below 90, or on any roll where the low queue is empty, a URL
/// of low priority is taken only when the high and medium queues are both
/// empty: where either of them holds a URL, the URL taken has priority 5 or
/// more.
pub proof fn law_medium_served_before_low(qs: Queues, roll: u32)
    requires
        queues_consistent(qs),
        roll < 90 || qs.low.len() == 0,
        qs.medium.len() > 0 || qs.high.len() > 0,
    ensures
        chosen_bucket(qs, roll) != PriorityBucket::Low,
        qs.get(chosen_bucket(qs, roll)).len() > 0,
        qs.get(chosen_bucket(qs, roll)).last().priority >= 5,
{
    law_lottery_order(qs, roll);
    let b = chosen_bucket(qs, roll);
    let q = qs.get(b);
    assert(bucket_of(qs.get(b)[q.len() - 1].priority) == b);
}

} // verus!
