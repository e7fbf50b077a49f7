//! Stable ordering of prioritized URLs by priority, lowest first.

use vstd::prelude::*;
use crate::common::PrioritizedUrl;

verus! {

/// Whether the URLs are ordered by priority, lowest first.
pub open spec fn priority_sorted(s: Seq<PrioritizedUrl>) -> bool {
    forall|i: int, j: int| 0 <= i < j < s.len() ==> s[i].priority <= s[j].priority
}

/// The URLs of `s` that have priority `p`, in their order in `s`.
pub open spec fn with_priority(s: Seq<PrioritizedUrl>, p: i32) -> Seq<PrioritizedUrl>
    decreases s.len(),
{
    if s.len() == 0 {
        Seq::empty()
    } else if s.last().priority == p {
        with_priority(s.drop_last(), p).push(s.last())
    } else {
        with_priority(s.drop_last(), p)
    }
}

/// `output` is `input` stably sorted by priority (what `sort_by_key` on the
/// priority gives): ordered by priority, and for each priority the URLs that
/// have it stand in the order they had in `input`.
pub open spec fn is_stable_sort(input: Seq<PrioritizedUrl>, output: Seq<PrioritizedUrl>) -> bool {
    &&& priority_sorted(output)
    &&& forall|p: i32| #[trigger] with_priority(output, p) == with_priority(input, p)
}

pub proof fn lemma_with_priority_concat(a: Seq<PrioritizedUrl>, b: Seq<PrioritizedUrl>, p: i32)
    ensures
        with_priority(a + b, p) == with_priority(a, p) + with_priority(b, p),
    decreases b.len(),
{
    if b.len() == 0 {
        assert(a + b =~= a);
        assert(with_priority(a, p) + with_priority(b, p) =~= with_priority(a, p));
    } else {
        assert((a + b).drop_last() =~= a + b.drop_last());
        assert((a + b).last() == b.last());
        lemma_with_priority_concat(a, b.drop_last(), p);
        if b.last().priority == p {
            assert(with_priority(a, p) + with_priority(b.drop_last(), p).push(b.last()) =~= (
            with_priority(a, p) + with_priority(b.drop_last(), p)).push(b.last()));
        }
    }
}

pub proof fn lemma_with_priority_absent(s: Seq<PrioritizedUrl>, p: i32)
    requires
        forall|i: int| 0 <= i < s.len() ==> s[i].priority != p,
    ensures
        with_priority(s, p) == Seq::<PrioritizedUrl>::empty(),
    decreases s.len(),
{
    if s.len() > 0 {
        lemma_with_priority_absent(s.drop_last(), p);
    }
}

/// Every URL of `with_priority(s, p)` is a URL of `s` with priority `p`.
pub proof fn lemma_with_priority_members(s: Seq<PrioritizedUrl>, p: i32)
    ensures
        forall|k: int|
            0 <= k < with_priority(s, p).len() ==> s.contains(#[trigger] with_priority(s, p)[k])
                && with_priority(s, p)[k].priority == p,
    decreases s.len(),
{
    if s.len() > 0 {
        lemma_with_priority_members(s.drop_last(), p);
        let w = with_priority(s, p);
        assert forall|k: int| 0 <= k < w.len() implies s.contains(#[trigger] w[k]) && w[k].priority
            == p by {
            if s.last().priority == p && k == w.len() - 1 {
                assert(s[s.len() - 1] == w[k]);
            } else {
                let x = with_priority(s.drop_last(), p)[k];
                assert(s.drop_last().contains(x));
                let j = choose|j: int| 0 <= j < s.drop_last().len() && s.drop_last()[j] == x;
                assert(s[j] == x);
            }
        }
    }
}

/// The number of times a URL occurs in `s` is the number of times it occurs
/// among the URLs of its own priority.
pub proof fn lemma_with_priority_count(s: Seq<PrioritizedUrl>, x: PrioritizedUrl)
    ensures
        s.to_multiset().count(x) == with_priority(s, x.priority).to_multiset().count(x),
    decreases s.len(),
{
    broadcast use vstd::seq_lib::group_seq_properties;
    broadcast use vstd::multiset::group_multiset_axioms;
    if s.len() > 0 {
        lemma_with_priority_count(s.drop_last(), x);
        assert(s =~= s.drop_last().push(s.last()));
    }
}

/// A stable sort keeps each URL as many times as it was there.
pub proof fn lemma_stable_sort_same_multiset(input: Seq<PrioritizedUrl>, output: Seq<PrioritizedUrl>)
    requires
        is_stable_sort(input, output),
    ensures
        input.to_multiset() == output.to_multiset(),
{
    assert forall|x: PrioritizedUrl| #[trigger]
        input.to_multiset().count(x) == output.to_multiset().count(x) by {
        lemma_with_priority_count(input, x);
        lemma_with_priority_count(output, x);
        assert(with_priority(output, x.priority) == with_priority(input, x.priority));
    }
    assert(input.to_multiset() =~= output.to_multiset());
}

proof fn lemma_insert_keeps_priorities(
    s: Seq<PrioritizedUrl>,
    k: int,
    x: PrioritizedUrl,
    p: i32,
)
    requires
        0 <= k <= s.len(),
        forall|j: int| 0 <= j < k ==> s[j].priority <= x.priority,
        forall|j: int| k <= j < s.len() ==> s[j].priority > x.priority,
    ensures
        with_priority(s.insert(k, x), p) == if p == x.priority {
            with_priority(s, p).push(x)
        } else {
            with_priority(s, p)
        },
{
    let a = s.take(k);
    let b = s.skip(k);
    assert(s.insert(k, x) =~= a + seq![x] + b);
    assert(s =~= a + b);
    lemma_with_priority_concat(a + seq![x], b, p);
    lemma_with_priority_concat(a, seq![x], p);
    lemma_with_priority_concat(a, b, p);
    let one = seq![x];
    assert(one.drop_last() =~= Seq::<PrioritizedUrl>::empty());
    assert(one.last() == x);
    let e = Seq::<PrioritizedUrl>::empty();
    assert(with_priority(e, p) == e);
    let wa = with_priority(a, p);
    let wb = with_priority(b, p);
    if p == x.priority {
        assert(with_priority(one, p) == e.push(x));
        assert forall|i: int| 0 <= i < b.len() implies b[i].priority != p by {
            assert(b[i] == s[k + i]);
        }
        lemma_with_priority_absent(b, p);
        assert(with_priority(s.insert(k, x), p) == wa + e.push(x) + e);
        assert(with_priority(s, p) == wa + e);
        assert(wa + e.push(x) + e =~= (wa + e).push(x));
    } else {
        assert(with_priority(one, p) == e);
        assert(with_priority(s.insert(k, x), p) == wa + e + wb);
        assert(wa + e + wb =~= wa + wb);
    }
}

/// Orders URLs by priority, lowest first, keeping the order of URLs of equal
/// priority (a stable sort).
pub fn sort_by_priority(v: Vec<PrioritizedUrl>) -> (res: Vec<PrioritizedUrl>)
    ensures
        is_stable_sort(v@, res@),
{
    let ghost input = v@;
    let mut rest = v;
    let mut out: Vec<PrioritizedUrl> = Vec::new();
    let ghost mut done: int = 0;
    assert(input.take(0) =~= Seq::<PrioritizedUrl>::empty());
    assert(input.skip(0) =~= input);
    while rest.len() > 0
        invariant
            0 <= done <= input.len(),
            rest@ == input.skip(done),
            is_stable_sort(input.take(done), out@),
        decreases rest@.len(),
    {
        let x = rest.remove(0);
        let mut k: usize = 0;
        while k < out.len() && out[k].priority <= x.priority
            invariant
                k <= out@.len(),
                forall|j: int| 0 <= j < k ==> out@[j].priority <= x.priority,
            decreases out@.len() - k,
        {
            k = k + 1;
        }
        let ghost before = out@;
        proof {
            assert forall|j: int| k <= j < before.len() implies before[j].priority > x.priority by {
                assert(before[k as int].priority > x.priority);
                assert(priority_sorted(before));
                if j > k {
                    assert(before[k as int].priority <= before[j].priority);
                }
            }
        }
        out.insert(k, x);
        proof {
            assert(x == input[done]);
            assert(input.take(done + 1).drop_last() =~= input.take(done));
            assert(input.take(done + 1).last() == x);
            assert forall|p: i32| #[trigger] with_priority(out@, p) == with_priority(
                input.take(done + 1),
                p,
            ) by {
                lemma_insert_keeps_priorities(before, k as int, x, p);
            }
            assert forall|i: int, j: int| 0 <= i < j < out@.len() implies out@[i].priority
                <= out@[j].priority by {
                if j < k {
                } else if j == k {
                } else if i < k {
                } else if i == k {
                } else {
                    assert(out@[i] == before[i - 1]);
                    assert(out@[j] == before[j - 1]);
                }
            }
            done = done + 1;
            assert(rest@ =~= input.skip(done));
        }
    }
    assert(input.take(done) =~= input);
    out
}

} // verus!
