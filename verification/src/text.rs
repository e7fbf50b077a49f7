//! Character-level helpers on strings, with contracts over `Seq<char>`.

use vstd::prelude::*;

verus! {

/// Appends one character to a `String` (`String::push`).
#[verifier::external_body]
fn push_char(s: &mut String, c: char)
    ensures
        final(s)@ == old(s)@.push(c),
{
    s.push(c);
}

/// The characters of a string, in order.
pub fn chars_of(s: &str) -> (res: Vec<char>)
    ensures
        res@ == s@,
{
    let mut res: Vec<char> = Vec::new();
    for c in it: s.chars()
        invariant
            it.seq() == s@,
            res@ == it.seq().take(it.index()),
    {
        res.push(c);
    }
    res
}

/// A string made of the given characters.
pub fn string_from(cs: &[char]) -> (res: String)
    ensures
        res@ == cs@,
{
    let mut res = String::new();
    let mut i: usize = 0;
    while i < cs.len()
        invariant
            i <= cs@.len(),
            res@ == cs@.take(i as int),
        decreases cs@.len() - i,
    {
        push_char(&mut res, cs[i]);
        assert(cs@.take(i + 1) == cs@.take(i as int).push(cs@[i as int]));
        i = i + 1;
    }
    assert(cs@.take(cs@.len() as int) == cs@);
    res
}

} // verus!

verus! {

/// The Unicode `White_Space` property, which `char::is_whitespace` and
/// `str::trim` go by.
pub open spec fn is_ws(c: char) -> bool {
    let u = c as u32;
    ||| (0x09 <= u && u <= 0x0D)
    ||| u == 0x20
    ||| u == 0x85
    ||| u == 0xA0
    ||| u == 0x1680
    ||| (0x2000 <= u && u <= 0x200A)
    ||| u == 0x2028
    ||| u == 0x2029
    ||| u == 0x202F
    ||| u == 0x205F
    ||| u == 0x3000
}

/// Whether `c` is white space in Unicode's sense.
pub fn is_whitespace(c: char) -> (res: bool)
    ensures
        res == is_ws(c),
{
    let u = c as u32;
    (0x09 <= u && u <= 0x0D) || u == 0x20 || u == 0x85 || u == 0xA0 || u == 0x1680 || (0x2000
        <= u && u <= 0x200A) || u == 0x2028 || u == 0x2029 || u == 0x202F || u == 0x205F || u
        == 0x3000
}

/// `s` without its leading white space.
pub open spec fn trim_start(s: Seq<char>) -> Seq<char>
    decreases s.len(),
{
    if s.len() > 0 && is_ws(s[0]) {
        trim_start(s.drop_first())
    } else {
        s
    }
}

/// `s` without its trailing white space.
pub open spec fn trim_end(s: Seq<char>) -> Seq<char>
    decreases s.len(),
{
    if s.len() > 0 && is_ws(s.last()) {
        trim_end(s.drop_last())
    } else {
        s
    }
}

/// `s` without leading and trailing white space, as `str::trim` gives it.
pub open spec fn trimmed(s: Seq<char>) -> Seq<char> {
    trim_end(trim_start(s))
}

proof fn lemma_trim_start_skip(s: Seq<char>, i: int)
    requires
        0 <= i < s.len(),
        is_ws(s[i]),
    ensures
        trim_start(s.skip(i)) == trim_start(s.skip(i + 1)),
{
    assert(s.skip(i).drop_first() =~= s.skip(i + 1));
}

/// A copy of `cs[from..to]`.
pub fn slice_chars(cs: &[char], from: usize, to: usize) -> (res: Vec<char>)
    requires
        from <= to <= cs@.len(),
    ensures
        res@ == cs@.subrange(from as int, to as int),
{
    let mut res: Vec<char> = Vec::new();
    let mut i = from;
    while i < to
        invariant
            from <= i <= to <= cs@.len(),
            res@ == cs@.subrange(from as int, i as int),
        decreases to - i,
    {
        res.push(cs[i]);
        assert(cs@.subrange(from as int, i + 1) == cs@.subrange(from as int, i as int).push(
            cs@[i as int],
        ));
        i = i + 1;
    }
    res
}

/// The characters of `cs` without leading and trailing white space.
pub fn trim_chars(cs: &[char]) -> (res: Vec<char>)
    ensures
        res@ == trimmed(cs@),
{
    let ghost s = cs@;
    let mut i: usize = 0;
    assert(s.skip(0) =~= s);
    while i < cs.len() && is_whitespace(cs[i])
        invariant
            i <= s.len(),
            s == cs@,
            trim_start(s) == trim_start(s.skip(i as int)),
        decreases s.len() - i,
    {
        proof {
            lemma_trim_start_skip(s, i as int);
        }
        i = i + 1;
    }
    let ghost t = s.skip(i as int);
    assert(trim_start(s) == t) by {
        if i < s.len() {
            assert(t[0] == s[i as int]);
        } else {
            assert(t.len() == 0);
        }
    }
    let mut j: usize = cs.len();
    assert(s.subrange(i as int, j as int) =~= t);
    while j > i && is_whitespace(cs[j - 1])
        invariant
            i <= j <= s.len(),
            s == cs@,
            t == s.skip(i as int),
            trim_end(t) == trim_end(s.subrange(i as int, j as int)),
        decreases j,
    {
        proof {
            let u = s.subrange(i as int, j as int);
            assert(u.drop_last() =~= s.subrange(i as int, j - 1));
        }
        j = j - 1;
    }
    proof {
        let u = s.subrange(i as int, j as int);
        if j > i {
            assert(u.last() == s[j - 1]);
        }
    }
    slice_chars(cs, i, j)
}

/// `s` without leading and trailing white space (`str::trim`).
pub fn trim(s: &str) -> (res: String)
    ensures
        res@ == trimmed(s@),
{
    let cs = chars_of(s);
    let t = trim_chars(cs.as_slice());
    string_from(t.as_slice())
}

/// Whether `cs` and `ds` hold the same characters.
pub fn chars_eq(cs: &[char], ds: &[char]) -> (res: bool)
    ensures
        res == (cs@ == ds@),
{
    if cs.len() != ds.len() {
        return false;
    }
    let mut i: usize = 0;
    while i < cs.len()
        invariant
            i <= cs@.len(),
            cs@.len() == ds@.len(),
            forall|k: int| 0 <= k < i ==> cs@[k] == ds@[k],
        decreases cs@.len() - i,
    {
        if cs[i] != ds[i] {
            return false;
        }
        i = i + 1;
    }
    assert(cs@ =~= ds@);
    true
}

/// Whether `p` occurs in `s` at position `i`.
pub open spec fn occurs_at(s: Seq<char>, p: Seq<char>, i: int) -> bool {
    0 <= i && i + p.len() <= s.len() && s.subrange(i, i + p.len()) == p
}

/// Whether `p` occurs somewhere in `s` (`str::contains` with a string pattern).
pub open spec fn contains_seq(s: Seq<char>, p: Seq<char>) -> bool {
    exists|i: int| occurs_at(s, p, i)
}

/// Whether `p` occurs in `cs` at position `i`.
pub fn occurs_at_exec(cs: &[char], p: &[char], i: usize) -> (res: bool)
    ensures
        res == occurs_at(cs@, p@, i as int),
{
    if i > cs.len() || p.len() > cs.len() - i {
        return false;
    }
    let mut k: usize = 0;
    while k < p.len()
        invariant
            k <= p@.len(),
            i + p@.len() <= cs.len(),
            forall|m: int| 0 <= m < k ==> cs@[i + m] == p@[m],
        decreases p@.len() - k,
    {
        if cs[i + k] != p[k] {
            assert(cs@.subrange(i as int, i + p@.len())[k as int] != p@[k as int]);
            return false;
        }
        k = k + 1;
    }
    assert(cs@.subrange(i as int, i + p@.len()) =~= p@);
    true
}

/// The first position at which `p` occurs in `cs` (`str::find`).
pub fn find_seq(cs: &[char], p: &[char]) -> (res: Option<usize>)
    ensures
        match res {
            Some(i) => occurs_at(cs@, p@, i as int) && forall|j: int|
                0 <= j < i ==> !occurs_at(cs@, p@, j),
            None => !contains_seq(cs@, p@),
        },
{
    if p.len() > cs.len() {
        assert forall|j: int| !occurs_at(cs@, p@, j) by {}
        return None;
    }
    let last = cs.len() - p.len();
    let mut i: usize = 0;
    while i < last
        invariant
            i <= last,
            last + p@.len() == cs@.len(),
            forall|j: int| 0 <= j < i ==> !occurs_at(cs@, p@, j),
        decreases last - i,
    {
        if occurs_at_exec(cs, p, i) {
            return Some(i);
        }
        i = i + 1;
    }
    if occurs_at_exec(cs, p, last) {
        return Some(last);
    }
    assert forall|j: int| !occurs_at(cs@, p@, j) by {
        if 0 <= j && j + p@.len() <= cs@.len() {
            assert(j <= last);
        }
    }
    None
}

/// Whether `p` occurs in `cs`.
pub fn contains_chars(cs: &[char], p: &[char]) -> (res: bool)
    ensures
        res == contains_seq(cs@, p@),
{
    match find_seq(cs, p) {
        Some(_) => true,
        None => false,
    }
}

/// Whether `cs` begins with `p`.
pub fn starts_with_chars(cs: &[char], p: &[char]) -> (res: bool)
    ensures
        res == p@.is_prefix_of(cs@),
{
    let r = occurs_at_exec(cs, p, 0);
    proof {
        if r {
            assert(cs@.subrange(0, p@.len() as int) == p@);
        }
        if p@.is_prefix_of(cs@) {
            assert(occurs_at(cs@, p@, 0));
        }
    }
    r
}

/// Whether `cs` ends with `p`.
pub fn ends_with_chars(cs: &[char], p: &[char]) -> (res: bool)
    ensures
        res == p@.is_suffix_of(cs@),
{
    if p.len() > cs.len() {
        return false;
    }
    let r = occurs_at_exec(cs, p, cs.len() - p.len());
    proof {
        let n = cs@.len() as int;
        let m = p@.len() as int;
        if r {
            assert(cs@.subrange(n - m, n) == p@);
        }
        if p@.is_suffix_of(cs@) {
            assert(occurs_at(cs@, p@, n - m));
        }
    }
    r
}

} // verus!

verus! {

/// What `str::to_lowercase` gives for a string: its Unicode lowercase mapping.
pub uninterp spec fn lowercased(s: Seq<char>) -> Seq<char>;

/// `str::to_lowercase`: the Unicode lowercase mapping of `s`. The contract
/// names the result by `lowercased` and says nothing more of it.
#[verifier::external_body]
pub(crate) fn to_lowercase(s: &str) -> (res: String)
    ensures
        res@ == lowercased(s@),
{
    s.to_lowercase()
}

/// The lowercase mapping of a sequence of characters.
pub fn lowercase_chars(cs: &[char]) -> (res: Vec<char>)
    ensures
        res@ == lowercased(cs@),
{
    let s = string_from(cs);
    let l = to_lowercase(s.as_str());
    chars_of(l.as_str())
}

/// Appends the characters of `p` to `out`.
pub fn append_chars(out: &mut Vec<char>, p: &[char])
    ensures
        final(out)@ == old(out)@ + p@,
{
    let mut i: usize = 0;
    while i < p.len()
        invariant
            i <= p@.len(),
            out@ == old(out)@ + p@.take(i as int),
        decreases p@.len() - i,
    {
        out.push(p[i]);
        assert(p@.take(i + 1) == p@.take(i as int).push(p@[i as int]));
        i = i + 1;
    }
    assert(p@.take(p@.len() as int) == p@);
}

/// `s` with each occurrence of `pat`, taken from left to right without
/// overlap, replaced by `rep` (`str::replace` for a non-empty pattern).
pub open spec fn replaced(s: Seq<char>, pat: Seq<char>, rep: Seq<char>) -> Seq<char>
    decreases s.len(),
{
    if s.len() == 0 {
        s
    } else if pat.len() > 0 && pat.is_prefix_of(s) {
        rep + replaced(s.skip(pat.len() as int), pat, rep)
    } else {
        seq![s[0]] + replaced(s.drop_first(), pat, rep)
    }
}

/// Replaces every occurrence of `pat` in `cs` by `rep`.
pub fn replace_chars(cs: &[char], pat: &[char], rep: &[char]) -> (res: Vec<char>)
    requires
        pat@.len() > 0,
    ensures
        res@ == replaced(cs@, pat@, rep@),
{
    let mut out: Vec<char> = Vec::new();
    let mut i: usize = 0;
    assert(cs@.skip(0) =~= cs@);
    while i < cs.len()
        invariant
            i <= cs@.len(),
            pat@.len() > 0,
            replaced(cs@, pat@, rep@) == out@ + replaced(cs@.skip(i as int), pat@, rep@),
        decreases cs@.len() - i,
    {
        let ghost rest = cs@.skip(i as int);
        if occurs_at_exec(cs, pat, i) {
            proof {
                assert(rest.subrange(0, pat@.len() as int) =~= cs@.subrange(
                    i as int,
                    i + pat@.len(),
                ));
                assert(rest.skip(pat@.len() as int) =~= cs@.skip(i + pat@.len()));
            }
            let ghost before = out@;
            append_chars(&mut out, rep);
            i = i + pat.len();
            assert(before + replaced(rest, pat@, rep@) =~= out@ + replaced(
                cs@.skip(i as int),
                pat@,
                rep@,
            ));
        } else {
            proof {
                if pat@.is_prefix_of(rest) {
                    assert(rest.subrange(0, pat@.len() as int) =~= cs@.subrange(
                        i as int,
                        i + pat@.len(),
                    ));
                }
                assert(rest.drop_first() =~= cs@.skip(i + 1));
            }
            let ghost before = out@;
            out.push(cs[i]);
            i = i + 1;
            assert(before + replaced(rest, pat@, rep@) =~= out@ + replaced(
                cs@.skip(i as int),
                pat@,
                rep@,
            ));
        }
    }
    assert(replaced(cs@.skip(i as int), pat@, rep@) =~= Seq::<char>::empty());
    assert(out@ + Seq::<char>::empty() =~= out@);
    out
}

} // verus!

verus! {

/// Whether `p` first occurs in `s` at `i`.
pub open spec fn is_first_occurrence(s: Seq<char>, p: Seq<char>, i: int) -> bool {
    occurs_at(s, p, i) && forall|j: int| 0 <= j < i ==> !occurs_at(s, p, j)
}

/// The position at which `p` first occurs in `s`, where it occurs.
pub open spec fn first_occurrence(s: Seq<char>, p: Seq<char>) -> int {
    choose|i: int| is_first_occurrence(s, p, i)
}

/// A first occurrence is the first occurrence.
pub proof fn lemma_first_occurrence(s: Seq<char>, p: Seq<char>, i: int)
    requires
        is_first_occurrence(s, p, i),
    ensures
        first_occurrence(s, p) == i,
{
    let k = first_occurrence(s, p);
    assert(is_first_occurrence(s, p, k));
    if k < i {
        assert(!occurs_at(s, p, k));
    }
    if i < k {
        assert(!occurs_at(s, p, i));
    }
}

/// Where `p` occurs in `s`, it first occurs somewhere.
pub proof fn lemma_first_occurrence_exists(s: Seq<char>, p: Seq<char>)
    requires
        contains_seq(s, p),
    ensures
        is_first_occurrence(s, p, first_occurrence(s, p)),
    decreases s.len(),
{
    let w = choose|i: int| occurs_at(s, p, i);
    lemma_first_occurrence_below(s, p, w);
}

proof fn lemma_first_occurrence_below(s: Seq<char>, p: Seq<char>, w: int)
    requires
        occurs_at(s, p, w),
    ensures
        is_first_occurrence(s, p, first_occurrence(s, p)),
    decreases w,
{
    if forall|j: int| 0 <= j < w ==> !occurs_at(s, p, j) {
        assert(is_first_occurrence(s, p, w));
    } else {
        let v = choose|j: int| 0 <= j < w && occurs_at(s, p, j);
        lemma_first_occurrence_below(s, p, v);
    }
}

/// The pieces of `s` between the occurrences of `sep`, as `str::split` with a
/// character gives them (there is always at least one piece).
pub open spec fn split_on(s: Seq<char>, sep: char) -> Seq<Seq<char>>
    decreases s.len(),
{
    if s.len() == 0 {
        seq![Seq::<char>::empty()]
    } else {
        let prev = split_on(s.drop_last(), sep);
        if s.last() == sep {
            prev.push(Seq::<char>::empty())
        } else {
            prev.update(prev.len() - 1, prev.last().push(s.last()))
        }
    }
}

/// The views of a vector of character vectors.
pub open spec fn pieces_view(v: Seq<Vec<char>>) -> Seq<Seq<char>> {
    v.map_values(|p: Vec<char>| p@)
}

/// Splits `cs` at each occurrence of `sep`.
pub fn split_chars(cs: &[char], sep: char) -> (res: Vec<Vec<char>>)
    ensures
        pieces_view(res@) == split_on(cs@, sep),
{
    let mut done: Vec<Vec<char>> = Vec::new();
    let mut cur: Vec<char> = Vec::new();
    let mut i: usize = 0;
    assert(cs@.take(0) =~= Seq::<char>::empty());
    assert(pieces_view(done@).push(cur@) =~= seq![Seq::<char>::empty()]);
    while i < cs.len()
        invariant
            i <= cs@.len(),
            split_on(cs@.take(i as int), sep) == pieces_view(done@).push(cur@),
        decreases cs@.len() - i,
    {
        let c = cs[i];
        let ghost pre = cs@.take(i as int);
        assert(cs@.take(i + 1).drop_last() =~= pre);
        let ghost before = pieces_view(done@);
        let ghost cur_before = cur@;
        if c == sep {
            let mut old_cur: Vec<char> = Vec::new();
            std::mem::swap(&mut old_cur, &mut cur);
            done.push(old_cur);
            assert(pieces_view(done@) =~= before.push(cur_before));
            assert(split_on(cs@.take(i + 1), sep) =~= pieces_view(done@).push(cur@));
        } else {
            cur.push(c);
            assert(split_on(cs@.take(i + 1), sep) =~= before.push(cur_before).update(
                before.len() as int,
                cur_before.push(c),
            ));
            assert(split_on(cs@.take(i + 1), sep) =~= pieces_view(done@).push(cur@));
        }
        i = i + 1;
    }
    assert(cs@.take(cs@.len() as int) =~= cs@);
    let ghost before = pieces_view(done@);
    let ghost last = cur@;
    done.push(cur);
    assert(pieces_view(done@) =~= before.push(last));
    done
}

} // verus!

verus! {

/// Whether two strings hold the same characters.
pub fn str_eq(a: &str, b: &str) -> (res: bool)
    ensures
        res == (a@ == b@),
{
    let x = chars_of(a);
    let y = chars_of(b);
    chars_eq(x.as_slice(), y.as_slice())
}

/// A `String` with the characters of `s`.
pub fn to_owned_string(s: &str) -> (res: String)
    ensures
        res@ == s@,
{
    let cs = chars_of(s);
    string_from(cs.as_slice())
}

/// The concatenation of two strings.
pub fn concat_str(a: &str, b: &str) -> (res: String)
    ensures
        res@ == a@ + b@,
{
    let mut cs = chars_of(a);
    let ds = chars_of(b);
    append_chars(&mut cs, ds.as_slice());
    string_from(cs.as_slice())
}

} // verus!
