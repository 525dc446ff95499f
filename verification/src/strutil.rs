//! Verified helpers over `&str` and `String`: equality, prefix tests,
//! splitting on a separator character, line splitting and trimming.
//!
//! Every helper is specified against a spec-level function on `Seq<char>`,
//! so callers can reason about string contents directly.

use vstd::prelude::*;
use vstd::string::StringSliceAdditionalSpecFns;

verus! {

/// ASCII whitespace, the only whitespace the probers ever see in
/// package-manager output.
pub open spec fn is_space(c: char) -> bool {
    c == ' ' || c == '\t' || c == '\r' || c == '\n'
}

/// Index of the first occurrence of `c` in `s`, or `s.len()` if absent.
pub open spec fn spec_find(s: Seq<char>, c: char) -> int
    decreases s.len(),
{
    if s.len() == 0 {
        0
    } else if s[0] == c {
        0
    } else {
        1 + spec_find(s.subrange(1, s.len() as int), c)
    }
}

pub proof fn lemma_spec_find(s: Seq<char>, c: char)
    ensures
        0 <= spec_find(s, c) <= s.len(),
        forall|k: int| 0 <= k < spec_find(s, c) ==> s[k] != c,
        spec_find(s, c) < s.len() ==> s[spec_find(s, c)] == c,
    decreases s.len(),
{
    if s.len() == 0 {
    } else if s[0] == c {
    } else {
        let t = s.subrange(1, s.len() as int);
        lemma_spec_find(t, c);
        assert forall|k: int| 0 <= k < spec_find(s, c) implies s[k] != c by {
            if k > 0 {
                assert(t[k - 1] != c);
                assert(s[k] == t[k - 1]);
            }
        }
        if spec_find(s, c) < s.len() {
            assert(s[spec_find(s, c)] == t[spec_find(t, c)]);
        }
    }
}

/// The first index with the given properties is exactly `spec_find`.
pub proof fn lemma_find_unique(s: Seq<char>, c: char, i: int)
    requires
        0 <= i <= s.len(),
        forall|k: int| 0 <= k < i ==> s[k] != c,
        i < s.len() ==> s[i] == c,
    ensures
        spec_find(s, c) == i,
    decreases s.len(),
{
    if s.len() == 0 {
    } else if s[0] == c {
        assert(i == 0) by {
            if i > 0 {
                assert(s[0] != c);
            }
        }
    } else {
        assert(i > 0) by {
            if i == 0 {
                assert(s[0] == c);
            }
        }
        let t = s.subrange(1, s.len() as int);
        assert forall|k: int| 0 <= k < i - 1 implies t[k] != c by {
            assert(t[k] == s[k + 1]);
        }
        assert(i - 1 < t.len() ==> t[i - 1] == c);
        lemma_find_unique(t, c, i - 1);
    }
}

/// The byte length of `s`.
pub fn byte_len(s: &str) -> (n: usize)
    ensures
        n as int == s.spec_bytes().len(),
{
    let b = s.as_bytes();
    b.len()
}

/// True iff the two strings hold the same characters.
pub fn str_eq(a: &str, b: &str) -> (r: bool)
    ensures
        r == (a@ == b@),
{
    let n = a.unicode_len();
    if n != b.unicode_len() {
        return false;
    }
    let mut i: usize = 0;
    while i < n
        invariant
            n == a@.len(),
            n == b@.len(),
            i <= n,
            forall|k: int| 0 <= k < i ==> a@[k] == b@[k],
        decreases n - i,
    {
        if a.get_char(i) != b.get_char(i) {
            return false;
        }
        i += 1;
    }
    proof {
        assert(a@ =~= b@);
    }
    true
}

/// True iff `p` is a prefix of `s`.
pub fn str_starts_with(s: &str, p: &str) -> (r: bool)
    ensures
        r == p@.is_prefix_of(s@),
{
    let np = p.unicode_len();
    let ns = s.unicode_len();
    if np > ns {
        assert(!p@.is_prefix_of(s@));
        return false;
    }
    let mut i: usize = 0;
    while i < np
        invariant
            np == p@.len(),
            ns == s@.len(),
            np <= ns,
            i <= np,
            forall|k: int| 0 <= k < i ==> s@[k] == p@[k],
        decreases np - i,
    {
        if s.get_char(i) != p.get_char(i) {
            assert(!p@.is_prefix_of(s@)) by {
                assert(s@.subrange(0, p@.len() as int)[i as int] != p@[i as int]);
            }
            return false;
        }
        i += 1;
    }
    proof {
        assert(p@ =~= s@.subrange(0, p@.len() as int));
    }
    true
}

/// First occurrence of `c` in `s`, or `s@.len()` if absent.
pub fn find_char(s: &str, c: char) -> (r: usize)
    ensures
        r == spec_find(s@, c),
        r <= s@.len(),
{
    let n = s.unicode_len();
    let mut i: usize = 0;
    while i < n
        invariant
            n == s@.len(),
            i <= n,
            forall|k: int| 0 <= k < i ==> s@[k] != c,
        decreases n - i,
    {
        if s.get_char(i) == c {
            proof {
                lemma_find_unique(s@, c, i as int);
            }
            return i;
        }
        i += 1;
    }
    proof {
        lemma_find_unique(s@, c, n as int);
    }
    n
}

/// Segments of `s` between occurrences of `c`, in order; empty segments
/// are kept, and a string without `c` is a single segment.
pub open spec fn spec_split(s: Seq<char>, c: char) -> Seq<Seq<char>>
    decreases s.len(),
{
    let i = spec_find(s, c);
    if !(0 <= i < s.len()) {
        seq![s]
    } else {
        seq![s.subrange(0, i)] + spec_split(s.subrange(i + 1, s.len() as int), c)
    }
}

/// Splits `s` at every occurrence of `c`.
pub fn split_char(s: &str, c: char) -> (r: Vec<String>)
    ensures
        r.deep_view() == spec_split(s@, c),
        r.len() >= 1,
    decreases s@.len(),
{
    let n = s.unicode_len();
    let i = find_char(s, c);
    proof {
        lemma_spec_find(s@, c);
    }
    if i == n {
        let mut v: Vec<String> = Vec::new();
        v.push(s.to_owned());
        proof {
            assert(v.deep_view() =~= spec_split(s@, c));
        }
        v
    } else {
        let head = s.substring_char(0, i).to_owned();
        let tail = s.substring_char(i + 1, n);
        let rest = split_char(tail, c);
        let mut v: Vec<String> = Vec::new();
        v.push(head);
        let mut rest = rest;
        v.append(&mut rest);
        proof {
            assert(v.deep_view() =~= spec_split(s@, c));
        }
        v
    }
}

/// A line with a trailing carriage return has it removed.
pub open spec fn strip_cr(l: Seq<char>) -> Seq<char> {
    if l.len() > 0 && l[l.len() - 1] == '\r' {
        l.drop_last()
    } else {
        l
    }
}

/// The lines of `s`: segments before each newline with a trailing
/// carriage return stripped, and the final segment if non-empty.
pub open spec fn spec_lines(s: Seq<char>) -> Seq<Seq<char>>
    decreases s.len(),
{
    if s.len() == 0 {
        seq![]
    } else {
        let i = spec_find(s, '\n');
        if !(0 <= i < s.len()) {
            seq![s]
        } else {
            seq![strip_cr(s.subrange(0, i))] + spec_lines(s.subrange(i + 1, s.len() as int))
        }
    }
}

/// Splits `s` into lines.
pub fn split_lines(s: &str) -> (r: Vec<String>)
    ensures
        r.deep_view() == spec_lines(s@),
    decreases s@.len(),
{
    let n = s.unicode_len();
    if n == 0 {
        let v: Vec<String> = Vec::new();
        proof {
            assert(v.deep_view() =~= spec_lines(s@));
        }
        return v;
    }
    let i = find_char(s, '\n');
    proof {
        lemma_spec_find(s@, '\n');
    }
    if i == n {
        let mut v: Vec<String> = Vec::new();
        v.push(s.to_owned());
        proof {
            assert(v.deep_view() =~= spec_lines(s@));
        }
        v
    } else {
        let head = if i > 0 && s.get_char(i - 1) == '\r' {
            let h = s.substring_char(0, i - 1);
            proof {
                assert(h@ =~= strip_cr(s@.subrange(0, i as int)));
            }
            h
        } else {
            let h = s.substring_char(0, i);
            proof {
                assert(h@ =~= strip_cr(s@.subrange(0, i as int)));
            }
            h
        };
        let head = head.to_owned();
        let tail = s.substring_char(i + 1, n);
        let mut rest = split_lines(tail);
        let mut v: Vec<String> = Vec::new();
        v.push(head);
        v.append(&mut rest);
        proof {
            assert(v.deep_view() =~= spec_lines(s@));
        }
        v
    }
}

/// `s` with leading whitespace removed.
pub open spec fn spec_trim_start(s: Seq<char>) -> Seq<char>
    decreases s.len(),
{
    if s.len() > 0 && is_space(s[0]) {
        spec_trim_start(s.subrange(1, s.len() as int))
    } else {
        s
    }
}

/// `s` with trailing whitespace removed.
pub open spec fn spec_trim_end(s: Seq<char>) -> Seq<char>
    decreases s.len(),
{
    if s.len() > 0 && is_space(s[s.len() - 1]) {
        spec_trim_end(s.drop_last())
    } else {
        s
    }
}

/// `s` with whitespace removed from both ends.
pub open spec fn spec_trim(s: Seq<char>) -> Seq<char> {
    spec_trim_end(spec_trim_start(s))
}

fn is_space_char(c: char) -> (r: bool)
    ensures
        r == is_space(c),
{
    c == ' ' || c == '\t' || c == '\r' || c == '\n'
}

fn trim_start_str(s: &str) -> (r: &str)
    ensures
        r@ == spec_trim_start(s@),
    decreases s@.len(),
{
    let n = s.unicode_len();
    if n > 0 && is_space_char(s.get_char(0)) {
        let t = s.substring_char(1, n);
        proof {
            assert(t@ =~= s@.subrange(1, s@.len() as int));
        }
        trim_start_str(t)
    } else {
        s
    }
}

fn trim_end_str(s: &str) -> (r: &str)
    ensures
        r@ == spec_trim_end(s@),
    decreases s@.len(),
{
    let n = s.unicode_len();
    if n > 0 && is_space_char(s.get_char(n - 1)) {
        let t = s.substring_char(0, n - 1);
        proof {
            assert(t@ =~= s@.drop_last());
        }
        trim_end_str(t)
    } else {
        s
    }
}

/// `s` with surrounding whitespace removed, as an owned string.
pub fn trim(s: &str) -> (r: String)
    ensures
        r@ == spec_trim(s@),
{
    trim_end_str(trim_start_str(s)).to_owned()
}

/// Appends clones of the strings of `src` to `dst`.
pub fn append_all(dst: &mut Vec<String>, src: &Vec<String>)
    ensures
        final (dst).deep_view() == old(dst).deep_view() + src.deep_view(),
{
    let ghost base = dst.deep_view();
    let mut i: usize = 0;
    while i < src.len()
        invariant
            i <= src.len(),
            dst.deep_view() == base + src.deep_view().take(i as int),
        decreases src.len() - i,
    {
        let ghost prev = dst.deep_view();
        dst.push(src[i].clone());
        proof {
            assert(dst.deep_view() =~= prev.push(src.deep_view()[i as int]));
            assert(prev.push(src.deep_view()[i as int]) =~= base + src.deep_view().take(
                i as int + 1,
            ));
        }
        i += 1;
    }
    proof {
        assert(src.deep_view().take(src.len() as int) =~= src.deep_view());
        assert(dst.deep_view() =~= old(dst).deep_view() + src.deep_view());
    }
}

/// The concatenation of all the string vectors of `src`, in order.
pub fn flatten_strs(src: &Vec<Vec<String>>) -> (r: Vec<String>)
    ensures
        r.deep_view() == src.deep_view().flatten(),
{
    let mut out: Vec<String> = Vec::new();
    proof {
        assert(src.deep_view().take(0) =~= Seq::<Seq<Seq<char>>>::empty());
    }
    let mut i: usize = 0;
    while i < src.len()
        invariant
            i <= src.len(),
            out.deep_view() == src.deep_view().take(i as int).flatten(),
        decreases src.len() - i,
    {
        append_all(&mut out, &src[i]);
        proof {
            let dv = src.deep_view();
            assert(dv.take(i as int + 1) =~= dv.take(i as int).push(dv[i as int]));
            dv.take(i as int).lemma_flatten_push(dv[i as int]);
        }
        i += 1;
    }
    proof {
        assert(src.deep_view().take(src.len() as int) =~= src.deep_view());
    }
    out
}

/// The elements of `src` that are in `other`, in order.
pub fn filter_in(src: &Vec<String>, other: &Vec<String>) -> (r: Vec<String>)
    ensures
        r.deep_view() == src.deep_view().filter(
            (|p: Seq<char>| other.deep_view().contains(p)),
        ),
{
    let mut out: Vec<String> = Vec::new();
    proof {
        assert(src.deep_view().take(0).filter(
            (|p: Seq<char>| other.deep_view().contains(p)),
        ) =~= Seq::<Seq<char>>::empty()) by {
            reveal(Seq::filter);
            assert(src.deep_view().take(0) =~= Seq::<Seq<char>>::empty());
        }
    }
    let mut i: usize = 0;
    while i < src.len()
        invariant
            i <= src.len(),
            out.deep_view() == src.deep_view().take(i as int).filter(
                (|p: Seq<char>| other.deep_view().contains(p)),
            ),
        decreases src.len() - i,
    {
        let ghost prev = out.deep_view();
        proof {
            lemma_filter_take_step(
                src.deep_view(),
                (|p: Seq<char>| other.deep_view().contains(p)),
                i as int,
            );
        }
        if vec_contains_str(other, src[i].as_str()) {
            out.push(src[i].clone());
            proof {
                assert(out.deep_view() =~= prev.push(src.deep_view()[i as int]));
            }
        }
        i += 1;
    }
    proof {
        assert(src.deep_view().take(src.len() as int) =~= src.deep_view());
    }
    out
}

/// The elements of `src` that are not in `other`, in order.
pub fn filter_not_in(src: &Vec<String>, other: &Vec<String>) -> (r: Vec<String>)
    ensures
        r.deep_view() == src.deep_view().filter(
            (|p: Seq<char>| !other.deep_view().contains(p)),
        ),
{
    let mut out: Vec<String> = Vec::new();
    proof {
        assert(src.deep_view().take(0).filter(
            (|p: Seq<char>| !other.deep_view().contains(p)),
        ) =~= Seq::<Seq<char>>::empty()) by {
            reveal(Seq::filter);
            assert(src.deep_view().take(0) =~= Seq::<Seq<char>>::empty());
        }
    }
    let mut i: usize = 0;
    while i < src.len()
        invariant
            i <= src.len(),
            out.deep_view() == src.deep_view().take(i as int).filter(
                (|p: Seq<char>| !other.deep_view().contains(p)),
            ),
        decreases src.len() - i,
    {
        let ghost prev = out.deep_view();
        proof {
            lemma_filter_take_step(
                src.deep_view(),
                (|p: Seq<char>| !other.deep_view().contains(p)),
                i as int,
            );
        }
        if !vec_contains_str(other, src[i].as_str()) {
            out.push(src[i].clone());
            proof {
                assert(out.deep_view() =~= prev.push(src.deep_view()[i as int]));
            }
        }
        i += 1;
    }
    proof {
        assert(src.deep_view().take(src.len() as int) =~= src.deep_view());
    }
    out
}

/// True iff some element of `prefixes` is a prefix of `s`.
pub fn any_prefix_of(prefixes: &Vec<String>, s: &str) -> (r: bool)
    ensures
        r == exists|k: int|
            0 <= k < prefixes.deep_view().len() && (#[trigger] prefixes.deep_view()[k]).is_prefix_of(
                s@,
            ),
{
    let mut i: usize = 0;
    while i < prefixes.len()
        invariant
            i <= prefixes.len(),
            forall|k: int|
                0 <= k < i ==> !(#[trigger] prefixes.deep_view()[k]).is_prefix_of(s@),
        decreases prefixes.len() - i,
    {
        if str_starts_with(s, prefixes[i].as_str()) {
            assert(prefixes.deep_view()[i as int].is_prefix_of(s@));
            return true;
        }
        i += 1;
    }
    false
}

/// One step of computing `filter` over a growing prefix: extending the
/// prefix by `s[i]` appends it to the filtered result iff it satisfies
/// the predicate.
pub proof fn lemma_filter_take_step<A>(s: Seq<A>, pred: spec_fn(A) -> bool, i: int)
    requires
        0 <= i < s.len(),
    ensures
        s.take(i + 1).filter(pred) == if pred(s[i]) {
            s.take(i).filter(pred).push(s[i])
        } else {
            s.take(i).filter(pred)
        },
{
    reveal(Seq::filter);
    assert(s.take(i + 1).drop_last() =~= s.take(i));
    assert(s.take(i + 1).last() == s[i]);
}

/// Pushing an element onto a sequence appends it to the filtered result
/// iff it satisfies the predicate.
pub proof fn lemma_filter_push<A>(s: Seq<A>, pred: spec_fn(A) -> bool, x: A)
    ensures
        s.push(x).filter(pred) == if pred(x) {
            s.filter(pred).push(x)
        } else {
            s.filter(pred)
        },
{
    reveal(Seq::filter);
    assert(s.push(x).drop_last() =~= s);
    assert(s.push(x).last() == x);
}

/// Two predicates that agree on every element of a sequence filter it
/// identically.
pub proof fn lemma_filter_agree<A>(s: Seq<A>, p1: spec_fn(A) -> bool, p2: spec_fn(A) -> bool)
    requires
        forall|x: A| #[trigger] s.contains(x) ==> p1(x) == p2(x),
    ensures
        s.filter(p1) == s.filter(p2),
    decreases s.len(),
{
    reveal(Seq::filter);
    if s.len() > 0 {
        assert(forall|x: A| #[trigger] s.drop_last().contains(x) ==> s.contains(x));
        lemma_filter_agree(s.drop_last(), p1, p2);
        assert(s.contains(s.last()));
    }
}

/// Every element of a filtered sequence satisfies the predicate.
pub proof fn lemma_filter_all_pred<A>(s: Seq<A>, pred: spec_fn(A) -> bool)
    ensures
        forall|x: A| #[trigger] s.filter(pred).contains(x) ==> pred(x),
{
    broadcast use Seq::lemma_filter_pred;

    assert forall|x: A| #[trigger] s.filter(pred).contains(x) implies pred(x) by {
        let j = choose|j: int| 0 <= j < s.filter(pred).len() && s.filter(pred)[j] == x;
        assert(pred(s.filter(pred)[j]));
    }
}

/// One step of computing `filter_map` over a growing prefix.
pub proof fn lemma_filter_map_take_step<A, B>(s: Seq<A>, f: spec_fn(A) -> Option<B>, i: int)
    requires
        0 <= i < s.len(),
    ensures
        s.take(i + 1).filter_map(f) == if f(s[i]) is Some {
            s.take(i).filter_map(f).push(f(s[i])->Some_0)
        } else {
            s.take(i).filter_map(f)
        },
{
    assert(s.take(i + 1).drop_last() =~= s.take(i));
    assert(s.take(i + 1).last() == s[i]);
}

/// The lines of `s`, each with surrounding whitespace removed.
pub fn trimmed_lines(s: &str) -> (r: Vec<String>)
    ensures
        r.deep_view() == spec_lines(s@).map_values(|l: Seq<char>| spec_trim(l)),
{
    let lines = split_lines(s);
    let mut out: Vec<String> = Vec::new();
    let mut i: usize = 0;
    while i < lines.len()
        invariant
            i <= lines.len(),
            lines.deep_view() == spec_lines(s@),
            out.deep_view().len() == i,
            forall|k: int| 0 <= k < i ==> out.deep_view()[k] == spec_trim(lines.deep_view()[k]),
        decreases lines.len() - i,
    {
        let ghost prev = out.deep_view();
        let t = trim(lines[i].as_str());
        let ghost tv = t@;
        out.push(t);
        proof {
            assert(out.deep_view() =~= prev.push(tv));
        }
        i += 1;
    }
    proof {
        assert(out.deep_view() =~= spec_lines(s@).map_values(|l: Seq<char>| spec_trim(l)));
    }
    out
}

/// `parts` joined with `sep` between consecutive elements.
pub open spec fn spec_join(parts: Seq<Seq<char>>, sep: Seq<char>) -> Seq<char>
    decreases parts.len(),
{
    if parts.len() == 0 {
        Seq::empty()
    } else if parts.len() == 1 {
        parts[0]
    } else {
        parts[0] + sep + spec_join(parts.subrange(1, parts.len() as int), sep)
    }
}

pub proof fn lemma_join_push(parts: Seq<Seq<char>>, x: Seq<char>, sep: Seq<char>)
    ensures
        spec_join(parts.push(x), sep) == if parts.len() == 0 {
            x
        } else {
            spec_join(parts, sep) + sep + x
        },
    decreases parts.len(),
{
    if parts.len() == 0 {
        assert(parts.push(x)[0] == x);
        assert(spec_join(parts.push(x), sep) == x);
    } else if parts.len() == 1 {
        assert(parts.push(x).subrange(1, 2) =~= seq![x]);
        assert(parts.push(x)[0] == parts[0]);
        assert(spec_join(seq![x], sep) == x);
        assert(spec_join(parts.push(x), sep) == parts[0] + sep + x);
    } else {
        let t = parts.subrange(1, parts.len() as int);
        lemma_join_push(t, x, sep);
        assert(parts.push(x).subrange(1, parts.len() as int + 1) =~= t.push(x));
        assert(spec_join(parts, sep) + sep + x =~= parts[0] + sep + (spec_join(t, sep) + sep + x));
    }
}

/// Joins the strings of `parts` with `sep` between consecutive elements.
pub fn join_str(parts: &Vec<String>, sep: &str) -> (r: String)
    ensures
        r@ == spec_join(parts.deep_view(), sep@),
{
    let mut acc = String::new();
    let mut i: usize = 0;
    while i < parts.len()
        invariant
            i <= parts.len(),
            acc@ == spec_join(parts.deep_view().take(i as int), sep@),
        decreases parts.len() - i,
    {
        if i > 0 {
            acc.append(sep);
        }
        acc.append(parts[i].as_str());
        proof {
            let dv = parts.deep_view();
            assert(dv.take(i as int).push(dv[i as int]) =~= dv.take(i as int + 1));
            lemma_join_push(dv.take(i as int), dv[i as int], sep@);
        }
        i += 1;
    }
    proof {
        assert(parts.deep_view().take(parts.len() as int) =~= parts.deep_view());
    }
    acc
}

/// `s` with every repeated element removed: the first occurrence of each
/// element, in order.
pub open spec fn spec_dedup(s: Seq<Seq<char>>) -> Seq<Seq<char>>
    decreases s.len(),
{
    if s.len() == 0 {
        s
    } else {
        let prefix = spec_dedup(s.drop_last());
        if prefix.contains(s.last()) {
            prefix
        } else {
            prefix.push(s.last())
        }
    }
}

/// Removes repeated strings, keeping the first occurrence of each in
/// order: the result is duplicate-free and holds exactly the elements of
/// `src`.
pub fn dedup_strs(src: &Vec<String>) -> (r: Vec<String>)
    ensures
        r.deep_view() == spec_dedup(src.deep_view()),
        forall|a: int, b: int|
            0 <= a < b < r.deep_view().len() ==> r.deep_view()[a] != r.deep_view()[b],
        forall|x: Seq<char>|
            #[trigger] r.deep_view().contains(x) <==> src.deep_view().contains(x),
{
    let mut out: Vec<String> = Vec::new();
    proof {
        assert(src.deep_view().take(0) =~= Seq::<Seq<char>>::empty());
        assert(out.deep_view() =~= Seq::<Seq<char>>::empty());
    }
    let mut i: usize = 0;
    while i < src.len()
        invariant
            i <= src.len(),
            out.deep_view() == spec_dedup(src.deep_view().take(i as int)),
            forall|a: int, b: int|
                0 <= a < b < out.deep_view().len() ==> out.deep_view()[a] != out.deep_view()[b],
            forall|x: Seq<char>|
                #[trigger] out.deep_view().contains(x) <==> src.deep_view().take(
                    i as int,
                ).contains(x),
        decreases src.len() - i,
    {
        let ghost prev = out.deep_view();
        proof {
            assert(src.deep_view().take(i as int + 1).drop_last() =~= src.deep_view().take(
                i as int,
            ));
            assert(src.deep_view().take(i as int + 1).last() == src.deep_view()[i as int]);
        }
        if !vec_contains_str(&out, src[i].as_str()) {
            out.push(src[i].clone());
            proof {
                assert(out.deep_view() =~= prev.push(src.deep_view()[i as int]));
            }
        }
        proof {
            assert forall|x: Seq<char>| #[trigger]
                out.deep_view().contains(x) implies src.deep_view().take(i as int + 1).contains(
                x,
            ) by {
                if prev.contains(x) {
                    let j = choose|j: int|
                        0 <= j < src.deep_view().take(i as int).len() && src.deep_view().take(
                            i as int,
                        )[j] == x;
                    assert(src.deep_view().take(i as int + 1)[j] == x);
                } else {
                    assert(src.deep_view().take(i as int + 1)[i as int] == x);
                }
            }
            assert forall|x: Seq<char>| #[trigger]
                src.deep_view().take(i as int + 1).contains(x) implies out.deep_view().contains(
                x,
            ) by {
                let j = choose|j: int|
                    0 <= j < i + 1 && (#[trigger] src.deep_view().take(i as int + 1)[j]) == x;
                if j < i {
                    assert(src.deep_view().take(i as int)[j] == x);
                    assert(prev.contains(x));
                    if out.deep_view() != prev {
                        let k = choose|k: int| 0 <= k < prev.len() && prev[k] == x;
                        assert(out.deep_view()[k] == x);
                    }
                } else {
                    assert(x == src.deep_view()[i as int]);
                    if out.deep_view() != prev {
                        assert(out.deep_view() == prev.push(src.deep_view()[i as int]));
                        assert(out.deep_view()[prev.len() as int] == x);
                    }
                }
            }
        }
        i += 1;
    }
    proof {
        assert(src.deep_view().take(src.len() as int) =~= src.deep_view());
    }
    out
}

/// True iff some element of `v` is not an element of `other`.
pub fn any_not_in(v: &Vec<String>, other: &Vec<String>) -> (r: bool)
    ensures
        r == exists|k: int|
            0 <= k < v.deep_view().len() && !other.deep_view().contains(
                #[trigger] v.deep_view()[k],
            ),
{
    let mut i: usize = 0;
    while i < v.len()
        invariant
            i <= v.len(),
            forall|k: int|
                0 <= k < i ==> other.deep_view().contains(#[trigger] v.deep_view()[k]),
        decreases v.len() - i,
    {
        if !vec_contains_str(other, v[i].as_str()) {
            assert(!other.deep_view().contains(v.deep_view()[i as int]));
            return true;
        }
        i += 1;
    }
    false
}

/// An element of an inner sequence is an element of the flattened
/// sequence.
pub proof fn lemma_flatten_index<A>(s: Seq<Seq<A>>, i: int, k: int)
    requires
        0 <= i < s.len(),
        0 <= k < s[i].len(),
    ensures
        s.flatten().contains(s[i][k]),
    decreases s.len(),
{
    if i == 0 {
        assert(s.flatten() == s.first() + s.drop_first().flatten());
        assert((s.first() + s.drop_first().flatten())[k] == s[0][k]);
    } else {
        lemma_flatten_index(s.drop_first(), i - 1, k);
        let rest = s.drop_first().flatten();
        let j = choose|j: int| 0 <= j < rest.len() && rest[j] == s.drop_first()[i - 1][k];
        assert(s.flatten() == s.first() + rest);
        assert((s.first() + rest)[s.first().len() + j] == s[i][k]);
    }
}

/// True iff some element of `v` holds the same characters as `s`.
pub fn vec_contains_str(v: &Vec<String>, s: &str) -> (r: bool)
    ensures
        r == v.deep_view().contains(s@),
{
    let mut i: usize = 0;
    while i < v.len()
        invariant
            i <= v.len(),
            forall|k: int| 0 <= k < i ==> v.deep_view()[k] != s@,
        decreases v.len() - i,
    {
        if str_eq(v[i].as_str(), s) {
            assert(v.deep_view()[i as int] == s@);
            return true;
        }
        i += 1;
    }
    false
}

/// True iff some element of `v` has `p` as a prefix.
pub fn vec_contains_prefixed(v: &Vec<String>, p: &str) -> (r: bool)
    ensures
        r == exists|k: int| 0 <= k < v.deep_view().len() && p@.is_prefix_of(v.deep_view()[k]),
{
    let mut i: usize = 0;
    while i < v.len()
        invariant
            i <= v.len(),
            forall|k: int| 0 <= k < i ==> !p@.is_prefix_of(v.deep_view()[k]),
        decreases v.len() - i,
    {
        if str_starts_with(v[i].as_str(), p) {
            assert(p@.is_prefix_of(v.deep_view()[i as int]));
            return true;
        }
        i += 1;
    }
    false
}

} // verus!
