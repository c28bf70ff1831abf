//! Literal substitution in character sequences.
//!
//! A pattern is replaced wherever it stands, scanning from the left: once an
//! occurrence is replaced the scan goes on behind it, so occurrences never
//! overlap and the text put in is not scanned again.

use vstd::prelude::*;
use vstd::string::StrSliceExecFns;
use vstd::string::StringExecFns;

verus! {

/// `pat` stands in `s` at index `i`.
pub open spec fn occurs_at(s: Seq<char>, pat: Seq<char>, i: int) -> bool {
    0 <= i && i + pat.len() <= s.len() && s.subrange(i, i + pat.len()) == pat
}

/// `pat` stands somewhere in `s`.
pub open spec fn occurs(s: Seq<char>, pat: Seq<char>) -> bool {
    exists|i: int| occurs_at(s, pat, i)
}

/// The first place at which `pat` stands in `s`, where it stands in `s`.
pub open spec fn first_occurrence(s: Seq<char>, pat: Seq<char>) -> int {
    choose|p: int| occurs_at(s, pat, p) && forall|q: int| 0 <= q < p ==> !occurs_at(s, pat, q)
}

/// A pattern that stands in a text stands at a first place in it.
pub proof fn lemma_first_occurrence(s: Seq<char>, pat: Seq<char>, upto: int)
    requires
        occurs_at(s, pat, upto),
    ensures
        occurs_at(s, pat, first_occurrence(s, pat)),
        forall|q: int| 0 <= q < first_occurrence(s, pat) ==> !occurs_at(s, pat, q),
    decreases upto,
{
    if exists|q: int| 0 <= q < upto && occurs_at(s, pat, q) {
        let q = choose|q: int| 0 <= q < upto && occurs_at(s, pat, q);
        lemma_first_occurrence(s, pat, q);
    } else {
        assert(occurs_at(s, pat, upto) && forall|q: int|
            0 <= q < upto ==> !occurs_at(s, pat, q));
    }
}

/// `s` with every occurrence of `from` replaced by `to`, left to right and
/// without overlap. An empty `from` replaces nothing.
pub open spec fn replace_all(s: Seq<char>, from: Seq<char>, to: Seq<char>) -> Seq<char>
    decreases s.len(),
{
    if from.len() == 0 || s.len() < from.len() {
        s
    } else if s.subrange(0, from.len() as int) == from {
        to + replace_all(s.skip(from.len() as int), from, to)
    } else {
        s.take(1) + replace_all(s.skip(1), from, to)
    }
}

/// The characters of a string slice, in order.
pub fn to_chars(s: &str) -> (v: Vec<char>)
    ensures
        v@ == s@,
{
    broadcast use vstd::string::group_string_axioms;

    let mut v: Vec<char> = Vec::new();
    for c in it: s.chars()
        invariant
            it.seq() == s@,
            v@ == s@.take(it.index()),
    {
        assert(s@.take(it.index() + 1) == s@.take(it.index()).push(c));
        v.push(c);
    }
    v
}

/// Whether `pat` stands in `s` at index `i`.
pub fn matches_at(s: &Vec<char>, pat: &Vec<char>, i: usize) -> (b: bool)
    ensures
        b == occurs_at(s@, pat@, i as int),
{
    if pat.len() > s.len() || i > s.len() - pat.len() {
        return false;
    }
    let mut k: usize = 0;
    while k < pat.len()
        invariant
            k <= pat.len(),
            i + pat.len() <= s.len(),
            forall|j: int| 0 <= j < k ==> s@[i + j] == pat@[j],
        decreases pat.len() - k,
    {
        if s[i + k] != pat[k] {
            assert(s@.subrange(i as int, i + pat.len())[k as int] != pat@[k as int]);
            return false;
        }
        k += 1;
    }
    assert(s@.subrange(i as int, i + pat.len()) =~= pat@);
    true
}

/// One step of the scan: where `from` stands at the head of what is left,
/// it is replaced; elsewhere one character is passed over.
proof fn lemma_replace_all_step(s: Seq<char>, from: Seq<char>, to: Seq<char>, i: int)
    requires
        from.len() > 0,
        0 <= i,
        i + from.len() <= s.len(),
    ensures
        occurs_at(s, from, i) ==> replace_all(s.skip(i), from, to) == to + replace_all(
            s.skip(i + from.len()),
            from,
            to,
        ),
        !occurs_at(s, from, i) ==> replace_all(s.skip(i), from, to) == seq![s[i]] + replace_all(
            s.skip(i + 1),
            from,
            to,
        ),
{
    let rest = s.skip(i);
    assert(rest.subrange(0, from.len() as int) =~= s.subrange(i, i + from.len()));
    assert(rest.skip(from.len() as int) =~= s.skip(i + from.len()));
    assert(rest.skip(1) =~= s.skip(i + 1));
    assert(rest.take(1) =~= seq![s[i]]);
}

/// Replaces every occurrence of `from` in `s` by `to`, scanning from the left.
/// An empty `from` leaves `s` as it is.
pub fn replace(s: &str, from: &str, to: &str) -> (out: String)
    ensures
        out@ == replace_all(s@, from@, to@),
{
    let text = to_chars(s);
    let pat = to_chars(from);
    let n = text.len();
    let m = pat.len();
    if m == 0 || n < m {
        return String::from_str(s);
    }
    let mut out = String::new();
    let mut start: usize = 0;
    let mut i: usize = 0;
    assert(s@.skip(0) =~= s@);
    while i <= n - m
        invariant
            text@ == s@,
            pat@ == from@,
            n == text.len(),
            m == pat.len(),
            0 < m <= n,
            start <= i <= n,
            replace_all(s@, from@, to@) == out@ + s@.subrange(start as int, i as int)
                + replace_all(s@.skip(i as int), from@, to@),
        decreases n - i,
    {
        proof {
            lemma_replace_all_step(s@, from@, to@, i as int);
        }
        if matches_at(&text, &pat, i) {
            out.append(s.substring_char(start, i));
            out.append(to);
            i += m;
            start = i;
            assert(s@.subrange(start as int, i as int) =~= Seq::<char>::empty());
        } else {
            assert(s@.subrange(start as int, i as int) + seq![s@[i as int]] =~= s@.subrange(
                start as int,
                i + 1,
            ));
            i += 1;
        }
    }
    assert(s@.subrange(start as int, i as int) + s@.skip(i as int) =~= s@.subrange(
        start as int,
        n as int,
    ));
    out.append(s.substring_char(start, n));
    out
}

/// Where `from` does not stand in `s`, nothing is replaced.
pub proof fn lemma_replace_all_without_occurrence(s: Seq<char>, from: Seq<char>, to: Seq<char>)
    requires
        !occurs(s, from),
    ensures
        replace_all(s, from, to) == s,
    decreases s.len(),
{
    if from.len() > 0 && s.len() >= from.len() {
        assert(!occurs_at(s, from, 0));
        let rest = s.skip(1);
        assert forall|i: int| !occurs_at(rest, from, i) by {
            if occurs_at(rest, from, i) {
                assert(s.subrange(i + 1, i + 1 + from.len()) =~= rest.subrange(i, i + from.len()));
                assert(occurs_at(s, from, i + 1));
            }
        }
        lemma_replace_all_without_occurrence(rest, from, to);
        assert(s.take(1) + rest =~= s);
    }
}

/// Up to the first place at which `from` stands in `s` nothing changes; there
/// `to` is put in, and the scan goes on behind the occurrence.
pub proof fn lemma_replace_all_first_occurrence(
    s: Seq<char>,
    from: Seq<char>,
    to: Seq<char>,
    p: int,
)
    requires
        from.len() > 0,
        occurs_at(s, from, p),
        forall|q: int| 0 <= q < p ==> !occurs_at(s, from, q),
    ensures
        replace_all(s, from, to) == s.take(p) + to + replace_all(
            s.skip(p + from.len()),
            from,
            to,
        ),
    decreases p,
{
    if p == 0 {
        assert(s.take(0) + to =~= to);
    } else {
        assert(!occurs_at(s, from, 0));
        let rest = s.skip(1);
        assert(rest.subrange(p - 1, p - 1 + from.len()) =~= s.subrange(p, p + from.len()));
        assert forall|q: int| 0 <= q < p - 1 implies !occurs_at(rest, from, q) by {
            if occurs_at(rest, from, q) {
                assert(s.subrange(q + 1, q + 1 + from.len()) =~= rest.subrange(q, q + from.len()));
                assert(occurs_at(s, from, q + 1));
            }
        }
        lemma_replace_all_first_occurrence(rest, from, to, p - 1);
        assert(rest.skip(p - 1 + from.len()) =~= s.skip(p + from.len()));
        assert(s.take(1) + (rest.take(p - 1) + to + replace_all(
            s.skip(p + from.len()),
            from,
            to,
        )) =~= s.take(p) + to + replace_all(s.skip(p + from.len()), from, to));
    }
}

/// In front of an index up to which `from` stands nowhere, nothing changes,
/// and behind it the scan starts anew.
pub proof fn lemma_replace_all_behind_prefix(
    s: Seq<char>,
    from: Seq<char>,
    to: Seq<char>,
    n: int,
)
    requires
        0 <= n <= s.len(),
        forall|q: int| 0 <= q < n ==> !occurs_at(s, from, q),
    ensures
        replace_all(s, from, to) == s.take(n) + replace_all(s.skip(n), from, to),
    decreases n,
{
    if n == 0 {
        assert(s.skip(0) =~= s);
        assert(s.take(0) + s =~= s);
    } else if from.len() == 0 || s.len() < from.len() {
        assert(s.take(n) + s.skip(n) =~= s);
    } else {
        assert(!occurs_at(s, from, 0));
        let rest = s.skip(1);
        assert forall|q: int| 0 <= q < n - 1 implies !occurs_at(rest, from, q) by {
            if occurs_at(rest, from, q) {
                assert(s.subrange(q + 1, q + 1 + from.len()) =~= rest.subrange(q, q + from.len()));
                assert(occurs_at(s, from, q + 1));
            }
        }
        lemma_replace_all_behind_prefix(rest, from, to, n - 1);
        assert(rest.skip(n - 1) =~= s.skip(n));
        assert(s.take(1) + (rest.take(n - 1) + replace_all(s.skip(n), from, to)) =~= s.take(n)
            + replace_all(s.skip(n), from, to));
    }
}

} // verus!
