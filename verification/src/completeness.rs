//! When a substitution leaves nothing of its pattern behind.
//!
//! Replacing a pattern can bring a pattern about: what stood on both sides
//! of an occurrence stands side by side afterwards, and the text put in may
//! hold part of a pattern itself. This module states conditions under which
//! that cannot happen, for patterns that begin and end with a delimiter and
//! hold none in between, and proves that under them the patterns are gone
//! for good.

use vstd::prelude::*;

use crate::text::first_occurrence;
use crate::text::lemma_first_occurrence;
use crate::text::lemma_replace_all_behind_prefix;
use crate::text::lemma_replace_all_first_occurrence;
use crate::text::lemma_replace_all_without_occurrence;
use crate::text::occurs;
use crate::text::occurs_at;
use crate::text::replace_all;

verus! {

/// The character `d` is nowhere in `s`.
pub open spec fn free_of(s: Seq<char>, d: char) -> bool {
    forall|i: int| 0 <= i < s.len() ==> s[i] != d
}

/// `pat` is two characters long or longer, begins and ends with the
/// delimiter `d`, and holds no `d` in between.
pub open spec fn delimited(pat: Seq<char>, d: char) -> bool {
    &&& pat.len() >= 2
    &&& pat[0] == d
    &&& pat[pat.len() - 1] == d
    &&& forall|i: int| 0 < i < pat.len() - 1 ==> pat[i] != d
}

/// No character of `s` is one of `barrier`.
pub open spec fn plain(s: Seq<char>, barrier: Set<char>) -> bool {
    forall|i: int| 0 <= i < s.len() ==> !barrier.contains(s[i])
}

/// One of the characters of `s` from index `a` up to `b`, `b` left out, is
/// one of `barrier`.
pub open spec fn has_barrier(s: Seq<char>, a: int, b: int, barrier: Set<char>) -> bool {
    exists|k: int| a <= k < b && barrier.contains(s[k])
}

/// The delimiter `d` stands in `s` at `a` and at `b`, and nowhere between.
pub open spec fn adjacent(s: Seq<char>, d: char, a: int, b: int) -> bool {
    &&& 0 <= a < b < s.len()
    &&& s[a] == d
    &&& s[b] == d
    &&& forall|k: int| a < k < b ==> s[k] != d
}

/// Of two stretches of `s` that have a delimiter in common, each of them
/// reaching from one delimiter to the next, at least one holds a character
/// of `barrier`.
pub open spec fn spaced(s: Seq<char>, d: char, barrier: Set<char>) -> bool {
    forall|a: int, b: int, c: int|
        #![trigger adjacent(s, d, a, b), adjacent(s, d, b, c)]
        adjacent(s, d, a, b) && adjacent(s, d, b, c) ==> has_barrier(s, a + 1, b, barrier)
            || has_barrier(s, b + 1, c, barrier)
}

/// What is left of a spaced text behind an index is spaced.
proof fn lemma_spaced_skip(s: Seq<char>, d: char, barrier: Set<char>, n: int)
    requires
        spaced(s, d, barrier),
        0 <= n <= s.len(),
    ensures
        spaced(s.skip(n), d, barrier),
{
    let t = s.skip(n);
    assert forall|a: int, b: int, c: int|
        #![trigger adjacent(t, d, a, b), adjacent(t, d, b, c)]
        adjacent(t, d, a, b) && adjacent(t, d, b, c) implies has_barrier(t, a + 1, b, barrier)
        || has_barrier(t, b + 1, c, barrier) by {
        assert(adjacent(s, d, a + n, b + n)) by {
            assert forall|k: int| a + n < k < b + n implies s[k] != d by {
                assert(t[k - n] == s[k]);
            }
        }
        assert(adjacent(s, d, b + n, c + n)) by {
            assert forall|k: int| b + n < k < c + n implies s[k] != d by {
                assert(t[k - n] == s[k]);
            }
        }
        if has_barrier(s, a + n + 1, b + n, barrier) {
            let k = choose|k: int| a + n + 1 <= k < b + n && barrier.contains(s[k]);
            assert(barrier.contains(t[k - n]));
        } else {
            let k = choose|k: int| b + n + 1 <= k < c + n && barrier.contains(s[k]);
            assert(barrier.contains(t[k - n]));
        }
    }
}

/// A pattern that does not stand in a text does not stand in what is left
/// of the text behind an index.
proof fn lemma_occurs_skip(s: Seq<char>, pat: Seq<char>, n: int)
    requires
        !occurs(s, pat),
        0 <= n <= s.len(),
    ensures
        !occurs(s.skip(n), pat),
{
    let t = s.skip(n);
    assert forall|i: int| !occurs_at(t, pat, i) by {
        if occurs_at(t, pat, i) {
            assert(s.subrange(n + i, n + i + pat.len()) =~= t.subrange(i, i + pat.len()));
            assert(occurs_at(s, pat, n + i));
        }
    }
}

/// An occurrence of a delimited pattern reaches from one delimiter to the
/// next.
proof fn lemma_occurrence_is_adjacent(s: Seq<char>, pat: Seq<char>, d: char, i: int)
    requires
        delimited(pat, d),
        occurs_at(s, pat, i),
    ensures
        adjacent(s, d, i, i + pat.len() - 1),
        forall|k: int| 0 <= k < pat.len() ==> s[i + k] == pat[k],
{
    let sub = s.subrange(i, i + pat.len());
    assert forall|k: int| 0 <= k < pat.len() implies s[i + k] == pat[k] by {
        assert(sub[k] == s[i + k]);
    }
    assert forall|k: int| i < k < i + pat.len() - 1 implies s[k] != d by {
        assert(s[i + (k - i)] == pat[k - i]);
    }
    assert(s[i + 0] == pat[0]);
    assert(s[i + (pat.len() - 1)] == pat[pat.len() - 1]);
}

/// One substitution in a spaced text: the pattern replaced is gone, a
/// pattern that was not there has not come about, and the text is spaced
/// still. The patterns are delimited and hold no barrier character; the
/// text put in holds no delimiter.
pub proof fn lemma_replace_all_is_complete(
    s: Seq<char>,
    from: Seq<char>,
    to: Seq<char>,
    d: char,
    barrier: Set<char>,
)
    requires
        delimited(from, d),
        plain(from, barrier),
        free_of(to, d),
        spaced(s, d, barrier),
    ensures
        !occurs(replace_all(s, from, to), from),
        forall|pat: Seq<char>|
            delimited(pat, d) && plain(pat, barrier) && !occurs(s, pat) ==> !occurs(
                #[trigger] replace_all(s, from, to),
                pat,
            ),
        spaced(replace_all(s, from, to), d, barrier),
    decreases s.len(),
{
    let r = replace_all(s, from, to);
    if !occurs(s, from) {
        lemma_replace_all_without_occurrence(s, from, to);
    } else {
        let some = choose|i: int| occurs_at(s, from, i);
        lemma_first_occurrence(s, from, some);
        let p = first_occurrence(s, from);
        let m = from.len() as int;
        let pre = s.take(p);
        let rest = s.skip(p + m);
        let tail = replace_all(rest, from, to);
        lemma_replace_all_first_occurrence(s, from, to, p);
        lemma_spaced_skip(s, d, barrier, p + m);
        lemma_replace_all_is_complete(rest, from, to, d, barrier);
        lemma_occurrence_is_adjacent(s, from, d, p);
        assert(r == pre + to + tail);
        let lo = p;
        let hi = p + to.len();
        assert forall|k: int| 0 <= k < lo implies r[k] == s[k] by {}
        assert forall|k: int| lo <= k < hi implies r[k] == to[k - lo] by {}
        assert forall|k: int| hi <= k < r.len() implies r[k] == tail[k - hi] by {}
        // The stretch behind the last delimiter in front of the occurrence
        // holds a barrier character.
        assert forall|a: int| 0 <= a < p && s[a] == d && (forall|k: int| a < k < p ==> s[k] != d)
            implies has_barrier(s, a + 1, p, barrier) by {
            assert(adjacent(s, d, a, p));
            assert(adjacent(s, d, p, p + m - 1));
            if has_barrier(s, p + 1, p + m - 1, barrier) {
                let k = choose|k: int| p + 1 <= k < p + m - 1 && barrier.contains(s[k]);
                assert(s[p + (k - p)] == from[k - p]);
            }
        }
        assert forall|pat: Seq<char>|
            delimited(pat, d) && plain(pat, barrier) && (pat == from || !occurs(s, pat))
            implies !occurs(r, pat) by {
            if pat != from {
                lemma_occurs_skip(s, pat, p + m);
            }
            assert(!occurs(tail, pat));
            assert forall|i: int| !occurs_at(r, pat, i) by {
                if occurs_at(r, pat, i) {
                    lemma_occurrence_is_adjacent(r, pat, d, i);
                    let e = i + pat.len() - 1;
                    if i >= hi {
                        assert(tail.subrange(i - hi, i - hi + pat.len()) =~= r.subrange(
                            i,
                            i + pat.len(),
                        ));
                        assert(occurs_at(tail, pat, i - hi));
                    } else if i >= lo {
                        assert(to[i - lo] != d);
                    } else if e < lo {
                        assert(s.subrange(i, i + pat.len()) =~= r.subrange(i, i + pat.len()));
                        assert(occurs_at(s, pat, i));
                    } else if e < hi {
                        assert(to[e - lo] != d);
                    } else {
                        assert forall|k: int| i < k < p implies s[k] != d by {
                            assert(r[k] == s[k]);
                        }
                        assert(has_barrier(s, i + 1, p, barrier));
                        let k = choose|k: int| i + 1 <= k < p && barrier.contains(s[k]);
                        assert(r[i + (k - i)] == pat[k - i]);
                    }
                }
            }
        }
        assert forall|a: int, b: int, c: int|
            #![trigger adjacent(r, d, a, b), adjacent(r, d, b, c)]
            adjacent(r, d, a, b) && adjacent(r, d, b, c) implies has_barrier(r, a + 1, b, barrier)
            || has_barrier(r, b + 1, c, barrier) by {
            assert(!(lo <= a < hi)) by {
                if lo <= a < hi {
                    assert(to[a - lo] != d);
                }
            }
            assert(!(lo <= b < hi)) by {
                if lo <= b < hi {
                    assert(to[b - lo] != d);
                }
            }
            assert(!(lo <= c < hi)) by {
                if lo <= c < hi {
                    assert(to[c - lo] != d);
                }
            }
            if c < lo {
                assert(adjacent(s, d, a, b));
                assert(adjacent(s, d, b, c));
                if has_barrier(s, a + 1, b, barrier) {
                    let k = choose|k: int| a + 1 <= k < b && barrier.contains(s[k]);
                    assert(barrier.contains(r[k]));
                } else {
                    let k = choose|k: int| b + 1 <= k < c && barrier.contains(s[k]);
                    assert(barrier.contains(r[k]));
                }
            } else if a >= hi {
                assert(adjacent(tail, d, a - hi, b - hi)) by {
                    assert forall|k: int| a - hi < k < b - hi implies tail[k] != d by {
                        assert(r[k + hi] == tail[k]);
                    }
                }
                assert(adjacent(tail, d, b - hi, c - hi)) by {
                    assert forall|k: int| b - hi < k < c - hi implies tail[k] != d by {
                        assert(r[k + hi] == tail[k]);
                    }
                }
                if has_barrier(tail, a - hi + 1, b - hi, barrier) {
                    let k = choose|k: int| a - hi + 1 <= k < b - hi && barrier.contains(tail[k]);
                    assert(barrier.contains(r[k + hi]));
                } else {
                    let k = choose|k: int| b - hi + 1 <= k < c - hi && barrier.contains(tail[k]);
                    assert(barrier.contains(r[k + hi]));
                }
            } else if b >= hi {
                assert forall|k: int| a < k < p implies s[k] != d by {
                    assert(r[k] == s[k]);
                }
                assert(has_barrier(s, a + 1, p, barrier));
                let k = choose|k: int| a + 1 <= k < p && barrier.contains(s[k]);
                assert(barrier.contains(r[k]));
            } else {
                assert forall|k: int| b < k < p implies s[k] != d by {
                    assert(r[k] == s[k]);
                }
                assert(has_barrier(s, b + 1, p, barrier));
                let k = choose|k: int| b + 1 <= k < p && barrier.contains(s[k]);
                assert(barrier.contains(r[k]));
            }
        }
    }
}

/// What stands in a spaced text in front of an index is spaced.
proof fn lemma_spaced_take(s: Seq<char>, d: char, barrier: Set<char>, n: int)
    requires
        spaced(s, d, barrier),
        0 <= n <= s.len(),
    ensures
        spaced(s.take(n), d, barrier),
{
    let t = s.take(n);
    assert forall|a: int, b: int, c: int|
        #![trigger adjacent(t, d, a, b), adjacent(t, d, b, c)]
        adjacent(t, d, a, b) && adjacent(t, d, b, c) implies has_barrier(t, a + 1, b, barrier)
        || has_barrier(t, b + 1, c, barrier) by {
        assert(adjacent(s, d, a, b)) by {
            assert forall|k: int| a < k < b implies s[k] != d by {
                assert(t[k] == s[k]);
            }
        }
        assert(adjacent(s, d, b, c)) by {
            assert forall|k: int| b < k < c implies s[k] != d by {
                assert(t[k] == s[k]);
            }
        }
        if has_barrier(s, a + 1, b, barrier) {
            let k = choose|k: int| a + 1 <= k < b && barrier.contains(s[k]);
            assert(barrier.contains(t[k]));
        } else {
            let k = choose|k: int| b + 1 <= k < c && barrier.contains(s[k]);
            assert(barrier.contains(t[k]));
        }
    }
}

/// In a spaced text, a pattern that begins in front of a field ends in
/// front of it, and no pattern but the field itself begins within the field.
/// Field and pattern are delimited and hold no barrier character.
proof fn lemma_field_stands_alone(
    a: Seq<char>,
    field: Seq<char>,
    b: Seq<char>,
    pat: Seq<char>,
    d: char,
    barrier: Set<char>,
    q: int,
)
    requires
        delimited(field, d),
        plain(field, barrier),
        delimited(pat, d),
        plain(pat, barrier),
        spaced(a + field + b, d, barrier),
        occurs_at(a + field + b, pat, q),
        q < a.len() + field.len(),
    ensures
        q + pat.len() <= a.len() || (q == a.len() && pat == field),
{
    let s = a + field + b;
    let lo = a.len() as int;
    let hi = lo + field.len() - 1;
    let e = q + pat.len() - 1;
    assert(s.subrange(lo, lo + field.len()) =~= field);
    assert(occurs_at(s, field, lo));
    lemma_occurrence_is_adjacent(s, field, d, lo);
    lemma_occurrence_is_adjacent(s, pat, d, q);
    if q < lo {
        if e >= lo {
            assert(e == lo);
            if has_barrier(s, q + 1, e, barrier) {
                let k = choose|k: int| q + 1 <= k < e && barrier.contains(s[k]);
                assert(s[q + (k - q)] == pat[k - q]);
            } else {
                let k = choose|k: int| lo + 1 <= k < hi && barrier.contains(s[k]);
                assert(s[lo + (k - lo)] == field[k - lo]);
            }
        }
    } else if q == lo {
        assert(e == hi);
        assert(pat =~= field) by {
            assert forall|k: int| 0 <= k < pat.len() implies pat[k] == field[k] by {
                assert(s[q + k] == pat[k]);
                assert(s[lo + k] == field[k]);
            }
        }
    } else if q < hi {
        assert(s[lo + (q - lo)] == field[q - lo]);
        assert(s[q + 0] == pat[0]);
    } else {
        if has_barrier(s, lo + 1, hi, barrier) {
            let k = choose|k: int| lo + 1 <= k < hi && barrier.contains(s[k]);
            assert(s[lo + (k - lo)] == field[k - lo]);
        } else {
            let k = choose|k: int| q + 1 <= k < e && barrier.contains(s[k]);
            assert(s[q + (k - q)] == pat[k - q]);
        }
    }
}

/// A substitution in a spaced text passes a field of another pattern by:
/// what is in front of the field and what is behind it are substituted in
/// as if each stood alone. Field and pattern are delimited and hold no
/// barrier character.
pub proof fn lemma_replace_all_around_field(
    a: Seq<char>,
    field: Seq<char>,
    b: Seq<char>,
    from: Seq<char>,
    to: Seq<char>,
    d: char,
    barrier: Set<char>,
)
    requires
        delimited(field, d),
        plain(field, barrier),
        delimited(from, d),
        plain(from, barrier),
        from != field,
        spaced(a + field + b, d, barrier),
    ensures
        replace_all(a + field + b, from, to) == replace_all(a, from, to) + field + replace_all(
            b,
            from,
            to,
        ),
    decreases a.len(),
{
    let s = a + field + b;
    let m = from.len() as int;
    if !occurs(a, from) {
        let n = (a.len() + field.len()) as int;
        assert forall|q: int| 0 <= q < n implies !occurs_at(s, from, q) by {
            if occurs_at(s, from, q) {
                lemma_field_stands_alone(a, field, b, from, d, barrier, q);
                assert(a.subrange(q, q + m) =~= s.subrange(q, q + m));
                assert(occurs_at(a, from, q));
            }
        }
        lemma_replace_all_behind_prefix(s, from, to, n);
        lemma_replace_all_without_occurrence(a, from, to);
        assert(s.take(n) =~= a + field);
        assert(s.skip(n) =~= b);
    } else {
        let some = choose|i: int| occurs_at(a, from, i);
        lemma_first_occurrence(a, from, some);
        let p = first_occurrence(a, from);
        let rest = a.skip(p + m);
        assert(s.subrange(p, p + m) =~= a.subrange(p, p + m));
        assert forall|q: int| 0 <= q < p implies !occurs_at(s, from, q) by {
            if occurs_at(s, from, q) {
                assert(a.subrange(q, q + m) =~= s.subrange(q, q + m));
                assert(occurs_at(a, from, q));
            }
        }
        lemma_replace_all_first_occurrence(s, from, to, p);
        lemma_replace_all_first_occurrence(a, from, to, p);
        assert(s.skip(p + m) =~= rest + field + b);
        lemma_spaced_skip(s, d, barrier, p + m);
        lemma_replace_all_around_field(rest, field, b, from, to, d, barrier);
        assert(s.take(p) =~= a.take(p));
        assert(a.take(p) + to + (replace_all(rest, from, to) + field + replace_all(b, from, to))
            =~= (a.take(p) + to + replace_all(rest, from, to)) + field + replace_all(b, from, to));
    }
}

/// In a spaced text that holds a field once, what is in front of the field
/// and what is behind it is spaced, and the field stands in the text where
/// it was put and nowhere else.
pub proof fn lemma_single_field(
    a: Seq<char>,
    field: Seq<char>,
    b: Seq<char>,
    d: char,
    barrier: Set<char>,
)
    requires
        delimited(field, d),
        plain(field, barrier),
        spaced(a + field + b, d, barrier),
        !occurs(a, field),
        !occurs(b, field),
    ensures
        spaced(a, d, barrier),
        spaced(b, d, barrier),
        forall|q: int| occurs_at(a + field + b, field, q) ==> q == a.len(),
{
    let s = a + field + b;
    let n = (a.len() + field.len()) as int;
    lemma_spaced_take(s, d, barrier, a.len() as int);
    assert(s.take(a.len() as int) =~= a);
    lemma_spaced_skip(s, d, barrier, n);
    assert(s.skip(n) =~= b);
    assert forall|q: int| occurs_at(s, field, q) implies q == a.len() by {
        if q < n {
            lemma_field_stands_alone(a, field, b, field, d, barrier, q);
            if q != a.len() {
                assert(a.subrange(q, q + field.len()) =~= s.subrange(q, q + field.len()));
                assert(occurs_at(a, field, q));
            }
        } else {
            assert(b.subrange(q - n, q - n + field.len()) =~= s.subrange(q, q + field.len()));
            assert(occurs_at(b, field, q - n));
        }
    }
}

} // verus!
