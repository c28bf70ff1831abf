//! The name of the game in the command that the game client hands over.
//!
//! The client's command holds a word that begins with `AppId=`. What stands
//! in that word behind its last `=` names the game.

use vstd::prelude::*;
use vstd::string::StrSliceExecFns;
use vstd::string::StringExecFns;

use crate::text::first_occurrence;
use crate::text::lemma_first_occurrence;
use crate::text::matches_at;
use crate::text::occurs;
use crate::text::occurs_at;
use crate::text::to_chars;

verus! {

/// What the word that names the game begins with.
pub open spec fn appid_key() -> Seq<char> {
    "AppId="@
}

/// The index of the first `ch` in `s` at or behind `from`; the length of `s`
/// where there is none.
pub open spec fn index_from(s: Seq<char>, ch: char, from: int) -> int
    decreases s.len() - from,
{
    if from >= s.len() {
        s.len() as int
    } else if s[from] == ch {
        from
    } else {
        index_from(s, ch, from + 1)
    }
}

/// The index behind the last `ch` in `s` in front of `end`; 0 where there is
/// none.
pub open spec fn behind_last(s: Seq<char>, ch: char, end: int) -> int
    decreases end,
{
    if end <= 0 {
        0
    } else if s[end - 1] == ch {
        end
    } else {
        behind_last(s, ch, end - 1)
    }
}

/// The name of the game in `command`: the first word that begins with the
/// key ends at the next blank or with the command, and the name is what it
/// holds behind its last `=`. A command without the key names no game.
pub open spec fn appid_of(command: Seq<char>) -> Option<Seq<char>> {
    if occurs(command, appid_key()) {
        let end = index_from(command, ' ', first_occurrence(command, appid_key()));
        Some(command.subrange(behind_last(command, '=', end), end))
    } else {
        None
    }
}

/// The name of the game in the command that the game client has handed
/// over, or `None` where the command names none.
pub fn appid_from_command(command: &str) -> (id: Option<String>)
    ensures
        id is Some <==> occurs(command@, appid_key()),
        id matches Some(name) ==> appid_of(command@) == Some(name@),
{
    let text = to_chars(command);
    let key = to_chars("AppId=");
    let n = text.len();
    let mut p: usize = 0;
    while p < n && !matches_at(&text, &key, p)
        invariant
            p <= n,
            n == text.len(),
            forall|q: int| 0 <= q < p ==> !occurs_at(text@, key@, q),
        decreases n - p,
    {
        p += 1;
    }
    if p >= n {
        proof {
            reveal_strlit("AppId=");
            assert forall|q: int| !occurs_at(text@, key@, q) by {}
        }
        return None;
    }
    proof {
        lemma_first_occurrence(text@, key@, p as int);
        let f = first_occurrence(text@, key@);
        assert(f == p) by {
            if f < p {
                assert(!occurs_at(text@, key@, f));
            }
        }
    }
    let mut end: usize = p;
    while end < n && text[end] != ' '
        invariant
            p <= end <= n,
            n == text.len(),
            index_from(text@, ' ', p as int) == index_from(text@, ' ', end as int),
        decreases n - end,
    {
        end += 1;
    }
    let mut start: usize = end;
    while start > 0 && text[start - 1] != '='
        invariant
            start <= end <= n,
            n == text.len(),
            behind_last(text@, '=', end as int) == behind_last(text@, '=', start as int),
        decreases start,
    {
        start -= 1;
    }
    Some(String::from_str(command.substring_char(start, end)))
}

} // verus!
