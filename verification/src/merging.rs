//! The merge of the shared configuration into a game's own.
//!
//! A merge takes over what the user has not edited: the template, and of
//! every shared option the replacement, into the first entry with the same
//! token that is still as it came. A shared option that finds no such entry
//! is appended.

use vstd::prelude::*;

use crate::game_config::ConfigModel;
use crate::game_config::OptionModel;

verus! {

/// An entry that a merge may overwrite with the shared option for `token`.
pub open spec fn adoptable(o: OptionModel, token: Seq<char>) -> bool {
    !o.modified && o.token == token
}

/// The index of the first entry of `options` that is adoptable for `token`;
/// the length of `options` where there is none.
pub open spec fn first_adoptable(options: Seq<OptionModel>, token: Seq<char>) -> int
    decreases options.len(),
{
    if options.len() == 0 {
        0
    } else if adoptable(options[0], token) {
        0
    } else {
        1 + first_adoptable(options.skip(1), token)
    }
}

/// `options` after the shared option `g` has been merged in: the first
/// adoptable entry takes its token and replacement and keeps its own flags;
/// where there is none, `g` is appended as it is.
pub open spec fn adopt(options: Seq<OptionModel>, g: OptionModel) -> Seq<OptionModel> {
    let i = first_adoptable(options, g.token);
    if i < options.len() {
        options.update(
            i,
            OptionModel {
                token: g.token,
                replacement: g.replacement,
                enabled: options[i].enabled,
                modified: options[i].modified,
            },
        )
    } else {
        options.push(g)
    }
}

/// `options` after the shared options `shared` have been merged in, first to
/// last.
pub open spec fn adopt_all(options: Seq<OptionModel>, shared: Seq<OptionModel>) -> Seq<
    OptionModel,
>
    decreases shared.len(),
{
    if shared.len() == 0 {
        options
    } else {
        adopt(adopt_all(options, shared.drop_last()), shared.last())
    }
}

/// The configuration `subject` after the shared configuration `shared` has
/// been merged into it. The template is taken over unless the user has edited
/// it; the options are merged one by one; nothing else changes.
pub open spec fn merge(subject: ConfigModel, shared: ConfigModel) -> ConfigModel {
    ConfigModel {
        launch_template: if subject.template_modified {
            subject.launch_template
        } else {
            shared.launch_template
        },
        options: adopt_all(subject.options, shared.options),
        ..subject
    }
}

/// An index up to which no entry is adoptable, and which is the end of the
/// list or holds an adoptable entry, is the first adoptable one.
pub proof fn lemma_first_adoptable_is(options: Seq<OptionModel>, token: Seq<char>, i: int)
    requires
        0 <= i <= options.len(),
        forall|j: int| 0 <= j < i ==> !adoptable(#[trigger] options[j], token),
        i < options.len() ==> adoptable(options[i], token),
    ensures
        first_adoptable(options, token) == i,
    decreases options.len(),
{
    if options.len() > 0 && i > 0 {
        assert(!adoptable(options[0], token));
        let rest = options.skip(1);
        assert forall|j: int| 0 <= j < i - 1 implies !adoptable(#[trigger] rest[j], token) by {
            assert(rest[j] == options[j + 1]);
        }
        lemma_first_adoptable_is(rest, token, i - 1);
    }
}

/// The first adoptable entry is adoptable, and no entry in front of it is.
pub proof fn lemma_first_adoptable_bounds(options: Seq<OptionModel>, token: Seq<char>)
    ensures
        0 <= first_adoptable(options, token) <= options.len(),
        first_adoptable(options, token) < options.len() ==> adoptable(
            options[first_adoptable(options, token)],
            token,
        ),
        forall|j: int|
            0 <= j < first_adoptable(options, token) ==> !adoptable(#[trigger] options[j], token),
    decreases options.len(),
{
    if options.len() > 0 && !adoptable(options[0], token) {
        let rest = options.skip(1);
        lemma_first_adoptable_bounds(rest, token);
        let f = first_adoptable(rest, token);
        assert forall|j: int| 0 <= j < f + 1 implies !adoptable(#[trigger] options[j], token) by {
            if j > 0 {
                assert(options[j] == rest[j - 1]);
            }
        }
    }
}

/// Merging one shared option in removes nothing and moves nothing: every
/// entry keeps its place, its token and its flags, and an entry that the user
/// has edited is kept whole.
pub proof fn lemma_adopt_keeps_entries(options: Seq<OptionModel>, g: OptionModel)
    ensures
        options.len() <= adopt(options, g).len() <= options.len() + 1,
        forall|i: int|
            0 <= i < options.len() ==> {
                &&& (#[trigger] adopt(options, g)[i]).token == options[i].token
                &&& adopt(options, g)[i].enabled == options[i].enabled
                &&& adopt(options, g)[i].modified == options[i].modified
                &&& options[i].modified ==> adopt(options, g)[i] == options[i]
            },
        exists|i: int| 0 <= i < adopt(options, g).len() && adopt(options, g)[i].token == g.token,
{
    lemma_first_adoptable_bounds(options, g.token);
    let f = first_adoptable(options, g.token);
    assert(adopt(options, g)[f].token == g.token);
}

/// Merging shared options in removes nothing and moves nothing: every entry
/// keeps its place, its token and its flags, an entry that the user has
/// edited is kept whole, and the token of every shared option is in the list
/// afterwards.
pub proof fn lemma_adopt_all_keeps_entries(options: Seq<OptionModel>, shared: Seq<OptionModel>)
    ensures
        options.len() <= adopt_all(options, shared).len() <= options.len() + shared.len(),
        forall|i: int|
            0 <= i < options.len() ==> {
                &&& (#[trigger] adopt_all(options, shared)[i]).token == options[i].token
                &&& adopt_all(options, shared)[i].enabled == options[i].enabled
                &&& adopt_all(options, shared)[i].modified == options[i].modified
                &&& options[i].modified ==> adopt_all(options, shared)[i] == options[i]
            },
        forall|k: int|
            0 <= k < shared.len() ==> exists|i: int|
                0 <= i < adopt_all(options, shared).len() && adopt_all(options, shared)[i].token
                    == (#[trigger] shared[k]).token,
    decreases shared.len(),
{
    if shared.len() > 0 {
        let before = adopt_all(options, shared.drop_last());
        let after = adopt_all(options, shared);
        lemma_adopt_all_keeps_entries(options, shared.drop_last());
        lemma_adopt_keeps_entries(before, shared.last());
        assert forall|i: int| 0 <= i < options.len() implies {
            &&& (#[trigger] after[i]).token == options[i].token
            &&& after[i].enabled == options[i].enabled
            &&& after[i].modified == options[i].modified
            &&& options[i].modified ==> after[i] == options[i]
        } by {
            assert(before[i].token == options[i].token);
            assert(after[i].token == before[i].token);
        }
        assert forall|k: int| 0 <= k < shared.len() implies exists|i: int|
            0 <= i < after.len() && after[i].token == (#[trigger] shared[k]).token by {
            if k < shared.len() - 1 {
                assert(shared.drop_last()[k] == shared[k]);
                let i = choose|i: int|
                    0 <= i < before.len() && before[i].token == shared.drop_last()[k].token;
                assert(after[i].token == before[i].token);
            }
        }
    }
}

/// A merge overwrites nothing that the user has edited: an edited option is
/// the same afterwards, an edited template too. Every option keeps its place,
/// its token and its flags; the flag of the template, the name of the game
/// and the two lists of commands are as before.
pub proof fn lemma_merge_keeps_edits(subject: ConfigModel, shared: ConfigModel)
    ensures
        subject.options.len() <= merge(subject, shared).options.len(),
        forall|i: int|
            0 <= i < subject.options.len() ==> {
                &&& (#[trigger] merge(subject, shared).options[i]).token
                    == subject.options[i].token
                &&& merge(subject, shared).options[i].enabled == subject.options[i].enabled
                &&& merge(subject, shared).options[i].modified == subject.options[i].modified
                &&& subject.options[i].modified ==> merge(subject, shared).options[i]
                    == subject.options[i]
            },
        subject.template_modified ==> merge(subject, shared).launch_template
            == subject.launch_template,
        !subject.template_modified ==> merge(subject, shared).launch_template
            == shared.launch_template,
        merge(subject, shared).template_modified == subject.template_modified,
        merge(subject, shared).subject == subject.subject,
        merge(subject, shared).pre_launch == subject.pre_launch,
        merge(subject, shared).post_exit == subject.post_exit,
{
    lemma_adopt_all_keeps_entries(subject.options, shared.options);
}

/// After a merge the token of every shared option is among the options.
pub proof fn lemma_merge_holds_shared_tokens(subject: ConfigModel, shared: ConfigModel, k: int)
    requires
        0 <= k < shared.options.len(),
    ensures
        exists|i: int|
            0 <= i < merge(subject, shared).options.len() && merge(subject, shared).options[i].token
                == shared.options[k].token,
{
    lemma_adopt_all_keeps_entries(subject.options, shared.options);
    let merged = adopt_all(subject.options, shared.options);
    let g = shared.options[k];
    let i = choose|i: int| 0 <= i < merged.len() && merged[i].token == g.token;
    assert(merge(subject, shared).options[i].token == g.token);
}

/// A shared option is taken over by the first entry with its token that the
/// user has not edited: that entry gets the shared replacement and keeps its
/// flags, and nothing else changes.
pub proof fn lemma_merge_adopts(subject: ConfigModel, shared: ConfigModel, i: int)
    requires
        shared.options.len() == 1,
        0 <= i < subject.options.len(),
        adoptable(subject.options[i], shared.options[0].token),
        forall|j: int|
            0 <= j < i ==> !adoptable(#[trigger] subject.options[j], shared.options[0].token),
    ensures
        merge(subject, shared).options == subject.options.update(
            i,
            OptionModel { replacement: shared.options[0].replacement, ..subject.options[i] },
        ),
{
    let g = shared.options[0];
    reveal_with_fuel(adopt_all, 2);
    lemma_first_adoptable_is(subject.options, g.token, i);
    assert(adopt(subject.options, g) =~= subject.options.update(
        i,
        OptionModel { replacement: g.replacement, ..subject.options[i] },
    ));
}

/// A shared option for which no entry can be adopted, because none has its
/// token or the user has edited all that have, is appended as it is.
pub proof fn lemma_merge_appends(subject: ConfigModel, shared: ConfigModel)
    requires
        shared.options.len() == 1,
        forall|j: int|
            0 <= j < subject.options.len() ==> !adoptable(
                #[trigger] subject.options[j],
                shared.options[0].token,
            ),
    ensures
        merge(subject, shared).options == subject.options.push(shared.options[0]),
{
    reveal_with_fuel(adopt_all, 2);
    let end = subject.options.len() as int;
    lemma_first_adoptable_is(subject.options, shared.options[0].token, end);
}

/// The replacement that the shared options hold for `token`: that of the
/// last of them with this token.
pub open spec fn shared_replacement(shared: Seq<OptionModel>, token: Seq<char>) -> Option<
    Seq<char>,
>
    decreases shared.len(),
{
    if shared.len() == 0 {
        None
    } else if shared.last().token == token {
        Some(shared.last().replacement)
    } else {
        shared_replacement(shared.drop_last(), token)
    }
}

/// For every token of the shared options, `options` has an adoptable entry,
/// and the first of them holds the shared replacement.
pub open spec fn settled(options: Seq<OptionModel>, shared: Seq<OptionModel>) -> bool {
    forall|token: Seq<char>| #[trigger]
        shared_replacement(shared, token) is Some ==> first_adoptable(options, token)
            < options.len() && options[first_adoptable(options, token)].replacement
            == shared_replacement(shared, token)->0
}

/// `options` with the shared replacement in every entry that is the first
/// adoptable one for its token.
spec fn settle(options: Seq<OptionModel>, shared: Seq<OptionModel>) -> Seq<OptionModel> {
    Seq::new(
        options.len(),
        |i: int|
            if first_adoptable(options, options[i].token) == i && shared_replacement(
                shared,
                options[i].token,
            ) is Some {
                OptionModel {
                    replacement: shared_replacement(shared, options[i].token)->0,
                    ..options[i]
                }
            } else {
                options[i]
            },
    )
}

/// Lists that agree in the tokens and in the marks of their entries have
/// the same first adoptable entry.
proof fn lemma_first_adoptable_agrees(a: Seq<OptionModel>, b: Seq<OptionModel>, token: Seq<char>)
    requires
        first_adoptable(a, token) < a.len(),
        a.len() <= b.len(),
        forall|i: int|
            0 <= i < a.len() ==> (#[trigger] b[i]).token == a[i].token && b[i].modified
                == a[i].modified,
    ensures
        first_adoptable(b, token) == first_adoptable(a, token),
{
    lemma_first_adoptable_bounds(a, token);
    let f = first_adoptable(a, token);
    assert forall|j: int| 0 <= j < f implies !adoptable(#[trigger] b[j], token) by {
        assert(!adoptable(a[j], token));
    }
    assert(adoptable(a[f], token));
    lemma_first_adoptable_is(b, token, f);
}

/// After a merge of shared options that bear no mark, the list is settled.
proof fn lemma_adopt_all_settles(options: Seq<OptionModel>, shared: Seq<OptionModel>)
    requires
        forall|k: int| 0 <= k < shared.len() ==> !(#[trigger] shared[k]).modified,
    ensures
        settled(adopt_all(options, shared), shared),
    decreases shared.len(),
{
    if shared.len() > 0 {
        let earlier = shared.drop_last();
        let g = shared.last();
        let before = adopt_all(options, earlier);
        let after = adopt_all(options, shared);
        assert forall|k: int| 0 <= k < earlier.len() implies !(#[trigger] earlier[k]).modified by {
            assert(earlier[k] == shared[k]);
        }
        lemma_adopt_all_settles(options, earlier);
        lemma_adopt_keeps_entries(before, g);
        lemma_first_adoptable_bounds(before, g.token);
        let fg = first_adoptable(before, g.token);
        assert forall|token: Seq<char>| #[trigger]
            shared_replacement(shared, token) is Some implies first_adoptable(after, token)
            < after.len() && after[first_adoptable(after, token)].replacement
            == shared_replacement(shared, token)->0 by {
            if token == g.token {
                if fg < before.len() {
                    lemma_first_adoptable_agrees(before, after, token);
                } else {
                    assert forall|j: int| 0 <= j < fg implies !adoptable(
                        #[trigger] after[j],
                        token,
                    ) by {
                        assert(!adoptable(before[j], token));
                    }
                    assert(after[fg] == g);
                    lemma_first_adoptable_is(after, token, fg);
                }
            } else {
                assert(shared_replacement(shared, token) == shared_replacement(earlier, token));
                assert(shared_replacement(earlier, token) is Some);
                lemma_first_adoptable_bounds(before, token);
                let f = first_adoptable(before, token);
                lemma_first_adoptable_agrees(before, after, token);
                assert(after[f] == before[f]);
            }
        }
    }
}

/// In a list that has an adoptable entry for every token of the shared
/// options, a merge puts the shared replacements into those entries and does
/// no more.
proof fn lemma_adopt_all_in_covering_list(options: Seq<OptionModel>, shared: Seq<OptionModel>)
    requires
        forall|token: Seq<char>| #[trigger]
            shared_replacement(shared, token) is Some ==> first_adoptable(options, token)
                < options.len(),
    ensures
        adopt_all(options, shared) == settle(options, shared),
    decreases shared.len(),
{
    if shared.len() == 0 {
        assert(settle(options, shared) =~= options);
    } else {
        let earlier = shared.drop_last();
        let g = shared.last();
        assert forall|token: Seq<char>| #[trigger]
            shared_replacement(earlier, token) is Some implies first_adoptable(options, token)
            < options.len() by {
            assert(shared_replacement(shared, token) is Some);
        }
        lemma_adopt_all_in_covering_list(options, earlier);
        let before = settle(options, earlier);
        assert(shared_replacement(shared, g.token) is Some);
        lemma_first_adoptable_bounds(options, g.token);
        let f = first_adoptable(options, g.token);
        lemma_first_adoptable_agrees(options, before, g.token);
        let after = adopt(before, g);
        assert(after =~= settle(options, shared)) by {
            assert forall|i: int| 0 <= i < options.len() implies after[i] == settle(
                options,
                shared,
            )[i] by {
                if options[i].token != g.token {
                    assert(shared_replacement(shared, options[i].token) == shared_replacement(
                        earlier,
                        options[i].token,
                    ));
                }
            }
        }
    }
}

/// A settled list is what a merge makes of it.
proof fn lemma_settled_is_fixed(options: Seq<OptionModel>, shared: Seq<OptionModel>)
    requires
        settled(options, shared),
    ensures
        adopt_all(options, shared) == options,
{
    lemma_adopt_all_in_covering_list(options, shared);
    assert(settle(options, shared) =~= options);
}

/// Merging the same shared configuration in once more changes nothing,
/// where none of the shared options is marked as edited.
pub proof fn lemma_merge_is_idempotent(subject: ConfigModel, shared: ConfigModel)
    requires
        forall|k: int| 0 <= k < shared.options.len() ==> !(#[trigger] shared.options[k]).modified,
    ensures
        merge(merge(subject, shared), shared) == merge(subject, shared),
{
    lemma_adopt_all_settles(subject.options, shared.options);
    lemma_settled_is_fixed(adopt_all(subject.options, shared.options), shared.options);
}

} // verus!
