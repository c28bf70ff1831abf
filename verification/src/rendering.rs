//! The launch command of a game: its template with the options applied and
//! the command that was handed to the launcher spliced in.

use vstd::prelude::*;

use crate::completeness::adjacent;
use crate::completeness::delimited;
use crate::completeness::free_of;
use crate::completeness::has_barrier;
use crate::completeness::lemma_replace_all_around_field;
use crate::completeness::lemma_replace_all_is_complete;
use crate::completeness::lemma_single_field;
use crate::completeness::plain;
use crate::completeness::spaced;
use crate::game_config::default_global;
use crate::game_config::ConfigModel;
use crate::game_config::OptionModel;
use crate::text::lemma_replace_all_first_occurrence;
use crate::text::lemma_replace_all_without_occurrence;
use crate::text::occurs;
use crate::text::occurs_at;
use crate::text::replace_all;

verus! {

/// The marker in a template at which the command handed to the launcher is
/// spliced in.
pub open spec fn command_marker() -> Seq<char> {
    "%command%"@
}

/// What an option puts in the place of its token.
pub open spec fn substitute(o: OptionModel) -> Seq<char> {
    if o.enabled {
        o.replacement
    } else {
        Seq::empty()
    }
}

/// `s` after the options have been applied to it one after the other.
pub open spec fn apply_options(s: Seq<char>, options: Seq<OptionModel>) -> Seq<char>
    decreases options.len(),
{
    if options.len() == 0 {
        s
    } else {
        replace_all(
            apply_options(s, options.drop_last()),
            options.last().token,
            substitute(options.last()),
        )
    }
}

/// The template of `c` with all its options applied.
pub open spec fn resolved_template(c: ConfigModel) -> Seq<char> {
    apply_options(c.launch_template, c.options)
}

/// The command line that launches the game: the resolved template with the
/// command `raw` in the place of every marker.
pub open spec fn render(c: ConfigModel, raw: Seq<char>) -> Seq<char> {
    replace_all(resolved_template(c), command_marker(), raw)
}

/// Where the resolved template holds the marker, the command stands in the
/// launch command at the place of the first marker, and what is in front of
/// it is the resolved template unchanged.
pub proof fn lemma_render_splices_command(c: ConfigModel, raw: Seq<char>, p: int)
    requires
        occurs_at(resolved_template(c), command_marker(), p),
        forall|q: int| 0 <= q < p ==> !occurs_at(resolved_template(c), command_marker(), q),
    ensures
        p + raw.len() <= render(c, raw).len(),
        render(c, raw).subrange(0, p) == resolved_template(c).subrange(0, p),
        render(c, raw).subrange(p, p + raw.len()) == raw,
{
    reveal_strlit("%command%");
    let t = resolved_template(c);
    let m = command_marker();
    lemma_replace_all_first_occurrence(t, m, raw, p);
    let tail = replace_all(t.skip(p + m.len()), m, raw);
    assert(render(c, raw) == t.take(p) + raw + tail);
    assert((t.take(p) + raw + tail).subrange(0, p) =~= t.subrange(0, p));
    assert((t.take(p) + raw + tail).subrange(p, p + raw.len()) =~= raw);
}

/// Where the resolved template holds the marker at one place only, the
/// launch command is the resolved template with the command in the place of
/// the marker.
pub proof fn lemma_render_single_marker(c: ConfigModel, raw: Seq<char>, p: int)
    requires
        occurs_at(resolved_template(c), command_marker(), p),
        forall|q: int| q != p ==> !occurs_at(resolved_template(c), command_marker(), q),
    ensures
        render(c, raw) == resolved_template(c).take(p) + raw + resolved_template(c).skip(
            p + command_marker().len(),
        ),
{
    reveal_strlit("%command%");
    let t = resolved_template(c);
    let m = command_marker();
    lemma_replace_all_first_occurrence(t, m, raw, p);
    let rest = t.skip(p + m.len());
    assert forall|i: int| !occurs_at(rest, m, i) by {
        if occurs_at(rest, m, i) {
            assert(t.subrange(p + m.len() + i, p + m.len() + i + m.len()) =~= rest.subrange(
                i,
                i + m.len(),
            ));
            assert(occurs_at(t, m, p + m.len() + i));
        }
    }
    lemma_replace_all_without_occurrence(rest, m, raw);
}

/// A configuration whose options find none of their tokens keeps its
/// template as it is.
pub proof fn lemma_options_without_tokens(s: Seq<char>, options: Seq<OptionModel>)
    requires
        forall|i: int| 0 <= i < options.len() ==> !occurs(s, #[trigger] options[i].token),
    ensures
        apply_options(s, options) == s,
    decreases options.len(),
{
    if options.len() > 0 {
        lemma_options_without_tokens(s, options.drop_last());
        lemma_replace_all_without_occurrence(s, options.last().token, substitute(options.last()));
    }
}

/// The options leave none of their tokens in a spaced text, and leave it
/// spaced: their tokens are delimited by `%` and hold no barrier character,
/// and what the enabled ones put in holds no `%`.
pub proof fn lemma_apply_options_is_complete(
    s: Seq<char>,
    options: Seq<OptionModel>,
    barrier: Set<char>,
)
    requires
        forall|i: int|
            0 <= i < options.len() ==> delimited(#[trigger] options[i].token, '%') && plain(
                options[i].token,
                barrier,
            ),
        forall|i: int|
            0 <= i < options.len() && options[i].enabled ==> free_of(
                #[trigger] options[i].replacement,
                '%',
            ),
        spaced(s, '%', barrier),
    ensures
        spaced(apply_options(s, options), '%', barrier),
        forall|i: int|
            0 <= i < options.len() ==> !occurs(
                apply_options(s, options),
                #[trigger] options[i].token,
            ),
    decreases options.len(),
{
    if options.len() > 0 {
        let before = options.drop_last();
        let last = options.last();
        let prev = apply_options(s, before);
        let cur = apply_options(s, options);
        assert forall|i: int| 0 <= i < before.len() implies delimited(
            #[trigger] before[i].token,
            '%',
        ) && plain(before[i].token, barrier) by {
            assert(before[i] == options[i]);
        }
        assert forall|i: int| 0 <= i < before.len() && before[i].enabled implies free_of(
            #[trigger] before[i].replacement,
            '%',
        ) by {
            assert(before[i] == options[i]);
        }
        lemma_apply_options_is_complete(s, before, barrier);
        assert(delimited(last.token, '%') && plain(last.token, barrier));
        assert(free_of(substitute(last), '%')) by {
            if last.enabled {
                assert(free_of(last.replacement, '%'));
            }
        }
        lemma_replace_all_is_complete(prev, last.token, substitute(last), '%', barrier);
        assert(cur == replace_all(prev, last.token, substitute(last)));
        assert forall|i: int| 0 <= i < options.len() implies !occurs(
            cur,
            #[trigger] options[i].token,
        ) by {
            if i < before.len() {
                assert(before[i] == options[i]);
                assert(!occurs(prev, before[i].token));
            }
        }
    }
}

/// The characters that set fields apart in the template of `c`: those that
/// stand in no token of `c` and not in the marker.
pub open spec fn separators(c: ConfigModel) -> Set<char> {
    Set::new(
        |ch: char|
            !command_marker().contains(ch) && forall|i: int|
                0 <= i < c.options.len() ==> !(#[trigger] c.options[i]).token.contains(ch),
    )
}

/// A configuration and a command with which no token can come about while
/// the launch command is made: every token is delimited by `%`; neither the
/// command nor what an enabled option puts in holds a `%`; and of two
/// stretches of the template between one `%` and the next that have a `%` in
/// common, one holds a separator.
pub open spec fn tidy(c: ConfigModel, raw: Seq<char>) -> bool {
    &&& forall|i: int| 0 <= i < c.options.len() ==> delimited(#[trigger] c.options[i].token, '%')
    &&& forall|i: int|
        0 <= i < c.options.len() && c.options[i].enabled ==> free_of(
            #[trigger] c.options[i].replacement,
            '%',
        )
    &&& free_of(raw, '%')
    &&& spaced(c.launch_template, '%', separators(c))
}

/// The launch command of a tidy configuration holds neither the marker nor
/// the token of any option.
pub proof fn lemma_render_is_complete(c: ConfigModel, raw: Seq<char>)
    requires
        tidy(c, raw),
    ensures
        !occurs(render(c, raw), command_marker()),
        forall|i: int|
            0 <= i < c.options.len() ==> !occurs(render(c, raw), #[trigger] c.options[i].token),
{
    reveal_strlit("%command%");
    let barrier = separators(c);
    let m = command_marker();
    assert(delimited(m, '%'));
    assert(plain(m, barrier));
    assert forall|i: int| 0 <= i < c.options.len() implies plain(
        #[trigger] c.options[i].token,
        barrier,
    ) by {}
    lemma_apply_options_is_complete(c.launch_template, c.options, barrier);
    lemma_replace_all_is_complete(resolved_template(c), m, raw, '%', barrier);
}

/// The shared configuration of a first run is tidy with every command that
/// holds no `%`, whichever of its options the user enables: blanks set its
/// fields apart.
pub proof fn lemma_default_global_is_tidy(config: ConfigModel, raw: Seq<char>)
    requires
        free_of(raw, '%'),
        config.launch_template == default_global().launch_template,
        config.options.len() == default_global().options.len(),
        forall|i: int|
            0 <= i < config.options.len() ==> (#[trigger] config.options[i]).token
                == default_global().options[i].token && config.options[i].replacement
                == default_global().options[i].replacement,
    ensures
        tidy(config, raw),
{
    reveal_strlit("%command%");
    reveal_strlit("%mh% %ov% %og% %command%");
    reveal_strlit("%mh%");
    reveal_strlit("%ov%");
    reveal_strlit("%og%");
    reveal_strlit("mangohud ");
    reveal_strlit("obs-vkcapture ");
    reveal_strlit("obs-glcapture ");
    let s = config.launch_template;
    let barrier = separators(config);
    assert(config.options[0].token == "%mh%"@);
    assert(config.options[1].token == "%ov%"@);
    assert(config.options[2].token == "%og%"@);
    assert(barrier.contains(' ')) by {
        assert forall|i: int| 0 <= i < config.options.len() implies !(
        #[trigger] config.options[i]).token.contains(' ') by {
            if i == 0 {
            } else if i == 1 {
            } else {
            }
        }
    }
    // Every `%` but the first and the last has a blank beside it.
    assert forall|a: int, b: int, c: int|
        #![trigger adjacent(s, '%', a, b), adjacent(s, '%', b, c)]
        adjacent(s, '%', a, b) && adjacent(s, '%', b, c) implies has_barrier(s, a + 1, b, barrier)
        || has_barrier(s, b + 1, c, barrier) by {
        if b == 3 || b == 8 || b == 13 {
            assert(s[b + 1] == ' ');
            assert(has_barrier(s, b + 1, c, barrier));
        } else if b == 5 || b == 10 || b == 15 {
            assert(s[b - 1] == ' ');
            assert(has_barrier(s, a + 1, b, barrier));
        } else {
            assert(s[0] == '%' && s[23] == '%');
            assert(false);
        }
    }
}

/// A pattern that does not stand in a spaced text does not come about while
/// the options are applied. Tokens and pattern are delimited by `%` and hold
/// no barrier character; what the enabled options put in holds no `%`.
pub proof fn lemma_apply_options_brings_nothing_about(
    s: Seq<char>,
    options: Seq<OptionModel>,
    barrier: Set<char>,
    pat: Seq<char>,
)
    requires
        forall|i: int|
            0 <= i < options.len() ==> delimited(#[trigger] options[i].token, '%') && plain(
                options[i].token,
                barrier,
            ),
        forall|i: int|
            0 <= i < options.len() && options[i].enabled ==> free_of(
                #[trigger] options[i].replacement,
                '%',
            ),
        spaced(s, '%', barrier),
        delimited(pat, '%'),
        plain(pat, barrier),
        !occurs(s, pat),
    ensures
        !occurs(apply_options(s, options), pat),
    decreases options.len(),
{
    if options.len() > 0 {
        let before = options.drop_last();
        let last = options.last();
        assert forall|i: int| 0 <= i < before.len() implies delimited(
            #[trigger] before[i].token,
            '%',
        ) && plain(before[i].token, barrier) by {
            assert(before[i] == options[i]);
        }
        assert forall|i: int| 0 <= i < before.len() && before[i].enabled implies free_of(
            #[trigger] before[i].replacement,
            '%',
        ) by {
            assert(before[i] == options[i]);
        }
        lemma_apply_options_brings_nothing_about(s, before, barrier, pat);
        lemma_apply_options_is_complete(s, before, barrier);
        assert(delimited(last.token, '%') && plain(last.token, barrier));
        assert(free_of(substitute(last), '%')) by {
            if last.enabled {
                assert(free_of(last.replacement, '%'));
            }
        }
        lemma_replace_all_is_complete(
            apply_options(s, before),
            last.token,
            substitute(last),
            '%',
            barrier,
        );
    }
}

/// The options pass by a field that is the token of none of them: what is
/// in front of the field and what is behind it are resolved as if each stood
/// alone. Tokens and field are delimited by `%` and hold no barrier
/// character; what the enabled options put in holds no `%`.
pub proof fn lemma_apply_options_around_field(
    a: Seq<char>,
    field: Seq<char>,
    b: Seq<char>,
    options: Seq<OptionModel>,
    barrier: Set<char>,
)
    requires
        delimited(field, '%'),
        plain(field, barrier),
        forall|i: int|
            0 <= i < options.len() ==> delimited(#[trigger] options[i].token, '%') && plain(
                options[i].token,
                barrier,
            ) && options[i].token != field,
        forall|i: int|
            0 <= i < options.len() && options[i].enabled ==> free_of(
                #[trigger] options[i].replacement,
                '%',
            ),
        spaced(a + field + b, '%', barrier),
    ensures
        apply_options(a + field + b, options) == apply_options(a, options) + field
            + apply_options(b, options),
    decreases options.len(),
{
    if options.len() > 0 {
        let before = options.drop_last();
        let last = options.last();
        assert forall|i: int| 0 <= i < before.len() implies delimited(
            #[trigger] before[i].token,
            '%',
        ) && plain(before[i].token, barrier) && before[i].token != field by {
            assert(before[i] == options[i]);
        }
        assert forall|i: int| 0 <= i < before.len() && before[i].enabled implies free_of(
            #[trigger] before[i].replacement,
            '%',
        ) by {
            assert(before[i] == options[i]);
        }
        lemma_apply_options_around_field(a, field, b, before, barrier);
        lemma_apply_options_is_complete(a + field + b, before, barrier);
        assert(delimited(last.token, '%') && plain(last.token, barrier) && last.token != field);
        lemma_replace_all_around_field(
            apply_options(a, before),
            field,
            apply_options(b, before),
            last.token,
            substitute(last),
            '%',
            barrier,
        );
    }
}

/// Where the template of a tidy configuration holds the marker once, and
/// the marker is the token of no option, the launch command is what the
/// options make of the template in front of the marker, then the command,
/// then what they make of the template behind it.
pub proof fn lemma_render_around_marker(
    c: ConfigModel,
    raw: Seq<char>,
    a: Seq<char>,
    b: Seq<char>,
)
    requires
        tidy(c, raw),
        c.launch_template == a + command_marker() + b,
        forall|q: int| occurs_at(c.launch_template, command_marker(), q) ==> q == a.len(),
        forall|i: int|
            0 <= i < c.options.len() ==> (#[trigger] c.options[i]).token != command_marker(),
    ensures
        render(c, raw) == apply_options(a, c.options) + raw + apply_options(b, c.options),
{
    reveal_strlit("%command%");
    let barrier = separators(c);
    let m = command_marker();
    let s = c.launch_template;
    let n = (a.len() + m.len()) as int;
    assert(delimited(m, '%'));
    assert(plain(m, barrier));
    assert forall|i: int| 0 <= i < c.options.len() implies plain(
        #[trigger] c.options[i].token,
        barrier,
    ) by {}
    assert forall|q: int| !occurs_at(a, m, q) by {
        if occurs_at(a, m, q) {
            assert(s.subrange(q, q + m.len()) =~= a.subrange(q, q + m.len()));
            assert(occurs_at(s, m, q));
        }
    }
    assert forall|q: int| !occurs_at(b, m, q) by {
        if occurs_at(b, m, q) {
            assert(s.subrange(n + q, n + q + m.len()) =~= b.subrange(q, q + m.len()));
            assert(occurs_at(s, m, n + q));
        }
    }
    lemma_single_field(a, m, b, '%', barrier);
    let front = apply_options(a, c.options);
    let back = apply_options(b, c.options);
    lemma_apply_options_brings_nothing_about(a, c.options, barrier, m);
    lemma_apply_options_brings_nothing_about(b, c.options, barrier, m);
    lemma_apply_options_around_field(a, m, b, c.options, barrier);
    lemma_apply_options_is_complete(s, c.options, barrier);
    let t = resolved_template(c);
    assert(t == front + m + back);
    lemma_single_field(front, m, back, '%', barrier);
    let p = front.len() as int;
    assert(t.subrange(p, p + m.len()) =~= m);
    lemma_render_single_marker(c, raw, p);
    assert(t.take(p) =~= front);
    assert(t.skip(p + m.len()) =~= back);
}

} // verus!
