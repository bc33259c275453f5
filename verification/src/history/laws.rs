//! What holds of the names that the readers count.

use crate::command_parse::{
    cleaned, command_key, is_multiword_tool, lemma_pick, lemma_words_nonempty, pick, words,
};
use crate::counts::{lemma_record_all_counts, record_all};
use crate::history::detect::{detected, history_keys, HistoryFormat};
use crate::history::extract::{key_seq, line_keys, stage_keys};
use crate::history::fish::{fish_keys, fish_line};
use crate::history::lines::{split_lines, text_lines};
use crate::history::shell::{command_keys, shell_keys, shell_line, ShellState};
use crate::history::simple::{simple_keys, simple_line_keys, SkipRule};
use crate::pipeline::stages;
use vstd::prelude::*;

verus! {

/// Whether `name` can be a canonical command name under `filter`: it is not
/// empty, is no member of the filter, and begins neither with `-` (so it is
/// not `--`) nor with `#`.
pub open spec fn is_canonical(name: Seq<u8>, filter: Set<Seq<u8>>) -> bool {
    name.len() > 0 && !filter.contains(name) && name[0] != '-' as u8 && name[0] != '#' as u8
}

/// Whether `key` can be an aggregation key: a canonical name, or, where
/// subcommands are tracked, the canonical name of a multi-word tool, a
/// space, and a word that does not begin with `-`.
pub open spec fn is_key(key: Seq<u8>, filter: Set<Seq<u8>>, track_subcommands: bool) -> bool {
    is_canonical(key, filter) || (track_subcommands && exists|name: Seq<u8>, sub: Seq<u8>|
        #![trigger name + seq![' ' as u8] + sub]
        is_canonical(name, filter) && is_multiword_tool(name) && sub.len() > 0 && sub[0]
            != '-' as u8 && key == name + seq![' ' as u8] + sub)
}

/// Whether every name of `names` can be an aggregation key.
pub open spec fn all_keys(
    names: Seq<Seq<u8>>,
    filter: Set<Seq<u8>>,
    track_subcommands: bool,
) -> bool {
    forall|i: int| 0 <= i < names.len() ==> is_key(#[trigger] names[i], filter, track_subcommands)
}

/// The name that the tokenizer returns is canonical.
pub proof fn lemma_first_word_is_canonical(cmd: Seq<u8>, filter: Set<Seq<u8>>)
    ensures
        command_key(cmd, filter, false) is Some ==> is_canonical(
            command_key(cmd, filter, false)->0,
            filter,
        ),
{
    lemma_pick(words(cmd), filter);
}

/// The key of a stage can be an aggregation key.
pub proof fn lemma_command_key_is_key(
    cmd: Seq<u8>,
    filter: Set<Seq<u8>>,
    track_subcommands: bool,
)
    ensures
        command_key(cmd, filter, track_subcommands) is Some ==> is_key(
            command_key(cmd, filter, track_subcommands)->0,
            filter,
            track_subcommands,
        ),
{
    let ws = words(cmd);
    lemma_pick(ws, filter);
    lemma_words_nonempty(cmd);
    if pick(ws, filter) is Some {
        let k = pick(ws, filter)->0;
        let name = cleaned(ws[k]);
        let key = command_key(cmd, filter, track_subcommands)->0;
        assert(is_canonical(name, filter));
        if key != name {
            let sub = ws[k + 1];
            assert(key == name + seq![' ' as u8] + sub);
        }
    }
}

/// Keys behind keys are keys.
pub proof fn lemma_all_keys_concat(
    a: Seq<Seq<u8>>,
    b: Seq<Seq<u8>>,
    filter: Set<Seq<u8>>,
    track_subcommands: bool,
)
    requires
        all_keys(a, filter, track_subcommands),
        all_keys(b, filter, track_subcommands),
    ensures
        all_keys(a + b, filter, track_subcommands),
{
    assert forall|i: int| 0 <= i < (a + b).len() implies is_key(
        #[trigger] (a + b)[i],
        filter,
        track_subcommands,
    ) by {
        if i < a.len() {
            assert((a + b)[i] == a[i]);
        } else {
            assert((a + b)[i] == b[i - a.len()]);
        }
    }
}

/// Every name that stages add can be an aggregation key.
pub proof fn lemma_stage_keys_are_keys(
    st: Seq<Seq<u8>>,
    filter: Set<Seq<u8>>,
    track_subcommands: bool,
)
    ensures
        all_keys(stage_keys(st, filter, track_subcommands), filter, track_subcommands),
    decreases st.len(),
{
    if st.len() > 0 {
        lemma_stage_keys_are_keys(st.drop_last(), filter, track_subcommands);
        lemma_command_key_is_key(st.last(), filter, track_subcommands);
        lemma_all_keys_concat(
            stage_keys(st.drop_last(), filter, track_subcommands),
            key_seq(command_key(st.last(), filter, track_subcommands)),
            filter,
            track_subcommands,
        );
    }
}

/// Every name that a logical command adds can be an aggregation key.
pub proof fn lemma_line_keys_are_keys(
    line: Seq<u8>,
    filter: Set<Seq<u8>>,
    no_hist: bool,
    track_subcommands: bool,
)
    ensures
        all_keys(line_keys(line, filter, no_hist, track_subcommands), filter, track_subcommands),
{
    if no_hist {
        lemma_command_key_is_key(line, filter, track_subcommands);
    } else {
        lemma_stage_keys_are_keys(stages(line), filter, track_subcommands);
    }
}

/// Every name that the lines of a line-oriented history add can be an
/// aggregation key.
pub proof fn lemma_shell_keys_are_keys(
    lines: Seq<Seq<u8>>,
    state: ShellState,
    filter: Set<Seq<u8>>,
    no_hist: bool,
    track_subcommands: bool,
)
    ensures
        all_keys(
            shell_keys(lines, state, filter, no_hist, track_subcommands),
            filter,
            track_subcommands,
        ),
    decreases lines.len(),
{
    if lines.len() > 0 {
        let mv = shell_line(state, lines[0]);
        if mv.command is Some {
            lemma_line_keys_are_keys(mv.command->0, filter, no_hist, track_subcommands);
        }
        lemma_shell_keys_are_keys(lines.drop_first(), mv.next, filter, no_hist, track_subcommands);
        lemma_all_keys_concat(
            command_keys(mv.command, filter, no_hist, track_subcommands),
            shell_keys(lines.drop_first(), mv.next, filter, no_hist, track_subcommands),
            filter,
            track_subcommands,
        );
    }
}

/// Every name that the lines of a fish history add can be an aggregation key.
pub proof fn lemma_fish_keys_are_keys(
    lines: Seq<Seq<u8>>,
    current: Seq<u8>,
    filter: Set<Seq<u8>>,
    no_hist: bool,
    track_subcommands: bool,
)
    ensures
        all_keys(
            fish_keys(lines, current, filter, no_hist, track_subcommands),
            filter,
            track_subcommands,
        ),
    decreases lines.len(),
{
    if lines.len() == 0 {
        lemma_line_keys_are_keys(current, filter, no_hist, track_subcommands);
    } else {
        let mv = fish_line(current, lines[0]);
        lemma_line_keys_are_keys(mv.flushed, filter, no_hist, track_subcommands);
        lemma_fish_keys_are_keys(
            lines.drop_first(),
            mv.current,
            filter,
            no_hist,
            track_subcommands,
        );
        lemma_all_keys_concat(
            line_keys(mv.flushed, filter, no_hist, track_subcommands),
            fish_keys(lines.drop_first(), mv.current, filter, no_hist, track_subcommands),
            filter,
            track_subcommands,
        );
    }
}

/// Every name that the lines of a plain history add can be an aggregation key.
pub proof fn lemma_simple_keys_are_keys(
    lines: Seq<Seq<u8>>,
    rule: SkipRule,
    filter: Set<Seq<u8>>,
    no_hist: bool,
    track_subcommands: bool,
)
    ensures
        all_keys(
            simple_keys(lines, rule, filter, no_hist, track_subcommands),
            filter,
            track_subcommands,
        ),
    decreases lines.len(),
{
    if lines.len() > 0 {
        lemma_line_keys_are_keys(
            crate::text::without_line_end(lines[0]),
            filter,
            no_hist,
            track_subcommands,
        );
        lemma_simple_keys_are_keys(lines.drop_first(), rule, filter, no_hist, track_subcommands);
        lemma_all_keys_concat(
            simple_line_keys(lines[0], rule, filter, no_hist, track_subcommands),
            simple_keys(lines.drop_first(), rule, filter, no_hist, track_subcommands),
            filter,
            track_subcommands,
        );
    }
}

/// A map that counts aggregation keys holds aggregation keys only, and each
/// of its counts is the number of times that its key was counted.
pub proof fn lemma_counted_keys(
    names: Seq<Seq<u8>>,
    filter: Set<Seq<u8>>,
    track_subcommands: bool,
)
    requires
        all_keys(names, filter, track_subcommands),
    ensures
        forall|k: Seq<u8>| #[trigger]
            record_all(Map::empty(), names).contains_key(k) ==> is_key(
                k,
                filter,
                track_subcommands,
            ) && record_all(Map::empty(), names)[k] == names.to_multiset().count(k)
                && record_all(Map::empty(), names)[k] >= 1,
{
    assert forall|k: Seq<u8>| #[trigger]
        record_all(Map::empty(), names).contains_key(k) implies is_key(
        k,
        filter,
        track_subcommands,
    ) && record_all(Map::empty(), names)[k] == names.to_multiset().count(k) && record_all(
        Map::empty(),
        names,
    )[k] >= 1 by {
        lemma_record_all_counts(Map::empty(), names, k);
        vstd::seq_lib::to_multiset_contains(names, k);
        let i = choose|i: int| 0 <= i < names.len() && names[i] == k;
        assert(is_key(names[i], filter, track_subcommands));
    }
}

/// Every name in the counts of a line-oriented history is an aggregation
/// key: where subcommands are not tracked, a canonical command name that is
/// not empty and no member of the filter.
pub proof fn lemma_shell_counts_hold_keys(
    bytes: Seq<u8>,
    filter: Set<Seq<u8>>,
    no_hist: bool,
    track_subcommands: bool,
)
    ensures
        forall|k: Seq<u8>| #[trigger]
            record_all(
                Map::empty(),
                shell_keys(
                    split_lines(bytes),
                    ShellState::Normal,
                    filter,
                    no_hist,
                    track_subcommands,
                ),
            ).contains_key(k) ==> is_key(k, filter, track_subcommands),
{
    let names = shell_keys(
        split_lines(bytes),
        ShellState::Normal,
        filter,
        no_hist,
        track_subcommands,
    );
    lemma_shell_keys_are_keys(
        split_lines(bytes),
        ShellState::Normal,
        filter,
        no_hist,
        track_subcommands,
    );
    lemma_counted_keys(names, filter, track_subcommands);
}

/// Every name in the counts of a fish history is an aggregation key.
pub proof fn lemma_fish_counts_hold_keys(
    bytes: Seq<u8>,
    filter: Set<Seq<u8>>,
    no_hist: bool,
    track_subcommands: bool,
)
    ensures
        forall|k: Seq<u8>| #[trigger]
            record_all(
                Map::empty(),
                fish_keys(text_lines(bytes), Seq::empty(), filter, no_hist, track_subcommands),
            ).contains_key(k) ==> is_key(k, filter, track_subcommands),
{
    let names = fish_keys(text_lines(bytes), Seq::empty(), filter, no_hist, track_subcommands);
    lemma_fish_keys_are_keys(text_lines(bytes), Seq::empty(), filter, no_hist, track_subcommands);
    lemma_counted_keys(names, filter, track_subcommands);
}

/// Every name in the counts of a plain history is an aggregation key.
pub proof fn lemma_simple_counts_hold_keys(
    bytes: Seq<u8>,
    rule: SkipRule,
    filter: Set<Seq<u8>>,
    no_hist: bool,
    track_subcommands: bool,
)
    ensures
        forall|k: Seq<u8>| #[trigger]
            record_all(
                Map::empty(),
                simple_keys(text_lines(bytes), rule, filter, no_hist, track_subcommands),
            ).contains_key(k) ==> is_key(k, filter, track_subcommands),
{
    let names = simple_keys(text_lines(bytes), rule, filter, no_hist, track_subcommands);
    lemma_simple_keys_are_keys(text_lines(bytes), rule, filter, no_hist, track_subcommands);
    lemma_counted_keys(names, filter, track_subcommands);
}

/// Every name in the counts of a history whose format was detected is an
/// aggregation key.
pub proof fn lemma_history_counts_hold_keys(
    bytes: Seq<u8>,
    filter: Set<Seq<u8>>,
    no_hist: bool,
    track_subcommands: bool,
)
    ensures
        forall|k: Seq<u8>| #[trigger]
            record_all(
                Map::empty(),
                history_keys(bytes, filter, no_hist, track_subcommands),
            ).contains_key(k) ==> is_key(k, filter, track_subcommands),
{
    match detected(bytes) {
        HistoryFormat::Fish => lemma_fish_counts_hold_keys(
            bytes,
            filter,
            no_hist,
            track_subcommands,
        ),
        HistoryFormat::Shell => lemma_shell_counts_hold_keys(
            bytes,
            filter,
            no_hist,
            track_subcommands,
        ),
    }
}

/// Without subcommand tracking an aggregation key is a canonical name.
pub proof fn lemma_key_without_tracking(key: Seq<u8>, filter: Set<Seq<u8>>)
    ensures
        is_key(key, filter, false) == is_canonical(key, filter),
{
}

/// A line-oriented history counts no more names than it has bytes.
pub proof fn lemma_shell_keys_fit(
    bytes: Seq<u8>,
    state: ShellState,
    filter: Set<Seq<u8>>,
    no_hist: bool,
    track_subcommands: bool,
)
    ensures
        shell_keys(split_lines(bytes), state, filter, no_hist, track_subcommands).len()
            <= bytes.len(),
    decreases bytes.len(),
{
    let lines = split_lines(bytes);
    let p = crate::text::position(bytes, '\n' as u8);
    crate::text::lemma_position(bytes, '\n' as u8);
    let raw = lines[0];
    let mv = shell_line(state, raw);
    let here = command_keys(mv.command, filter, no_hist, track_subcommands);
    crate::text::lemma_without_line_end(raw);
    if mv.command is Some {
        crate::history::extract::lemma_line_keys_fit(
            mv.command->0,
            filter,
            no_hist,
            track_subcommands,
        );
        crate::text::lemma_position(crate::text::without_line_end(raw), ';' as u8);
    }
    assert(here.len() <= raw.len());
    if p < bytes.len() {
        let rest = bytes.skip(p + 1);
        assert(lines.drop_first() =~= split_lines(rest));
        lemma_shell_keys_fit(rest, mv.next, filter, no_hist, track_subcommands);
    } else {
        assert(lines.drop_first() =~= Seq::<Seq<u8>>::empty());
        assert(shell_keys(
            Seq::<Seq<u8>>::empty(),
            mv.next,
            filter,
            no_hist,
            track_subcommands,
        ).len() == 0);
    }
}

/// A fish history counts no more names than it has bytes, the bytes of the
/// command in progress included.
pub proof fn lemma_fish_keys_fit(
    bytes: Seq<u8>,
    current: Seq<u8>,
    filter: Set<Seq<u8>>,
    no_hist: bool,
    track_subcommands: bool,
)
    ensures
        fish_keys(text_lines(bytes), current, filter, no_hist, track_subcommands).len()
            <= current.len() + bytes.len(),
    decreases bytes.len(),
{
    if bytes.len() == 0 {
        crate::history::extract::lemma_line_keys_fit(current, filter, no_hist, track_subcommands);
    } else {
        let lines = text_lines(bytes);
        let raw = crate::history::lines::first_line(bytes);
        let rest = crate::history::lines::after_first_line(bytes);
        crate::history::lines::lemma_after_first_line(bytes);
        assert(lines[0] == raw);
        assert(lines.drop_first() =~= text_lines(rest));
        let mv = fish_line(current, raw);
        crate::text::lemma_without_line_end(raw);
        crate::history::extract::lemma_line_keys_fit(
            mv.flushed,
            filter,
            no_hist,
            track_subcommands,
        );
        if current.len() > 0 {
            crate::history::fish::lemma_trim_end_len(current.drop_last());
        }
        assert(mv.flushed.len() + mv.current.len() <= current.len() + raw.len());
        lemma_fish_keys_fit(rest, mv.current, filter, no_hist, track_subcommands);
    }
}

/// A plain history counts no more names than it has bytes.
pub proof fn lemma_simple_keys_fit(
    bytes: Seq<u8>,
    rule: SkipRule,
    filter: Set<Seq<u8>>,
    no_hist: bool,
    track_subcommands: bool,
)
    ensures
        simple_keys(text_lines(bytes), rule, filter, no_hist, track_subcommands).len()
            <= bytes.len(),
    decreases bytes.len(),
{
    if bytes.len() > 0 {
        let lines = text_lines(bytes);
        let raw = crate::history::lines::first_line(bytes);
        let rest = crate::history::lines::after_first_line(bytes);
        crate::history::lines::lemma_after_first_line(bytes);
        assert(lines[0] == raw);
        assert(lines.drop_first() =~= text_lines(rest));
        crate::text::lemma_without_line_end(raw);
        crate::history::extract::lemma_line_keys_fit(
            crate::text::without_line_end(raw),
            filter,
            no_hist,
            track_subcommands,
        );
        lemma_simple_keys_fit(rest, rule, filter, no_hist, track_subcommands);
    }
}

/// A history counts no more names than it has bytes.
pub proof fn lemma_history_keys_fit(
    bytes: Seq<u8>,
    filter: Set<Seq<u8>>,
    no_hist: bool,
    track_subcommands: bool,
)
    ensures
        history_keys(bytes, filter, no_hist, track_subcommands).len() <= bytes.len(),
{
    match detected(bytes) {
        HistoryFormat::Fish => lemma_fish_keys_fit(
            bytes,
            Seq::empty(),
            filter,
            no_hist,
            track_subcommands,
        ),
        HistoryFormat::Shell => lemma_shell_keys_fit(
            bytes,
            ShellState::Normal,
            filter,
            no_hist,
            track_subcommands,
        ),
    }
}

} // verus!
