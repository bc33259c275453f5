//! The names that the readers count are text: valid UTF-8, like the lines
//! that they are cut from.
//!
//! Lines are cut before or behind ASCII bytes only, and such cuts never fall
//! inside a character.

use crate::command_parse::{
    base_name, cleaned, command_key, lemma_pick, lemma_word_len, pick, strip_leading,
    strip_trailing, word_len, words,
};
use crate::counts::{lemma_record_all_counts, record_all};
use crate::history::detect::{detected, history_keys, HistoryFormat};
use crate::history::extract::{key_seq, line_keys, stage_keys};
use crate::history::fish::{fish_keys, fish_line};
use crate::history::lines::{split_lines, text_lines};
use crate::history::shell::{command_keys, shell_keys, shell_line, ShellState};
use crate::history::simple::{simple_keys, simple_line_keys, SkipRule};
use crate::pipeline::{lemma_separator_from, separator_from, stages};
use crate::text::{lemma_position, position, trailing_space, trim_end, without_line_end};
use vstd::prelude::*;
use vstd::utf8::{
    is_char_boundary_iff_not_is_continuation_byte, is_char_boundary_start_end_of_seq,
    is_continuation_byte, valid_utf8, valid_utf8_concat, valid_utf8_split,
};

verus! {

/// Whether `i` is a place to cut `s`: its end, or a byte that continues no
/// character.
pub open spec fn is_cut(s: Seq<u8>, i: int) -> bool {
    0 <= i <= s.len() && (i == s.len() || !is_continuation_byte(s[i]))
}

/// Text that is cut at two places to cut is text.
pub proof fn lemma_part_is_text(s: Seq<u8>, i: int, j: int)
    requires
        valid_utf8(s),
        is_cut(s, i),
        is_cut(s, j),
        i <= j,
    ensures
        valid_utf8(s.subrange(i, j)),
{
    is_char_boundary_start_end_of_seq(s);
    if i < s.len() {
        is_char_boundary_iff_not_is_continuation_byte(s, i);
    }
    valid_utf8_split(s, i);
    let t = s.subrange(i, s.len() as int);
    is_char_boundary_start_end_of_seq(t);
    if j - i < t.len() {
        assert(t[j - i] == s[j]);
        is_char_boundary_iff_not_is_continuation_byte(t, j - i);
    }
    valid_utf8_split(t, j - i);
    assert(t.subrange(0, j - i) =~= s.subrange(i, j));
}

/// Behind an ASCII byte is a place to cut.
pub proof fn lemma_cut_behind_ascii(s: Seq<u8>, i: int)
    requires
        valid_utf8(s),
        0 < i <= s.len(),
        s[i - 1] < 0x80,
    ensures
        is_cut(s, i),
{
    if i < s.len() {
        assert(is_cut(s, i - 1));
        lemma_part_is_text(s, i - 1, s.len() as int);
        let t = s.subrange(i - 1, s.len() as int);
        assert(t[0] == s[i - 1]);
        assert(t[1] == s[i]);
        let rest = vstd::utf8::pop_first_scalar(t);
        assert(rest =~= t.subrange(1, t.len() as int));
        assert(valid_utf8(rest));
        assert(rest[0] == s[i]);
        assert(vstd::utf8::valid_first_scalar(rest));
    }
}

/// One ASCII byte is text.
pub proof fn lemma_ascii_byte_is_text(b: u8)
    requires
        b < 0x80,
    ensures
        valid_utf8(seq![b]),
{
    let s = seq![b];
    assert(vstd::utf8::valid_first_scalar(s));
    assert(vstd::utf8::pop_first_scalar(s) =~= Seq::<u8>::empty());
    assert(valid_utf8(Seq::<u8>::empty()));
}

/// Text without the ASCII byte that it begins with is text.
pub proof fn lemma_behind_first(s: Seq<u8>)
    requires
        valid_utf8(s),
        s.len() > 0,
        s[0] < 0x80,
    ensures
        valid_utf8(s.drop_first()),
{
    lemma_cut_behind_ascii(s, 1);
    lemma_part_is_text(s, 1, s.len() as int);
}

/// Text without the ASCII byte that it ends with is text.
pub proof fn lemma_before_last(s: Seq<u8>)
    requires
        valid_utf8(s),
        s.len() > 0,
        s.last() < 0x80,
    ensures
        valid_utf8(s.drop_last()),
{
    assert(is_cut(s, 0)) by {
        is_char_boundary_start_end_of_seq(s);
        is_char_boundary_iff_not_is_continuation_byte(s, 0);
    }
    lemma_part_is_text(s, 0, s.len() - 1);
}

/// Text up to an ASCII byte, or up to its end, is text.
pub proof fn lemma_before_byte(s: Seq<u8>, p: int)
    requires
        valid_utf8(s),
        0 <= p <= s.len(),
        p < s.len() ==> s[p] < 0x80,
    ensures
        valid_utf8(s.take(p)),
{
    if s.len() > 0 {
        assert(is_cut(s, 0)) by {
            is_char_boundary_start_end_of_seq(s);
            is_char_boundary_iff_not_is_continuation_byte(s, 0);
        }
    }
    lemma_part_is_text(s, 0, p);
}

/// Text behind an ASCII byte is text.
pub proof fn lemma_behind_byte(s: Seq<u8>, p: int)
    requires
        valid_utf8(s),
        0 <= p < s.len(),
        s[p] < 0x80,
    ensures
        valid_utf8(s.skip(p + 1)),
{
    lemma_cut_behind_ascii(s, p + 1);
    lemma_part_is_text(s, p + 1, s.len() as int);
}

/// Whether every name is text.
pub open spec fn all_text(names: Seq<Seq<u8>>) -> bool {
    forall|i: int| 0 <= i < names.len() ==> valid_utf8(#[trigger] names[i])
}

/// Texts behind texts are texts.
pub proof fn lemma_all_text_concat(a: Seq<Seq<u8>>, b: Seq<Seq<u8>>)
    requires
        all_text(a),
        all_text(b),
    ensures
        all_text(a + b),
{
    assert forall|i: int| 0 <= i < (a + b).len() implies valid_utf8(#[trigger] (a + b)[i]) by {
        if i < a.len() {
            assert((a + b)[i] == a[i]);
        } else {
            assert((a + b)[i] == b[i - a.len()]);
        }
    }
}

/// The words of text are text.
pub proof fn lemma_words_are_text(s: Seq<u8>)
    requires
        valid_utf8(s),
    ensures
        all_text(words(s)),
    decreases s.len(),
{
    if s.len() == 0 {
    } else if crate::text::is_space(s[0]) {
        lemma_behind_first(s);
        lemma_words_are_text(s.drop_first());
    } else {
        lemma_word_len(s);
        let n = word_len(s) as int;
        lemma_before_byte(s, n);
        if n < s.len() {
            lemma_behind_byte(s, n);
            assert(is_cut(s, n));
        }
        assert(is_cut(s, n));
        lemma_part_is_text(s, n, s.len() as int);
        assert(s.skip(n) =~= s.subrange(n, s.len() as int));
        lemma_words_are_text(s.skip(n));
        lemma_all_text_concat(seq![s.take(n)], words(s.skip(n)));
    }
}

/// Text without the ASCII bytes `b` that it begins with is text.
proof fn lemma_strip_leading_is_text(w: Seq<u8>, b: u8)
    requires
        valid_utf8(w),
        b < 0x80,
    ensures
        valid_utf8(strip_leading(w, b)),
    decreases w.len(),
{
    if w.len() > 0 && w[0] == b {
        lemma_behind_first(w);
        lemma_strip_leading_is_text(w.drop_first(), b);
    }
}

/// Text without the ASCII bytes `b` that it ends with is text.
proof fn lemma_strip_trailing_is_text(w: Seq<u8>, b: u8)
    requires
        valid_utf8(w),
        b < 0x80,
    ensures
        valid_utf8(strip_trailing(w, b)),
    decreases w.len(),
{
    if w.len() > 0 && w.last() == b {
        lemma_before_last(w);
        lemma_strip_trailing_is_text(w.drop_last(), b);
    }
}

/// Where the base name of `w` begins.
pub open spec fn base_start(w: Seq<u8>) -> int
    decreases w.len(),
{
    if w.len() == 0 {
        0
    } else if w.last() == '/' as u8 {
        w.len() as int
    } else {
        base_start(w.drop_last())
    }
}

/// The base name is what stands behind the last `/`.
pub proof fn lemma_base_name_is_tail(w: Seq<u8>)
    ensures
        0 <= base_start(w) <= w.len(),
        base_start(w) > 0 ==> w[base_start(w) - 1] == '/' as u8,
        base_name(w) == w.skip(base_start(w)),
    decreases w.len(),
{
    if w.len() == 0 {
        assert(base_name(w) =~= w.skip(0));
    } else if w.last() == '/' as u8 {
        assert(base_name(w) =~= w.skip(w.len() as int));
    } else {
        let front = w.drop_last();
        lemma_base_name_is_tail(front);
        let k = base_start(front);
        if k > 0 {
            assert(w[k - 1] == front[k - 1]);
        }
        assert(front.skip(k).push(w.last()) =~= w.skip(k));
    }
}

/// The name that a word of text stands for is text.
pub proof fn lemma_cleaned_is_text(w: Seq<u8>)
    requires
        valid_utf8(w),
    ensures
        valid_utf8(cleaned(w)),
{
    let front = strip_leading(w, '\\' as u8);
    lemma_strip_leading_is_text(w, '\\' as u8);
    let bare = strip_trailing(front, '\\' as u8);
    lemma_strip_trailing_is_text(front, '\\' as u8);
    let p = position(bare, '\\' as u8);
    lemma_position(bare, '\\' as u8);
    lemma_before_byte(bare, p);
    let first = bare.take(p);
    lemma_base_name_is_tail(first);
    let k = base_start(first);
    if k > 0 {
        lemma_behind_byte(first, k - 1);
    } else {
        assert(first.skip(0) =~= first);
    }
}

/// The key of a stage of text is text.
pub proof fn lemma_key_is_text(cmd: Seq<u8>, filter: Set<Seq<u8>>, track_subcommands: bool)
    requires
        valid_utf8(cmd),
    ensures
        command_key(cmd, filter, track_subcommands) is Some ==> valid_utf8(
            command_key(cmd, filter, track_subcommands)->0,
        ),
{
    let ws = words(cmd);
    lemma_pick(ws, filter);
    lemma_words_are_text(cmd);
    if pick(ws, filter) is Some {
        let k = pick(ws, filter)->0;
        let name = cleaned(ws[k]);
        lemma_cleaned_is_text(ws[k]);
        let key = command_key(cmd, filter, track_subcommands)->0;
        if key != name {
            lemma_ascii_byte_is_text(' ' as u8);
            valid_utf8_concat(name, seq![' ' as u8]);
            valid_utf8_concat(name + seq![' ' as u8], ws[k + 1]);
        }
    }
}

/// The stages of text are text.
pub proof fn lemma_stages_are_text(s: Seq<u8>)
    requires
        valid_utf8(s),
    ensures
        all_text(stages(s)),
    decreases s.len(),
{
    if s.len() > 0 {
        lemma_separator_from(s, 0);
        let p = separator_from(s, 0);
        if p < s.len() {
            lemma_before_byte(s, p);
            lemma_behind_byte(s, p);
            lemma_stages_are_text(s.skip(p + 1));
            lemma_all_text_concat(seq![s.take(p)], stages(s.skip(p + 1)));
        }
    }
}

/// The keys of stages of text are text.
pub proof fn lemma_stage_keys_are_text(
    st: Seq<Seq<u8>>,
    filter: Set<Seq<u8>>,
    track_subcommands: bool,
)
    requires
        all_text(st),
    ensures
        all_text(stage_keys(st, filter, track_subcommands)),
    decreases st.len(),
{
    if st.len() > 0 {
        assert forall|i: int| 0 <= i < st.drop_last().len() implies valid_utf8(
            #[trigger] st.drop_last()[i],
        ) by {
            assert(st.drop_last()[i] == st[i]);
        }
        lemma_stage_keys_are_text(st.drop_last(), filter, track_subcommands);
        assert(valid_utf8(st[st.len() - 1]));
        lemma_key_is_text(st.last(), filter, track_subcommands);
        lemma_all_text_concat(
            stage_keys(st.drop_last(), filter, track_subcommands),
            key_seq(command_key(st.last(), filter, track_subcommands)),
        );
    }
}

/// The names that a logical command of text adds are text.
pub proof fn lemma_line_keys_are_text(
    line: Seq<u8>,
    filter: Set<Seq<u8>>,
    no_hist: bool,
    track_subcommands: bool,
)
    requires
        valid_utf8(line),
    ensures
        all_text(line_keys(line, filter, no_hist, track_subcommands)),
{
    if no_hist {
        lemma_key_is_text(line, filter, track_subcommands);
    } else {
        lemma_stages_are_text(line);
        lemma_stage_keys_are_text(stages(line), filter, track_subcommands);
    }
}

/// A line of text without its line end is text.
pub proof fn lemma_without_line_end_is_text(s: Seq<u8>)
    requires
        valid_utf8(s),
    ensures
        valid_utf8(without_line_end(s)),
    decreases s.len(),
{
    if s.len() > 0 && (s.last() == 0x0a || s.last() == 0x0d) {
        lemma_before_last(s);
        lemma_without_line_end_is_text(s.drop_last());
    }
}

/// The names that the lines of a line-oriented history add are text.
pub proof fn lemma_shell_keys_are_text(
    lines: Seq<Seq<u8>>,
    state: ShellState,
    filter: Set<Seq<u8>>,
    no_hist: bool,
    track_subcommands: bool,
)
    ensures
        all_text(shell_keys(lines, state, filter, no_hist, track_subcommands)),
    decreases lines.len(),
{
    if lines.len() > 0 {
        let raw = lines[0];
        let mv = shell_line(state, raw);
        if mv.command is Some {
            let line = without_line_end(raw);
            lemma_without_line_end_is_text(raw);
            lemma_position(line, ';' as u8);
            if mv.command->0 != line {
                lemma_behind_byte(line, position(line, ';' as u8));
            }
            lemma_line_keys_are_text(mv.command->0, filter, no_hist, track_subcommands);
        }
        lemma_shell_keys_are_text(lines.drop_first(), mv.next, filter, no_hist, track_subcommands);
        lemma_all_text_concat(
            command_keys(mv.command, filter, no_hist, track_subcommands),
            shell_keys(lines.drop_first(), mv.next, filter, no_hist, track_subcommands),
        );
    }
}

/// Text without the whitespace that it ends with is text.
pub proof fn lemma_trim_end_is_text(s: Seq<u8>)
    requires
        valid_utf8(s),
    ensures
        valid_utf8(trim_end(s)),
    decreases s.len(),
{
    let n = trailing_space(s);
    if n != 0 {
        let k = s.len() - n;
        assert(is_cut(s, k));
        if s.len() > 0 {
            assert(is_cut(s, 0)) by {
                is_char_boundary_start_end_of_seq(s);
                is_char_boundary_iff_not_is_continuation_byte(s, 0);
            }
        }
        lemma_part_is_text(s, 0, k);
        lemma_trim_end_is_text(s.take(k));
    }
}

/// What a line does to a command in progress that is text leaves text.
pub proof fn lemma_fish_line_keeps_text(current: Seq<u8>, raw: Seq<u8>)
    requires
        valid_utf8(current),
    ensures
        valid_utf8(fish_line(current, raw).current),
        valid_utf8(fish_line(current, raw).flushed),
{
    assert(valid_utf8(Seq::<u8>::empty()));
    if valid_utf8(raw) {
        let line = without_line_end(raw);
        lemma_without_line_end_is_text(raw);
        if crate::history::fish::cmd_marker().is_prefix_of(line) {
            assert(line[6] == ' ' as u8);
            lemma_behind_byte(line, 6);
        } else if current.len() > 0 && !crate::history::fish::is_entry_metadata(line)
            && crate::history::fish::is_continuation(current, line) {
            lemma_before_last(current);
            lemma_trim_end_is_text(current.drop_last());
            lemma_ascii_byte_is_text(' ' as u8);
            assert(line[1] == ' ' as u8);
            lemma_behind_byte(line, 1);
            valid_utf8_concat(trim_end(current.drop_last()), seq![' ' as u8]);
            valid_utf8_concat(trim_end(current.drop_last()) + seq![' ' as u8], line.skip(2));
        }
    }
}

/// The names that the lines of a fish history add are text, where the
/// command in progress is text.
pub proof fn lemma_fish_keys_are_text(
    lines: Seq<Seq<u8>>,
    current: Seq<u8>,
    filter: Set<Seq<u8>>,
    no_hist: bool,
    track_subcommands: bool,
)
    requires
        valid_utf8(current),
    ensures
        all_text(fish_keys(lines, current, filter, no_hist, track_subcommands)),
    decreases lines.len(),
{
    if lines.len() == 0 {
        lemma_line_keys_are_text(current, filter, no_hist, track_subcommands);
    } else {
        let mv = fish_line(current, lines[0]);
        lemma_fish_line_keeps_text(current, lines[0]);
        lemma_line_keys_are_text(mv.flushed, filter, no_hist, track_subcommands);
        lemma_fish_keys_are_text(
            lines.drop_first(),
            mv.current,
            filter,
            no_hist,
            track_subcommands,
        );
        lemma_all_text_concat(
            line_keys(mv.flushed, filter, no_hist, track_subcommands),
            fish_keys(lines.drop_first(), mv.current, filter, no_hist, track_subcommands),
        );
    }
}

/// The names that the lines of a plain history add are text.
pub proof fn lemma_simple_keys_are_text(
    lines: Seq<Seq<u8>>,
    rule: SkipRule,
    filter: Set<Seq<u8>>,
    no_hist: bool,
    track_subcommands: bool,
)
    ensures
        all_text(simple_keys(lines, rule, filter, no_hist, track_subcommands)),
    decreases lines.len(),
{
    if lines.len() > 0 {
        if valid_utf8(lines[0]) {
            lemma_without_line_end_is_text(lines[0]);
            lemma_line_keys_are_text(
                without_line_end(lines[0]),
                filter,
                no_hist,
                track_subcommands,
            );
        }
        lemma_simple_keys_are_text(lines.drop_first(), rule, filter, no_hist, track_subcommands);
        lemma_all_text_concat(
            simple_line_keys(lines[0], rule, filter, no_hist, track_subcommands),
            simple_keys(lines.drop_first(), rule, filter, no_hist, track_subcommands),
        );
    }
}

/// Every name in the counts of texts is text.
pub proof fn lemma_counted_names_are_text(names: Seq<Seq<u8>>)
    requires
        all_text(names),
    ensures
        forall|k: Seq<u8>| #[trigger]
            record_all(Map::empty(), names).contains_key(k) ==> valid_utf8(k),
{
    assert forall|k: Seq<u8>| #[trigger]
        record_all(Map::empty(), names).contains_key(k) implies valid_utf8(k) by {
        lemma_record_all_counts(Map::empty(), names, k);
        let i = choose|i: int| 0 <= i < names.len() && names[i] == k;
        assert(valid_utf8(names[i]));
    }
}

/// Every name in the counts of a history is text, whatever bytes the
/// history holds and whichever reader reads it.
pub proof fn lemma_history_names_are_text(
    bytes: Seq<u8>,
    filter: Set<Seq<u8>>,
    no_hist: bool,
    track_subcommands: bool,
)
    ensures
        forall|k: Seq<u8>| #[trigger]
            record_all(
                Map::empty(),
                history_keys(bytes, filter, no_hist, track_subcommands),
            ).contains_key(k) ==> valid_utf8(k),
        forall|k: Seq<u8>| #[trigger]
            record_all(
                Map::empty(),
                simple_keys(
                    text_lines(bytes),
                    SkipRule::Comments,
                    filter,
                    no_hist,
                    track_subcommands,
                ),
            ).contains_key(k) ==> valid_utf8(k),
        forall|k: Seq<u8>| #[trigger]
            record_all(
                Map::empty(),
                simple_keys(
                    text_lines(bytes),
                    SkipRule::Nothing,
                    filter,
                    no_hist,
                    track_subcommands,
                ),
            ).contains_key(k) ==> valid_utf8(k),
{
    assert(valid_utf8(Seq::<u8>::empty()));
    match detected(bytes) {
        HistoryFormat::Fish => lemma_fish_keys_are_text(
            text_lines(bytes),
            Seq::empty(),
            filter,
            no_hist,
            track_subcommands,
        ),
        HistoryFormat::Shell => lemma_shell_keys_are_text(
            split_lines(bytes),
            ShellState::Normal,
            filter,
            no_hist,
            track_subcommands,
        ),
    }
    lemma_counted_names_are_text(history_keys(bytes, filter, no_hist, track_subcommands));
    lemma_simple_keys_are_text(
        text_lines(bytes),
        SkipRule::Comments,
        filter,
        no_hist,
        track_subcommands,
    );
    lemma_counted_names_are_text(
        simple_keys(text_lines(bytes), SkipRule::Comments, filter, no_hist, track_subcommands),
    );
    lemma_simple_keys_are_text(
        text_lines(bytes),
        SkipRule::Nothing,
        filter,
        no_hist,
        track_subcommands,
    );
    lemma_counted_names_are_text(
        simple_keys(text_lines(bytes), SkipRule::Nothing, filter, no_hist, track_subcommands),
    );
}

} // verus!
