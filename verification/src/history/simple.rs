//! Reader for the plain formats, in which every line that is not skipped is
//! one command.

use crate::counts::{
    build_filter, filter_of, lemma_record_all_concat, lemma_record_all_peak, members,
    peak_at_most, record_all, FrequencyMap,
};
use crate::history::extract::{count_commands, lemma_line_keys_fit, line_keys};
use crate::history::lines::{lemma_after_first_line, lines_of, next_line, text_lines, unread};
use crate::text::{
    is_text, lemma_without_line_end, trim, trim_bytes, trim_line_end, without_line_end,
};
use vstd::prelude::*;
use vstd::utf8::valid_utf8;

verus! {

/// Which lines of a plain history are no commands, besides the blank ones.
#[derive(Clone, Copy, Debug, PartialEq, Eq, Structural)]
pub enum SkipRule {
    /// None: every line that is not blank is a command.
    Nothing,
    /// Lines whose first character that is no whitespace is `#`.
    Comments,
}

/// Whether the rule skips the line. Blank lines are always skipped.
pub open spec fn is_skipped(rule: SkipRule, line: Seq<u8>) -> bool {
    trim(line).len() == 0 || (rule == SkipRule::Comments && trim(line)[0] == '#' as u8)
}

/// The names that one physical line adds. A line that is not valid UTF-8
/// adds none.
pub open spec fn simple_line_keys(
    raw: Seq<u8>,
    rule: SkipRule,
    filter: Set<Seq<u8>>,
    no_hist: bool,
    track_subcommands: bool,
) -> Seq<Seq<u8>> {
    if valid_utf8(raw) && !is_skipped(rule, without_line_end(raw)) {
        line_keys(without_line_end(raw), filter, no_hist, track_subcommands)
    } else {
        Seq::empty()
    }
}

/// The names that the physical lines `lines` add.
pub open spec fn simple_keys(
    lines: Seq<Seq<u8>>,
    rule: SkipRule,
    filter: Set<Seq<u8>>,
    no_hist: bool,
    track_subcommands: bool,
) -> Seq<Seq<u8>>
    decreases lines.len(),
{
    if lines.len() == 0 {
        Seq::empty()
    } else {
        simple_line_keys(lines[0], rule, filter, no_hist, track_subcommands) + simple_keys(
            lines.drop_first(),
            rule,
            filter,
            no_hist,
            track_subcommands,
        )
    }
}

/// Whether the rule skips the line.
pub fn skips(rule: SkipRule, line: &[u8]) -> (r: bool)
    ensures
        r == is_skipped(rule, line@),
{
    let trimmed = trim_bytes(line);
    if trimmed.len() == 0 {
        return true;
    }
    match rule {
        SkipRule::Nothing => false,
        SkipRule::Comments => trimmed[0] == '#' as u8,
    }
}

/// Counts the commands of a plain history.
pub fn count_from_bytes(
    bytes: &[u8],
    rule: SkipRule,
    ignore: &[Vec<u8>],
    no_hist: bool,
    track_subcommands: bool,
) -> (out: FrequencyMap)
    ensures
        out@ == record_all(
            Map::empty(),
            simple_keys(
                text_lines(bytes@),
                rule,
                filter_of(ignore@, no_hist),
                no_hist,
                track_subcommands,
            ),
        ),
{
    let filtered = build_filter(ignore, no_hist);
    let ghost filter = filter_of(ignore@, no_hist);
    let ghost all = simple_keys(text_lines(bytes@), rule, filter, no_hist, track_subcommands);
    let mut counts = FrequencyMap::new();
    let mut it = lines_of(bytes);
    let ghost mut done: Seq<Seq<u8>> = Seq::empty();
    let n = bytes.len();
    proof {
        assert(done + all =~= all);
        assert(record_all(Map::<Seq<u8>, nat>::empty(), done) == Map::<Seq<u8>, nat>::empty());
    }
    loop
        invariant
            n == bytes@.len(),
            filter == members(filtered),
            filter == filter_of(ignore@, no_hist),
            all == simple_keys(text_lines(bytes@), rule, filter, no_hist, track_subcommands),
            all == done + simple_keys(
                text_lines(unread(it)),
                rule,
                filter,
                no_hist,
                track_subcommands,
            ),
            counts@ == record_all(Map::empty(), done),
            unread(it).len() <= n,
            peak_at_most(counts@, (n - unread(it).len()) as nat),
        decreases unread(it).len(),
    {
        let ghost left = unread(it);
        let ghost before = counts@;
        let ghost room = (n - left.len()) as nat;
        let raw = match next_line(&mut it) {
            None => {
                proof {
                    assert(done + Seq::<Seq<u8>>::empty() =~= done);
                }
                return counts;
            },
            Some(raw) => raw,
        };
        let ghost keys = simple_line_keys(raw@, rule, filter, no_hist, track_subcommands);
        proof {
            lemma_after_first_line(left);
            assert(text_lines(left) == seq![raw@] + text_lines(unread(it)));
            assert(text_lines(left).drop_first() =~= text_lines(unread(it)));
            assert(text_lines(left)[0] == raw@);
            lemma_without_line_end(raw@);
            assert(record_all(before, Seq::<Seq<u8>>::empty()) == before);
            lemma_line_keys_fit(without_line_end(raw@), filter, no_hist, track_subcommands);
            assert forall|k: Seq<u8>| before.contains_key(k) implies #[trigger] before[k]
                <= usize::MAX - without_line_end(raw@).len() by {
                assert(before[k] <= room);
            }
        }
        if is_text(raw) {
            let line = trim_line_end(raw);
            if !skips(rule, line) {
                count_commands(&mut counts, line, &filtered, no_hist, track_subcommands);
            }
        }
        proof {
            assert(counts@ == record_all(before, keys));
            lemma_record_all_concat(Map::empty(), done, keys);
            lemma_record_all_peak(before, keys, room);
            assert forall|k: Seq<u8>| counts@.contains_key(k) implies #[trigger] counts@[k] <= n
                - unread(it).len() by {
                assert(counts@[k] <= room + keys.len());
            }
            assert(done + (keys + simple_keys(
                text_lines(unread(it)),
                rule,
                filter,
                no_hist,
                track_subcommands,
            )) =~= (done + keys) + simple_keys(
                text_lines(unread(it)),
                rule,
                filter,
                no_hist,
                track_subcommands,
            ));
            done = done + keys;
        }
    }
}

} // verus!
