//! Reader for fish histories: blocks that begin with `- cmd: ` and go on
//! with indented metadata.

use crate::counts::{
    build_filter, filter_of, lemma_record_all_concat, lemma_record_all_peak, members,
    peak_at_most, record_all, FrequencyMap,
};
use crate::history::extract::{count_commands, lemma_line_keys_fit, line_keys};
use crate::history::lines::{lemma_after_first_line, lines_of, next_line, text_lines, unread};
use crate::text::{
    is_text, lemma_without_line_end, starts_with, trim_end, trim_end_bytes, trim_line_end,
    without_line_end,
};
use vstd::prelude::*;
use vstd::utf8::valid_utf8;

verus! {

/// The prefix of the line that opens an entry: `- cmd: `.
pub open spec fn cmd_marker() -> Seq<u8> {
    seq!['-' as u8, ' ' as u8, 'c' as u8, 'm' as u8, 'd' as u8, ':' as u8, ' ' as u8]
}

/// The prefix `  when: `.
pub open spec fn when_marker() -> Seq<u8> {
    seq![
        ' ' as u8,
        ' ' as u8,
        'w' as u8,
        'h' as u8,
        'e' as u8,
        'n' as u8,
        ':' as u8,
        ' ' as u8,
    ]
}

/// The prefix `  paths:`.
pub open spec fn paths_marker() -> Seq<u8> {
    seq![
        ' ' as u8,
        ' ' as u8,
        'p' as u8,
        'a' as u8,
        't' as u8,
        'h' as u8,
        's' as u8,
        ':' as u8,
    ]
}

/// The prefix of a list item: two spaces, a dash and a space.
pub open spec fn item_marker() -> Seq<u8> {
    seq![' ' as u8, ' ' as u8, '-' as u8, ' ' as u8]
}

/// Whether the line is metadata of an entry.
pub open spec fn is_entry_metadata(line: Seq<u8>) -> bool {
    when_marker().is_prefix_of(line) || paths_marker().is_prefix_of(line)
        || item_marker().is_prefix_of(line)
}

/// Whether `line` continues the command `current`: the command ends in a
/// backslash, and the line is indented by two spaces and is no metadata.
pub open spec fn is_continuation(current: Seq<u8>, line: Seq<u8>) -> bool {
    &&& current.len() > 0
    &&& current.last() == '\\' as u8
    &&& seq![' ' as u8, ' ' as u8].is_prefix_of(line)
    &&& !is_entry_metadata(line)
}

/// The command `current` continued by `line`: its backslash and the
/// whitespace before it give way to one space, and the line follows without
/// its two leading spaces.
pub open spec fn joined(current: Seq<u8>, line: Seq<u8>) -> Seq<u8> {
    trim_end(current.drop_last()) + seq![' ' as u8] + line.skip(2)
}

/// What one line does: the command in progress that it leaves, and the
/// command that it completes. Either is empty where there is none.
pub ghost struct FishMove {
    pub current: Seq<u8>,
    pub flushed: Seq<u8>,
}

/// The transition on a line of text without its line end. A line that
/// begins with `- cmd: ` completes the command in progress and starts the
/// one that follows the prefix. While a command is in progress, metadata
/// completes it and a continuation extends it. Any other line changes
/// nothing.
pub open spec fn fish_step(current: Seq<u8>, line: Seq<u8>) -> FishMove {
    if cmd_marker().is_prefix_of(line) {
        FishMove { current: line.skip(7), flushed: current }
    } else if current.len() == 0 {
        FishMove { current: current, flushed: Seq::empty() }
    } else if is_entry_metadata(line) {
        FishMove { current: Seq::empty(), flushed: current }
    } else if is_continuation(current, line) {
        FishMove { current: joined(current, line), flushed: Seq::empty() }
    } else {
        FishMove { current: current, flushed: Seq::empty() }
    }
}

/// What one physical line does. A line that is not valid UTF-8 is passed
/// over and ends nothing.
pub open spec fn fish_line(current: Seq<u8>, raw: Seq<u8>) -> FishMove {
    if valid_utf8(raw) {
        fish_step(current, without_line_end(raw))
    } else {
        FishMove { current: current, flushed: Seq::empty() }
    }
}

/// The names that the physical lines `lines` add when `current` is the
/// command in progress. The end of the stream completes the last command.
pub open spec fn fish_keys(
    lines: Seq<Seq<u8>>,
    current: Seq<u8>,
    filter: Set<Seq<u8>>,
    no_hist: bool,
    track_subcommands: bool,
) -> Seq<Seq<u8>>
    decreases lines.len(),
{
    if lines.len() == 0 {
        line_keys(current, filter, no_hist, track_subcommands)
    } else {
        let mv = fish_line(current, lines[0]);
        line_keys(mv.flushed, filter, no_hist, track_subcommands) + fish_keys(
            lines.drop_first(),
            mv.current,
            filter,
            no_hist,
            track_subcommands,
        )
    }
}

/// An empty command adds no name.
pub proof fn lemma_no_keys(filter: Set<Seq<u8>>, no_hist: bool, track_subcommands: bool)
    ensures
        line_keys(Seq::empty(), filter, no_hist, track_subcommands) == Seq::<Seq<u8>>::empty(),
{
    lemma_line_keys_fit(Seq::empty(), filter, no_hist, track_subcommands);
    assert(line_keys(Seq::empty(), filter, no_hist, track_subcommands) =~= Seq::<Seq<u8>>::empty());
}

/// Trimming makes nothing longer.
pub proof fn lemma_trim_end_len(s: Seq<u8>)
    ensures
        trim_end(s).len() <= s.len(),
    decreases s.len(),
{
    if crate::text::trailing_space(s) != 0 {
        lemma_trim_end_len(s.take(s.len() - crate::text::trailing_space(s)));
    }
}

/// Whether the line is metadata of an entry.
pub fn is_metadata_line(line: &[u8]) -> (r: bool)
    ensures
        r == is_entry_metadata(line@),
{
    let when: [u8; 8] = [
        ' ' as u8,
        ' ' as u8,
        'w' as u8,
        'h' as u8,
        'e' as u8,
        'n' as u8,
        ':' as u8,
        ' ' as u8,
    ];
    let paths: [u8; 8] = [
        ' ' as u8,
        ' ' as u8,
        'p' as u8,
        'a' as u8,
        't' as u8,
        'h' as u8,
        's' as u8,
        ':' as u8,
    ];
    let item: [u8; 4] = [' ' as u8, ' ' as u8, '-' as u8, ' ' as u8];
    assert(when@ =~= when_marker());
    assert(paths@ =~= paths_marker());
    assert(item@ =~= item_marker());
    starts_with(line, when.as_slice()) || starts_with(line, paths.as_slice()) || starts_with(
        line,
        item.as_slice(),
    )
}

/// What to do with the command in progress.
#[derive(Clone, Copy, Debug, PartialEq, Eq, Structural)]
pub enum FishAction {
    /// Leave it as it is.
    Keep,
    /// Count it and start the command that follows `- cmd: ` on the line.
    Start,
    /// Count it; no command is in progress after that.
    Finish,
    /// Join the line to it.
    Extend,
}

/// The action that `fish_step` takes.
pub open spec fn fish_action(current: Seq<u8>, line: Seq<u8>) -> FishAction {
    if cmd_marker().is_prefix_of(line) {
        FishAction::Start
    } else if current.len() == 0 {
        FishAction::Keep
    } else if is_entry_metadata(line) {
        FishAction::Finish
    } else if is_continuation(current, line) {
        FishAction::Extend
    } else {
        FishAction::Keep
    }
}

/// Decides what a line of text does to the command in progress.
pub fn decide(current: &[u8], line: &[u8]) -> (r: FishAction)
    ensures
        r == fish_action(current@, line@),
{
    let cmd: [u8; 7] = [
        '-' as u8,
        ' ' as u8,
        'c' as u8,
        'm' as u8,
        'd' as u8,
        ':' as u8,
        ' ' as u8,
    ];
    let indent: [u8; 2] = [' ' as u8, ' ' as u8];
    assert(cmd@ =~= cmd_marker());
    assert(indent@ =~= seq![' ' as u8, ' ' as u8]);
    if starts_with(line, cmd.as_slice()) {
        FishAction::Start
    } else if current.len() == 0 {
        FishAction::Keep
    } else if is_metadata_line(line) {
        FishAction::Finish
    } else if current[current.len() - 1] == '\\' as u8 && starts_with(line, indent.as_slice()) {
        FishAction::Extend
    } else {
        FishAction::Keep
    }
}

/// Joins a continuation line to the command in progress.
pub fn extend(current: &mut Vec<u8>, line: &[u8])
    requires
        is_continuation(old(current)@, line@),
    ensures
        final(current)@ == joined(old(current)@, line@),
        final(current)@.len() < old(current)@.len() + line@.len(),
{
    let ghost before = current@;
    current.pop();
    assert(current@ =~= before.drop_last());
    let kept = trim_end_bytes(current.as_slice()).len();
    proof {
        lemma_trim_end_len(before.drop_last());
        lemma_trim_end_keeps_front(before.drop_last());
    }
    current.truncate(kept);
    assert(current@ =~= trim_end(before.drop_last()));
    current.push(' ' as u8);
    let n = line.len();
    assert(line@.skip(2) =~= line@.subrange(2, n as int));
    current.extend_from_slice(&line[2..n]);
}

/// What `trim_end` keeps is the front of what it was given.
pub proof fn lemma_trim_end_keeps_front(s: Seq<u8>)
    ensures
        trim_end(s) == s.take(trim_end(s).len() as int),
    decreases s.len(),
{
    let n = crate::text::trailing_space(s);
    if n != 0 {
        let t = s.take(s.len() - n);
        lemma_trim_end_keeps_front(t);
        lemma_trim_end_len(t);
        assert(t.take(trim_end(t).len() as int) =~= s.take(trim_end(t).len() as int));
    } else {
        assert(s.take(s.len() as int) =~= s);
    }
}

/// Counts the commands of a fish history.
pub fn count_from_bytes(
    bytes: &[u8],
    ignore: &[Vec<u8>],
    no_hist: bool,
    track_subcommands: bool,
) -> (out: FrequencyMap)
    ensures
        out@ == record_all(
            Map::empty(),
            fish_keys(
                text_lines(bytes@),
                Seq::empty(),
                filter_of(ignore@, no_hist),
                no_hist,
                track_subcommands,
            ),
        ),
{
    let filtered = build_filter(ignore, no_hist);
    let ghost filter = filter_of(ignore@, no_hist);
    let ghost all = fish_keys(text_lines(bytes@), Seq::empty(), filter, no_hist, track_subcommands);
    let mut counts = FrequencyMap::new();
    let mut current: Vec<u8> = Vec::new();
    let mut it = lines_of(bytes);
    let ghost mut done: Seq<Seq<u8>> = Seq::empty();
    let n = bytes.len();
    proof {
        assert(done + all =~= all);
        assert(record_all(Map::<Seq<u8>, nat>::empty(), done) == Map::<Seq<u8>, nat>::empty());
    }
    loop
        invariant
            n == bytes@.len(),
            filter == members(filtered),
            filter == filter_of(ignore@, no_hist),
            all == fish_keys(text_lines(bytes@), Seq::empty(), filter, no_hist, track_subcommands),
            all == done + fish_keys(
                text_lines(unread(it)),
                current@,
                filter,
                no_hist,
                track_subcommands,
            ),
            counts@ == record_all(Map::empty(), done),
            current@.len() + unread(it).len() <= n,
            peak_at_most(counts@, (n - unread(it).len() - current@.len()) as nat),
        decreases unread(it).len(),
    {
        let ghost left = unread(it);
        let ghost cur = current@;
        let ghost before = counts@;
        let ghost room = (n - left.len() - cur.len()) as nat;
        let raw = match next_line(&mut it) {
            None => {
                proof {
                    lemma_line_keys_fit(cur, filter, no_hist, track_subcommands);
                    assert forall|k: Seq<u8>| before.contains_key(k) implies #[trigger] before[k]
                        <= usize::MAX - cur.len() by {
                        assert(before[k] <= room);
                    }
                }
                count_commands(
                    &mut counts,
                    current.as_slice(),
                    &filtered,
                    no_hist,
                    track_subcommands,
                );
                proof {
                    lemma_record_all_concat(
                        Map::empty(),
                        done,
                        line_keys(cur, filter, no_hist, track_subcommands),
                    );
                }
                return counts;
            },
            Some(raw) => raw,
        };
        proof {
            lemma_after_first_line(left);
            assert(text_lines(left) == seq![raw@] + text_lines(unread(it)));
            assert(text_lines(left).drop_first() =~= text_lines(unread(it)));
            assert(text_lines(left)[0] == raw@);
            lemma_without_line_end(raw@);
            lemma_no_keys(filter, no_hist, track_subcommands);
            assert(record_all(before, Seq::<Seq<u8>>::empty()) == before);
            lemma_line_keys_fit(cur, filter, no_hist, track_subcommands);
            assert forall|k: Seq<u8>| before.contains_key(k) implies #[trigger] before[k]
                <= usize::MAX - cur.len() by {
                assert(before[k] <= room);
            }
        }
        let ghost mv = fish_line(cur, raw@);
        let ghost keys = line_keys(mv.flushed, filter, no_hist, track_subcommands);
        if is_text(raw) {
            let line = trim_line_end(raw);
            match decide(current.as_slice(), line) {
                FishAction::Keep => {},
                FishAction::Start => {
                    count_commands(
                        &mut counts,
                        current.as_slice(),
                        &filtered,
                        no_hist,
                        track_subcommands,
                    );
                    current.clear();
                    let m = line.len();
                    assert(line@.skip(7) =~= line@.subrange(7, m as int));
                    current.extend_from_slice(&line[7..m]);
                    assert(current@ =~= line@.skip(7));
                },
                FishAction::Finish => {
                    count_commands(
                        &mut counts,
                        current.as_slice(),
                        &filtered,
                        no_hist,
                        track_subcommands,
                    );
                    current.clear();
                    assert(current@ =~= Seq::<u8>::empty());
                },
                FishAction::Extend => {
                    extend(&mut current, line);
                },
            }
        }
        proof {
            assert(current@ == mv.current);
            assert(counts@ == record_all(before, keys));
            lemma_record_all_concat(Map::empty(), done, keys);
            lemma_record_all_peak(before, keys, room);
            lemma_line_keys_fit(mv.flushed, filter, no_hist, track_subcommands);
            assert forall|k: Seq<u8>| counts@.contains_key(k) implies #[trigger] counts@[k] <= n
                - unread(it).len() - current@.len() by {
                assert(counts@[k] <= room + keys.len());
            }
            assert(done + (keys + fish_keys(
                text_lines(unread(it)),
                mv.current,
                filter,
                no_hist,
                track_subcommands,
            )) =~= (done + keys) + fish_keys(
                text_lines(unread(it)),
                mv.current,
                filter,
                no_hist,
                track_subcommands,
            ));
            done = done + keys;
        }
    }
}

} // verus!
