//! Reader for line-oriented histories: bash, ash and zsh, with or without
//! zsh's extended metadata.

use crate::counts::{
    build_filter, filter_of, lemma_record_all_concat, lemma_record_all_peak, members,
    peak_at_most, record_all, FrequencyMap,
};
use crate::history::extract::{count_commands, lemma_line_keys_fit, line_keys};
use crate::history::lines::{piece_at, split_lines};
use crate::text::{
    find_byte, has_byte, lemma_position, lemma_without_line_end, position, starts_with,
    trim_line_end, without_line_end,
};
use vstd::prelude::*;
use vstd::utf8::valid_utf8;

verus! {

/// Whether the reader is about to read a command or the rest of one.
#[derive(Clone, Copy, Debug, PartialEq, Eq, Structural)]
pub enum ShellState {
    /// The next line is a command.
    Normal,
    /// The next line continues an earlier one and is dropped.
    AwaitingContinuation,
}

/// What one line does: the state it leaves, and the command to count.
pub ghost struct ShellMove {
    pub next: ShellState,
    pub command: Option<Seq<u8>>,
}

/// Whether the line is a zsh metadata line: it begins with `: `.
pub open spec fn is_metadata(line: Seq<u8>) -> bool {
    seq![':' as u8, ' ' as u8].is_prefix_of(line)
}

/// Whether the line is a metadata line that lacks the `;` before its
/// command.
pub open spec fn is_malformed(line: Seq<u8>) -> bool {
    is_metadata(line) && !has_byte(line, ';' as u8)
}

/// The text of the line: what follows the first `;` of a metadata line, and
/// any other line as it is.
pub open spec fn content(line: Seq<u8>) -> Seq<u8> {
    if is_metadata(line) && has_byte(line, ';' as u8) {
        line.skip(position(line, ';' as u8) + 1)
    } else {
        line
    }
}

/// Whether the text ends in a backslash, so that the next line continues it.
pub open spec fn is_continued(text: Seq<u8>) -> bool {
    text.len() > 0 && text.last() == '\\' as u8
}

/// The transition table. A line read in `Normal` is counted, and leaves the
/// reader awaiting a continuation when it ends in a backslash; a malformed
/// metadata line is not counted and leaves it awaiting one. A line read
/// while awaiting a continuation is dropped, and the reader goes on
/// awaiting when that line ends in a backslash too.
pub open spec fn shell_step(state: ShellState, line: Seq<u8>) -> ShellMove {
    let after = if is_continued(content(line)) {
        ShellState::AwaitingContinuation
    } else {
        ShellState::Normal
    };
    match state {
        ShellState::Normal => if is_malformed(line) {
            ShellMove { next: ShellState::AwaitingContinuation, command: None }
        } else {
            ShellMove { next: after, command: Some(content(line)) }
        },
        ShellState::AwaitingContinuation => ShellMove { next: after, command: None },
    }
}

/// What one physical line does. A line that is not valid UTF-8 is passed
/// over; any other is read without its line end.
pub open spec fn shell_line(state: ShellState, raw: Seq<u8>) -> ShellMove {
    if valid_utf8(raw) {
        shell_step(state, without_line_end(raw))
    } else {
        ShellMove { next: state, command: None }
    }
}

/// The names that a command to count adds, if there is one.
pub open spec fn command_keys(
    command: Option<Seq<u8>>,
    filter: Set<Seq<u8>>,
    no_hist: bool,
    track_subcommands: bool,
) -> Seq<Seq<u8>> {
    match command {
        Some(text) => line_keys(text, filter, no_hist, track_subcommands),
        None => Seq::empty(),
    }
}

/// The names that the physical lines `lines` add, read from `state` on.
pub open spec fn shell_keys(
    lines: Seq<Seq<u8>>,
    state: ShellState,
    filter: Set<Seq<u8>>,
    no_hist: bool,
    track_subcommands: bool,
) -> Seq<Seq<u8>>
    decreases lines.len(),
{
    if lines.len() == 0 {
        Seq::empty()
    } else {
        let mv = shell_line(state, lines[0]);
        command_keys(mv.command, filter, no_hist, track_subcommands) + shell_keys(
            lines.drop_first(),
            mv.next,
            filter,
            no_hist,
            track_subcommands,
        )
    }
}

/// What one line does, as the reader sees it.
pub struct ShellStep<'a> {
    pub next: ShellState,
    pub command: Option<&'a [u8]>,
}

impl<'a> ShellStep<'a> {
    /// Whether this is the move `mv`.
    pub open spec fn is_move(&self, mv: ShellMove) -> bool {
        &&& self.next == mv.next
        &&& self.command is Some <==> mv.command is Some
        &&& self.command is Some ==> self.command->0@ == mv.command->0
    }
}

/// The transition of the reader on a line of text without its line end.
pub fn step(state: ShellState, line: &[u8]) -> (r: ShellStep<'_>)
    ensures
        r.is_move(shell_step(state, line@)),
        r.command is Some ==> r.command->0@.len() <= line@.len(),
{
    let n = line.len();
    let marker: [u8; 2] = [':' as u8, ' ' as u8];
    assert(marker@ =~= seq![':' as u8, ' ' as u8]);
    let metadata = starts_with(line, marker.as_slice());
    let cut = if metadata {
        find_byte(line, ';' as u8)
    } else {
        None
    };
    proof {
        lemma_position(line@, ';' as u8);
    }
    let text = match cut {
        Some(i) => {
            assert(i < n);
            assert(line@.skip(i + 1) =~= line@.subrange(i + 1, n as int));
            &line[i + 1..n]
        },
        None => line,
    };
    assert(text@ == content(line@));
    let after = if text.len() > 0 && text[text.len() - 1] == '\\' as u8 {
        ShellState::AwaitingContinuation
    } else {
        ShellState::Normal
    };
    match state {
        ShellState::Normal => {
            if metadata && cut.is_none() {
                ShellStep { next: ShellState::AwaitingContinuation, command: None }
            } else {
                ShellStep { next: after, command: Some(text) }
            }
        },
        ShellState::AwaitingContinuation => ShellStep { next: after, command: None },
    }
}

/// Counts the commands of a line-oriented history.
pub fn count_from_bytes(
    bytes: &[u8],
    ignore: &[Vec<u8>],
    no_hist: bool,
    track_subcommands: bool,
) -> (out: FrequencyMap)
    ensures
        out@ == record_all(
            Map::empty(),
            shell_keys(
                split_lines(bytes@),
                ShellState::Normal,
                filter_of(ignore@, no_hist),
                no_hist,
                track_subcommands,
            ),
        ),
{
    let filtered = build_filter(ignore, no_hist);
    let ghost filter = filter_of(ignore@, no_hist);
    let ghost all = shell_keys(
        split_lines(bytes@),
        ShellState::Normal,
        filter,
        no_hist,
        track_subcommands,
    );
    let mut counts = FrequencyMap::new();
    let mut state = ShellState::Normal;
    let mut from: usize = 0;
    let ghost mut done: Seq<Seq<u8>> = Seq::empty();
    let n = bytes.len();
    proof {
        assert(bytes@.skip(0) =~= bytes@);
        assert(done + all =~= all);
        assert(record_all(Map::<Seq<u8>, nat>::empty(), done) == Map::<Seq<u8>, nat>::empty());
    }
    loop
        invariant
            from <= n,
            n == bytes@.len(),
            filter == members(filtered),
            filter == filter_of(ignore@, no_hist),
            all == shell_keys(
                split_lines(bytes@),
                ShellState::Normal,
                filter,
                no_hist,
                track_subcommands,
            ),
            all == done + shell_keys(
                split_lines(bytes@.skip(from as int)),
                state,
                filter,
                no_hist,
                track_subcommands,
            ),
            counts@ == record_all(Map::empty(), done),
            peak_at_most(counts@, from as nat),
        decreases n - from,
    {
        let piece = piece_at(bytes, from);
        let raw = &bytes[from..piece.end];
        let ghost lines = split_lines(bytes@.skip(from as int));
        let ghost mv = shell_line(state, raw@);
        let ghost keys = command_keys(mv.command, filter, no_hist, track_subcommands);
        let ghost before = counts@;
        assert(lines[0] == raw@);
        if crate::text::is_text(raw) {
            let line = trim_line_end(raw);
            proof {
                lemma_without_line_end(raw@);
            }
            let moved = step(state, line);
            state = moved.next;
            match moved.command {
                Some(text) => {
                    proof {
                        lemma_line_keys_fit(text@, filter, no_hist, track_subcommands);
                        assert forall|k: Seq<u8>| before.contains_key(k) implies #[trigger] before[k]
                            <= usize::MAX - text@.len() by {
                            assert(before[k] <= from);
                        }
                    }
                    count_commands(&mut counts, text, &filtered, no_hist, track_subcommands);
                },
                None => {
                    proof {
                        assert(record_all(before, Seq::<Seq<u8>>::empty()) == before);
                    }
                },
            }
        } else {
            proof {
                assert(record_all(before, Seq::<Seq<u8>>::empty()) == before);
            }
        }
        proof {
            assert(counts@ == record_all(before, keys));
            lemma_record_all_concat(Map::empty(), done, keys);
            lemma_record_all_peak(before, keys, from as nat);
            if mv.command is Some {
                lemma_line_keys_fit(mv.command->0, filter, no_hist, track_subcommands);
            }
            assert(keys.len() <= piece.end - from);
            assert forall|k: Seq<u8>| counts@.contains_key(k) implies #[trigger] counts@[k]
                <= piece.end by {
                assert(counts@[k] <= from + keys.len());
            }
        }
        if !piece.more {
            proof {
                assert(lines == seq![raw@]);
                assert(lines.drop_first() =~= Seq::<Seq<u8>>::empty());
                assert(shell_keys(
                    Seq::<Seq<u8>>::empty(),
                    mv.next,
                    filter,
                    no_hist,
                    track_subcommands,
                ) == Seq::<Seq<u8>>::empty());
                assert(keys + Seq::<Seq<u8>>::empty() =~= keys);
                assert(all == done + keys);
            }
            return counts;
        }
        proof {
            let rest = split_lines(bytes@.skip(piece.end + 1));
            assert(lines == seq![raw@] + rest);
            assert(lines.drop_first() =~= rest);
            assert(done + (keys + shell_keys(rest, mv.next, filter, no_hist, track_subcommands))
                =~= (done + keys) + shell_keys(rest, mv.next, filter, no_hist, track_subcommands));
            done = done + keys;
        }
        from = piece.end + 1;
    }
}

} // verus!
