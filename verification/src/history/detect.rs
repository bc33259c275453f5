//! The dialect detector: a ranked-signal heuristic over the first lines of
//! a history.

use crate::counts::{filter_of, record_all, FrequencyMap};
use crate::history::fish::{cmd_marker, fish_keys, item_marker, when_marker};
use crate::history::lines::{lemma_after_first_line, lines_of, next_line, split_lines, text_lines, unread};
use crate::history::shell::{is_metadata, shell_keys, ShellState};
use crate::history::simple::{simple_keys, SkipRule};
use crate::text::{contains_byte, has_byte, is_text, starts_with, trim, trim_bytes};
use vstd::prelude::*;
use vstd::utf8::valid_utf8;

verus! {

/// The format family of a history.
#[derive(Debug, Clone, Copy, PartialEq, Eq, Structural)]
pub enum HistoryFormat {
    /// Line-oriented: bash, zsh, ash and their kin.
    Shell,
    /// Blocks of `- cmd: ` entries with metadata.
    Fish,
}

/// Number of lines that the detector inspects at most.
pub const SAMPLE_LINES: u32 = 64;

/// What speaks for either format.
pub ghost struct Scores {
    pub fish: nat,
    pub shell: nat,
}

/// The prefix `when: `.
pub open spec fn bare_when_marker() -> Seq<u8> {
    seq!['w' as u8, 'h' as u8, 'e' as u8, 'n' as u8, ':' as u8, ' ' as u8]
}

/// The prefix `paths:`.
pub open spec fn bare_paths_marker() -> Seq<u8> {
    seq!['p' as u8, 'a' as u8, 't' as u8, 'h' as u8, 's' as u8, ':' as u8]
}

/// The prefix `  paths: `, with a space behind the colon.
pub open spec fn spaced_paths_marker() -> Seq<u8> {
    seq![
        ' ' as u8,
        ' ' as u8,
        'p' as u8,
        'a' as u8,
        't' as u8,
        'h' as u8,
        's' as u8,
        ':' as u8,
        ' ' as u8,
    ]
}

/// What one inspected line speaks for. The first rule that applies decides:
/// trimmed, the line begins with `- cmd: `: 4 for fish; trimmed, it begins
/// with `when: ` or `paths:`: 2 for fish; as it stands, it begins with
/// `  when: `, `  paths: ` or two spaces, a dash and a space: 1 for fish; as
/// it stands, it begins with `: ` and holds a `;`: 3 for shell; otherwise 1
/// for shell.
pub open spec fn line_scores(line: Seq<u8>) -> Scores {
    if cmd_marker().is_prefix_of(trim(line)) {
        Scores { fish: 4, shell: 0 }
    } else if bare_when_marker().is_prefix_of(trim(line)) || bare_paths_marker().is_prefix_of(
        trim(line),
    ) {
        Scores { fish: 2, shell: 0 }
    } else if when_marker().is_prefix_of(line) || spaced_paths_marker().is_prefix_of(line)
        || item_marker().is_prefix_of(line) {
        Scores { fish: 1, shell: 0 }
    } else if is_metadata(line) && has_byte(line, ';' as u8) {
        Scores { fish: 0, shell: 3 }
    } else {
        Scores { fish: 0, shell: 1 }
    }
}

/// Whether the detector inspects the line: it is valid UTF-8 and not blank.
pub open spec fn is_inspected(line: Seq<u8>) -> bool {
    valid_utf8(line) && trim(line).len() > 0
}

/// The scores of the first `budget` inspected lines of `lines`.
pub open spec fn scores(lines: Seq<Seq<u8>>, budget: nat) -> Scores
    decreases lines.len(),
{
    if lines.len() == 0 || budget == 0 {
        Scores { fish: 0, shell: 0 }
    } else if !is_inspected(lines[0]) {
        scores(lines.drop_first(), budget)
    } else {
        let head = line_scores(lines[0]);
        let tail = scores(lines.drop_first(), (budget - 1) as nat);
        Scores { fish: head.fish + tail.fish, shell: head.shell + tail.shell }
    }
}

/// The format that the scores speak for. A tie goes to `Shell`.
pub open spec fn detected(bytes: Seq<u8>) -> HistoryFormat {
    let s = scores(text_lines(bytes), SAMPLE_LINES as nat);
    if s.fish > s.shell {
        HistoryFormat::Fish
    } else {
        HistoryFormat::Shell
    }
}

/// What one line speaks for, in machine integers.
pub struct LineScore {
    pub fish: u32,
    pub shell: u32,
}

/// Scores one inspected line.
pub fn score_line(line: &[u8]) -> (r: LineScore)
    ensures
        r.fish == line_scores(line@).fish,
        r.shell == line_scores(line@).shell,
        r.fish <= 4,
        r.shell <= 3,
{
    let cmd: [u8; 7] = [
        '-' as u8,
        ' ' as u8,
        'c' as u8,
        'm' as u8,
        'd' as u8,
        ':' as u8,
        ' ' as u8,
    ];
    let bare_when: [u8; 6] = ['w' as u8, 'h' as u8, 'e' as u8, 'n' as u8, ':' as u8, ' ' as u8];
    let bare_paths: [u8; 6] = ['p' as u8, 'a' as u8, 't' as u8, 'h' as u8, 's' as u8, ':' as u8];
    let when: [u8; 8] = [
        ' ' as u8,
        ' ' as u8,
        'w' as u8,
        'h' as u8,
        'e' as u8,
        'n' as u8,
        ':' as u8,
        ' ' as u8,
    ];
    let paths: [u8; 9] = [
        ' ' as u8,
        ' ' as u8,
        'p' as u8,
        'a' as u8,
        't' as u8,
        'h' as u8,
        's' as u8,
        ':' as u8,
        ' ' as u8,
    ];
    let item: [u8; 4] = [' ' as u8, ' ' as u8, '-' as u8, ' ' as u8];
    let colon: [u8; 2] = [':' as u8, ' ' as u8];
    proof {
        assert(cmd@ =~= cmd_marker());
        assert(bare_when@ =~= bare_when_marker());
        assert(bare_paths@ =~= bare_paths_marker());
        assert(when@ =~= when_marker());
        assert(paths@ =~= spaced_paths_marker());
        assert(item@ =~= item_marker());
        assert(colon@ =~= seq![':' as u8, ' ' as u8]);
    }
    let trimmed = trim_bytes(line);
    if starts_with(trimmed, cmd.as_slice()) {
        LineScore { fish: 4, shell: 0 }
    } else if starts_with(trimmed, bare_when.as_slice()) || starts_with(
        trimmed,
        bare_paths.as_slice(),
    ) {
        LineScore { fish: 2, shell: 0 }
    } else if starts_with(line, when.as_slice()) || starts_with(line, paths.as_slice())
        || starts_with(line, item.as_slice()) {
        LineScore { fish: 1, shell: 0 }
    } else if starts_with(line, colon.as_slice()) && contains_byte(line, ';' as u8) {
        LineScore { fish: 0, shell: 3 }
    } else {
        LineScore { fish: 0, shell: 1 }
    }
}

/// Decides which format a history is in. Lines that are not valid UTF-8 or
/// blank are not inspected; inspection ends after `SAMPLE_LINES` lines.
pub fn detect_history_format(bytes: &[u8]) -> (r: HistoryFormat)
    ensures
        r == detected(bytes@),
{
    let mut fish: u32 = 0;
    let mut shell: u32 = 0;
    let mut inspected: u32 = 0;
    let mut it = lines_of(bytes);
    let ghost goal = scores(text_lines(bytes@), SAMPLE_LINES as nat);
    let mut at_end = false;
    while !at_end && inspected < SAMPLE_LINES
        invariant
            inspected <= SAMPLE_LINES,
            at_end ==> unread(it).len() == 0,
            fish <= 4 * inspected,
            shell <= 3 * inspected,
            goal == scores(text_lines(bytes@), SAMPLE_LINES as nat),
            goal.fish == fish + scores(
                text_lines(unread(it)),
                (SAMPLE_LINES - inspected) as nat,
            ).fish,
            goal.shell == shell + scores(
                text_lines(unread(it)),
                (SAMPLE_LINES - inspected) as nat,
            ).shell,
        decreases unread(it).len() + (if at_end { 0int } else { 1int }),
    {
        let ghost left = unread(it);
        match next_line(&mut it) {
            None => {
                at_end = true;
            },
            Some(line) => {
                proof {
                    lemma_after_first_line(left);
                    assert(text_lines(left) == seq![line@] + text_lines(unread(it)));
                    assert(text_lines(left).drop_first() =~= text_lines(unread(it)));
                    assert(text_lines(left)[0] == line@);
                }
                if is_text(line) && trim_bytes(line).len() > 0 {
                    let s = score_line(line);
                    fish = fish + s.fish;
                    shell = shell + s.shell;
                    inspected = inspected + 1;
                }
            },
        }
    }
    if fish > shell {
        HistoryFormat::Fish
    } else {
        HistoryFormat::Shell
    }
}

/// The names that a history adds, read by the reader of its detected format.
pub open spec fn history_keys(
    bytes: Seq<u8>,
    filter: Set<Seq<u8>>,
    no_hist: bool,
    track_subcommands: bool,
) -> Seq<Seq<u8>> {
    match detected(bytes) {
        HistoryFormat::Fish => fish_keys(
            text_lines(bytes),
            Seq::empty(),
            filter,
            no_hist,
            track_subcommands,
        ),
        HistoryFormat::Shell => shell_keys(
            split_lines(bytes),
            ShellState::Normal,
            filter,
            no_hist,
            track_subcommands,
        ),
    }
}

/// Detects the format of a history and counts its commands.
pub fn load_command_counts(
    bytes: &[u8],
    ignore: &[Vec<u8>],
    no_hist: bool,
    track_subcommands: bool,
) -> (out: FrequencyMap)
    ensures
        out@ == record_all(
            Map::empty(),
            history_keys(bytes@, filter_of(ignore@, no_hist), no_hist, track_subcommands),
        ),
{
    match detect_history_format(bytes) {
        HistoryFormat::Fish => crate::history::fish::count_from_bytes(
            bytes,
            ignore,
            no_hist,
            track_subcommands,
        ),
        HistoryFormat::Shell => crate::history::shell::count_from_bytes(
            bytes,
            ignore,
            no_hist,
            track_subcommands,
        ),
    }
}

/// The dialects that have a reader of their own.
#[derive(Debug, Clone, Copy, PartialEq, Eq, Structural)]
pub enum Dialect {
    /// bash, ash and zsh: lines, continuations and zsh metadata.
    Shell,
    /// fish: blocks of `- cmd: ` entries.
    Fish,
    /// tcsh and csh: plain lines between `#` timestamps.
    Tcsh,
    /// PowerShell: plain lines.
    PowerShell,
}

/// The dialect that reads a detected format.
pub open spec fn dialect_of(format: HistoryFormat) -> Dialect {
    match format {
        HistoryFormat::Shell => Dialect::Shell,
        HistoryFormat::Fish => Dialect::Fish,
    }
}

/// The names that a history in the given dialect adds.
pub open spec fn dialect_keys(
    dialect: Dialect,
    bytes: Seq<u8>,
    filter: Set<Seq<u8>>,
    no_hist: bool,
    track_subcommands: bool,
) -> Seq<Seq<u8>> {
    match dialect {
        Dialect::Shell => shell_keys(
            split_lines(bytes),
            ShellState::Normal,
            filter,
            no_hist,
            track_subcommands,
        ),
        Dialect::Fish => fish_keys(
            text_lines(bytes),
            Seq::empty(),
            filter,
            no_hist,
            track_subcommands,
        ),
        Dialect::Tcsh => simple_keys(
            text_lines(bytes),
            SkipRule::Comments,
            filter,
            no_hist,
            track_subcommands,
        ),
        Dialect::PowerShell => simple_keys(
            text_lines(bytes),
            SkipRule::Nothing,
            filter,
            no_hist,
            track_subcommands,
        ),
    }
}

impl HistoryFormat {
    /// The dialect that reads this format.
    pub fn dialect(self) -> (r: Dialect)
        ensures
            r == dialect_of(self),
    {
        match self {
            HistoryFormat::Shell => Dialect::Shell,
            HistoryFormat::Fish => Dialect::Fish,
        }
    }
}

/// Counts the commands of a history with the reader of its dialect.
pub fn count_with(
    dialect: Dialect,
    bytes: &[u8],
    ignore: &[Vec<u8>],
    no_hist: bool,
    track_subcommands: bool,
) -> (out: FrequencyMap)
    ensures
        out@ == record_all(
            Map::empty(),
            dialect_keys(
                dialect,
                bytes@,
                filter_of(ignore@, no_hist),
                no_hist,
                track_subcommands,
            ),
        ),
{
    match dialect {
        Dialect::Shell => crate::history::shell::count_from_bytes(
            bytes,
            ignore,
            no_hist,
            track_subcommands,
        ),
        Dialect::Fish => crate::history::fish::count_from_bytes(
            bytes,
            ignore,
            no_hist,
            track_subcommands,
        ),
        Dialect::Tcsh => crate::history::tcsh::count_from_bytes(
            bytes,
            ignore,
            no_hist,
            track_subcommands,
        ),
        Dialect::PowerShell => crate::history::powershell::count_from_bytes(
            bytes,
            ignore,
            no_hist,
            track_subcommands,
        ),
    }
}

/// The history of a detected format is read in the dialect of that format.
pub proof fn lemma_history_keys_by_dialect(
    bytes: Seq<u8>,
    filter: Set<Seq<u8>>,
    no_hist: bool,
    track_subcommands: bool,
)
    ensures
        history_keys(bytes, filter, no_hist, track_subcommands) == dialect_keys(
            dialect_of(detected(bytes)),
            bytes,
            filter,
            no_hist,
            track_subcommands,
        ),
{
}

} // verus!
