//! Reader for tcsh and csh histories: plain lines between `#+` timestamps.

use crate::counts::{filter_of, record_all, FrequencyMap};
use crate::history::lines::text_lines;
use crate::history::simple::{simple_keys, SkipRule};
use vstd::prelude::*;

verus! {

/// Counts the commands of a tcsh history: every line that is neither blank
/// nor a comment is one command.
pub fn count_from_bytes(
    bytes: &[u8],
    ignore: &[Vec<u8>],
    no_hist: bool,
    track_subcommands: bool,
) -> (out: FrequencyMap)
    ensures
        out@ == record_all(
            Map::empty(),
            simple_keys(
                text_lines(bytes@),
                SkipRule::Comments,
                filter_of(ignore@, no_hist),
                no_hist,
                track_subcommands,
            ),
        ),
{
    crate::history::simple::count_from_bytes(
        bytes,
        SkipRule::Comments,
        ignore,
        no_hist,
        track_subcommands,
    )
}

} // verus!
