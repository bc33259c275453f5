//! From one logical command to the names that it adds to the counts.

use crate::command_parse::{command_key, get_first_word, lemma_pick, words};
use crate::counts::{
    count_in, lemma_record_all_push, members, peak_at_most, record, record_all, FrequencyMap,
};
use crate::pipeline::{lemma_separator_is, stages, SplitCommands};
use crate::text::{contains_byte, has_byte, lemma_position};
use ahash::AHashSet;
use vstd::prelude::*;

verus! {

/// The key as a sequence of at most one name.
pub open spec fn key_seq(key: Option<Seq<u8>>) -> Seq<Seq<u8>> {
    match key {
        Some(name) => seq![name],
        None => Seq::empty(),
    }
}

/// The keys of the stages `st`, in order.
pub open spec fn stage_keys(
    st: Seq<Seq<u8>>,
    filter: Set<Seq<u8>>,
    track_subcommands: bool,
) -> Seq<Seq<u8>>
    decreases st.len(),
{
    if st.len() == 0 {
        Seq::empty()
    } else {
        stage_keys(st.drop_last(), filter, track_subcommands) + key_seq(
            command_key(st.last(), filter, track_subcommands),
        )
    }
}

/// The names that one logical command adds to the counts. In history mode
/// each stage of its pipeline gives at most one; otherwise the whole command
/// is one stage, whatever pipes it holds.
pub open spec fn line_keys(
    line: Seq<u8>,
    filter: Set<Seq<u8>>,
    no_hist: bool,
    track_subcommands: bool,
) -> Seq<Seq<u8>> {
    if no_hist {
        key_seq(command_key(line, filter, track_subcommands))
    } else {
        stage_keys(stages(line), filter, track_subcommands)
    }
}

/// Sum of the lengths of the stages `st`.
pub open spec fn total_len(st: Seq<Seq<u8>>) -> nat
    decreases st.len(),
{
    if st.len() == 0 {
        0
    } else {
        total_len(st.drop_last()) + st.last().len()
    }
}

/// A stage in front adds its length.
pub proof fn lemma_total_len_prepend(a: Seq<u8>, st: Seq<Seq<u8>>)
    ensures
        total_len(seq![a] + st) == a.len() + total_len(st),
    decreases st.len(),
{
    let all = seq![a] + st;
    if st.len() == 0 {
        assert(all.drop_last() =~= Seq::<Seq<u8>>::empty());
        assert(all.last() == a);
        assert(total_len(all.drop_last()) == 0);
    } else {
        lemma_total_len_prepend(a, st.drop_last());
        assert(all.drop_last() =~= seq![a] + st.drop_last());
        assert(all.last() == st.last());
    }
}

/// The stages of a line are cut from it, so they are no longer than it.
pub proof fn lemma_stages_fit(s: Seq<u8>)
    ensures
        total_len(stages(s)) <= s.len(),
    decreases s.len(),
{
    if s.len() > 0 {
        crate::pipeline::lemma_separator_from(s, 0);
        let p = crate::pipeline::separator_from(s, 0);
        if p < s.len() {
            lemma_stages_fit(s.skip(p + 1));
            lemma_total_len_prepend(s.take(p), stages(s.skip(p + 1)));
        } else {
            lemma_total_len_prepend(s, Seq::empty());
            assert(seq![s] + Seq::<Seq<u8>>::empty() =~= seq![s]);
        }
    }
}

/// A stage that has a key is not empty.
pub proof fn lemma_key_needs_bytes(cmd: Seq<u8>, filter: Set<Seq<u8>>, track_subcommands: bool)
    ensures
        command_key(cmd, filter, track_subcommands) is Some ==> cmd.len() > 0,
{
    lemma_pick(words(cmd), filter);
}

/// No more keys than bytes.
pub proof fn lemma_stage_keys_fit(st: Seq<Seq<u8>>, filter: Set<Seq<u8>>, track_subcommands: bool)
    ensures
        stage_keys(st, filter, track_subcommands).len() <= total_len(st),
    decreases st.len(),
{
    if st.len() > 0 {
        lemma_stage_keys_fit(st.drop_last(), filter, track_subcommands);
        lemma_key_needs_bytes(st.last(), filter, track_subcommands);
    }
}

/// A logical command adds no more names than it has bytes.
pub proof fn lemma_line_keys_fit(
    line: Seq<u8>,
    filter: Set<Seq<u8>>,
    no_hist: bool,
    track_subcommands: bool,
)
    ensures
        line_keys(line, filter, no_hist, track_subcommands).len() <= line.len(),
{
    if no_hist {
        lemma_key_needs_bytes(line, filter, track_subcommands);
    } else {
        lemma_stages_fit(line);
        lemma_stage_keys_fit(stages(line), filter, track_subcommands);
    }
}

/// A line without a pipe is one stage, or none when it is empty.
pub proof fn lemma_stages_without_pipe(line: Seq<u8>)
    requires
        !has_byte(line, '|' as u8),
    ensures
        stages(line) == (if line.len() == 0 {
            Seq::<Seq<u8>>::empty()
        } else {
            seq![line]
        }),
{
    lemma_position(line, '|' as u8);
    if line.len() > 0 {
        lemma_separator_is(line, line.len() as int);
    }
}

/// Counts the commands of one logical command.
pub fn count_commands(
    counts: &mut FrequencyMap,
    line: &[u8],
    filtered: &AHashSet<Vec<u8>>,
    no_hist: bool,
    track_subcommands: bool,
)
    requires
        peak_at_most(old(counts)@, (usize::MAX - line@.len()) as nat),
    ensures
        final(counts)@ == record_all(
            old(counts)@,
            line_keys(line@, members(*filtered), no_hist, track_subcommands),
        ),
{
    let ghost filter = members(*filtered);
    let ghost start = counts@;
    let n = line.len();
    if !no_hist && contains_byte(line, '|' as u8) {
        let mut it = SplitCommands::new(line);
        let ghost mut done: Seq<Seq<u8>> = Seq::empty();
        proof {
            assert(done + it@ =~= stages(line@));
        }
        loop
            invariant
                !no_hist,
                start == old(counts)@,
                filter == members(*filtered),
                n == line@.len(),
                it@ == stages(it.rest()),
                stages(line@) == done + it@,
                it.rest().len() <= n,
                counts@ == record_all(start, stage_keys(done, filter, track_subcommands)),
                peak_at_most(counts@, (usize::MAX - it.rest().len()) as nat),
            decreases it@.len(),
        {
            let ghost before = it@;
            let ghost unread = it.rest();
            let ghost keys = stage_keys(done, filter, track_subcommands);
            match it.next() {
                None => {
                    proof {
                        assert(done + before =~= done);
                    }
                    return ;
                },
                Some(stage) => {
                    let key = get_first_word(stage, filtered, track_subcommands);
                    proof {
                        lemma_key_needs_bytes(stage@, filter, track_subcommands);
                        assert(done.push(stage@).drop_last() =~= done);
                        assert(done.push(stage@).last() == stage@);
                        assert(done.push(stage@) + it@ =~= done + before);
                        assert(stage_keys(done.push(stage@), filter, track_subcommands) == keys
                            + key_seq(command_key(stage@, filter, track_subcommands)));
                    }
                    match key {
                        Some(name) => {
                            assert(unread.len() >= 1 + it.rest().len());
                            assert(count_in(counts@, name@) < usize::MAX) by {
                                if counts@.contains_key(name@) {
                                    assert(counts@[name@] <= usize::MAX - unread.len());
                                }
                            }
                            let ghost seen = counts@;
                            counts.increment(name.as_slice());
                            proof {
                                lemma_record_all_push(start, keys, name@);
                                assert(keys + seq![name@] =~= keys.push(name@));
                                assert forall|k: Seq<u8>| counts@.contains_key(k) implies #[trigger] counts@[k]
                                    <= usize::MAX - it.rest().len() by {
                                    if k != name@ {
                                        assert(seen.contains_key(k));
                                        assert(seen[k] <= usize::MAX - unread.len());
                                    } else if seen.contains_key(k) {
                                        assert(seen[k] <= usize::MAX - unread.len());
                                    }
                                }
                            }
                        },
                        None => {
                            proof {
                                assert(keys + Seq::<Seq<u8>>::empty() =~= keys);
                                assert forall|k: Seq<u8>| counts@.contains_key(k) implies #[trigger] counts@[k]
                                    <= usize::MAX - it.rest().len() by {
                                    assert(counts@[k] <= usize::MAX - unread.len());
                                }
                            }
                        },
                    }
                    proof {
                        done = done.push(stage@);
                    }
                },
            }
        }
    } else {
        let ghost key = command_key(line@, filter, track_subcommands);
        proof {
            lemma_key_needs_bytes(line@, filter, track_subcommands);
            if !no_hist {
                lemma_stages_without_pipe(line@);
                if line@.len() > 0 {
                    assert(seq![line@].drop_last() =~= Seq::<Seq<u8>>::empty());
                    assert(seq![line@].last() == line@);
                    assert(stage_keys(Seq::<Seq<u8>>::empty(), filter, track_subcommands)
                        == Seq::<Seq<u8>>::empty());
                    assert(stage_keys(seq![line@], filter, track_subcommands) == Seq::<
                        Seq<u8>,
                    >::empty() + key_seq(key));
                    assert(Seq::<Seq<u8>>::empty() + key_seq(key) =~= key_seq(key));
                }
            }
            assert(line_keys(line@, filter, no_hist, track_subcommands) == key_seq(key));
        }
        match get_first_word(line, filtered, track_subcommands) {
            Some(name) => {
                assert(count_in(counts@, name@) < usize::MAX) by {
                    if counts@.contains_key(name@) {
                        assert(counts@[name@] <= usize::MAX - line@.len());
                    }
                }
                counts.increment(name.as_slice());
                proof {
                    assert(seq![name@].drop_last() =~= Seq::<Seq<u8>>::empty());
                    assert(seq![name@].last() == name@);
                    assert(record_all(start, Seq::<Seq<u8>>::empty()) == start);
                    assert(record_all(start, seq![name@]) == record(start, name@));
                }
            },
            None => {
                assert(record_all(start, Seq::<Seq<u8>>::empty()) == start);
            },
        }
    }
}

} // verus!
