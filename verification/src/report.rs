//! A run from end to end: from the bytes of a history to the bytes of the
//! report.

use crate::bar::{
    item_texts, render_bars, rows_of, sum_values, write_bars, written, BarConfig, BarItem,
    ItemText,
};
use crate::cli::{RunConfig, RunSettings};
use crate::color::Colorizer;
use crate::counts::{filter_of, record_all};
use crate::history::detect::{history_keys, load_command_counts};
use crate::history::laws::lemma_history_keys_fit;
use crate::output::{
    csv_text, entry_texts, format_csv, format_json, json_text, CommandEntry, EntryText,
    OutputFormat,
};
use crate::rank::{
    filter_and_sort_commands, is_ranking, lemma_ranking_fits, lemma_total_count_grows,
    output_limit, total_count, RankedCommand,
};
use vstd::prelude::*;

verus! {

/// The entries of the commands: each with its count and with the sum of
/// all their counts.
pub open spec fn entries_of(list: Seq<RankedCommand>) -> Seq<EntryText> {
    Seq::new(
        list.len(),
        |i: int|
            EntryText {
                command: list[i].name@,
                count: list[i].count as nat,
                total: total_count(list),
            },
    )
}

/// The commands as items to draw.
pub open spec fn items_of(list: Seq<RankedCommand>) -> Seq<ItemText> {
    Seq::new(list.len(), |i: int| ItemText { label: list[i].name@, value: list[i].count as nat })
}

/// The values of the items are the counts of the commands.
pub proof fn lemma_items_sum(list: Seq<RankedCommand>)
    ensures
        sum_values(items_of(list)) == total_count(list),
    decreases list.len(),
{
    if list.len() > 0 {
        lemma_items_sum(list.drop_last());
        assert(items_of(list).drop_last() =~= items_of(list.drop_last()));
    }
}

/// How the bars of a run are drawn.
pub open spec fn bar_config_of(settings: RunSettings) -> BarConfig {
    BarConfig {
        size: if settings.no_bar {
            0
        } else {
            settings.bar_size
        },
        show_percentage: !settings.no_perc,
        show_cumulative: !settings.no_cumu,
    }
}

/// How many of `len` commands a run writes.
pub open spec fn limit_of(len: nat, settings: RunSettings) -> nat {
    if settings.all || len <= settings.count {
        len
    } else {
        settings.count as nat
    }
}

/// The report of the commands `list` in the output format of the run. The
/// JSON array ends in a line feed.
pub open spec fn report_text(list: Seq<RankedCommand>, settings: RunSettings, is_terminal: bool) -> Seq<
    u8,
> {
    match settings.output_format {
        OutputFormat::Json => json_text(entries_of(list)).push('\n' as u8),
        OutputFormat::Csv => csv_text(entries_of(list)),
        OutputFormat::Text => written(
            rows_of(items_of(list), bar_config_of(settings)),
            !settings.no_bar,
            settings.color_mode.uses_color(is_terminal),
        ),
    }
}

/// The counts of the commands of a history under the settings of a run.
pub open spec fn counts_of(input: Seq<u8>, settings: RunSettings, ignore: Seq<Vec<u8>>) -> Map<
    Seq<u8>,
    nat,
> {
    record_all(
        Map::empty(),
        history_keys(
            input,
            filter_of(ignore, settings.no_hist),
            settings.no_hist,
            settings.track_subcommands,
        ),
    )
}

/// The entries of the first `n` commands.
pub fn build_command_entries(commands: &[RankedCommand], n: usize) -> (out: Vec<CommandEntry>)
    requires
        n <= commands@.len(),
        total_count(commands@.take(n as int)) <= usize::MAX,
    ensures
        entry_texts(out@) == entries_of(commands@.take(n as int)),
{
    let ghost list = commands@.take(n as int);
    let mut total: usize = 0;
    let mut i: usize = 0;
    assert(list.take(0) =~= Seq::<RankedCommand>::empty());
    while i < n
        invariant
            i <= n <= commands@.len(),
            list == commands@.take(n as int),
            total_count(list) <= usize::MAX,
            total == total_count(list.take(i as int)),
        decreases n - i,
    {
        proof {
            lemma_total_count_grows(list, i + 1);
            assert(list.take(i + 1).drop_last() =~= list.take(i as int));
            assert(list.take(i + 1).last() == commands@[i as int]);
        }
        total = total + commands[i].count;
        i += 1;
    }
    assert(list.take(n as int) =~= list);
    let mut out: Vec<CommandEntry> = Vec::new();
    let mut i: usize = 0;
    while i < n
        invariant
            i <= n <= commands@.len(),
            list == commands@.take(n as int),
            total == total_count(list),
            out@.len() == i,
            forall|j: int| 0 <= j < i ==> (#[trigger] out@[j])@ == entries_of(list)[j],
        decreases n - i,
    {
        let command = &commands[i];
        assert(list[i as int] == commands@[i as int]);
        out.push(
            CommandEntry::new(
                vstd::slice::slice_to_vec(command.name.as_slice()),
                command.count,
                total,
            ),
        );
        i += 1;
    }
    assert(entry_texts(out@) =~= entries_of(list));
    out
}

/// The first `n` commands as items to draw.
pub fn bar_items<'a>(commands: &'a [RankedCommand], n: usize) -> (out: Vec<BarItem<'a>>)
    requires
        n <= commands@.len(),
    ensures
        item_texts(out@) == items_of(commands@.take(n as int)),
{
    let ghost list = commands@.take(n as int);
    let mut out: Vec<BarItem<'a>> = Vec::new();
    let mut i: usize = 0;
    while i < n
        invariant
            i <= n <= commands@.len(),
            list == commands@.take(n as int),
            out@.len() == i,
            forall|j: int| 0 <= j < i ==> (#[trigger] out@[j])@ == items_of(list)[j],
        decreases n - i,
    {
        let command = &commands[i];
        assert(list[i as int] == commands@[i as int]);
        out.push(BarItem::new(command.name.as_slice(), command.count));
        i += 1;
    }
    assert(item_texts(out@) =~= items_of(list));
    out
}

/// Writes the report of the commands.
pub fn write_output(commands: &[RankedCommand], n: usize, config: &RunConfig, is_terminal: bool) -> (out:
    Vec<u8>)
    requires
        n <= commands@.len(),
        total_count(commands@.take(n as int)) <= usize::MAX,
    ensures
        out@ == report_text(commands@.take(n as int), config@, is_terminal),
{
    match config.output_format {
        OutputFormat::Json => {
            let entries = build_command_entries(commands, n);
            let mut out = format_json(entries.as_slice());
            out.push('\n' as u8);
            out
        },
        OutputFormat::Csv => {
            let entries = build_command_entries(commands, n);
            format_csv(entries.as_slice())
        },
        OutputFormat::Text => {
            let items = bar_items(commands, n);
            let bar_config = BarConfig {
                size: if config.no_bar {
                    0
                } else {
                    config.bar_size
                },
                show_percentage: !config.no_perc,
                show_cumulative: !config.no_cumu,
            };
            proof {
                lemma_items_sum(commands@.take(n as int));
            }
            let colorizer = Colorizer::new(config.color_mode, is_terminal);
            let rendered = render_bars(items.as_slice(), &bar_config);
            let mut out: Vec<u8> = Vec::new();
            write_bars(&mut out, rendered.as_slice(), !config.no_bar, &colorizer);
            assert(Seq::<u8>::empty() + written(
                rows_of(items_of(commands@.take(n as int)), bar_config),
                !config.no_bar,
                colorizer.paints(),
            ) =~= report_text(commands@.take(n as int), config@, is_terminal));
            out
        },
    }
}

/// Runs on the bytes of a history: detects its format, counts its commands,
/// ranks those that were used more than `more_than` times, and writes the
/// report of as many of them as the settings ask for. `is_terminal` says
/// whether the report goes to a terminal.
pub fn run(config: &RunConfig, input: &[u8], is_terminal: bool) -> (out: Vec<u8>)
    ensures
        exists|list: Seq<RankedCommand>| #[trigger]
            is_ranking(list, counts_of(input@, config@, config.ignore@), config.more_than)
                && out@ == report_text(
                list.take(limit_of(list.len(), config@) as int),
                config@,
                is_terminal,
            ),
{
    let counts = load_command_counts(
        input,
        config.ignore.as_slice(),
        config.no_hist,
        config.track_subcommands,
    );
    let commands = filter_and_sort_commands(&counts, config.more_than);
    let n = output_limit(commands.len(), config.all, config.count);
    proof {
        assert(input@.len() == vstd::slice::spec_slice_len(input));
        let sightings = history_keys(
            input@,
            filter_of(config.ignore@, config.no_hist),
            config.no_hist,
            config.track_subcommands,
        );
        lemma_history_keys_fit(
            input@,
            filter_of(config.ignore@, config.no_hist),
            config.no_hist,
            config.track_subcommands,
        );
        lemma_ranking_fits(commands@, sightings, config.more_than);
        lemma_total_count_grows(commands@, n as int);
    }
    let out = write_output(commands.as_slice(), n, config, is_terminal);
    assert(is_ranking(commands@, counts_of(input@, config@, config.ignore@), config.more_than));
    out
}

} // verus!
