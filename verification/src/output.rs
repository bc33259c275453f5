//! Output formats and the escaping that they need.

use crate::bar::{percent_digits, push_percent, row_texts, RenderedBar, RowText};
use crate::color::{lowered, to_lower};
use crate::strings::{decimal, push_decimal, push_str};
use crate::numbers::{parse_size, size_written};
use crate::text::{contains_byte, has_byte, same_bytes, trim, trim_bytes};
use vstd::prelude::*;
use vstd::string::StringSliceAdditionalSpecFns;

verus! {

/// How the result is written.
#[derive(Debug, Clone, Copy, PartialEq, Eq, Structural)]
pub enum OutputFormat {
    /// Text with bar graphs.
    Text,
    /// JSON.
    Json,
    /// CSV.
    Csv,
}

/// The word `text`.
pub open spec fn word_text() -> Seq<u8> {
    seq!['t' as u8, 'e' as u8, 'x' as u8, 't' as u8]
}

/// The word `json`.
pub open spec fn word_json() -> Seq<u8> {
    seq!['j' as u8, 's' as u8, 'o' as u8, 'n' as u8]
}

/// The word `csv`.
pub open spec fn word_csv() -> Seq<u8> {
    seq!['c' as u8, 's' as u8, 'v' as u8]
}

/// The output format that a word names, whatever the case of its letters.
pub open spec fn output_format_of(word: Seq<u8>) -> Option<OutputFormat> {
    if lowered(word) == word_text() {
        Some(OutputFormat::Text)
    } else if lowered(word) == word_json() {
        Some(OutputFormat::Json)
    } else if lowered(word) == word_csv() {
        Some(OutputFormat::Csv)
    } else {
        None
    }
}

impl Default for OutputFormat {
    fn default() -> (out: Self)
        ensures
            out == OutputFormat::Text,
    {
        OutputFormat::Text
    }
}

impl OutputFormat {
    /// Reads an output format: `text`, `json` or `csv`, in any case.
    pub fn parse(s: &str) -> (r: Option<Self>)
        ensures
            r == output_format_of(s.spec_bytes()),
    {
        OutputFormat::parse_bytes(s.as_bytes())
    }

    /// Reads an output format from the bytes of a word.
    pub fn parse_bytes(s: &[u8]) -> (r: Option<Self>)
        ensures
            r == output_format_of(s@),
    {
        let word = to_lower(s);
        let text: [u8; 4] = ['t' as u8, 'e' as u8, 'x' as u8, 't' as u8];
        let json: [u8; 4] = ['j' as u8, 's' as u8, 'o' as u8, 'n' as u8];
        let csv: [u8; 3] = ['c' as u8, 's' as u8, 'v' as u8];
        proof {
            assert(text@ =~= word_text());
            assert(json@ =~= word_json());
            assert(csv@ =~= word_csv());
        }
        if same_bytes(word.as_slice(), text.as_slice()) {
            Some(OutputFormat::Text)
        } else if same_bytes(word.as_slice(), json.as_slice()) {
            Some(OutputFormat::Json)
        } else if same_bytes(word.as_slice(), csv.as_slice()) {
            Some(OutputFormat::Csv)
        } else {
            None
        }
    }
}

/// The hexadecimal digit of a value below 16, in small letters.
pub open spec fn hex_digit(v: u8) -> u8 {
    if v < 10 {
        ('0' as u8 + v) as u8
    } else {
        ('a' as u8 + v - 10) as u8
    }
}

/// What stands for one byte inside a JSON string. The backslash and the
/// double quote get a backslash in front; the control characters get their
/// short escape where JSON has one, and `\u00` with two hexadecimal digits
/// otherwise; any other byte stands for itself.
pub open spec fn json_escape_of(b: u8) -> Seq<u8> {
    if b == '\\' as u8 {
        seq!['\\' as u8, '\\' as u8]
    } else if b == '"' as u8 {
        seq!['\\' as u8, '"' as u8]
    } else if b == 0x0a {
        seq!['\\' as u8, 'n' as u8]
    } else if b == 0x0d {
        seq!['\\' as u8, 'r' as u8]
    } else if b == 0x09 {
        seq!['\\' as u8, 't' as u8]
    } else if b == 0x08 {
        seq!['\\' as u8, 'b' as u8]
    } else if b == 0x0c {
        seq!['\\' as u8, 'f' as u8]
    } else if b < 0x20 {
        seq!['\\' as u8, 'u' as u8, '0' as u8, '0' as u8, hex_digit(b / 16), hex_digit(b % 16)]
    } else {
        seq![b]
    }
}

/// The text `s` as it stands inside a JSON string.
pub open spec fn json_escaped(s: Seq<u8>) -> Seq<u8>
    decreases s.len(),
{
    if s.len() == 0 {
        Seq::empty()
    } else {
        json_escaped(s.drop_last()) + json_escape_of(s.last())
    }
}

fn hex_digit_of(v: u8) -> (r: u8)
    requires
        v < 16,
    ensures
        r == hex_digit(v),
{
    if v < 10 {
        '0' as u8 + v
    } else {
        'a' as u8 + v - 10
    }
}

/// Escapes UTF-8 text for a JSON string.
pub fn escape_json_string(s: &[u8]) -> (out: Vec<u8>)
    ensures
        out@ == json_escaped(s@),
{
    let mut out: Vec<u8> = Vec::with_capacity(s.len());
    let mut i: usize = 0;
    assert(s@.take(0) =~= Seq::<u8>::empty());
    while i < s.len()
        invariant
            i <= s.len(),
            out@ == json_escaped(s@.take(i as int)),
        decreases s.len() - i,
    {
        let b = s[i];
        proof {
            assert(s@.take(i + 1).drop_last() =~= s@.take(i as int));
            assert(s@.take(i + 1).last() == b);
        }
        let ghost before = out@;
        if b == '\\' as u8 {
            out.push('\\' as u8);
            out.push('\\' as u8);
        } else if b == '"' as u8 {
            out.push('\\' as u8);
            out.push('"' as u8);
        } else if b == 0x0a {
            out.push('\\' as u8);
            out.push('n' as u8);
        } else if b == 0x0d {
            out.push('\\' as u8);
            out.push('r' as u8);
        } else if b == 0x09 {
            out.push('\\' as u8);
            out.push('t' as u8);
        } else if b == 0x08 {
            out.push('\\' as u8);
            out.push('b' as u8);
        } else if b == 0x0c {
            out.push('\\' as u8);
            out.push('f' as u8);
        } else if b < 0x20 {
            out.push('\\' as u8);
            out.push('u' as u8);
            out.push('0' as u8);
            out.push('0' as u8);
            out.push(hex_digit_of(b / 16));
            out.push(hex_digit_of(b % 16));
        } else {
            out.push(b);
        }
        assert(out@ =~= before + json_escape_of(b));
        i += 1;
    }
    assert(s@.take(s.len() as int) =~= s@);
    out
}

/// A command, how often it was used, and how often all the commands that
/// are written were used together.
#[derive(Debug)]
pub struct CommandEntry {
    pub command: Vec<u8>,
    pub count: usize,
    pub total: usize,
}

/// An entry, as values.
pub ghost struct EntryText {
    pub command: Seq<u8>,
    pub count: nat,
    pub total: nat,
}

impl View for CommandEntry {
    type V = EntryText;

    open spec fn view(&self) -> EntryText {
        EntryText { command: self.command@, count: self.count as nat, total: self.total as nat }
    }
}

/// The entries as values.
pub open spec fn entry_texts(entries: Seq<CommandEntry>) -> Seq<EntryText> {
    Seq::new(entries.len(), |i: int| entries[i]@)
}

impl CommandEntry {
    /// An entry for a command that was used `count` times out of `total`.
    pub fn new(command: Vec<u8>, count: usize, total: usize) -> (out: Self)
        ensures
            out@ == (EntryText { command: command@, count: count as nat, total: total as nat }),
    {
        CommandEntry { command, count, total }
    }
}

/// The share of an entry as a percentage with two decimals; `0.00` where
/// nothing was counted at all.
pub open spec fn share_text(count: nat, total: nat) -> Seq<u8> {
    if total > 0 {
        percent_digits(count, total)
    } else {
        seq!['0' as u8, '.' as u8, '0' as u8, '0' as u8]
    }
}

fn push_share(out: &mut Vec<u8>, count: usize, total: usize)
    ensures
        final(out)@ == old(out)@ + share_text(count as nat, total as nat),
{
    if total > 0 {
        push_percent(out, count, total);
    } else {
        let ghost start = out@;
        out.push('0' as u8);
        out.push('.' as u8);
        out.push('0' as u8);
        out.push('0' as u8);
        assert(out@ =~= start + share_text(count as nat, total as nat));
    }
}

/// One entry as a JSON object, indented by two spaces.
pub open spec fn json_object(entry: EntryText) -> Seq<u8> {
    "  {\n    \"command\": \"".spec_bytes() + json_escaped(entry.command)
        + "\",\n    \"count\": ".spec_bytes() + decimal(entry.count)
        + ",\n    \"percentage\": ".spec_bytes() + share_text(entry.count, entry.total)
        + "\n  }".spec_bytes()
}

/// The first `upto` entries as JSON objects, each on lines of its own, with
/// a comma behind each but the last of all entries.
pub open spec fn json_objects(entries: Seq<EntryText>, upto: int) -> Seq<u8>
    decreases upto,
{
    if upto <= 0 {
        Seq::empty()
    } else {
        json_objects(entries, upto - 1) + json_object(entries[upto - 1]) + (if upto
            < entries.len() {
            seq![',' as u8, '\n' as u8]
        } else {
            seq!['\n' as u8]
        })
    }
}

/// The entries as a JSON array.
pub open spec fn json_text(entries: Seq<EntryText>) -> Seq<u8> {
    seq!['[' as u8, '\n' as u8] + json_objects(entries, entries.len() as int) + seq![']' as u8]
}

/// Writes the entries as a JSON array of objects.
pub fn format_json(entries: &[CommandEntry]) -> (out: Vec<u8>)
    ensures
        out@ == json_text(entry_texts(entries@)),
{
    let n = entries.len();
    let ghost list = entry_texts(entries@);
    let mut out: Vec<u8> = Vec::new();
    out.push('[' as u8);
    out.push('\n' as u8);
    let ghost head = out@;
    assert(head =~= seq!['[' as u8, '\n' as u8]);
    let mut i: usize = 0;
    assert(head + json_objects(list, 0) =~= head);
    while i < n
        invariant
            i <= n,
            n == entries@.len(),
            head == seq!['[' as u8, '\n' as u8],
            list == entry_texts(entries@),
            out@ == head + json_objects(list, i as int),
        decreases n - i,
    {
        let entry = &entries[i];
        let mut object: Vec<u8> = Vec::new();
        push_str(&mut object, "  {\n    \"command\": \"");
        let escaped = escape_json_string(entry.command.as_slice());
        object.extend_from_slice(escaped.as_slice());
        push_str(&mut object, "\",\n    \"count\": ");
        push_decimal(&mut object, entry.count as u128);
        push_str(&mut object, ",\n    \"percentage\": ");
        push_share(&mut object, entry.count, entry.total);
        push_str(&mut object, "\n  }");
        assert(object@ =~= json_object(entry@));
        out.extend_from_slice(object.as_slice());
        if i + 1 < n {
            out.push(',' as u8);
        }
        out.push('\n' as u8);
        assert(list[i as int] == entry@);
        assert(out@ =~= head + json_objects(list, i + 1));
        i += 1;
    }
    out.push(']' as u8);
    out
}

/// Whether a field must be quoted in CSV: it holds a comma, a double quote
/// or a line feed.
pub open spec fn needs_quotes(field: Seq<u8>) -> bool {
    has_byte(field, ',' as u8) || has_byte(field, '"' as u8) || has_byte(field, '\n' as u8)
}

/// The field with every double quote doubled.
pub open spec fn doubled_quotes(field: Seq<u8>) -> Seq<u8>
    decreases field.len(),
{
    if field.len() == 0 {
        Seq::empty()
    } else if field.last() == '"' as u8 {
        doubled_quotes(field.drop_last()) + seq!['"' as u8, '"' as u8]
    } else {
        doubled_quotes(field.drop_last()).push(field.last())
    }
}

/// The field as it stands in a CSV row.
pub open spec fn csv_field(field: Seq<u8>) -> Seq<u8> {
    if needs_quotes(field) {
        seq!['"' as u8] + doubled_quotes(field) + seq!['"' as u8]
    } else {
        field
    }
}

/// Writes a field as it stands in a CSV row.
pub fn escape_csv_field(field: &[u8]) -> (out: Vec<u8>)
    ensures
        out@ == csv_field(field@),
{
    if contains_byte(field, ',' as u8) || contains_byte(field, '"' as u8) || contains_byte(
        field,
        '\n' as u8,
    ) {
        let mut out: Vec<u8> = Vec::new();
        out.push('"' as u8);
        let mut i: usize = 0;
        assert(field@.take(0) =~= Seq::<u8>::empty());
        while i < field.len()
            invariant
                i <= field.len(),
                out@ == seq!['"' as u8] + doubled_quotes(field@.take(i as int)),
            decreases field.len() - i,
        {
            let b = field[i];
            proof {
                assert(field@.take(i + 1).drop_last() =~= field@.take(i as int));
                assert(field@.take(i + 1).last() == b);
            }
            if b == '"' as u8 {
                out.push('"' as u8);
                out.push('"' as u8);
            } else {
                out.push(b);
            }
            assert(out@ =~= seq!['"' as u8] + doubled_quotes(field@.take(i + 1)));
            i += 1;
        }
        assert(field@.take(field.len() as int) =~= field@);
        out.push('"' as u8);
        out
    } else {
        vstd::slice::slice_to_vec(field)
    }
}

/// One entry as a CSV row: command, count and percentage.
pub open spec fn csv_row(entry: EntryText) -> Seq<u8> {
    csv_field(entry.command) + seq![',' as u8] + decimal(entry.count) + seq![',' as u8]
        + share_text(entry.count, entry.total) + seq!['\n' as u8]
}

/// The rows of the entries, one after the other.
pub open spec fn csv_rows(entries: Seq<EntryText>) -> Seq<u8>
    decreases entries.len(),
{
    if entries.len() == 0 {
        Seq::empty()
    } else {
        csv_rows(entries.drop_last()) + csv_row(entries.last())
    }
}

/// The entries as CSV under the header `command,count,percentage`.
pub open spec fn csv_text(entries: Seq<EntryText>) -> Seq<u8> {
    "command,count,percentage\n".spec_bytes() + csv_rows(entries)
}

/// Writes the entries as CSV.
pub fn format_csv(entries: &[CommandEntry]) -> (out: Vec<u8>)
    ensures
        out@ == csv_text(entry_texts(entries@)),
{
    let n = entries.len();
    let ghost list = entry_texts(entries@);
    let mut out: Vec<u8> = Vec::new();
    push_str(&mut out, "command,count,percentage\n");
    let ghost head = out@;
    let mut i: usize = 0;
    assert(list.take(0) =~= Seq::<EntryText>::empty());
    assert(head + csv_rows(list.take(0)) =~= head);
    while i < n
        invariant
            i <= n,
            n == entries@.len(),
            head == "command,count,percentage\n".spec_bytes(),
            list == entry_texts(entries@),
            out@ == head + csv_rows(list.take(i as int)),
        decreases n - i,
    {
        let entry = &entries[i];
        let mut row = escape_csv_field(entry.command.as_slice());
        row.push(',' as u8);
        push_decimal(&mut row, entry.count as u128);
        row.push(',' as u8);
        push_share(&mut row, entry.count, entry.total);
        row.push('\n' as u8);
        assert(row@ =~= csv_row(entry@));
        out.extend_from_slice(row.as_slice());
        proof {
            assert(list.take(i + 1).drop_last() =~= list.take(i as int));
            assert(list.take(i + 1).last() == entry@);
            assert(out@ =~= head + csv_rows(list.take(i + 1)));
        }
        i += 1;
    }
    assert(list.take(n as int) =~= list);
    out
}

/// The count that a rendered row shows: the size that its count writes,
/// trimmed, or 0 where it writes none.
pub open spec fn shown_count(count: Seq<u8>) -> nat {
    match size_written(trim(count)) {
        Some(n) => n as nat,
        None => 0,
    }
}

/// The entries that rendered rows stand for, with `total` as the sum of all
/// counts.
pub open spec fn entries_of_rows(rows: Seq<RowText>, total: nat) -> Seq<EntryText> {
    Seq::new(
        rows.len(),
        |i: int| EntryText { command: rows[i].label, count: shown_count(rows[i].count), total },
    )
}

/// Turns rendered rows back into entries for the other output formats.
pub fn bars_to_entries(bars: &[RenderedBar], total: usize) -> (out: Vec<CommandEntry>)
    ensures
        entry_texts(out@) == entries_of_rows(row_texts(bars@), total as nat),
{
    let n = bars.len();
    let ghost rows = row_texts(bars@);
    let mut out: Vec<CommandEntry> = Vec::new();
    let mut i: usize = 0;
    while i < n
        invariant
            i <= n,
            n == bars@.len(),
            rows == row_texts(bars@),
            out@.len() == i,
            forall|j: int|
                0 <= j < i ==> (#[trigger] out@[j])@ == entries_of_rows(rows, total as nat)[j],
        decreases n - i,
    {
        let bar = &bars[i];
        assert(rows[i as int] == bar@);
        let count = match parse_size(trim_bytes(bar.count_str.as_slice())) {
            Some(count) => count,
            None => 0,
        };
        out.push(CommandEntry::new(vstd::slice::slice_to_vec(bar.label.as_slice()), count, total));
        i += 1;
    }
    assert(entry_texts(out@) =~= entries_of_rows(rows, total as nat));
    out
}

} // verus!
