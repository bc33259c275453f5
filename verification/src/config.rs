//! The configuration file: `key = value` lines in a small subset of TOML.
//!
//! A value is a quoted or bare string, an integer, or an array of such in
//! square brackets. Blank lines, `#` comments and `[section]` headers are
//! passed over, and so is a line without `=`. Where a key is assigned more
//! than once, its last assignment counts and the others are not looked at.

use crate::color::{color_mode_of, ColorMode};
use crate::history::lines::{
    lemma_after_first_line, lines_of, next_line, piece_with, split_on, text_lines, unread,
};
use crate::numbers::{integer_of, parse_integer};
use crate::text::{
    find_byte, has_byte, lemma_position, position, same_bytes, trim, trim_bytes,
};
use vstd::prelude::*;
use vstd::string::StringSliceAdditionalSpecFns;

verus! {

/// What a value is.
#[derive(Debug, Clone, Copy, PartialEq, Eq, Structural)]
pub enum ValueKind {
    Text,
    Integer,
    Array,
}

/// Why an assignment cannot be accepted.
#[derive(Debug, Clone, Copy, PartialEq, Eq, Structural)]
pub enum Problem {
    /// The key is none of the known ones.
    UnknownKey,
    /// An array was expected.
    ExpectedArray { found: ValueKind },
    /// An array of strings was expected, and one of its items is another.
    ExpectedStrings { found: ValueKind },
    /// An integer was expected.
    ExpectedInteger { found: ValueKind },
    /// A string was expected.
    ExpectedString { found: ValueKind },
    /// `true` or `false` was expected.
    ExpectedBoolean,
    /// The integer must be above zero.
    NotPositive,
    /// The integer must not be below zero.
    Negative,
    /// The integer does not fit this machine.
    TooLarge,
    /// The string names no color mode.
    InvalidColor,
}

/// An assignment that cannot be accepted.
#[derive(Debug)]
pub struct ConfigError {
    /// Number of the line of the assignment, from 1.
    pub line: usize,
    /// The key as written.
    pub key: Vec<u8>,
    pub problem: Problem,
}

/// A configuration error, as values.
pub ghost struct Fault {
    pub line: nat,
    pub key: Seq<u8>,
    pub problem: Problem,
}

impl View for ConfigError {
    type V = Fault;

    open spec fn view(&self) -> Fault {
        Fault { line: self.line as nat, key: self.key@, problem: self.problem }
    }
}

/// The settings of a configuration file. A setting that the file does not
/// make is `None`.
#[derive(Debug)]
pub struct FileConfig {
    /// Commands to ignore.
    pub ignore: Option<Vec<Vec<u8>>>,
    /// Width of the bars.
    pub bar_size: Option<usize>,
    /// Number of commands to show.
    pub count: Option<usize>,
    /// When to color.
    pub color: Option<ColorMode>,
    /// Whether subcommands are tracked.
    pub subcommands: Option<bool>,
    /// Commands used no more often than this are left out.
    pub more_than: Option<usize>,
}

/// The settings of a configuration file, as values.
pub ghost struct Settings {
    pub ignore: Option<Seq<Seq<u8>>>,
    pub bar_size: Option<usize>,
    pub count: Option<usize>,
    pub color: Option<ColorMode>,
    pub subcommands: Option<bool>,
    pub more_than: Option<usize>,
}

/// The byte strings that a list holds.
pub open spec fn byte_strings(list: Seq<Vec<u8>>) -> Seq<Seq<u8>> {
    Seq::new(list.len(), |i: int| list[i]@)
}

impl View for FileConfig {
    type V = Settings;

    open spec fn view(&self) -> Settings {
        Settings {
            ignore: match self.ignore {
                Some(list) => Some(byte_strings(list@)),
                None => None,
            },
            bar_size: self.bar_size,
            count: self.count,
            color: self.color,
            subcommands: self.subcommands,
            more_than: self.more_than,
        }
    }
}

/// No setting is made.
pub open spec fn no_settings() -> Settings {
    Settings {
        ignore: None,
        bar_size: None,
        count: None,
        color: None,
        subcommands: None,
        more_than: None,
    }
}

impl Default for FileConfig {
    fn default() -> (out: Self)
        ensures
            out@ == no_settings(),
    {
        FileConfig {
            ignore: None,
            bar_size: None,
            count: None,
            color: None,
            subcommands: None,
            more_than: None,
        }
    }
}

/// One `key = value` line.
pub ghost struct Assignment {
    pub key: Seq<u8>,
    pub value: Seq<u8>,
    pub line: nat,
}

/// One `key = value` line, as the parser holds it.
pub struct Entry<'a> {
    pub key: &'a [u8],
    pub value: &'a [u8],
    pub line: usize,
}

impl<'a> View for Entry<'a> {
    type V = Assignment;

    open spec fn view(&self) -> Assignment {
        Assignment { key: self.key@, value: self.value@, line: self.line as nat }
    }
}

/// Whether a trimmed line assigns: it is not blank, begins neither with `#`
/// nor with `[`, and holds a `=`.
pub open spec fn is_assignment(t: Seq<u8>) -> bool {
    t.len() > 0 && t[0] != '#' as u8 && t[0] != '[' as u8 && has_byte(t, '=' as u8)
}

/// The assignment that the line with number `line` makes, if it makes one.
/// Key and value stand on either side of the first `=`, trimmed.
pub open spec fn assignment_in(text: Seq<u8>, line: nat) -> Seq<Assignment> {
    let t = trim(text);
    if is_assignment(t) {
        seq![
            Assignment {
                key: trim(t.take(position(t, '=' as u8))),
                value: trim(t.skip(position(t, '=' as u8) + 1)),
                line: line,
            },
        ]
    } else {
        Seq::empty()
    }
}

/// The assignments of the lines `lines`, the first of which has number
/// `first`.
pub open spec fn assignments(lines: Seq<Seq<u8>>, first: nat) -> Seq<Assignment>
    decreases lines.len(),
{
    if lines.len() == 0 {
        Seq::empty()
    } else {
        assignment_in(lines[0], first) + assignments(lines.drop_first(), first + 1)
    }
}

/// Whether `s` stands between two double quotes or two single quotes.
pub open spec fn is_quoted(s: Seq<u8>) -> bool {
    s.len() >= 2 && ((s[0] == '"' as u8 && s.last() == '"' as u8) || (s[0] == '\'' as u8
        && s.last() == '\'' as u8))
}

/// Whether `s` stands between square brackets.
pub open spec fn is_bracketed(s: Seq<u8>) -> bool {
    s.len() >= 2 && s[0] == '[' as u8 && s.last() == ']' as u8
}

/// What the trimmed value `s` is: a string when quoted, an array when in
/// brackets, an integer when it writes one, and a bare string otherwise.
pub open spec fn kind_of(s: Seq<u8>) -> ValueKind {
    if is_quoted(s) {
        ValueKind::Text
    } else if is_bracketed(s) {
        ValueKind::Array
    } else if integer_of(s) is Some {
        ValueKind::Integer
    } else {
        ValueKind::Text
    }
}

/// The text of a string value: what stands between its quotes, or all of a
/// bare string.
pub open spec fn text_of(s: Seq<u8>) -> Seq<u8> {
    if is_quoted(s) {
        s.subrange(1, s.len() - 1)
    } else {
        s
    }
}

/// The pieces that are not blank, trimmed.
pub open spec fn kept_items(pieces: Seq<Seq<u8>>) -> Seq<Seq<u8>>
    decreases pieces.len(),
{
    if pieces.len() == 0 {
        Seq::empty()
    } else if trim(pieces.last()).len() > 0 {
        kept_items(pieces.drop_last()).push(trim(pieces.last()))
    } else {
        kept_items(pieces.drop_last())
    }
}

/// The items of an array value: what stands between the commas inside its
/// brackets, trimmed, without the blank ones.
pub open spec fn items_of(s: Seq<u8>) -> Seq<Seq<u8>> {
    kept_items(split_on(trim(s.subrange(1, s.len() - 1)), ',' as u8))
}

/// Whether every item is a string.
pub open spec fn all_text(items: Seq<Seq<u8>>) -> bool {
    forall|i: int| 0 <= i < items.len() ==> kind_of(#[trigger] items[i]) == ValueKind::Text
}

/// Index of the first item that is no string.
pub open spec fn first_other(items: Seq<Seq<u8>>) -> int
    decreases items.len(),
{
    if items.len() == 0 {
        0
    } else if kind_of(items[0]) != ValueKind::Text {
        0
    } else {
        1 + first_other(items.drop_first())
    }
}

/// The texts of string items.
pub open spec fn texts_of(items: Seq<Seq<u8>>) -> Seq<Seq<u8>> {
    Seq::new(items.len(), |i: int| text_of(items[i]))
}

/// The kind of a value.
pub fn value_kind(s: &[u8]) -> (r: ValueKind)
    ensures
        r == kind_of(s@),
{
    let n = s.len();
    if n >= 2 && ((s[0] == '"' as u8 && s[n - 1] == '"' as u8) || (s[0] == '\'' as u8 && s[n
        - 1] == '\'' as u8)) {
        ValueKind::Text
    } else if n >= 2 && s[0] == '[' as u8 && s[n - 1] == ']' as u8 {
        ValueKind::Array
    } else if parse_integer(s).is_some() {
        ValueKind::Integer
    } else {
        ValueKind::Text
    }
}

/// The text of a string value.
pub fn value_text(s: &[u8]) -> (r: &[u8])
    ensures
        r@ == text_of(s@),
{
    let n = s.len();
    if n >= 2 && ((s[0] == '"' as u8 && s[n - 1] == '"' as u8) || (s[0] == '\'' as u8 && s[n
        - 1] == '\'' as u8)) {
        &s[1..n - 1]
    } else {
        s
    }
}

/// A setting that an assignment makes.
pub ghost enum Setting {
    Ignore { names: Seq<Seq<u8>> },
    BarSize { cells: usize },
    Count { rows: usize },
    MoreThan { uses: usize },
    Color { mode: ColorMode },
    Subcommands { on: bool },
}

/// The integer setting of a value: the integer that it writes, if it is no
/// less than `least` and fits this machine.
pub open spec fn size_of(value: Seq<u8>, least: int) -> Result<usize, Problem> {
    if kind_of(value) != ValueKind::Integer {
        Err(Problem::ExpectedInteger { found: kind_of(value) })
    } else if integer_of(value)->0 < least {
        Err(
            if least > 0 {
                Problem::NotPositive
            } else {
                Problem::Negative
            },
        )
    } else if integer_of(value)->0 > usize::MAX {
        Err(Problem::TooLarge)
    } else {
        Ok(integer_of(value)->0 as usize)
    }
}

/// The names of an `ignore` value.
pub open spec fn names_of(value: Seq<u8>) -> Result<Seq<Seq<u8>>, Problem> {
    if kind_of(value) != ValueKind::Array {
        Err(Problem::ExpectedArray { found: kind_of(value) })
    } else if !all_text(items_of(value)) {
        Err(
            Problem::ExpectedStrings {
                found: kind_of(items_of(value)[first_other(items_of(value))]),
            },
        )
    } else {
        Ok(texts_of(items_of(value)))
    }
}

/// The color mode of a `color` value.
pub open spec fn mode_of(value: Seq<u8>) -> Result<ColorMode, Problem> {
    if kind_of(value) != ValueKind::Text {
        Err(Problem::ExpectedString { found: kind_of(value) })
    } else {
        match color_mode_of(text_of(value)) {
            Some(mode) => Ok(mode),
            None => Err(Problem::InvalidColor),
        }
    }
}

/// The truth value of a `subcommands` value: `true` or `false`, bare.
pub open spec fn switch_of(value: Seq<u8>) -> Result<bool, Problem> {
    if value == "true".spec_bytes() {
        Ok(true)
    } else if value == "false".spec_bytes() {
        Ok(false)
    } else {
        Err(Problem::ExpectedBoolean)
    }
}

/// The setting that the value `value` makes for the key `key`. The keys are
/// `ignore`, `bar_size`, `count`, `more_than`, `color` and `subcommands`.
pub open spec fn setting_of(key: Seq<u8>, value: Seq<u8>) -> Result<Setting, Problem> {
    if key == "ignore".spec_bytes() {
        match names_of(value) {
            Ok(names) => Ok(Setting::Ignore { names }),
            Err(problem) => Err(problem),
        }
    } else if key == "bar_size".spec_bytes() {
        match size_of(value, 1) {
            Ok(cells) => Ok(Setting::BarSize { cells }),
            Err(problem) => Err(problem),
        }
    } else if key == "count".spec_bytes() {
        match size_of(value, 1) {
            Ok(rows) => Ok(Setting::Count { rows }),
            Err(problem) => Err(problem),
        }
    } else if key == "more_than".spec_bytes() {
        match size_of(value, 0) {
            Ok(uses) => Ok(Setting::MoreThan { uses }),
            Err(problem) => Err(problem),
        }
    } else if key == "color".spec_bytes() {
        match mode_of(value) {
            Ok(mode) => Ok(Setting::Color { mode }),
            Err(problem) => Err(problem),
        }
    } else if key == "subcommands".spec_bytes() {
        match switch_of(value) {
            Ok(on) => Ok(Setting::Subcommands { on }),
            Err(problem) => Err(problem),
        }
    } else {
        Err(Problem::UnknownKey)
    }
}

/// The settings `settings` with `setting` made.
pub open spec fn with_setting(settings: Settings, setting: Setting) -> Settings {
    match setting {
        Setting::Ignore { names } => Settings { ignore: Some(names), ..settings },
        Setting::BarSize { cells } => Settings { bar_size: Some(cells), ..settings },
        Setting::Count { rows } => Settings { count: Some(rows), ..settings },
        Setting::MoreThan { uses } => Settings { more_than: Some(uses), ..settings },
        Setting::Color { mode } => Settings { color: Some(mode), ..settings },
        Setting::Subcommands { on } => Settings { subcommands: Some(on), ..settings },
    }
}

/// Whether the assignment at `i` counts: no later one has its key.
pub open spec fn is_last(list: Seq<Assignment>, i: int) -> bool {
    forall|j: int| i < j < list.len() ==> (#[trigger] list[j]).key != list[i].key
}

/// The settings after the assignments from `i` on, made on top of
/// `settings`; or the fault of the first assignment that counts and cannot
/// be accepted.
pub open spec fn settled(list: Seq<Assignment>, i: int, settings: Settings) -> Result<
    Settings,
    Fault,
>
    decreases list.len() - i,
{
    if i < 0 || i >= list.len() {
        Ok(settings)
    } else if !is_last(list, i) {
        settled(list, i + 1, settings)
    } else {
        match setting_of(list[i].key, list[i].value) {
            Ok(setting) => settled(list, i + 1, with_setting(settings, setting)),
            Err(problem) => Err(Fault { line: list[i].line, key: list[i].key, problem }),
        }
    }
}

/// What a configuration file says.
pub open spec fn parsed(content: Seq<u8>) -> Result<Settings, Fault> {
    settled(assignments(text_lines(content), 1), 0, no_settings())
}

/// The views of the entries.
pub open spec fn entry_views(entries: Seq<Entry>) -> Seq<Assignment> {
    Seq::new(entries.len(), |i: int| entries[i]@)
}

/// Reads the assignment of one line, if it makes one.
pub fn read_assignment<'a>(text: &'a [u8], line: usize) -> (r: Option<Entry<'a>>)
    ensures
        r is None ==> assignment_in(text@, line as nat).len() == 0,
        r is Some ==> assignment_in(text@, line as nat) == seq![r->0@],
{
    let t = trim_bytes(text);
    if t.len() == 0 || t[0] == '#' as u8 || t[0] == '[' as u8 {
        return None;
    }
    proof {
        lemma_position(t@, '=' as u8);
    }
    match find_byte(t, '=' as u8) {
        None => None,
        Some(p) => {
            let n = t.len();
            assert(t@.take(p as int) =~= t@.subrange(0, p as int));
            assert(t@.skip(p + 1) =~= t@.subrange(p + 1, n as int));
            let key = trim_bytes(&t[0..p]);
            let value = trim_bytes(&t[p + 1..n]);
            Some(Entry { key, value, line })
        },
    }
}

/// Reads the assignments of a configuration file.
pub fn read_assignments<'a>(content: &'a [u8]) -> (out: Vec<Entry<'a>>)
    ensures
        entry_views(out@) == assignments(text_lines(content@), 1),
{
    let mut out: Vec<Entry<'a>> = Vec::new();
    let mut it = lines_of(content);
    let mut index: usize = 0;
    let n = content.len();
    let ghost goal = assignments(text_lines(content@), 1);
    assert(entry_views(out@) + goal =~= goal);
    loop
        invariant
            n == content@.len(),
            goal == assignments(text_lines(content@), 1),
            index + unread(it).len() <= n,
            goal == entry_views(out@) + assignments(text_lines(unread(it)), (index + 1) as nat),
        decreases unread(it).len(),
    {
        let ghost left = unread(it);
        let ghost before = entry_views(out@);
        match next_line(&mut it) {
            None => {
                assert(before + Seq::<Assignment>::empty() =~= before);
                return out;
            },
            Some(text) => {
                proof {
                    lemma_after_first_line(left);
                    assert(text_lines(left) == seq![text@] + text_lines(unread(it)));
                    assert(text_lines(left).drop_first() =~= text_lines(unread(it)));
                    assert(text_lines(left)[0] == text@);
                }
                let line = index + 1;
                let ghost found = assignment_in(text@, line as nat);
                let ghost rest = assignments(text_lines(unread(it)), (line + 1) as nat);
                match read_assignment(text, line) {
                    None => {
                        assert(found =~= Seq::<Assignment>::empty());
                    },
                    Some(entry) => {
                        out.push(entry);
                        assert(entry_views(out@) =~= before + found);
                    },
                }
                assert(before + (found + rest) =~= (before + found) + rest);
                index = index + 1;
            },
        }
    }
}

/// Whether a later entry has the key of the entry at `i`.
pub fn is_superseded(entries: &Vec<Entry<'_>>, i: usize) -> (r: bool)
    requires
        i < entries@.len(),
    ensures
        r == !is_last(entry_views(entries@), i as int),
{
    let ghost list = entry_views(entries@);
    let n = entries.len();
    let mut j: usize = i + 1;
    while j < n
        invariant
            i < j <= entries@.len(),
            n == entries@.len(),
            list == entry_views(entries@),
            forall|k: int| i < k < j ==> (#[trigger] list[k]).key != list[i as int].key,
        decreases entries@.len() - j,
    {
        if same_bytes(entries[j].key, entries[i].key) {
            assert(list[j as int].key == list[i as int].key);
            return true;
        }
        j += 1;
    }
    false
}

/// Reads an integer setting that must be no less than `least`, which is 0
/// or 1.
pub fn read_size(value: &[u8], least: i64) -> (r: Result<usize, Problem>)
    requires
        0 <= least <= 1,
    ensures
        r == size_of(value@, least as int),
{
    match value_kind(value) {
        ValueKind::Integer => {},
        found => {
            return Err(Problem::ExpectedInteger { found });
        },
    }
    let n = match parse_integer(value) {
        Some(n) => n,
        None => {
            return Err(Problem::ExpectedInteger { found: ValueKind::Text });
        },
    };
    if n < least {
        if least > 0 {
            Err(Problem::NotPositive)
        } else {
            Err(Problem::Negative)
        }
    } else if n as u64 > usize::MAX as u64 {
        Err(Problem::TooLarge)
    } else {
        Ok(n as usize)
    }
}

/// Any index that holds the first item that is no string is `first_other`.
pub proof fn lemma_first_other(items: Seq<Seq<u8>>, i: int)
    requires
        0 <= i < items.len(),
        kind_of(items[i]) != ValueKind::Text,
        forall|j: int| 0 <= j < i ==> kind_of(#[trigger] items[j]) == ValueKind::Text,
    ensures
        first_other(items) == i,
    decreases i,
{
    if i > 0 {
        let rest = items.drop_first();
        assert forall|j: int| 0 <= j < i - 1 implies kind_of(#[trigger] rest[j])
            == ValueKind::Text by {
            assert(rest[j] == items[j + 1]);
        }
        lemma_first_other(rest, i - 1);
    }
}

/// Reads the items of an array value.
pub fn read_items<'a>(value: &'a [u8]) -> (out: Vec<&'a [u8]>)
    requires
        is_bracketed(value@),
    ensures
        out@.len() == items_of(value@).len(),
        forall|i: int| 0 <= i < out@.len() ==> (#[trigger] out@[i])@ == items_of(value@)[i],
{
    let n = value.len();
    let inner = trim_bytes(&value[1..n - 1]);
    let m = inner.len();
    let ghost pieces = split_on(inner@, ',' as u8);
    let mut out: Vec<&'a [u8]> = Vec::new();
    let mut from: usize = 0;
    let ghost mut done: Seq<Seq<u8>> = Seq::empty();
    assert(inner@.skip(0) =~= inner@);
    assert(done + pieces =~= pieces);
    loop
        invariant
            from <= m,
            m == inner@.len(),
            pieces == split_on(inner@, ',' as u8),
            items_of(value@) == kept_items(pieces),
            pieces == done + split_on(inner@.skip(from as int), ',' as u8),
            out@.len() == kept_items(done).len(),
            forall|i: int| 0 <= i < out@.len() ==> (#[trigger] out@[i])@ == kept_items(done)[i],
        decreases m - from,
    {
        let piece = piece_with(inner, from, ',' as u8);
        let item = trim_bytes(&inner[from..piece.end]);
        let ghost raw = inner@.subrange(from as int, piece.end as int);
        proof {
            assert(done.push(raw).drop_last() =~= done);
            assert(done.push(raw).last() == raw);
        }
        let ghost kept = kept_items(done);
        if item.len() > 0 {
            out.push(item);
        }
        proof {
            done = done.push(raw);
            assert(kept_items(done) == (if trim(raw).len() > 0 {
                kept.push(trim(raw))
            } else {
                kept
            }));
            assert forall|i: int| 0 <= i < out@.len() implies (#[trigger] out@[i])@ == kept_items(
                done,
            )[i] by {
                if i < kept.len() {
                    assert(kept_items(done)[i] == kept[i]);
                }
            }
        }
        if !piece.more {
            proof {
                let tail = split_on(inner@.skip(from as int), ',' as u8);
                assert(tail == seq![raw]);
                assert(pieces =~= done);
            }
            return out;
        }
        proof {
            let tail = split_on(inner@.skip(piece.end + 1), ',' as u8);
            assert(pieces =~= done + tail);
        }
        from = piece.end + 1;
    }
}

/// Reads the names of an `ignore` value.
pub fn read_names(value: &[u8]) -> (r: Result<Vec<Vec<u8>>, Problem>)
    ensures
        r is Ok <==> names_of(value@) is Ok,
        r is Ok ==> byte_strings(r->Ok_0@) == names_of(value@)->Ok_0,
        r is Err ==> r->Err_0 == names_of(value@)->Err_0,
{
    match value_kind(value) {
        ValueKind::Array => {},
        found => {
            return Err(Problem::ExpectedArray { found });
        },
    }
    let items = read_items(value);
    let ghost list = items_of(value@);
    let mut names: Vec<Vec<u8>> = Vec::new();
    let mut i: usize = 0;
    while i < items.len()
        invariant
            i <= items@.len(),
            items@.len() == list.len(),
            list == items_of(value@),
            kind_of(value@) == ValueKind::Array,
            forall|k: int| 0 <= k < items@.len() ==> (#[trigger] items@[k])@ == list[k],
            forall|k: int| 0 <= k < i ==> kind_of(#[trigger] list[k]) == ValueKind::Text,
            names@.len() == i,
            forall|k: int| 0 <= k < i ==> (#[trigger] names@[k])@ == text_of(list[k]),
        decreases items@.len() - i,
    {
        let item = items[i];
        match value_kind(item) {
            ValueKind::Text => {},
            found => {
                proof {
                    lemma_first_other(list, i as int);
                }
                return Err(Problem::ExpectedStrings { found });
            },
        }
        names.push(vstd::slice::slice_to_vec(value_text(item)));
        i += 1;
    }
    assert(byte_strings(names@) =~= texts_of(list));
    Ok(names)
}

/// Makes the setting of one entry, or says why it cannot be accepted.
pub fn apply(config: &mut FileConfig, entry: &Entry<'_>) -> (r: Result<(), Problem>)
    ensures
        r is Ok <==> setting_of(entry.key@, entry.value@) is Ok,
        r is Ok ==> final(config)@ == with_setting(
            old(config)@,
            setting_of(entry.key@, entry.value@)->Ok_0,
        ),
        r is Err ==> r->Err_0 == setting_of(entry.key@, entry.value@)->Err_0 && final(config)@
            == old(config)@,
{
    let key = entry.key;
    let value = entry.value;
    if same_bytes(key, "ignore".as_bytes()) {
        match read_names(value) {
            Ok(names) => {
                config.ignore = Some(names);
                Ok(())
            },
            Err(problem) => Err(problem),
        }
    } else if same_bytes(key, "bar_size".as_bytes()) {
        match read_size(value, 1) {
            Ok(cells) => {
                config.bar_size = Some(cells);
                Ok(())
            },
            Err(problem) => Err(problem),
        }
    } else if same_bytes(key, "count".as_bytes()) {
        match read_size(value, 1) {
            Ok(rows) => {
                config.count = Some(rows);
                Ok(())
            },
            Err(problem) => Err(problem),
        }
    } else if same_bytes(key, "more_than".as_bytes()) {
        match read_size(value, 0) {
            Ok(uses) => {
                config.more_than = Some(uses);
                Ok(())
            },
            Err(problem) => Err(problem),
        }
    } else if same_bytes(key, "color".as_bytes()) {
        match value_kind(value) {
            ValueKind::Text => {},
            found => {
                return Err(Problem::ExpectedString { found });
            },
        }
        match ColorMode::parse_bytes(value_text(value)) {
            Some(mode) => {
                config.color = Some(mode);
                Ok(())
            },
            None => Err(Problem::InvalidColor),
        }
    } else if same_bytes(key, "subcommands".as_bytes()) {
        if same_bytes(value, "true".as_bytes()) {
            config.subcommands = Some(true);
            Ok(())
        } else if same_bytes(value, "false".as_bytes()) {
            config.subcommands = Some(false);
            Ok(())
        } else {
            Err(Problem::ExpectedBoolean)
        }
    } else {
        Err(Problem::UnknownKey)
    }
}

impl FileConfig {
    /// Reads a configuration file. The result is an error exactly when an
    /// assignment that counts cannot be accepted, and then it is the error
    /// of the first such assignment.
    pub fn parse(content: &str) -> (r: Result<FileConfig, ConfigError>)
        ensures
            r is Ok <==> parsed(content.spec_bytes()) is Ok,
            r is Ok ==> r->Ok_0@ == parsed(content.spec_bytes())->Ok_0,
            r is Err ==> r->Err_0@ == parsed(content.spec_bytes())->Err_0,
    {
        FileConfig::parse_bytes(content.as_bytes())
    }

    /// Reads a configuration file from its bytes.
    pub fn parse_bytes(content: &[u8]) -> (r: Result<FileConfig, ConfigError>)
        ensures
            r is Ok <==> parsed(content@) is Ok,
            r is Ok ==> r->Ok_0@ == parsed(content@)->Ok_0,
            r is Err ==> r->Err_0@ == parsed(content@)->Err_0,
    {
        let entries = read_assignments(content);
        let ghost list = entry_views(entries@);
        let mut config = FileConfig::default();
        let mut i: usize = 0;
        while i < entries.len()
            invariant
                i <= entries@.len(),
                list == entry_views(entries@),
                list == assignments(text_lines(content@), 1),
                parsed(content@) == settled(list, i as int, config@),
            decreases entries@.len() - i,
        {
            assert(list[i as int] == entries@[i as int]@);
            if !is_superseded(&entries, i) {
                match apply(&mut config, &entries[i]) {
                    Ok(()) => {},
                    Err(problem) => {
                        return Err(
                            ConfigError {
                                line: entries[i].line,
                                key: vstd::slice::slice_to_vec(entries[i].key),
                                problem,
                            },
                        );
                    },
                }
            }
            i += 1;
        }
        Ok(config)
    }
}

} // verus!
