//! The command line: what the arguments ask for, and the settings of a run.
//!
//! Arguments are byte strings, and so are the file names and command names
//! that they carry.

use crate::color::ColorMode;
use crate::config::{FileConfig, Settings};
use crate::numbers::{parse_size, size_written};
use crate::history::lines::{piece_with, split_on};
use crate::output::OutputFormat;
use crate::command_parse::{next_word, words};
use crate::text::{find_byte, lemma_position, position, same_bytes, trim, trim_bytes};
use vstd::prelude::*;
use vstd::string::StringSliceAdditionalSpecFns;

verus! {

/// An option that takes a value.
#[derive(Debug, Clone, Copy, PartialEq, Eq, Structural)]
pub enum Flag {
    /// `-f`: the history file.
    File,
    /// `-c`: how many commands to show.
    Count,
    /// `-m`: leave out commands used no more often than this.
    MoreThan,
    /// `-i`: commands to ignore, separated by `|`.
    Ignore,
    /// `-b`: width of the bars.
    BarSize,
    /// `-o`: output format.
    Output,
    /// `--color`: when to color.
    Color,
    /// `--config`: path of a configuration file.
    Config,
}

/// An option that takes none.
#[derive(Debug, Clone, Copy, PartialEq, Eq, Structural)]
pub enum Switch {
    /// `-a`: show all commands.
    All,
    /// `-n`: draw no bars.
    NoBar,
    /// `-nh`: the input is no shell history.
    NoHist,
    /// `-np`: do not fill in the share.
    NoPerc,
    /// `-nc`: do not fill in the cumulative share.
    NoCumu,
}

impl Flag {
    /// The option as it is written.
    pub open spec fn text(self) -> Seq<u8> {
        match self {
            Flag::File => "-f".spec_bytes(),
            Flag::Count => "-c".spec_bytes(),
            Flag::MoreThan => "-m".spec_bytes(),
            Flag::Ignore => "-i".spec_bytes(),
            Flag::BarSize => "-b".spec_bytes(),
            Flag::Output => "-o".spec_bytes(),
            Flag::Color => "--color".spec_bytes(),
            Flag::Config => "--config".spec_bytes(),
        }
    }

    /// The option as it is written.
    pub fn name(&self) -> (r: &'static str)
        ensures
            r.spec_bytes() == self.text(),
    {
        match self {
            Flag::File => "-f",
            Flag::Count => "-c",
            Flag::MoreThan => "-m",
            Flag::Ignore => "-i",
            Flag::BarSize => "-b",
            Flag::Output => "-o",
            Flag::Color => "--color",
            Flag::Config => "--config",
        }
    }
}

/// The option with a value that `arg` is, if it is one.
pub open spec fn flag_of(arg: Seq<u8>) -> Option<Flag> {
    if arg == "-f".spec_bytes() {
        Some(Flag::File)
    } else if arg == "-c".spec_bytes() {
        Some(Flag::Count)
    } else if arg == "-m".spec_bytes() {
        Some(Flag::MoreThan)
    } else if arg == "-i".spec_bytes() {
        Some(Flag::Ignore)
    } else if arg == "-b".spec_bytes() {
        Some(Flag::BarSize)
    } else if arg == "-o".spec_bytes() {
        Some(Flag::Output)
    } else if arg == "--color".spec_bytes() {
        Some(Flag::Color)
    } else if arg == "--config".spec_bytes() {
        Some(Flag::Config)
    } else {
        None
    }
}

/// The option without a value that `arg` is, if it is one.
pub open spec fn switch_of(arg: Seq<u8>) -> Option<Switch> {
    if arg == "-a".spec_bytes() {
        Some(Switch::All)
    } else if arg == "-n".spec_bytes() {
        Some(Switch::NoBar)
    } else if arg == "-nh".spec_bytes() {
        Some(Switch::NoHist)
    } else if arg == "-np".spec_bytes() {
        Some(Switch::NoPerc)
    } else if arg == "-nc".spec_bytes() {
        Some(Switch::NoCumu)
    } else {
        None
    }
}

/// Whether `arg` asks for the help text.
pub open spec fn is_help(arg: Seq<u8>) -> bool {
    arg == "-h".spec_bytes() || arg == "--help".spec_bytes()
}

/// Reads an option that takes a value.
pub fn read_flag(arg: &[u8]) -> (r: Option<Flag>)
    ensures
        r == flag_of(arg@),
{
    if same_bytes(arg, "-f".as_bytes()) {
        Some(Flag::File)
    } else if same_bytes(arg, "-c".as_bytes()) {
        Some(Flag::Count)
    } else if same_bytes(arg, "-m".as_bytes()) {
        Some(Flag::MoreThan)
    } else if same_bytes(arg, "-i".as_bytes()) {
        Some(Flag::Ignore)
    } else if same_bytes(arg, "-b".as_bytes()) {
        Some(Flag::BarSize)
    } else if same_bytes(arg, "-o".as_bytes()) {
        Some(Flag::Output)
    } else if same_bytes(arg, "--color".as_bytes()) {
        Some(Flag::Color)
    } else if same_bytes(arg, "--config".as_bytes()) {
        Some(Flag::Config)
    } else {
        None
    }
}

/// Reads an option that takes none.
pub fn read_switch(arg: &[u8]) -> (r: Option<Switch>)
    ensures
        r == switch_of(arg@),
{
    if same_bytes(arg, "-a".as_bytes()) {
        Some(Switch::All)
    } else if same_bytes(arg, "-n".as_bytes()) {
        Some(Switch::NoBar)
    } else if same_bytes(arg, "-nh".as_bytes()) {
        Some(Switch::NoHist)
    } else if same_bytes(arg, "-np".as_bytes()) {
        Some(Switch::NoPerc)
    } else if same_bytes(arg, "-nc".as_bytes()) {
        Some(Switch::NoCumu)
    } else {
        None
    }
}

/// Why the arguments cannot be accepted.
#[derive(Debug, PartialEq, Eq)]
pub enum CliError {
    /// The option is the last argument and has no value.
    MissingValue { flag: Flag },
    /// The history file is named twice.
    ConflictingFiles,
    /// The value is no integer above zero.
    NotPositive { flag: Flag },
    /// The value is no integer from zero on.
    NotNonNegative { flag: Flag },
    /// The value names no output format.
    InvalidOutputFormat { value: Vec<u8> },
    /// The value names no color mode.
    InvalidColorMode { value: Vec<u8> },
    /// The argument begins with `-` and is no option.
    InvalidOption { option: Vec<u8> },
    /// Without history mode there is neither a file nor piped input.
    NoHistInput,
}

/// A command-line error, as values.
pub ghost enum CliFault {
    MissingValue { flag: Flag },
    ConflictingFiles,
    NotPositive { flag: Flag },
    NotNonNegative { flag: Flag },
    InvalidOutputFormat { value: Seq<u8> },
    InvalidColorMode { value: Seq<u8> },
    InvalidOption { option: Seq<u8> },
    NoHistInput,
}

impl View for CliError {
    type V = CliFault;

    open spec fn view(&self) -> CliFault {
        match self {
            CliError::MissingValue { flag } => CliFault::MissingValue { flag: *flag },
            CliError::ConflictingFiles => CliFault::ConflictingFiles,
            CliError::NotPositive { flag } => CliFault::NotPositive { flag: *flag },
            CliError::NotNonNegative { flag } => CliFault::NotNonNegative { flag: *flag },
            CliError::InvalidOutputFormat { value } => CliFault::InvalidOutputFormat {
                value: value@,
            },
            CliError::InvalidColorMode { value } => CliFault::InvalidColorMode { value: value@ },
            CliError::InvalidOption { option } => CliFault::InvalidOption { option: option@ },
            CliError::NoHistInput => CliFault::NoHistInput,
        }
    }
}

/// The text of an error.
pub open spec fn message_of(fault: CliFault) -> Seq<u8> {
    match fault {
        CliFault::MissingValue { flag } => "Missing value for ".spec_bytes() + flag.text(),
        CliFault::ConflictingFiles =>
            "Conflicting input file arguments: use either -f <FILE> or positional FILE, not both".spec_bytes(),
        CliFault::NotPositive { flag } => "Invalid ".spec_bytes() + flag.text()
            + " argument, must be a positive integer".spec_bytes(),
        CliFault::NotNonNegative { flag } => "Invalid ".spec_bytes() + flag.text()
            + " argument, must be a non-negative integer".spec_bytes(),
        CliFault::InvalidOutputFormat { value } => "Invalid output format: ".spec_bytes() + value
            + ". Use text, json, or csv".spec_bytes(),
        CliFault::InvalidColorMode { value } => "Invalid color mode: ".spec_bytes() + value
            + ". Use auto, always, or never".spec_bytes(),
        CliFault::InvalidOption { option } => "Invalid option: ".spec_bytes() + option,
        CliFault::NoHistInput =>
            "When using -nh without FILE, provide input through stdin (pipe or redirection), or pass FILE with -f/positional argument".spec_bytes(),
    }
}

fn joined(head: &[u8], middle: &[u8], tail: &[u8]) -> (out: Vec<u8>)
    ensures
        out@ == head@ + middle@ + tail@,
{
    let mut out: Vec<u8> = Vec::new();
    out.extend_from_slice(head);
    out.extend_from_slice(middle);
    out.extend_from_slice(tail);
    assert(out@ =~= head@ + middle@ + tail@);
    out
}

impl CliError {
    /// The text of the error.
    pub fn message(&self) -> (out: Vec<u8>)
        ensures
            out@ == message_of(self@),
    {
        let empty: [u8; 0] = [];
        let none = empty.as_slice();
        assert(none@ =~= Seq::<u8>::empty());
        match self {
            CliError::MissingValue { flag } => {
                let out = joined("Missing value for ".as_bytes(), flag.name().as_bytes(), none);
                assert(out@ =~= message_of(self@));
                out
            },
            CliError::ConflictingFiles => {
                let out = joined(
                    "Conflicting input file arguments: use either -f <FILE> or positional FILE, not both".as_bytes(),
                    none,
                    none,
                );
                assert(out@ =~= message_of(self@));
                out
            },
            CliError::NotPositive { flag } => joined(
                "Invalid ".as_bytes(),
                flag.name().as_bytes(),
                " argument, must be a positive integer".as_bytes(),
            ),
            CliError::NotNonNegative { flag } => joined(
                "Invalid ".as_bytes(),
                flag.name().as_bytes(),
                " argument, must be a non-negative integer".as_bytes(),
            ),
            CliError::InvalidOutputFormat { value } => joined(
                "Invalid output format: ".as_bytes(),
                value.as_slice(),
                ". Use text, json, or csv".as_bytes(),
            ),
            CliError::InvalidColorMode { value } => joined(
                "Invalid color mode: ".as_bytes(),
                value.as_slice(),
                ". Use auto, always, or never".as_bytes(),
            ),
            CliError::InvalidOption { option } => {
                let out = joined("Invalid option: ".as_bytes(), option.as_slice(), none);
                assert(out@ =~= message_of(self@));
                out
            },
            CliError::NoHistInput => {
                let out = joined(
                    "When using -nh without FILE, provide input through stdin (pipe or redirection), or pass FILE with -f/positional argument".as_bytes(),
                    none,
                    none,
                );
                assert(out@ =~= message_of(self@));
                out
            },
        }
    }
}

/// What the arguments set. A setting that they do not make is `None` or
/// `false`.
#[derive(Debug)]
pub struct CliOverrides {
    pub file: Option<Vec<u8>>,
    pub count: Option<usize>,
    pub all: bool,
    pub more_than: Option<usize>,
    pub ignore: Option<Vec<Vec<u8>>>,
    pub bar_size: Option<usize>,
    pub no_bar: bool,
    pub no_hist: bool,
    pub no_cumu: bool,
    pub no_perc: bool,
    pub output_format: Option<OutputFormat>,
    pub color_mode: Option<ColorMode>,
    pub config_path: Option<Vec<u8>>,
}

/// What the arguments set, as values.
pub ghost struct Overrides {
    pub file: Option<Seq<u8>>,
    pub count: Option<usize>,
    pub all: bool,
    pub more_than: Option<usize>,
    pub ignore: Option<Seq<Seq<u8>>>,
    pub bar_size: Option<usize>,
    pub no_bar: bool,
    pub no_hist: bool,
    pub no_cumu: bool,
    pub no_perc: bool,
    pub output_format: Option<OutputFormat>,
    pub color_mode: Option<ColorMode>,
    pub config_path: Option<Seq<u8>>,
}

/// The byte strings of an optional list.
pub open spec fn list_view(list: Option<Vec<Vec<u8>>>) -> Option<Seq<Seq<u8>>> {
    match list {
        Some(names) => Some(crate::config::byte_strings(names@)),
        None => None,
    }
}

/// The bytes of an optional byte string.
pub open spec fn bytes_view(bytes: Option<Vec<u8>>) -> Option<Seq<u8>> {
    match bytes {
        Some(b) => Some(b@),
        None => None,
    }
}

impl View for CliOverrides {
    type V = Overrides;

    open spec fn view(&self) -> Overrides {
        Overrides {
            file: bytes_view(self.file),
            count: self.count,
            all: self.all,
            more_than: self.more_than,
            ignore: list_view(self.ignore),
            bar_size: self.bar_size,
            no_bar: self.no_bar,
            no_hist: self.no_hist,
            no_cumu: self.no_cumu,
            no_perc: self.no_perc,
            output_format: self.output_format,
            color_mode: self.color_mode,
            config_path: bytes_view(self.config_path),
        }
    }
}

/// Nothing is set.
pub open spec fn no_overrides() -> Overrides {
    Overrides {
        file: None,
        count: None,
        all: false,
        more_than: None,
        ignore: None,
        bar_size: None,
        no_bar: false,
        no_hist: false,
        no_cumu: false,
        no_perc: false,
        output_format: None,
        color_mode: None,
        config_path: None,
    }
}

impl Default for CliOverrides {
    fn default() -> (out: Self)
        ensures
            out@ == no_overrides(),
    {
        CliOverrides {
            file: None,
            count: None,
            all: false,
            more_than: None,
            ignore: None,
            bar_size: None,
            no_bar: false,
            no_hist: false,
            no_cumu: false,
            no_perc: false,
            output_format: None,
            color_mode: None,
            config_path: None,
        }
    }
}

/// The pieces, each trimmed.
pub open spec fn trimmed(pieces: Seq<Seq<u8>>) -> Seq<Seq<u8>> {
    Seq::new(pieces.len(), |i: int| trim(pieces[i]))
}

/// The names of an ignore list: what stands between its `|`, trimmed.
pub open spec fn ignore_list(value: Seq<u8>) -> Seq<Seq<u8>> {
    trimmed(split_on(value, '|' as u8))
}

/// Reads an ignore list.
pub fn read_ignore_list(value: &[u8]) -> (out: Vec<Vec<u8>>)
    ensures
        crate::config::byte_strings(out@) == ignore_list(value@),
{
    let n = value.len();
    let ghost pieces = split_on(value@, '|' as u8);
    let mut out: Vec<Vec<u8>> = Vec::new();
    let mut from: usize = 0;
    let ghost mut done: Seq<Seq<u8>> = Seq::empty();
    assert(value@.skip(0) =~= value@);
    assert(done + pieces =~= pieces);
    loop
        invariant
            from <= n,
            n == value@.len(),
            pieces == split_on(value@, '|' as u8),
            pieces == done + split_on(value@.skip(from as int), '|' as u8),
            out@.len() == done.len(),
            crate::config::byte_strings(out@) == trimmed(done),
        decreases n - from,
    {
        let piece = piece_with(value, from, '|' as u8);
        let ghost raw = value@.subrange(from as int, piece.end as int);
        let name = vstd::slice::slice_to_vec(trim_bytes(&value[from..piece.end]));
        let ghost names = out@;
        let ghost seen = done;
        out.push(name);
        proof {
            done = done.push(raw);
            assert forall|k: int| 0 <= k < out@.len() implies crate::config::byte_strings(out@)[k]
                == trimmed(done)[k] by {
                if k < names.len() {
                    assert(crate::config::byte_strings(names)[k] == trimmed(seen)[k]);
                }
            }
            assert(crate::config::byte_strings(out@) =~= trimmed(done));
        }
        if !piece.more {
            proof {
                assert(pieces =~= done);
            }
            return out;
        }
        proof {
            let tail = split_on(value@.skip(piece.end + 1), '|' as u8);
            assert(pieces =~= done + tail);
        }
        from = piece.end + 1;
    }
}

/// The overrides `acc` with the switch set.
pub open spec fn with_switch(acc: Overrides, switch: Switch) -> Overrides {
    match switch {
        Switch::All => Overrides { all: true, ..acc },
        Switch::NoBar => Overrides { no_bar: true, ..acc },
        Switch::NoHist => Overrides { no_hist: true, ..acc },
        Switch::NoPerc => Overrides { no_perc: true, ..acc },
        Switch::NoCumu => Overrides { no_cumu: true, ..acc },
    }
}

/// The overrides `acc` with the history file named, unless it was named
/// before.
pub open spec fn with_file(acc: Overrides, file: Seq<u8>) -> Result<Overrides, CliFault> {
    if acc.file is Some {
        Err(CliFault::ConflictingFiles)
    } else {
        Ok(Overrides { file: Some(file), ..acc })
    }
}

/// The overrides `acc` with the value of an option. Counts and bar sizes
/// must be above zero.
pub open spec fn with_value(acc: Overrides, flag: Flag, value: Seq<u8>) -> Result<
    Overrides,
    CliFault,
> {
    match flag {
        Flag::File => with_file(acc, value),
        Flag::Count => match size_written(value) {
            Some(n) if n > 0 => Ok(Overrides { count: Some(n), ..acc }),
            _ => Err(CliFault::NotPositive { flag }),
        },
        Flag::MoreThan => match size_written(value) {
            Some(n) => Ok(Overrides { more_than: Some(n), ..acc }),
            None => Err(CliFault::NotNonNegative { flag }),
        },
        Flag::Ignore => Ok(Overrides { ignore: Some(ignore_list(value)), ..acc }),
        Flag::BarSize => match size_written(value) {
            Some(n) if n > 0 => Ok(Overrides { bar_size: Some(n), ..acc }),
            _ => Err(CliFault::NotPositive { flag }),
        },
        Flag::Output => match crate::output::output_format_of(value) {
            Some(format) => Ok(Overrides { output_format: Some(format), ..acc }),
            None => Err(CliFault::InvalidOutputFormat { value }),
        },
        Flag::Color => match crate::color::color_mode_of(value) {
            Some(mode) => Ok(Overrides { color_mode: Some(mode), ..acc }),
            None => Err(CliFault::InvalidColorMode { value }),
        },
        Flag::Config => Ok(Overrides { config_path: Some(value), ..acc }),
    }
}

/// What the arguments ask for.
pub ghost enum Asked {
    /// The help text.
    Help,
    /// A run with these overrides.
    Run { overrides: Overrides },
    /// Nothing that can be done.
    Fail { fault: CliFault },
}

/// What the arguments from `i` on ask for, on top of `acc`. The first request
/// for help or the first fault ends the scan. An argument that is no option
/// names the history file, unless it begins with `-`.
pub open spec fn asked(args: Seq<Seq<u8>>, i: int, acc: Overrides) -> Asked
    decreases args.len() - i,
{
    if i < 0 || i >= args.len() {
        Asked::Run { overrides: acc }
    } else if is_help(args[i]) {
        Asked::Help
    } else if flag_of(args[i]) is Some {
        if i + 1 >= args.len() {
            Asked::Fail { fault: CliFault::MissingValue { flag: flag_of(args[i])->0 } }
        } else {
            match with_value(acc, flag_of(args[i])->0, args[i + 1]) {
                Ok(next) => asked(args, i + 2, next),
                Err(fault) => Asked::Fail { fault },
            }
        }
    } else if switch_of(args[i]) is Some {
        asked(args, i + 1, with_switch(acc, switch_of(args[i])->0))
    } else if args[i].len() > 0 && args[i][0] == '-' as u8 {
        Asked::Fail { fault: CliFault::InvalidOption { option: args[i] } }
    } else {
        match with_file(acc, args[i]) {
            Ok(next) => asked(args, i + 1, next),
            Err(fault) => Asked::Fail { fault },
        }
    }
}

/// What the arguments ask for, when they can be accepted.
#[derive(Debug)]
pub enum Invocation {
    /// The help text.
    Help,
    /// A run with these overrides.
    Run(CliOverrides),
}

/// Whether `r` is what `asked` says.
pub open spec fn is_asked(r: Result<Invocation, CliError>, goal: Asked) -> bool {
    match goal {
        Asked::Help => r is Ok && r->Ok_0 is Help,
        Asked::Run { overrides } => r is Ok && r->Ok_0 is Run && r->Ok_0->Run_0@ == overrides,
        Asked::Fail { fault } => r is Err && r->Err_0@ == fault,
    }
}

/// The value of the option at `i`, which moves on to that value.
pub fn require_value_argument<'a>(args: &'a [Vec<u8>], i: &mut usize, flag: Flag) -> (r: Result<
    &'a [u8],
    CliError,
>)
    requires
        *old(i) < args@.len(),
    ensures
        *final(i) == *old(i) + 1,
        *final(i) < args@.len() ==> r is Ok && r->Ok_0@ == args@[*final(i) as int]@,
        *final(i) >= args@.len() ==> r is Err && r->Err_0@ == (CliFault::MissingValue { flag }),
{
    let n = args.len();
    *i = *i + 1;
    if *i >= n {
        return Err(CliError::MissingValue { flag });
    }
    Ok(args[*i].as_slice())
}

/// Reads the size of an option that must be above zero.
pub fn parse_usize_argument(arg: &[u8], flag: Flag) -> (r: Result<usize, CliError>)
    ensures
        r is Ok <==> size_written(arg@) is Some && size_written(arg@)->0 > 0,
        r is Ok ==> r->Ok_0 == size_written(arg@)->0,
        r is Err ==> r->Err_0@ == (CliFault::NotPositive { flag }),
{
    match parse_size(arg) {
        Some(n) => {
            if n > 0 {
                Ok(n)
            } else {
                Err(CliError::NotPositive { flag })
            }
        },
        None => Err(CliError::NotPositive { flag }),
    }
}

/// Reads the size of an option that may be zero.
pub fn parse_non_negative_usize_argument(arg: &[u8], flag: Flag) -> (r: Result<usize, CliError>)
    ensures
        r is Ok <==> size_written(arg@) is Some,
        r is Ok ==> r->Ok_0 == size_written(arg@)->0,
        r is Err ==> r->Err_0@ == (CliFault::NotNonNegative { flag }),
{
    match parse_size(arg) {
        Some(n) => Ok(n),
        None => Err(CliError::NotNonNegative { flag }),
    }
}

/// Sets the value of an option.
pub fn set_value(acc: &mut CliOverrides, flag: Flag, value: &[u8]) -> (r: Result<(), CliError>)
    ensures
        r is Ok <==> with_value(old(acc)@, flag, value@) is Ok,
        r is Ok ==> final(acc)@ == with_value(old(acc)@, flag, value@)->Ok_0,
        r is Err ==> r->Err_0@ == with_value(old(acc)@, flag, value@)->Err_0,
{
    match flag {
        Flag::File => {
            if acc.file.is_some() {
                return Err(CliError::ConflictingFiles);
            }
            acc.file = Some(vstd::slice::slice_to_vec(value));
        },
        Flag::Count => {
            match parse_usize_argument(value, flag) {
                Ok(n) => {
                    acc.count = Some(n);
                },
                Err(e) => {
                    return Err(e);
                },
            }
        },
        Flag::MoreThan => {
            match parse_non_negative_usize_argument(value, flag) {
                Ok(n) => {
                    acc.more_than = Some(n);
                },
                Err(e) => {
                    return Err(e);
                },
            }
        },
        Flag::Ignore => {
            acc.ignore = Some(read_ignore_list(value));
        },
        Flag::BarSize => {
            match parse_usize_argument(value, flag) {
                Ok(n) => {
                    acc.bar_size = Some(n);
                },
                Err(e) => {
                    return Err(e);
                },
            }
        },
        Flag::Output => {
            match OutputFormat::parse_bytes(value) {
                Some(format) => {
                    acc.output_format = Some(format);
                },
                None => {
                    return Err(
                        CliError::InvalidOutputFormat { value: vstd::slice::slice_to_vec(value) },
                    );
                },
            }
        },
        Flag::Color => {
            match ColorMode::parse_bytes(value) {
                Some(mode) => {
                    acc.color_mode = Some(mode);
                },
                None => {
                    return Err(
                        CliError::InvalidColorMode { value: vstd::slice::slice_to_vec(value) },
                    );
                },
            }
        },
        Flag::Config => {
            acc.config_path = Some(vstd::slice::slice_to_vec(value));
        },
    }
    Ok(())
}

/// Sets a switch.
pub fn set_switch(acc: &mut CliOverrides, switch: Switch)
    ensures
        final(acc)@ == with_switch(old(acc)@, switch),
{
    match switch {
        Switch::All => {
            acc.all = true;
        },
        Switch::NoBar => {
            acc.no_bar = true;
        },
        Switch::NoHist => {
            acc.no_hist = true;
        },
        Switch::NoPerc => {
            acc.no_perc = true;
        },
        Switch::NoCumu => {
            acc.no_cumu = true;
        },
    }
}

/// The arguments as values.
pub open spec fn arg_views(args: Seq<Vec<u8>>) -> Seq<Seq<u8>> {
    Seq::new(args.len(), |i: int| args[i]@)
}

/// Reads the arguments that follow the name of the program.
pub fn parse_args(args: &[Vec<u8>]) -> (r: Result<Invocation, CliError>)
    ensures
        is_asked(r, asked(arg_views(args@), 1, no_overrides())),
{
    let n = args.len();
    let ghost list = arg_views(args@);
    let mut acc = CliOverrides::default();
    let mut i: usize = 1;
    while i < n
        invariant
            1 <= i,
            n == args@.len(),
            list == arg_views(args@),
            asked(list, 1, no_overrides()) == asked(list, i as int, acc@),
        decreases n - i,
    {
        let arg = args[i].as_slice();
        assert(list[i as int] == arg@);
        if same_bytes(arg, "-h".as_bytes()) || same_bytes(arg, "--help".as_bytes()) {
            return Ok(Invocation::Help);
        }
        match read_flag(arg) {
            Some(flag) => {
                let value = match require_value_argument(args, &mut i, flag) {
                    Ok(value) => value,
                    Err(e) => {
                        return Err(e);
                    },
                };
                assert(list[i as int] == value@);
                match set_value(&mut acc, flag, value) {
                    Ok(()) => {},
                    Err(e) => {
                        return Err(e);
                    },
                }
            },
            None => {
                match read_switch(arg) {
                    Some(switch) => {
                        set_switch(&mut acc, switch);
                    },
                    None => {
                        if arg.len() > 0 && arg[0] == '-' as u8 {
                            return Err(
                                CliError::InvalidOption { option: vstd::slice::slice_to_vec(arg) },
                            );
                        }
                        if acc.file.is_some() {
                            return Err(CliError::ConflictingFiles);
                        }
                        acc.file = Some(vstd::slice::slice_to_vec(arg));
                    },
                }
            },
        }
        i += 1;
    }
    Ok(Invocation::Run(acc))
}

/// The settings of a run.
#[derive(Debug)]
pub struct RunConfig {
    pub file: Vec<u8>,
    pub count: usize,
    pub all: bool,
    pub more_than: usize,
    pub ignore: Vec<Vec<u8>>,
    pub bar_size: usize,
    pub no_bar: bool,
    pub no_hist: bool,
    pub no_cumu: bool,
    pub no_perc: bool,
    pub track_subcommands: bool,
    pub output_format: OutputFormat,
    pub color_mode: ColorMode,
}

/// The settings of a run, as values.
pub ghost struct RunSettings {
    pub file: Seq<u8>,
    pub count: usize,
    pub all: bool,
    pub more_than: usize,
    pub ignore: Seq<Seq<u8>>,
    pub bar_size: usize,
    pub no_bar: bool,
    pub no_hist: bool,
    pub no_cumu: bool,
    pub no_perc: bool,
    pub track_subcommands: bool,
    pub output_format: OutputFormat,
    pub color_mode: ColorMode,
}

impl View for RunConfig {
    type V = RunSettings;

    open spec fn view(&self) -> RunSettings {
        RunSettings {
            file: self.file@,
            count: self.count,
            all: self.all,
            more_than: self.more_than,
            ignore: crate::config::byte_strings(self.ignore@),
            bar_size: self.bar_size,
            no_bar: self.no_bar,
            no_hist: self.no_hist,
            no_cumu: self.no_cumu,
            no_perc: self.no_perc,
            track_subcommands: self.track_subcommands,
            output_format: self.output_format,
            color_mode: self.color_mode,
        }
    }
}

/// The settings of a run that nothing has changed: 25 commands, bars of 25
/// cells, text output, color where the output is a terminal.
pub open spec fn default_settings() -> RunSettings {
    RunSettings {
        file: Seq::empty(),
        count: 25,
        all: false,
        more_than: 0,
        ignore: Seq::empty(),
        bar_size: 25,
        no_bar: false,
        no_hist: false,
        no_cumu: false,
        no_perc: false,
        track_subcommands: false,
        output_format: OutputFormat::Text,
        color_mode: ColorMode::Auto,
    }
}

/// The value of a setting: the new one where there is one.
pub open spec fn or_kept<T>(new: Option<T>, kept: T) -> T {
    match new {
        Some(value) => value,
        None => kept,
    }
}

/// The settings `run` with those of a configuration file on top.
pub open spec fn with_file_config(run: RunSettings, file: Settings) -> RunSettings {
    RunSettings {
        ignore: or_kept(file.ignore, run.ignore),
        bar_size: or_kept(file.bar_size, run.bar_size),
        count: or_kept(file.count, run.count),
        color_mode: or_kept(file.color, run.color_mode),
        track_subcommands: or_kept(file.subcommands, run.track_subcommands),
        more_than: or_kept(file.more_than, run.more_than),
        ..run
    }
}

/// The settings `run` with the values that the command line gives on top.
pub open spec fn with_values(run: RunSettings, cli: Overrides) -> RunSettings {
    RunSettings {
        file: or_kept(cli.file, run.file),
        count: or_kept(cli.count, run.count),
        more_than: or_kept(cli.more_than, run.more_than),
        ignore: or_kept(cli.ignore, run.ignore),
        bar_size: or_kept(cli.bar_size, run.bar_size),
        output_format: or_kept(cli.output_format, run.output_format),
        color_mode: or_kept(cli.color_mode, run.color_mode),
        ..run
    }
}

/// The settings `run` with the switches that the command line gives set. A
/// switch that is not given leaves its setting as it is.
pub open spec fn with_switches(run: RunSettings, cli: Overrides) -> RunSettings {
    RunSettings {
        all: cli.all || run.all,
        no_bar: cli.no_bar || run.no_bar,
        no_hist: cli.no_hist || run.no_hist,
        no_cumu: cli.no_cumu || run.no_cumu,
        no_perc: cli.no_perc || run.no_perc,
        ..run
    }
}

/// The settings `run` with those of the command line on top.
pub open spec fn with_overrides(run: RunSettings, cli: Overrides) -> RunSettings {
    with_switches(with_values(run, cli), cli)
}

/// A copy of a list of byte strings.
pub fn copy_list(list: &Vec<Vec<u8>>) -> (out: Vec<Vec<u8>>)
    ensures
        crate::config::byte_strings(out@) == crate::config::byte_strings(list@),
{
    let mut out: Vec<Vec<u8>> = Vec::new();
    let mut i: usize = 0;
    while i < list.len()
        invariant
            i <= list@.len(),
            out@.len() == i,
            forall|k: int| 0 <= k < i ==> (#[trigger] out@[k])@ == list@[k]@,
        decreases list@.len() - i,
    {
        out.push(vstd::slice::slice_to_vec(list[i].as_slice()));
        i += 1;
    }
    assert(crate::config::byte_strings(out@) =~= crate::config::byte_strings(list@));
    out
}

impl Default for RunConfig {
    fn default() -> (out: Self)
        ensures
            out@ == default_settings(),
    {
        let out = RunConfig {
            file: Vec::new(),
            count: 25,
            all: false,
            more_than: 0,
            ignore: Vec::new(),
            bar_size: 25,
            no_bar: false,
            no_hist: false,
            no_cumu: false,
            no_perc: false,
            track_subcommands: false,
            output_format: OutputFormat::Text,
            color_mode: ColorMode::Auto,
        };
        assert(crate::config::byte_strings(out.ignore@) =~= Seq::<Seq<u8>>::empty());
        out
    }
}

impl RunConfig {
    /// Puts the settings of a configuration file on top.
    pub fn apply_file_config(&mut self, file_config: &FileConfig)
        ensures
            final(self)@ == with_file_config(old(self)@, file_config@),
    {
        match &file_config.ignore {
            Some(ignore) => {
                self.ignore = copy_list(ignore);
            },
            None => {},
        }
        match file_config.bar_size {
            Some(bar_size) => {
                self.bar_size = bar_size;
            },
            None => {},
        }
        match file_config.count {
            Some(count) => {
                self.count = count;
            },
            None => {},
        }
        match file_config.color {
            Some(color) => {
                self.color_mode = color;
            },
            None => {},
        }
        match file_config.subcommands {
            Some(on) => {
                self.track_subcommands = on;
            },
            None => {},
        }
        match file_config.more_than {
            Some(more_than) => {
                self.more_than = more_than;
            },
            None => {},
        }
    }

    /// Puts the values that the command line gives on top.
    #[verifier::rlimit(80)]
    pub fn apply_cli_values(&mut self, overrides: &CliOverrides)
        ensures
            final(self)@ == with_values(old(self)@, overrides@),
    {
        match &overrides.file {
            Some(file) => {
                self.file = vstd::slice::slice_to_vec(file.as_slice());
            },
            None => {},
        }
        match overrides.count {
            Some(count) => {
                self.count = count;
            },
            None => {},
        }
        match overrides.more_than {
            Some(more_than) => {
                self.more_than = more_than;
            },
            None => {},
        }
        match &overrides.ignore {
            Some(ignore) => {
                self.ignore = copy_list(ignore);
            },
            None => {},
        }
        match overrides.bar_size {
            Some(bar_size) => {
                self.bar_size = bar_size;
            },
            None => {},
        }
        match overrides.output_format {
            Some(output_format) => {
                self.output_format = output_format;
            },
            None => {},
        }
        match overrides.color_mode {
            Some(color_mode) => {
                self.color_mode = color_mode;
            },
            None => {},
        }
    }

    /// Sets the switches that the command line gives.
    pub fn apply_cli_switches(&mut self, overrides: &CliOverrides)
        ensures
            final(self)@ == with_switches(old(self)@, overrides@),
    {
        if overrides.all {
            self.all = true;
        }
        if overrides.no_bar {
            self.no_bar = true;
        }
        if overrides.no_hist {
            self.no_hist = true;
        }
        if overrides.no_cumu {
            self.no_cumu = true;
        }
        if overrides.no_perc {
            self.no_perc = true;
        }
    }

    /// Puts the settings of the command line on top.
    pub fn apply_cli_overrides(&mut self, overrides: &CliOverrides)
        ensures
            final(self)@ == with_overrides(old(self)@, overrides@),
    {
        self.apply_cli_values(overrides);
        self.apply_cli_switches(overrides);
    }
}

/// Whether the input is read from standard input: only outside history
/// mode, and only when standard input is no terminal.
pub fn should_read_stdin(no_hist: bool, stdin_is_terminal: bool) -> (r: bool)
    ensures
        r == (no_hist && !stdin_is_terminal),
{
    no_hist && !stdin_is_terminal
}

/// The input outside history mode when no file is named: `-`, which stands
/// for standard input, unless that is a terminal.
pub fn resolve_no_hist_input(stdin_is_terminal: bool) -> (r: Result<Vec<u8>, CliError>)
    ensures
        stdin_is_terminal ==> r is Err && r->Err_0@ == CliFault::NoHistInput,
        !stdin_is_terminal ==> r is Ok && r->Ok_0@ == seq!['-' as u8],
{
    if should_read_stdin(true, stdin_is_terminal) {
        let dash: [u8; 1] = ['-' as u8];
        assert(dash@ =~= seq!['-' as u8]);
        Ok(vstd::slice::slice_to_vec(dash.as_slice()))
    } else {
        Err(CliError::NoHistInput)
    }
}

/// Whether the list holds the value.
pub open spec fn holds(values: Seq<Vec<u8>>, value: Seq<u8>) -> bool {
    exists|i: int| 0 <= i < values.len() && (#[trigger] values[i])@ == value
}

/// Appends the value unless the list holds it.
pub fn push_unique(values: &mut Vec<Vec<u8>>, value: Vec<u8>)
    ensures
        holds(old(values)@, value@) ==> final(values)@ == old(values)@,
        !holds(old(values)@, value@) ==> final(values)@ == old(values)@.push(value),
{
    let mut i: usize = 0;
    while i < values.len()
        invariant
            i <= values@.len(),
            values@ == old(values)@,
            forall|k: int| 0 <= k < i ==> (#[trigger] values@[k])@ != value@,
        decreases values@.len() - i,
    {
        if same_bytes(values[i].as_slice(), value.as_slice()) {
            return ;
        }
        i += 1;
    }
    values.push(value);
}

/// The path `home` with `tail` behind it.
pub fn under(home: &[u8], tail: &str) -> (out: Vec<u8>)
    ensures
        out@ == home@ + tail.spec_bytes(),
{
    let mut out = vstd::slice::slice_to_vec(home);
    out.extend_from_slice(tail.as_bytes());
    out
}

/// Where the shell `shell` keeps its history under `home`, the likeliest
/// place first. An unknown shell has no such place.
pub open spec fn history_places(home: Seq<u8>, shell: Seq<u8>) -> Seq<Seq<u8>> {
    if shell == "ash".spec_bytes() {
        seq![home + "/.ash_history".spec_bytes()]
    } else if shell == "bash".spec_bytes() {
        seq![home + "/.bash_history".spec_bytes()]
    } else if shell == "fish".spec_bytes() {
        seq![home + "/.local/share/fish/fish_history".spec_bytes()]
    } else if shell == "zsh".spec_bytes() {
        seq![
            home + "/.config/zsh/.zsh_history".spec_bytes(),
            home + "/.zsh_history".spec_bytes(),
        ]
    } else if shell == "pwsh".spec_bytes() {
        seq![
            home + "/.local/share/powershell/PSReadLine/ConsoleHost_history.txt".spec_bytes(),
        ]
    } else if shell == "tcsh".spec_bytes() || shell == "csh".spec_bytes() {
        seq![
            home + "/.history".spec_bytes(),
            home + "/.csh_history".spec_bytes(),
            home + "/.tcsh_history".spec_bytes(),
        ]
    } else {
        Seq::empty()
    }
}

/// Where the shell `shell` keeps its history under `home`.
pub fn shell_history_candidates(home: &[u8], shell: &[u8]) -> (out: Vec<Vec<u8>>)
    ensures
        crate::config::byte_strings(out@) == history_places(home@, shell@),
{
    let mut out: Vec<Vec<u8>> = Vec::new();
    if same_bytes(shell, "ash".as_bytes()) {
        out.push(under(home, "/.ash_history"));
    } else if same_bytes(shell, "bash".as_bytes()) {
        out.push(under(home, "/.bash_history"));
    } else if same_bytes(shell, "fish".as_bytes()) {
        out.push(under(home, "/.local/share/fish/fish_history"));
    } else if same_bytes(shell, "zsh".as_bytes()) {
        out.push(under(home, "/.config/zsh/.zsh_history"));
        out.push(under(home, "/.zsh_history"));
    } else if same_bytes(shell, "pwsh".as_bytes()) {
        out.push(under(home, "/.local/share/powershell/PSReadLine/ConsoleHost_history.txt"));
    } else if same_bytes(shell, "tcsh".as_bytes()) || same_bytes(shell, "csh".as_bytes()) {
        out.push(under(home, "/.history"));
        out.push(under(home, "/.csh_history"));
        out.push(under(home, "/.tcsh_history"));
    }
    assert(crate::config::byte_strings(out@) =~= history_places(home@, shell@));
    out
}

/// Where a history is looked for when the shell gives no hint.
pub open spec fn default_places(home: Seq<u8>) -> Seq<Seq<u8>> {
    seq![
        home + "/.bash_history".spec_bytes(),
        home + "/.zsh_history".spec_bytes(),
        home + "/.config/zsh/.zsh_history".spec_bytes(),
        home + "/.ash_history".spec_bytes(),
        home + "/.local/share/fish/fish_history".spec_bytes(),
        home + "/.local/share/powershell/PSReadLine/ConsoleHost_history.txt".spec_bytes(),
        home + "/.history".spec_bytes(),
    ]
}

/// Where a history is looked for when the shell gives no hint.
pub fn default_history_candidates(home: &[u8]) -> (out: Vec<Vec<u8>>)
    ensures
        crate::config::byte_strings(out@) == default_places(home@),
{
    let mut out: Vec<Vec<u8>> = Vec::new();
    out.push(under(home, "/.bash_history"));
    out.push(under(home, "/.zsh_history"));
    out.push(under(home, "/.config/zsh/.zsh_history"));
    out.push(under(home, "/.ash_history"));
    out.push(under(home, "/.local/share/fish/fish_history"));
    out.push(under(home, "/.local/share/powershell/PSReadLine/ConsoleHost_history.txt"));
    out.push(under(home, "/.history"));
    assert(crate::config::byte_strings(out@) =~= default_places(home@));
    out
}

/// The list with the values of `added` behind it, each unless it stands in
/// the list by then.
pub open spec fn with_new(list: Seq<Seq<u8>>, added: Seq<Seq<u8>>) -> Seq<Seq<u8>>
    decreases added.len(),
{
    if added.len() == 0 {
        list
    } else if with_new(list, added.drop_last()).contains(added.last()) {
        with_new(list, added.drop_last())
    } else {
        with_new(list, added.drop_last()).push(added.last())
    }
}

/// Where the shells `shells` keep their histories under `home`, shell by
/// shell, each place once.
pub open spec fn hinted_places(home: Seq<u8>, shells: Seq<Seq<u8>>) -> Seq<Seq<u8>>
    decreases shells.len(),
{
    if shells.len() == 0 {
        Seq::empty()
    } else {
        with_new(hinted_places(home, shells.drop_last()), history_places(home, shells.last()))
    }
}

/// Where a history is looked for: the places of the shells that are hinted
/// at, then the usual places, each place once.
pub open spec fn search_places(home: Seq<u8>, shells: Seq<Seq<u8>>) -> Seq<Seq<u8>> {
    with_new(hinted_places(home, shells), default_places(home))
}

/// A list holds a value exactly when its byte strings contain it.
pub proof fn lemma_holds(values: Seq<Vec<u8>>, value: Seq<u8>)
    ensures
        holds(values, value) == crate::config::byte_strings(values).contains(value),
{
    let list = crate::config::byte_strings(values);
    if holds(values, value) {
        let i = choose|i: int| 0 <= i < values.len() && (#[trigger] values[i])@ == value;
        assert(list[i] == value);
    }
    if list.contains(value) {
        let i = choose|i: int| 0 <= i < list.len() && list[i] == value;
        assert(values[i]@ == value);
    }
}

/// Appends the paths to the list, each unless the list holds it by then.
pub fn push_all_unique(out: &mut Vec<Vec<u8>>, paths: &[Vec<u8>])
    ensures
        crate::config::byte_strings(final(out)@) == with_new(
            crate::config::byte_strings(old(out)@),
            crate::config::byte_strings(paths@),
        ),
{
    let ghost start = crate::config::byte_strings(out@);
    let ghost added = crate::config::byte_strings(paths@);
    let n = paths.len();
    let mut i: usize = 0;
    assert(added.take(0) =~= Seq::<Seq<u8>>::empty());
    while i < n
        invariant
            i <= n,
            n == paths@.len(),
            added == crate::config::byte_strings(paths@),
            crate::config::byte_strings(out@) == with_new(start, added.take(i as int)),
        decreases n - i,
    {
        let ghost before = out@;
        let path = vstd::slice::slice_to_vec(paths[i].as_slice());
        proof {
            lemma_holds(before, path@);
            assert(added.take(i + 1).drop_last() =~= added.take(i as int));
            assert(added.take(i + 1).last() == path@);
        }
        push_unique(out, path);
        proof {
            if !holds(before, path@) {
                assert(crate::config::byte_strings(out@) =~= with_new(
                    start,
                    added.take(i as int),
                ).push(path@));
            }
        }
        i += 1;
    }
    assert(added.take(n as int) =~= added);
}

/// Where a history is looked for, given the names of the shells that are
/// hinted at.
pub fn candidate_paths(home: &[u8], shells: &[Vec<u8>]) -> (out: Vec<Vec<u8>>)
    ensures
        crate::config::byte_strings(out@) == search_places(
            home@,
            crate::config::byte_strings(shells@),
        ),
{
    let ghost hints = crate::config::byte_strings(shells@);
    let mut out: Vec<Vec<u8>> = Vec::new();
    let n = shells.len();
    let mut i: usize = 0;
    assert(hints.take(0) =~= Seq::<Seq<u8>>::empty());
    assert(crate::config::byte_strings(out@) =~= hinted_places(home@, hints.take(0)));
    while i < n
        invariant
            i <= n,
            n == shells@.len(),
            hints == crate::config::byte_strings(shells@),
            crate::config::byte_strings(out@) == hinted_places(home@, hints.take(i as int)),
        decreases n - i,
    {
        let places = shell_history_candidates(home, shells[i].as_slice());
        proof {
            assert(hints.take(i + 1).drop_last() =~= hints.take(i as int));
            assert(hints.take(i + 1).last() == shells@[i as int]@);
        }
        push_all_unique(&mut out, places.as_slice());
        i += 1;
    }
    assert(hints.take(n as int) =~= hints);
    let usual = default_history_candidates(home);
    push_all_unique(&mut out, usual.as_slice());
    out
}

/// The fourth whitespace-separated field of a process status line, which
/// holds the number of the parent process.
pub fn fourth_field(stat: &[u8]) -> (r: Option<&[u8]>)
    ensures
        r is Some <==> words(stat@).len() > 3,
        r is Some ==> r->0@ == words(stat@)[3],
{
    let mut from: usize = 0;
    let mut skipped: usize = 0;
    let ghost all = words(stat@);
    let ghost mut done: Seq<Seq<u8>> = Seq::empty();
    assert(stat@.skip(0) =~= stat@);
    assert(done + all =~= all);
    loop
        invariant
            from <= stat@.len(),
            skipped <= 3,
            all == words(stat@),
            done.len() == skipped,
            all == done + words(stat@.skip(from as int)),
        decreases stat@.len() - from,
    {
        match next_word(stat, from) {
            None => {
                assert(all =~= done);
                return None;
            },
            Some(span) => {
                let word = &stat[span.start..span.end];
                let ghost rest = words(stat@.skip(span.end as int));
                assert(all =~= done.push(word@) + rest);
                if skipped == 3 {
                    assert(all[3] == word@);
                    return Some(word);
                }
                proof {
                    done = done.push(word@);
                }
                skipped += 1;
                from = span.end;
            },
        }
    }
}

/// The first argument of a command line whose arguments end in zero bytes.
pub fn first_argument(cmdline: &[u8]) -> (r: &[u8])
    ensures
        r@ == cmdline@.take(position(cmdline@, 0)),
{
    let n = cmdline.len();
    proof {
        lemma_position(cmdline@, 0);
    }
    let end = match find_byte(cmdline, 0) {
        Some(i) => i,
        None => n,
    };
    assert(end == position(cmdline@, 0));
    assert(cmdline@.take(end as int) =~= cmdline@.subrange(0, end as int));
    &cmdline[0..end]
}

} // verus!
