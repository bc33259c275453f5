use histop::cli::{
    candidate_paths, default_history_candidates, first_argument, fourth_field, parse_args, parse_non_negative_usize_argument,
    parse_usize_argument, push_unique, read_ignore_list, require_value_argument,
    resolve_no_hist_input, shell_history_candidates, should_read_stdin, CliError, CliOverrides,
    Flag, Invocation, RunConfig,
};
use histop::numbers::parse_size;
use histop::color::ColorMode;
use histop::config::FileConfig;
use histop::output::OutputFormat;

const NO_HIST_INPUT_ERROR: &str = "When using -nh without FILE, provide input through stdin (pipe or \
     redirection), or pass FILE with -f/positional argument";

fn args(list: &[&str]) -> Vec<Vec<u8>> {
    let mut out = vec![b"histop".to_vec()];
    out.extend(list.iter().map(|arg| arg.as_bytes().to_vec()));
    out
}

fn run(list: &[&str]) -> CliOverrides {
    match parse_args(&args(list)) {
        Ok(Invocation::Run(overrides)) => overrides,
        other => panic!("{:?}", other),
    }
}

fn error(list: &[&str]) -> CliError {
    parse_args(&args(list)).unwrap_err()
}

fn message(error: &CliError) -> String {
    String::from_utf8(error.message()).unwrap()
}

fn assert_missing_value(list: &[&str]) {
    let e = error(list);
    assert!(matches!(e, CliError::MissingValue { .. }));
    assert!(message(&e).contains("Missing value"));
}

fn paths(list: Vec<Vec<u8>>) -> Vec<String> {
    list.into_iter().map(|path| String::from_utf8(path).unwrap()).collect()
}

#[test]
fn test_shell_history_candidates_zsh() {
    let candidates = paths(shell_history_candidates(b"/tmp/home", b"zsh"));
    assert_eq!(candidates.len(), 2);
    assert!(candidates[0].ends_with(".config/zsh/.zsh_history"));
    assert!(candidates[1].ends_with(".zsh_history"));
}

#[test]
fn test_shell_history_candidates_powershell() {
    let candidates = paths(shell_history_candidates(b"/tmp/home", b"pwsh"));
    assert_eq!(candidates.len(), 1);
    assert!(candidates[0].ends_with("powershell/PSReadLine/ConsoleHost_history.txt"));
}

#[test]
fn test_shell_history_candidates_tcsh() {
    let candidates = paths(shell_history_candidates(b"/tmp/home", b"tcsh"));
    assert_eq!(candidates.len(), 3);
    assert!(candidates.iter().any(|c| c.ends_with("/.history")));
    assert!(candidates.iter().any(|c| c.ends_with("/.csh_history")));
    assert!(candidates.iter().any(|c| c.ends_with("/.tcsh_history")));
}

#[test]
fn test_default_history_candidates_contains_common_shells() {
    let candidates = paths(default_history_candidates(b"/tmp/home"));
    assert!(candidates.iter().any(|c| c.ends_with(".bash_history")));
    assert!(candidates.iter().any(|c| c.ends_with(".zsh_history")));
    assert!(candidates.iter().any(|c| c.ends_with("fish_history")));
    assert!(candidates.iter().any(|c| c.ends_with("powershell/PSReadLine/ConsoleHost_history.txt")));
    assert!(candidates.iter().any(|c| c.ends_with("/.history")));
}

#[test]
fn test_push_unique() {
    let mut values = vec![b"bash".to_vec()];
    push_unique(&mut values, b"bash".to_vec());
    push_unique(&mut values, b"zsh".to_vec());
    assert_eq!(values, vec![b"bash".to_vec(), b"zsh".to_vec()]);
}

#[test]
fn test_should_read_stdin_when_no_hist_and_stdin_not_terminal() {
    assert!(should_read_stdin(true, false));
}

#[test]
fn test_should_not_read_stdin_when_history_mode_enabled() {
    assert!(!should_read_stdin(false, false));
}

#[test]
fn test_should_not_read_stdin_when_stdin_is_terminal() {
    assert!(!should_read_stdin(true, true));
}

#[test]
fn test_resolve_no_hist_input_uses_stdin_when_not_terminal() {
    let file = resolve_no_hist_input(false).unwrap();
    assert_eq!(file, b"-");
}

#[test]
fn test_resolve_no_hist_input_requires_stdin_or_file_on_terminal() {
    let err = resolve_no_hist_input(true).unwrap_err();
    assert_eq!(err, CliError::NoHistInput);
    assert_eq!(message(&err), NO_HIST_INPUT_ERROR);
}

#[test]
fn test_missing_file_value() {
    assert_missing_value(&["-f"]);
}

#[test]
fn test_missing_count_value() {
    assert_missing_value(&["-c"]);
}

#[test]
fn test_missing_more_than_value() {
    assert_missing_value(&["-m"]);
}

#[test]
fn test_missing_ignore_value() {
    assert_missing_value(&["-i"]);
}

#[test]
fn test_missing_bar_size_value() {
    assert_missing_value(&["-b"]);
}

#[test]
fn test_missing_output_value() {
    assert_missing_value(&["-o"]);
}

#[test]
fn test_missing_color_value() {
    assert_missing_value(&["--color"]);
}

#[test]
fn test_missing_config_value() {
    assert_missing_value(&["--config"]);
}

#[test]
fn test_invalid_option() {
    let e = error(&["--invalid-option"]);
    assert!(message(&e).contains("Invalid option"));
}

#[test]
fn test_unknown_short_option() {
    assert_eq!(error(&["-z"]), CliError::InvalidOption { option: b"-z".to_vec() });
}

#[test]
fn test_removed_verbose_option() {
    assert_eq!(error(&["-v"]), CliError::InvalidOption { option: b"-v".to_vec() });
}

#[test]
fn test_removed_fish_force_option() {
    assert_eq!(error(&["-F"]), CliError::InvalidOption { option: b"-F".to_vec() });
}

#[test]
fn test_removed_subcommands_option() {
    assert_eq!(error(&["-s"]), CliError::InvalidOption { option: b"-s".to_vec() });
}

#[test]
fn every_option_is_read() {
    let o = run(&[
        "-c", "7", "-a", "-m", "0", "-i", " ls | cd||x ", "-b", "40", "-n", "-nh", "-np", "-nc",
        "-o", "JSON", "--color", "Never", "--config", "/etc/histop.toml", "history.txt",
    ]);
    assert_eq!(o.file, Some(b"history.txt".to_vec()));
    assert_eq!(o.count, Some(7));
    assert!(o.all);
    assert_eq!(o.more_than, Some(0));
    assert_eq!(
        o.ignore,
        Some(vec![b"ls".to_vec(), b"cd".to_vec(), b"".to_vec(), b"x".to_vec()])
    );
    assert_eq!(o.bar_size, Some(40));
    assert!(o.no_bar && o.no_hist && o.no_perc && o.no_cumu);
    assert_eq!(o.output_format, Some(OutputFormat::Json));
    assert_eq!(o.color_mode, Some(ColorMode::Never));
    assert_eq!(o.config_path, Some(b"/etc/histop.toml".to_vec()));
}

#[test]
fn no_arguments_change_nothing() {
    for o in [run(&[]), match parse_args(&[]) {
        Ok(Invocation::Run(o)) => o,
        other => panic!("{:?}", other),
    }] {
        assert_eq!(o.file, None);
        assert_eq!(o.count, None);
        assert_eq!(o.ignore, None);
        assert_eq!(o.config_path, None);
        assert!(!o.all && !o.no_bar && !o.no_hist && !o.no_perc && !o.no_cumu);
    }
}

#[test]
fn help_ends_the_scan() {
    assert!(matches!(parse_args(&args(&["-h"])), Ok(Invocation::Help)));
    assert!(matches!(parse_args(&args(&["--help", "-z"])), Ok(Invocation::Help)));
    assert!(matches!(parse_args(&args(&["-a", "-h", "-c"])), Ok(Invocation::Help)));
    // what stands before it is still read
    assert_eq!(error(&["-z", "-h"]), CliError::InvalidOption { option: b"-z".to_vec() });
    // the value of an option is no request for help
    assert_eq!(run(&["-f", "-h"]).file, Some(b"-h".to_vec()));
}

#[test]
fn every_fault_is_reported() {
    assert_eq!(error(&["-f", "a", "b"]), CliError::ConflictingFiles);
    assert_eq!(error(&["a", "-f", "b"]), CliError::ConflictingFiles);
    assert_eq!(error(&["a", "b"]), CliError::ConflictingFiles);
    assert_eq!(error(&["-f", "a", "-f", "b"]), CliError::ConflictingFiles);
    assert_eq!(error(&["-c", "0"]), CliError::NotPositive { flag: Flag::Count });
    assert_eq!(error(&["-c", "-1"]), CliError::NotPositive { flag: Flag::Count });
    assert_eq!(error(&["-b", "x"]), CliError::NotPositive { flag: Flag::BarSize });
    assert_eq!(error(&["-m", "-1"]), CliError::NotNonNegative { flag: Flag::MoreThan });
    assert_eq!(error(&["-o", "xml"]), CliError::InvalidOutputFormat { value: b"xml".to_vec() });
    assert_eq!(error(&["--color", "no"]), CliError::InvalidColorMode { value: b"no".to_vec() });
    assert_eq!(error(&["-"]), CliError::InvalidOption { option: b"-".to_vec() });
    assert_eq!(error(&["-c"]), CliError::MissingValue { flag: Flag::Count });
}

#[test]
fn messages() {
    assert_eq!(message(&CliError::MissingValue { flag: Flag::Config }), "Missing value for --config");
    assert_eq!(
        message(&CliError::ConflictingFiles),
        "Conflicting input file arguments: use either -f <FILE> or positional FILE, not both"
    );
    assert_eq!(
        message(&CliError::NotPositive { flag: Flag::Count }),
        "Invalid -c argument, must be a positive integer"
    );
    assert_eq!(
        message(&CliError::NotNonNegative { flag: Flag::MoreThan }),
        "Invalid -m argument, must be a non-negative integer"
    );
    assert_eq!(
        message(&CliError::InvalidOutputFormat { value: b"xml".to_vec() }),
        "Invalid output format: xml. Use text, json, or csv"
    );
    assert_eq!(
        message(&CliError::InvalidColorMode { value: b"no".to_vec() }),
        "Invalid color mode: no. Use auto, always, or never"
    );
    assert_eq!(message(&CliError::InvalidOption { option: b"-z".to_vec() }), "Invalid option: -z");
    for (flag, name) in [
        (Flag::File, "-f"), (Flag::Count, "-c"), (Flag::MoreThan, "-m"), (Flag::Ignore, "-i"),
        (Flag::BarSize, "-b"), (Flag::Output, "-o"), (Flag::Color, "--color"), (Flag::Config, "--config"),
    ] {
        assert_eq!(flag.name(), name);
    }
}

#[test]
fn sizes_are_read_like_the_standard_library_reads_them() {
    for text in [
        "0", "+0", "-0", "7", "+7", "-7", "0012", "18446744073709551615", "18446744073709551616",
        "184467440737095516150", "99999999999999999999999999999", "", "+", "-", "++1", "1 ", " 1",
        "1_000", "0x10", "\u{663}",
    ] {
        assert_eq!(parse_size(text.as_bytes()), text.parse::<usize>().ok(), "{:?}", text);
    }
    assert_eq!(parse_usize_argument(b"3", Flag::Count), Ok(3));
    assert_eq!(parse_usize_argument(b"0", Flag::Count), Err(CliError::NotPositive { flag: Flag::Count }));
    assert_eq!(parse_non_negative_usize_argument(b"0", Flag::MoreThan), Ok(0));
    assert_eq!(
        parse_non_negative_usize_argument(b"x", Flag::MoreThan),
        Err(CliError::NotNonNegative { flag: Flag::MoreThan })
    );
}

#[test]
fn require_value_moves_to_the_value() {
    let list = args(&["-f", "x"]);
    let mut i = 1;
    assert_eq!(require_value_argument(&list, &mut i, Flag::File), Ok(&b"x"[..]));
    assert_eq!(i, 2);
    let mut i = 2;
    assert_eq!(
        require_value_argument(&list, &mut i, Flag::File),
        Err(CliError::MissingValue { flag: Flag::File })
    );
    assert_eq!(i, 3);
}

#[test]
fn ignore_lists_keep_empty_names() {
    assert_eq!(read_ignore_list(b""), vec![b"".to_vec()]);
    assert_eq!(read_ignore_list(b"ls"), vec![b"ls".to_vec()]);
    assert_eq!(read_ignore_list(b"ls|"), vec![b"ls".to_vec(), b"".to_vec()]);
    assert_eq!(read_ignore_list(b" a b | c "), vec![b"a b".to_vec(), b"c".to_vec()]);
}

#[test]
fn settings_are_layered() {
    let mut config = RunConfig::default();
    assert_eq!(config.count, 25);
    assert_eq!(config.bar_size, 25);
    assert_eq!(config.more_than, 0);
    assert_eq!(config.output_format, OutputFormat::Text);
    assert_eq!(config.color_mode, ColorMode::Auto);
    assert!(config.file.is_empty() && config.ignore.is_empty());
    assert!(!config.all && !config.no_bar && !config.no_hist && !config.no_cumu && !config.no_perc);
    assert!(!config.track_subcommands);

    let file = FileConfig::parse("count = 5\nignore = [a]\ncolor = never\nsubcommands = true\nmore_than = 2\nbar_size = 9").unwrap();
    config.apply_file_config(&file);
    assert_eq!((config.count, config.bar_size, config.more_than), (5, 9, 2));
    assert_eq!(config.ignore, vec![b"a".to_vec()]);
    assert_eq!(config.color_mode, ColorMode::Never);
    assert!(config.track_subcommands);

    config.apply_file_config(&FileConfig::parse("count = 6").unwrap());
    assert_eq!((config.count, config.bar_size, config.more_than), (6, 9, 2));
    assert_eq!(config.ignore, vec![b"a".to_vec()]);

    config.apply_cli_overrides(&run(&["-b", "3", "-nh", "-i", "x|y", "f.txt", "-o", "csv"]));
    assert_eq!((config.count, config.bar_size, config.more_than), (6, 3, 2));
    assert_eq!(config.ignore, vec![b"x".to_vec(), b"y".to_vec()]);
    assert_eq!(config.file, b"f.txt".to_vec());
    assert_eq!(config.output_format, OutputFormat::Csv);
    assert_eq!(config.color_mode, ColorMode::Never);
    assert!(config.no_hist && !config.no_bar && !config.all);
    assert!(config.track_subcommands);

    // a switch that is not given does not clear a setting
    config.apply_cli_overrides(&run(&["-a"]));
    assert!(config.no_hist && config.all);
    assert_eq!(config.file, b"f.txt".to_vec());
}

#[test]
fn history_places() {
    assert_eq!(paths(shell_history_candidates(b"/h", b"ash")), vec!["/h/.ash_history"]);
    assert_eq!(paths(shell_history_candidates(b"/h", b"bash")), vec!["/h/.bash_history"]);
    assert_eq!(
        paths(shell_history_candidates(b"/h", b"fish")),
        vec!["/h/.local/share/fish/fish_history"]
    );
    assert_eq!(
        paths(shell_history_candidates(b"/h", b"zsh")),
        vec!["/h/.config/zsh/.zsh_history", "/h/.zsh_history"]
    );
    assert_eq!(
        paths(shell_history_candidates(b"/h", b"csh")),
        vec!["/h/.history", "/h/.csh_history", "/h/.tcsh_history"]
    );
    assert_eq!(paths(shell_history_candidates(b"/h", b"nu")), Vec::<String>::new());
    assert_eq!(
        paths(default_history_candidates(b"")),
        vec![
            "/.bash_history",
            "/.zsh_history",
            "/.config/zsh/.zsh_history",
            "/.ash_history",
            "/.local/share/fish/fish_history",
            "/.local/share/powershell/PSReadLine/ConsoleHost_history.txt",
            "/.history",
        ]
    );
}

#[test]
fn search_places_hold_each_place_once() {
    let hints = vec![b"zsh".to_vec(), b"nu".to_vec(), b"bash".to_vec(), b"zsh".to_vec()];
    assert_eq!(
        paths(candidate_paths(b"/h", &hints)),
        vec![
            "/h/.config/zsh/.zsh_history",
            "/h/.zsh_history",
            "/h/.bash_history",
            "/h/.ash_history",
            "/h/.local/share/fish/fish_history",
            "/h/.local/share/powershell/PSReadLine/ConsoleHost_history.txt",
            "/h/.history",
        ]
    );
    assert_eq!(paths(candidate_paths(b"/h", &[])), paths(default_history_candidates(b"/h")));
    assert_eq!(
        paths(candidate_paths(b"/h", &[b"tcsh".to_vec()])),
        vec![
            "/h/.history",
            "/h/.csh_history",
            "/h/.tcsh_history",
            "/h/.bash_history",
            "/h/.zsh_history",
            "/h/.config/zsh/.zsh_history",
            "/h/.ash_history",
            "/h/.local/share/fish/fish_history",
            "/h/.local/share/powershell/PSReadLine/ConsoleHost_history.txt",
        ]
    );
}

#[test]
fn process_fields() {
    assert_eq!(fourth_field(b"4242 (histop) R 117 4242 117 34816"), Some(&b"117"[..]));
    assert_eq!(fourth_field(b"1 (a) S"), None);
    assert_eq!(fourth_field(b""), None);
    assert_eq!(fourth_field(b" 1\t2\n3  4"), Some(&b"4"[..]));
    // a name with a space moves the fields
    assert_eq!(fourth_field(b"1 (a b) S 7"), Some(&b"S"[..]));
    assert_eq!(first_argument(b"/usr/bin/zsh\0-l\0"), b"/usr/bin/zsh");
    assert_eq!(first_argument(b"zsh"), b"zsh");
    assert_eq!(first_argument(b"\0zsh"), b"");
    assert_eq!(first_argument(b""), b"");
}
