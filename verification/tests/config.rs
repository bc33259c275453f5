use histop::color::ColorMode;
use histop::config::{ConfigError, FileConfig, Problem, ValueKind};
use histop::numbers::parse_integer;

fn names(list: &[&str]) -> Option<Vec<Vec<u8>>> {
    Some(list.iter().map(|name| name.as_bytes().to_vec()).collect())
}

fn problem(content: &str) -> (usize, String, Problem) {
    let ConfigError { line, key, problem } = FileConfig::parse(content).unwrap_err();
    (line, String::from_utf8(key).unwrap(), problem)
}

#[test]
fn config_test_parse_simple_config() {
    let content = r#"
# Histop configuration
count = 30
bar_size = 20
color = "auto"
subcommands = true
ignore = ["ls", "cd", "exit"]
"#;
    let config = FileConfig::parse(content).unwrap();
    assert_eq!(config.count, Some(30));
    assert_eq!(config.bar_size, Some(20));
    assert_eq!(config.color, Some(ColorMode::Auto));
    assert_eq!(config.subcommands, Some(true));
    assert_eq!(config.ignore, names(&["ls", "cd", "exit"]));
}

#[test]
fn config_test_parse_empty_config() {
    let content = "";
    let config = FileConfig::parse(content).unwrap();
    assert!(config.count.is_none());
    assert!(config.ignore.is_none());
}

#[test]
fn config_test_parse_unquoted_string() {
    let content = "color = auto";
    let config = FileConfig::parse(content).unwrap();
    assert_eq!(config.color, Some(ColorMode::Auto));
}

#[test]
fn file_test_parse_simple_config() {
    let content = r#"
# Histop configuration
count = 30
bar_size = 20
color = "auto"
ignore = ["ls", "cd", "exit"]
"#;
    let config = FileConfig::parse(content).unwrap();
    assert_eq!(config.count, Some(30));
    assert_eq!(config.bar_size, Some(20));
    assert_eq!(config.color, Some(ColorMode::Auto));
    assert_eq!(config.ignore, names(&["ls", "cd", "exit"]));
}

#[test]
fn file_test_parse_empty_config() {
    let content = "";
    let config = FileConfig::parse(content).unwrap();
    assert!(config.count.is_none());
    assert!(config.ignore.is_none());
}

#[test]
fn file_test_parse_with_comments() {
    let content = r#"
# This is a comment
count = 10 # inline comments not supported, this will fail
"#;
    let config = FileConfig::parse(content);
    assert!(config.is_err());
}

#[test]
fn file_test_parse_unquoted_string() {
    let content = "color = auto";
    let config = FileConfig::parse(content).unwrap();
    assert_eq!(config.color, Some(ColorMode::Auto));
}

#[test]
fn test_parse_negative_count_rejected() {
    let content = "count = -1";
    let config = FileConfig::parse(content);
    assert!(config.is_err());
}

#[test]
fn test_parse_zero_bar_size_rejected() {
    let content = "bar_size = 0";
    let config = FileConfig::parse(content);
    assert!(config.is_err());
}

#[test]
fn test_parse_negative_more_than_rejected() {
    let content = "more_than = -1";
    let config = FileConfig::parse(content);
    assert!(config.is_err());
}

#[test]
fn test_parse_zero_more_than_allowed() {
    let content = "more_than = 0";
    let config = FileConfig::parse(content).unwrap();
    assert_eq!(config.more_than, Some(0));
}

#[test]
fn test_parse_unknown_key_rejected() {
    let content = "invalid_key = 1";
    let config = FileConfig::parse(content);
    assert!(config.is_err());
}

#[test]
fn test_parse_type_mismatch_rejected() {
    let content = "count = \"10\"";
    let config = FileConfig::parse(content);
    assert!(config.is_err());
}

#[test]
fn test_parse_ignore_type_mismatch_rejected() {
    let content = "ignore = [\"ls\", 1]";
    let config = FileConfig::parse(content);
    assert!(config.is_err());
}

#[test]
fn test_parse_invalid_color_rejected() {
    let content = "color = \"sometimes\"";
    let config = FileConfig::parse(content);
    assert!(config.is_err());
}

#[test]
fn test_parse_config() {
    let content = r#"
count = 15
bar_size = 30
color = "always"
subcommands = true
ignore = ["ls", "cd"]
"#;
    let config = FileConfig::parse(content).unwrap();
    assert_eq!(config.count, Some(15));
    assert_eq!(config.bar_size, Some(30));
    assert_eq!(config.color, Some(ColorMode::Always));
    assert_eq!(config.subcommands, Some(true));
    assert_eq!(config.ignore, names(&["ls", "cd"]));
}

#[test]
fn every_problem_is_reported_with_its_line_and_key() {
    assert_eq!(problem("x = 1"), (1, "x".to_string(), Problem::UnknownKey));
    assert_eq!(
        problem("\n\nignore = ls"),
        (3, "ignore".to_string(), Problem::ExpectedArray { found: ValueKind::Text })
    );
    assert_eq!(
        problem("ignore = 5"),
        (1, "ignore".to_string(), Problem::ExpectedArray { found: ValueKind::Integer })
    );
    assert_eq!(
        problem("ignore = [a, 1, [b]]"),
        (1, "ignore".to_string(), Problem::ExpectedStrings { found: ValueKind::Integer })
    );
    assert_eq!(
        problem("count = ten"),
        (1, "count".to_string(), Problem::ExpectedInteger { found: ValueKind::Text })
    );
    assert_eq!(
        problem("bar_size = [1]"),
        (1, "bar_size".to_string(), Problem::ExpectedInteger { found: ValueKind::Array })
    );
    assert_eq!(
        problem("color = 1"),
        (1, "color".to_string(), Problem::ExpectedString { found: ValueKind::Integer })
    );
    assert_eq!(problem("color = blue"), (1, "color".to_string(), Problem::InvalidColor));
    assert_eq!(problem("subcommands = yes"), (1, "subcommands".to_string(), Problem::ExpectedBoolean));
    assert_eq!(problem("subcommands = \"true\""), (1, "subcommands".to_string(), Problem::ExpectedBoolean));
    assert_eq!(problem("count = 0"), (1, "count".to_string(), Problem::NotPositive));
    assert_eq!(problem("bar_size = -3"), (1, "bar_size".to_string(), Problem::NotPositive));
    assert_eq!(problem("more_than = -3"), (1, "more_than".to_string(), Problem::Negative));
    // the first assignment that counts and cannot be accepted is reported
    assert_eq!(
        problem("count = 1\nnope = 2\ncolor = blue\n"),
        (2, "nope".to_string(), Problem::UnknownKey)
    );
}

#[test]
fn last_assignment_of_a_key_counts() {
    let config = FileConfig::parse("count = x\ncount = 5\n").unwrap();
    assert_eq!(config.count, Some(5));
    let config = FileConfig::parse("nope = 1\ncolor=never\nnope = [\ncount = 7\ncolor = ALWAYS").unwrap_err();
    assert_eq!(config.line, 3);
    assert_eq!(problem("count = 5\ncount = x\n"), (2, "count".to_string(), Problem::ExpectedInteger { found: ValueKind::Text }));
}

#[test]
fn lines_that_assign_nothing_are_passed_over() {
    let content = "# count = x\n[section]\n  \njust words\n\t count\t=\t+12  \r\n[count = 3]\n";
    let config = FileConfig::parse(content).unwrap();
    assert_eq!(config.count, Some(12));
    assert_eq!(config.bar_size, None);
    assert_eq!(config.color, None);
    assert_eq!(config.subcommands, None);
    assert_eq!(config.more_than, None);
    assert_eq!(config.ignore, None);
}

#[test]
fn values_are_read_as_written() {
    // only the first `=` separates key and value
    let config = FileConfig::parse("ignore = ['a=b', \"c d\", e ,, ' ']").unwrap();
    assert_eq!(config.ignore, names(&["a=b", "c d", "e", " "]));
    let config = FileConfig::parse("ignore = []\nsubcommands = false").unwrap();
    assert_eq!(config.ignore, names(&[]));
    assert_eq!(config.subcommands, Some(false));
    let config = FileConfig::parse("ignore = [ ]").unwrap();
    assert_eq!(config.ignore, names(&[]));
    let config = FileConfig::parse("color = 'NEVER'\nmore_than = 007").unwrap();
    assert_eq!(config.color, Some(ColorMode::Never));
    assert_eq!(config.more_than, Some(7));
    // a lone quote is a bare string
    let config = FileConfig::parse("ignore = [\"]").unwrap();
    assert_eq!(config.ignore, names(&["\""]));
    // a quoted number is a string
    assert_eq!(
        problem("more_than = '3'"),
        (1, "more_than".to_string(), Problem::ExpectedInteger { found: ValueKind::Text })
    );
}

#[test]
fn integers_are_read_like_the_standard_library_reads_them() {
    for text in [
        "0", "-0", "+0", "7", "-7", "+7", "0012", "9223372036854775807", "-9223372036854775808",
        "9223372036854775808", "-9223372036854775809", "99999999999999999999999999999999999999999",
        "", "+", "-", "--1", "+-1", "1 ", " 1", "1_000", "0x10", "1.0", "1e3", "\u{663}",
    ] {
        assert_eq!(parse_integer(text.as_bytes()), text.parse::<i64>().ok(), "{:?}", text);
    }
}
