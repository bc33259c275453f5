use histop::output::{escape_json_string, OutputFormat};

fn escaped(s: &str) -> String {
    String::from_utf8(escape_json_string(s.as_bytes())).unwrap()
}

#[test]
fn output_test_output_format_from_str() {
    assert_eq!(OutputFormat::parse("text"), Some(OutputFormat::Text));
    assert_eq!(OutputFormat::parse("json"), Some(OutputFormat::Json));
    assert_eq!(OutputFormat::parse("csv"), Some(OutputFormat::Csv));
    assert_eq!(OutputFormat::parse("invalid"), None);
}

#[test]
fn mod_test_output_format_from_str() {
    assert_eq!(OutputFormat::parse("text"), Some(OutputFormat::Text));
    assert_eq!(OutputFormat::parse("json"), Some(OutputFormat::Json));
    assert_eq!(OutputFormat::parse("csv"), Some(OutputFormat::Csv));
    assert_eq!(OutputFormat::parse("invalid"), None);
}

#[test]
fn output_format_ignores_ascii_case_only() {
    assert_eq!(OutputFormat::parse("JSON"), Some(OutputFormat::Json));
    assert_eq!(OutputFormat::parse("Csv"), Some(OutputFormat::Csv));
    assert_eq!(OutputFormat::parse("tExT"), Some(OutputFormat::Text));
    assert_eq!(OutputFormat::parse(""), None);
    assert_eq!(OutputFormat::parse("json "), None);
    assert_eq!(OutputFormat::default(), OutputFormat::Text);
}

#[test]
fn test_escape_json_common_chars() {
    assert_eq!(escaped("hello"), "hello");
    assert_eq!(escaped("a\\b"), "a\\\\b");
    assert_eq!(escaped("a\"b"), "a\\\"b");
    assert_eq!(escaped("a\nb"), "a\\nb");
    assert_eq!(escaped("a\rb"), "a\\rb");
    assert_eq!(escaped("a\tb"), "a\\tb");
}

#[test]
fn test_escape_json_control_characters() {
    assert_eq!(escaped("\x00"), "\\u0000");
    assert_eq!(escaped("\x01"), "\\u0001");
    assert_eq!(escaped("\x08"), "\\b");
    assert_eq!(escaped("\x0C"), "\\f");
    assert_eq!(escaped("\x1F"), "\\u001f");
    assert_eq!(escaped("a\x07b"), "a\\u0007b");
}

#[test]
fn escape_json_leaves_other_text_alone() {
    assert_eq!(escaped(""), "");
    assert_eq!(escaped("caf\u{e9} \u{2603} \x7f"), "caf\u{e9} \u{2603} \x7f");
    assert_eq!(escaped("\x10\x1a"), "\\u0010\\u001a");
}

fn entry(command: &str, count: usize, total: usize) -> histop::output::CommandEntry {
    histop::output::CommandEntry::new(command.as_bytes().to_vec(), count, total)
}

fn json(entries: &[histop::output::CommandEntry]) -> String {
    String::from_utf8(histop::output::format_json(entries)).unwrap()
}

fn csv(entries: &[histop::output::CommandEntry]) -> String {
    String::from_utf8(histop::output::format_csv(entries)).unwrap()
}

#[test]
fn output_test_format_json() {
    let entries = vec![entry("ls", 10, 100), entry("git", 5, 100)];
    let json = json(&entries);
    assert!(json.contains("\"command\": \"ls\""));
    assert!(json.contains("\"count\": 10"));
    assert!(json.contains("\"percentage\": 10.00"));
}

#[test]
fn output_test_format_csv() {
    let entries = vec![entry("ls", 10, 100), entry("git", 5, 100)];
    let csv = csv(&entries);
    assert!(csv.starts_with("command,count,percentage\n"));
    assert!(csv.contains("ls,10,10.00"));
}

#[test]
fn output_test_json_escaping() {
    let entries = vec![entry("echo \"hello\"", 1, 1)];
    let json = json(&entries);
    assert!(json.contains("echo \\\"hello\\\""));
}

#[test]
fn output_test_csv_escaping() {
    let entries = vec![entry("echo,hello", 1, 1)];
    let csv = csv(&entries);
    assert!(csv.contains("\"echo,hello\""));
}

#[test]
fn mod_test_format_json() {
    let entries = vec![entry("ls", 10, 100), entry("git", 5, 100)];
    let json = json(&entries);
    assert!(json.contains("\"command\": \"ls\""));
    assert!(json.contains("\"count\": 10"));
    assert!(json.contains("\"percentage\": 10.00"));
}

#[test]
fn mod_test_format_csv() {
    let entries = vec![entry("ls", 10, 100), entry("git", 5, 100)];
    let csv = csv(&entries);
    assert!(csv.starts_with("command,count,percentage\n"));
    assert!(csv.contains("ls,10,10.00"));
}

#[test]
fn mod_test_json_escaping() {
    let entries = vec![entry("echo \"hello\"", 1, 1)];
    let json = json(&entries);
    assert!(json.contains("echo \\\"hello\\\""));
}

#[test]
fn mod_test_csv_escaping() {
    let entries = vec![entry("echo,hello", 1, 1)];
    let csv = csv(&entries);
    assert!(csv.contains("\"echo,hello\""));
}

#[test]
fn integration_test_test_json_output() {
    let entries = vec![entry("ls", 10, 30), entry("git", 20, 30)];
    let json = json(&entries);
    assert!(json.contains("\"command\": \"ls\""));
    assert!(json.contains("\"count\": 10"));
    assert!(json.contains("\"command\": \"git\""));
    assert!(json.contains("\"count\": 20"));
}

#[test]
fn test_csv_output() {
    let entries = vec![entry("ls", 10, 30), entry("git", 20, 30)];
    let csv = csv(&entries);
    assert!(csv.starts_with("command,count,percentage\n"));
    assert!(csv.contains("ls,10,"));
    assert!(csv.contains("git,20,"));
}

#[test]
fn json_in_full() {
    assert_eq!(json(&[]), "[\n]");
    assert_eq!(
        json(&[entry("ls", 10, 30), entry("a\"b\n", 20, 30)]),
        "[\n  {\n    \"command\": \"ls\",\n    \"count\": 10,\n    \"percentage\": 33.33\n  },\n  {\n    \"command\": \"a\\\"b\\n\",\n    \"count\": 20,\n    \"percentage\": 66.67\n  }\n]"
    );
    assert_eq!(
        json(&[entry("x", 0, 0)]),
        "[\n  {\n    \"command\": \"x\",\n    \"count\": 0,\n    \"percentage\": 0.00\n  }\n]"
    );
}

#[test]
fn csv_in_full() {
    assert_eq!(csv(&[]), "command,count,percentage\n");
    assert_eq!(
        csv(&[entry("ls", 10, 30), entry("say \"hi\"", 20, 30), entry("a\nb", 0, 30), entry("x", 3, 0)]),
        "command,count,percentage\nls,10,33.33\n\"say \"\"hi\"\"\",20,66.67\n\"a\nb\",0,0.00\nx,3,0.00\n"
    );
    assert_eq!(
        String::from_utf8(histop::output::escape_csv_field(b"plain text")).unwrap(),
        "plain text"
    );
}

#[test]
fn rows_turn_back_into_entries() {
    let items = vec![
        histop::bar::BarItem::new(b"ls", 1000),
        histop::bar::BarItem::new(b"git", 25),
    ];
    let rows = histop::bar::render_bars(&items, &histop::bar::BarConfig::default());
    let entries = histop::output::bars_to_entries(&rows, 1025);
    let seen: Vec<(&[u8], usize, usize)> =
        entries.iter().map(|e| (e.command.as_slice(), e.count, e.total)).collect();
    assert_eq!(seen, vec![(&b"ls"[..], 1000, 1025), (&b"git"[..], 25, 1025)]);
    let odd = histop::bar::RenderedBar {
        count_str: b"many".to_vec(),
        bar_str: Vec::new(),
        percentage_str: Vec::new(),
        label: b"x".to_vec(),
    };
    let entries = histop::output::bars_to_entries(&[odd], 7);
    assert_eq!((entries[0].count, entries[0].total), (0, 7));
}
