use histop::pipeline::{clean_line, SplitCommands};

fn split(line: &str) -> Vec<String> {
    SplitCommands::new(line.as_bytes())
        .collect()
        .into_iter()
        .map(|stage| String::from_utf8(stage.to_vec()).unwrap())
        .collect()
}

fn cleaned(line: &str) -> String {
    String::from_utf8(clean_line(line.as_bytes())).unwrap()
}

#[test]
fn test_split_commands_no_pipe() {
    assert_eq!(split("ls -la"), vec!["ls -la"]);
}

#[test]
fn test_split_commands_pipe_outside_quotes() {
    assert_eq!(split("ls | grep foo"), vec!["ls ", " grep foo"]);
}

#[test]
fn test_split_commands_pipe_in_single_quotes() {
    assert_eq!(split("echo 'hello | world'"), vec!["echo 'hello | world'"]);
}

#[test]
fn test_split_commands_pipe_in_double_quotes() {
    assert_eq!(split(r#"echo "hello | world""#), vec![r#"echo "hello | world""#]);
}

#[test]
fn test_split_commands_mixed() {
    assert_eq!(split("echo 'foo | bar' | grep baz"), vec!["echo 'foo | bar' ", " grep baz"]);
}

#[test]
fn split_scenarios() {
    assert_eq!(split("ls | grep foo"), vec!["ls ", " grep foo"]);
    assert_eq!(split("echo 'a | b' | wc"), vec!["echo 'a | b' ", " wc"]);
}

#[test]
fn split_edge_cases() {
    assert_eq!(split(""), Vec::<String>::new());
    assert_eq!(split("|"), vec![""]);
    assert_eq!(split("a|"), vec!["a"]);
    assert_eq!(split("|a"), vec!["", "a"]);
    assert_eq!(split("a||b"), vec!["a", "", "b"]);
    // either kind of quote masks, and neither hides the other
    assert_eq!(split("a ' \" | ' b | c"), vec!["a ' \" | ' b | c"]);
    assert_eq!(split("a ' \" | ' \" b | c"), vec!["a ' \" | ' \" b ", " c"]);
    // an unclosed quote masks to the end
    assert_eq!(split("echo 'a | b | c"), vec!["echo 'a | b | c"]);
}

#[test]
fn split_next_hands_out_one_stage_at_a_time() {
    let mut it = SplitCommands::new(b"a|b|c");
    assert_eq!(it.next(), Some(&b"a"[..]));
    assert_eq!(it.next(), Some(&b"b"[..]));
    assert_eq!(it.next(), Some(&b"c"[..]));
    assert_eq!(it.next(), None);
    assert_eq!(it.next(), None);
}

#[test]
fn history_test_clean_line_no_pipe() {
    assert_eq!(cleaned("ls -la"), "ls -la");
}

#[test]
fn history_test_clean_line_pipe_outside_quotes() {
    assert_eq!(cleaned("ls | grep foo"), "ls | grep foo");
}

#[test]
fn history_test_clean_line_pipe_in_single_quotes() {
    let result = cleaned("echo 'hello | world'");
    assert!(!result.contains('|'));
}

#[test]
fn history_test_clean_line_pipe_in_double_quotes() {
    let result = cleaned(r#"echo "hello | world""#);
    assert!(!result.contains('|'));
}

#[test]
fn utils_test_clean_line_no_pipe() {
    assert_eq!(cleaned("ls -la"), "ls -la");
}

#[test]
fn utils_test_clean_line_pipe_outside_quotes() {
    assert_eq!(cleaned("ls | grep foo"), "ls | grep foo");
}

#[test]
fn utils_test_clean_line_pipe_in_single_quotes() {
    let result = cleaned("echo 'hello | world'");
    assert!(!result.contains('|'));
}

#[test]
fn utils_test_clean_line_pipe_in_double_quotes() {
    let result = cleaned(r#"echo "hello | world""#);
    assert!(!result.contains('|'));
}

#[test]
fn test_clean_line_preserves_outer_pipes() {
    assert_eq!(cleaned("cat file | grep pattern | wc -l"), "cat file | grep pattern | wc -l");
}

#[test]
fn clean_line_replaces_exactly_the_masked_pipes() {
    assert_eq!(cleaned("echo 'a | b' | wc"), "echo 'a   b' | wc");
    assert_eq!(cleaned("echo \"a|b\"|wc"), "echo \"a b\"|wc");
    assert_eq!(cleaned("'|'|'|'"), "' '|' '");
    assert_eq!(cleaned(""), "");
}

#[test]
fn splitting_the_cleaned_line_at_every_pipe_gives_the_stages() {
    for line in ["ls | grep foo", "echo 'a | b' | wc", "a \"|\" | b '|' | c", "x"] {
        let stages = split(line);
        let cleaned = cleaned(line);
        let pieces: Vec<&str> = cleaned.split('|').collect();
        assert_eq!(stages.len(), pieces.len(), "{}", line);
        for (stage, piece) in stages.iter().zip(pieces) {
            assert_eq!(stage.len(), piece.len(), "{}", line);
        }
    }
}
