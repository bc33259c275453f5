use histop::counts::FrequencyMap;
use histop::rank::{filter_and_sort_commands, name_before, output_limit};

fn counts_of(list: &[(&str, usize)]) -> FrequencyMap {
    let mut counts = FrequencyMap::new();
    for (name, count) in list {
        for _ in 0..*count {
            counts.increment(name.as_bytes());
        }
    }
    counts
}

fn ranked(counts: &FrequencyMap, more_than: usize) -> Vec<(String, usize)> {
    filter_and_sort_commands(counts, more_than)
        .into_iter()
        .map(|c| (String::from_utf8(c.name).unwrap(), c.count))
        .collect()
}

#[test]
fn test_filter_and_sort_commands() {
    let counts = counts_of(&[("ls", 4), ("git", 2), ("cd", 1)]);
    let commands = filter_and_sort_commands(&counts, 1);
    assert_eq!(commands.len(), 2);
    assert_eq!(commands[0].name, b"ls");
    assert_eq!(commands[0].count, 4);
    assert_eq!(commands[1].name, b"git");
    assert_eq!(commands[1].count, 2);
}

#[test]
fn test_filter_and_sort_commands_deterministic_tie_break() {
    let counts = counts_of(&[("zsh", 2), ("bash", 2)]);
    let commands = filter_and_sort_commands(&counts, 0);
    assert_eq!(commands[0].name, b"bash");
    assert_eq!(commands[1].name, b"zsh");
}

#[test]
fn test_output_limit() {
    assert_eq!(output_limit(10, false, 3), 3);
    assert_eq!(output_limit(2, false, 3), 2);
    assert_eq!(output_limit(2, true, 1), 2);
}

#[test]
fn ranking_orders_by_count_then_by_name() {
    let counts = counts_of(&[
        ("b", 3), ("a", 3), ("ab", 3), ("c", 5), ("Z", 3), ("z", 1), ("aa", 1), ("", 0),
    ]);
    let all = vec![
        ("c".to_string(), 5),
        ("Z".to_string(), 3),
        ("a".to_string(), 3),
        ("ab".to_string(), 3),
        ("b".to_string(), 3),
        ("aa".to_string(), 1),
        ("z".to_string(), 1),
    ];
    assert_eq!(ranked(&counts, 0), all);
    assert_eq!(ranked(&counts, 1), all[..5].to_vec());
    assert_eq!(ranked(&counts, 3), all[..1].to_vec());
    assert_eq!(ranked(&counts, 5), Vec::new());
    assert_eq!(ranked(&FrequencyMap::new(), 0), Vec::new());
}

#[test]
fn ranking_many_commands() {
    let mut counts = FrequencyMap::new();
    let mut expected = Vec::new();
    for i in 0..200usize {
        let name = format!("cmd{:03}", (i * 37) % 200);
        let count = 1 + ((i * 37) % 200) % 5;
        for _ in 0..count {
            counts.increment(name.as_bytes());
        }
        expected.push((name, count));
    }
    expected.sort_by(|a, b| b.1.cmp(&a.1).then_with(|| a.0.cmp(&b.0)));
    assert_eq!(ranked(&counts, 0), expected);
}

#[test]
fn names_compare_like_a_dictionary() {
    assert!(name_before(b"", b"a"));
    assert!(!name_before(b"", b""));
    assert!(!name_before(b"a", b""));
    assert!(name_before(b"a", b"b"));
    assert!(name_before(b"a", b"ab"));
    assert!(!name_before(b"ab", b"a"));
    assert!(name_before(b"Z", b"a"));
    assert!(!name_before(b"abc", b"abc"));
    assert!(name_before(b"abc", b"abd"));
    assert!(name_before(b"a\x7f", b"a\x80"));
}
