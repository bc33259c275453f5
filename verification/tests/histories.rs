//! Whole histories in each dialect.

use histop::counts::FrequencyMap;
use histop::history::detect::{detect_history_format, load_command_counts, HistoryFormat};
use histop::history::{fish, shell};

const COMMANDS: &[&str] = &[
    "ls -la",
    "git status",
    "cd /tmp",
    "cargo build --release",
    "nvim src/main.rs",
    "git commit -m \"first\"",
    "ls",
    "sudo apt update",
    "git push origin main",
    "cargo test",
    "ls | grep foo",
    "nvim Cargo.toml",
    "git status",
    "cargo build",
    "git pull",
    "ls -lh ~",
    "cd ..",
    "nvim README.md",
    "git log --oneline",
    "cargo run",
    "ls src",
];

fn bash_history() -> Vec<u8> {
    let mut out = Vec::new();
    for command in COMMANDS {
        out.extend_from_slice(command.as_bytes());
        out.push(b'\n');
    }
    out
}

fn zsh_history() -> Vec<u8> {
    let mut out = Vec::new();
    for (i, command) in COMMANDS.iter().enumerate() {
        out.extend_from_slice(format!(": {}:0;{}\n", 1680820391 + i, command).as_bytes());
    }
    out
}

fn fish_history() -> Vec<u8> {
    let mut out = Vec::new();
    for (i, command) in COMMANDS.iter().enumerate() {
        out.extend_from_slice(format!("- cmd: {}\n  when: {}\n", command, 1680820391 + i).as_bytes());
        if i % 4 == 0 {
            out.extend_from_slice(b"  paths:\n    - src\n");
        }
    }
    out
}

fn count(counts: &FrequencyMap, name: &str) -> Option<usize> {
    counts.get(name.as_bytes())
}

#[test]
fn test_parse_bash_history() {
    let result = shell::count_from_bytes(&bash_history(), &[], false, false);
    assert_eq!(count(&result, "ls"), Some(5));
    assert_eq!(count(&result, "git"), Some(6));
    assert_eq!(count(&result, "cargo"), Some(4));
    assert_eq!(count(&result, "nvim"), Some(3));
    assert_eq!(count(&result, "apt"), Some(1));
    assert_eq!(count(&result, "grep"), Some(1));
}

#[test]
fn test_bash_with_subcommands() {
    let result = shell::count_from_bytes(&bash_history(), &[], false, true);
    assert_eq!(count(&result, "git status"), Some(2));
    assert_eq!(count(&result, "git commit"), Some(1));
    assert_eq!(count(&result, "cargo build"), Some(2));
}

#[test]
fn test_bash_with_ignore() {
    let ignore = vec![b"ls".to_vec(), b"cd".to_vec()];
    let result = shell::count_from_bytes(&bash_history(), &ignore, false, false);
    assert_eq!(count(&result, "ls"), None);
    assert_eq!(count(&result, "cd"), None);
    assert!(count(&result, "git").is_some());
}

#[test]
fn test_parse_zsh_extended_history() {
    let result = shell::count_from_bytes(&zsh_history(), &[], false, false);
    assert_eq!(count(&result, "ls"), Some(5));
    assert_eq!(count(&result, "git"), Some(6));
    assert_eq!(count(&result, "cargo"), Some(4));
}

#[test]
fn test_zsh_with_subcommands() {
    let result = shell::count_from_bytes(&zsh_history(), &[], false, true);
    assert_eq!(count(&result, "git status"), Some(2));
    assert_eq!(count(&result, "cargo build"), Some(2));
}

#[test]
fn test_parse_fish_history() {
    let result = fish::count_from_bytes(&fish_history(), &[], false, false);
    assert_eq!(count(&result, "ls"), Some(5));
    assert_eq!(count(&result, "git"), Some(6));
    assert_eq!(count(&result, "cargo"), Some(4));
    assert_eq!(count(&result, "nvim"), Some(3));
}

#[test]
fn test_fish_with_subcommands() {
    let result = fish::count_from_bytes(&fish_history(), &[], false, true);
    assert_eq!(count(&result, "git status"), Some(2));
    assert_eq!(count(&result, "git commit"), Some(1));
}

#[test]
fn test_fish_with_ignore() {
    let ignore = vec![b"ls".to_vec()];
    let result = fish::count_from_bytes(&fish_history(), &ignore, false, false);
    assert_eq!(count(&result, "ls"), None);
    assert!(count(&result, "git").is_some());
}

#[test]
fn every_dialect_counts_the_same_commands() {
    let mut expected = shell::count_from_bytes(&bash_history(), &[], false, false).entries();
    expected.sort();
    for bytes in [zsh_history(), fish_history()] {
        let mut entries = load_command_counts(&bytes, &[], false, false).entries();
        entries.sort();
        assert_eq!(entries, expected);
    }
    assert_eq!(detect_history_format(&bash_history()), HistoryFormat::Shell);
    assert_eq!(detect_history_format(&zsh_history()), HistoryFormat::Shell);
    assert_eq!(detect_history_format(&fish_history()), HistoryFormat::Fish);
}
