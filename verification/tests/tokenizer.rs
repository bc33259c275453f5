use ahash::AHashSet;
use histop::command_parse::{clean_word, get_first_word, is_subcommand_tool, next_word};

fn filters(names: &[&str]) -> AHashSet<Vec<u8>> {
    names.iter().map(|name| name.as_bytes().to_vec()).collect()
}

fn first_word(cmd: &str, filtered: &AHashSet<Vec<u8>>) -> Option<String> {
    get_first_word(cmd.as_bytes(), filtered, false).map(|name| String::from_utf8(name).unwrap())
}

fn key(cmd: &str, filtered: &AHashSet<Vec<u8>>, track_subcommands: bool) -> Option<String> {
    get_first_word(cmd.as_bytes(), filtered, track_subcommands)
        .map(|name| String::from_utf8(name).unwrap())
}

fn some(name: &str) -> Option<String> {
    Some(name.to_string())
}

#[test]
fn command_parse_test_get_first_word_simple() {
    let filters = filters(&["sudo", "doas"]);
    assert_eq!(first_word("ls -la", &filters), some("ls"));
}

#[test]
fn command_parse_test_get_first_word_with_sudo() {
    let filters = filters(&["sudo", "doas"]);
    assert_eq!(first_word("sudo apt update", &filters), some("apt"));
}

#[test]
fn command_parse_test_get_first_word_with_doas() {
    let filters = filters(&["sudo", "doas"]);
    assert_eq!(first_word("doas pacman -S vpm", &filters), some("pacman"));
}

#[test]
fn command_parse_test_get_first_word_env_var_prefix() {
    let filters = filters(&[]);
    assert_eq!(first_word("FOO=bar cmd arg", &filters), some("cmd"));
}

#[test]
fn command_parse_test_get_first_word_escaped_command() {
    let filters = filters(&[]);
    assert_eq!(first_word("\\ls -la", &filters), some("ls"));
}

#[test]
fn command_parse_test_get_first_word_escaped_filtered() {
    let filters = filters(&["sudo"]);
    assert_eq!(first_word("\\sudo apt", &filters), some("apt"));
}

#[test]
fn test_get_first_word_path_normalization() {
    let filters = filters(&[]);
    assert_eq!(first_word("./mvnw clean", &filters), some("mvnw"));
    assert_eq!(first_word("/bin/ls -la", &filters), some("ls"));
    assert_eq!(first_word("../scripts/deploy.sh", &filters), some("deploy.sh"));
    assert_eq!(first_word("/nix/store/something/bin/grep", &filters), some("grep"));
}

#[test]
fn test_get_first_word_path_filtered() {
    let filters = filters(&["sudo", "grep"]);
    assert_eq!(first_word("/usr/bin/sudo apt", &filters), some("apt"));
    assert_eq!(first_word("/bin/grep foo", &filters), some("foo"));
}

#[test]
fn test_get_first_word_aggressive_cleaning() {
    let filters = filters(&["sudo"]);
    assert_eq!(first_word("\\sudo apt", &filters), some("apt"));
    assert_eq!(first_word("\\\\sudo apt", &filters), some("apt"));
    assert_eq!(first_word("reboot\\", &filters), some("reboot"));
    assert_eq!(first_word("lsblk\\\\\\n", &filters), some("lsblk"));
    assert_eq!(first_word("cd\\numount", &filters), some("cd"));
    assert_eq!(first_word("cd\\n", &filters), some("cd"));
    assert_eq!(first_word("cd\\\\\\n", &filters), some("cd"));
    assert_eq!(first_word("\\nsystemctl", &filters), some("nsystemctl"));
}

#[test]
fn command_parse_test_get_first_word_empty() {
    let filters = filters(&[]);
    assert_eq!(first_word("", &filters), None);
}

#[test]
fn command_parse_test_get_first_word_whitespace_only() {
    let filters = filters(&[]);
    assert_eq!(first_word("   ", &filters), None);
}

#[test]
fn test_get_first_word_ignores_comments_and_flags() {
    let filters = filters(&["sudo"]);
    assert_eq!(first_word("# comment", &filters), None);
    assert_eq!(first_word("   #indented comment", &filters), None);
    assert_eq!(first_word("-d", &filters), None);
    assert_eq!(first_word("--flag", &filters), None);
    assert_eq!(first_word("sudo -i", &filters), None);
    assert_eq!(first_word("sudo -u user id", &filters), some("user"));
}

#[test]
fn test_get_first_word_escaped_comment_and_flag() {
    let filters = filters(&["sudo"]);
    assert_eq!(first_word("\\#comment", &filters), None);
    assert_eq!(first_word("\\-f", &filters), None);
}

#[test]
fn test_get_first_word_skips_double_dash_after_wrapper() {
    let filters = filters(&["sudo", "doas"]);
    assert_eq!(first_word("doas -- systemctl stop sshd", &filters), some("systemctl"));
}

#[test]
fn history_test_get_first_word_simple() {
    let filters = filters(&["sudo", "doas"]);
    assert_eq!(first_word("ls -la", &filters), some("ls"));
}

#[test]
fn history_test_get_first_word_with_sudo() {
    let filters = filters(&["sudo", "doas"]);
    assert_eq!(first_word("sudo apt update", &filters), some("apt"));
}

#[test]
fn history_test_get_first_word_with_doas() {
    let filters = filters(&["sudo", "doas"]);
    assert_eq!(first_word("doas pacman -S vim", &filters), some("pacman"));
}

#[test]
fn history_test_get_first_word_env_var_prefix() {
    let filters = filters(&[]);
    assert_eq!(first_word("FOO=bar cmd arg", &filters), some("cmd"));
}

#[test]
fn history_test_get_first_word_escaped_command() {
    let filters = filters(&[]);
    assert_eq!(first_word("\\ls -la", &filters), some("ls"));
}

#[test]
fn history_test_get_first_word_escaped_filtered() {
    let filters = filters(&["sudo"]);
    assert_eq!(first_word("\\sudo apt", &filters), some("apt"));
}

#[test]
fn history_test_get_first_word_empty() {
    let filters = filters(&[]);
    assert_eq!(first_word("", &filters), None);
}

#[test]
fn history_test_get_first_word_whitespace_only() {
    let filters = filters(&[]);
    assert_eq!(first_word("   ", &filters), None);
}

#[test]
fn utils_test_get_first_word_simple() {
    let filters = filters(&["sudo", "doas"]);
    assert_eq!(key("ls -la", &filters, false), some("ls"));
}

#[test]
fn utils_test_get_first_word_with_sudo() {
    let filters = filters(&["sudo", "doas"]);
    assert_eq!(key("sudo apt update", &filters, false), some("apt"));
}

#[test]
fn utils_test_get_first_word_with_doas() {
    let filters = filters(&["sudo", "doas"]);
    assert_eq!(key("doas pacman -S vim", &filters, false), some("pacman"));
}

#[test]
fn utils_test_get_first_word_env_var_prefix() {
    let filters = filters(&[]);
    assert_eq!(key("FOO=bar cmd arg", &filters, false), some("cmd"));
}

#[test]
fn utils_test_get_first_word_escaped_command() {
    let filters = filters(&[]);
    assert_eq!(key("\\ls -la", &filters, false), some("ls"));
}

#[test]
fn utils_test_get_first_word_escaped_filtered() {
    let filters = filters(&["sudo"]);
    assert_eq!(key("\\sudo apt", &filters, false), some("apt"));
}

#[test]
fn utils_test_get_first_word_empty() {
    let filters = filters(&[]);
    assert_eq!(key("", &filters, false), None);
}

#[test]
fn utils_test_get_first_word_whitespace_only() {
    let filters = filters(&[]);
    assert_eq!(key("   ", &filters, false), None);
}

#[test]
fn test_get_first_word_preserves_expansion() {
    let filters = filters(&[]);
    assert_eq!(key("$EDITOR file.txt", &filters, false), some("$EDITOR"));
}

#[test]
fn test_subcommand_tracking_git() {
    let filters = filters(&[]);
    assert_eq!(key("git status", &filters, true), some("git status"));
}

#[test]
fn test_subcommand_tracking_git_with_flag() {
    let filters = filters(&[]);
    assert_eq!(key("git -v", &filters, true), some("git"));
}

#[test]
fn test_subcommand_tracking_cargo() {
    let filters = filters(&[]);
    assert_eq!(key("cargo build --release", &filters, true), some("cargo build"));
}

#[test]
fn test_subcommand_tracking_disabled() {
    let filters = filters(&[]);
    assert_eq!(key("git status", &filters, false), some("git"));
}

#[test]
fn test_subcommand_tools_contains_expected() {
    assert!(is_subcommand_tool(b"git"));
    assert!(is_subcommand_tool(b"cargo"));
    assert!(is_subcommand_tool(b"npm"));
    assert!(is_subcommand_tool(b"docker"));
}

#[test]
fn test_get_first_word_with_subcommand() {
    let filters = filters(&[]);
    assert_eq!(key("git status --short", &filters, true), some("git status"));
}

#[test]
fn subcommand_tools_are_exactly_the_listed_ones() {
    let tools = [
        "git", "cargo", "npm", "yarn", "pnpm", "docker", "kubectl", "systemctl", "apt", "dnf",
        "pacman", "brew", "nix", "rustup", "go", "pip", "poetry",
    ];
    for tool in tools {
        assert!(is_subcommand_tool(tool.as_bytes()), "{}", tool);
    }
    for other in ["", "gi", "gits", "ls", "sudo", "Git", "cargo "] {
        assert!(!is_subcommand_tool(other.as_bytes()), "{}", other);
    }
}

#[test]
fn subcommand_joins_with_one_space_whatever_stood_between() {
    let filters = filters(&["sudo"]);
    assert_eq!(key("sudo   git \t  commit -m x", &filters, true), some("git commit"));
    assert_eq!(key("/usr/bin/git   status", &filters, true), some("git status"));
    assert_eq!(key("git", &filters, true), some("git"));
    assert_eq!(key("git    ", &filters, true), some("git"));
    assert_eq!(key("ls status", &filters, true), some("ls"));
}

#[test]
fn tokenizer_scenarios() {
    let wrappers = filters(&["sudo", "doas"]);
    let none = filters(&[]);
    assert_eq!(first_word("sudo apt update", &wrappers), some("apt"));
    assert_eq!(first_word("FOO=bar cmd arg", &none), some("cmd"));
    assert_eq!(first_word("$EDITOR file.txt", &none), some("$EDITOR"));
    assert_eq!(first_word("\\ls -la", &none), some("ls"));
    assert_eq!(first_word("doas -- systemctl stop sshd", &wrappers), some("systemctl"));
    assert_eq!(first_word("/bin/ls -la", &none), some("ls"));
    assert_eq!(first_word("# comment", &none), None);
}

#[test]
fn tokenizer_rules_apply_in_order() {
    let wrappers = filters(&["sudo", "doas"]);
    // a comment ends the search even when a command follows
    assert_eq!(first_word("sudo #x ls", &wrappers), None);
    // a directory alone leaves no name and is skipped
    assert_eq!(first_word("/ ls", &wrappers), some("ls"));
    assert_eq!(first_word("\\\\ ls", &wrappers), some("ls"));
    // an assignment whose name begins with a dollar sign is kept
    assert_eq!(first_word("$A=b ls", &wrappers), some("$A=b"));
    // every wrapper in a chain is skipped
    assert_eq!(first_word("sudo doas sudo ls", &wrappers), some("ls"));
    assert_eq!(first_word("sudo doas", &wrappers), None);
    // the filter is applied to the cleaned name
    assert_eq!(first_word("/usr/bin/doas reboot", &wrappers), some("reboot"));
    // form feed and carriage return separate words, vertical tab does not
    assert_eq!(first_word("\x0csudo\rls", &wrappers), some("ls"));
    assert_eq!(first_word("a\x0bb c", &wrappers), some("a\x0bb"));
}

#[test]
fn tokenizer_never_returns_an_empty_or_filtered_name() {
    let filtered = filters(&["sudo", "doas", "ls"]);
    let lines = [
        "sudo ls", "ls", "doas ls -la", "\\ls", "/bin/ls", "--", "-- --", "sudo -- ls cat",
        "a=b", "=", "\\", "/", "#", "x", "  ", "",
    ];
    for line in lines {
        if let Some(name) = get_first_word(line.as_bytes(), &filtered, false) {
            assert!(!name.is_empty(), "{:?}", line);
            assert!(!filtered.contains(&name), "{:?}", line);
            assert_ne!(name, b"--".to_vec(), "{:?}", line);
        }
    }
}

#[test]
fn clean_word_examples() {
    assert_eq!(clean_word(b"\\ls"), b"ls");
    assert_eq!(clean_word(b"cd\\numount"), b"cd");
    assert_eq!(clean_word(b"/usr/bin/sudo"), b"sudo");
    assert_eq!(clean_word(b"./mvnw"), b"mvnw");
    assert_eq!(clean_word(b"dir/"), b"");
    assert_eq!(clean_word(b"\\\\\\"), b"");
    assert_eq!(clean_word(b"a/b\\c/d"), b"b");
    assert_eq!(clean_word(b"plain"), b"plain");
}

#[test]
fn next_word_finds_the_bounds() {
    let span = next_word(b"  ab  cd", 0).unwrap();
    assert_eq!((span.start, span.end), (2, 4));
    let span = next_word(b"  ab  cd", 4).unwrap();
    assert_eq!((span.start, span.end), (6, 8));
    assert!(next_word(b"  ab  cd", 8).is_none());
    assert!(next_word(b" \t\n", 0).is_none());
}
