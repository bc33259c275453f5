//! The library against the same rules written with the string methods of the
//! standard library, on every short text over a small alphabet.

use ahash::AHashSet;
use histop::command_parse::get_first_word;
use histop::counts::FrequencyMap;
use histop::history::detect::{detect_history_format, HistoryFormat};
use histop::history::{fish, powershell, shell, tcsh};
use histop::pipeline::{clean_line, SplitCommands};
use std::collections::BTreeMap;

const TOOLS: &[&str] = &[
    "git", "cargo", "npm", "yarn", "pnpm", "docker", "kubectl", "systemctl", "apt", "dnf",
    "pacman", "brew", "nix", "rustup", "go", "pip", "poetry",
];

fn texts(alphabet: &[&str], max_len: usize) -> Vec<String> {
    let mut all = vec![String::new()];
    let mut last = vec![String::new()];
    for _ in 0..max_len {
        let mut next = Vec::new();
        for text in &last {
            for piece in alphabet {
                next.push(format!("{}{}", text, piece));
            }
        }
        all.extend(next.iter().cloned());
        last = next;
    }
    all
}

fn ascii_words(cmd: &str) -> Vec<&str> {
    cmd.split(|c: char| c.is_ascii_whitespace()).filter(|w| !w.is_empty()).collect()
}

fn expected_key(cmd: &str, filtered: &[&str], track_subcommands: bool) -> Option<String> {
    let words = ascii_words(cmd);
    for (i, w) in words.iter().enumerate() {
        if *w == "--" {
            continue;
        }
        if w.starts_with('#') {
            return None;
        }
        if w.starts_with('-') {
            continue;
        }
        let clean = w.trim_matches('\\');
        let first = match clean.find('\\') {
            Some(idx) => &clean[..idx],
            None => clean,
        };
        let name = match first.rfind('/') {
            Some(idx) => &first[idx + 1..],
            None => first,
        };
        if name.is_empty() {
            continue;
        }
        if name.starts_with('#') {
            return None;
        }
        if name.starts_with('-') {
            continue;
        }
        if filtered.contains(&name) {
            continue;
        }
        if !name.starts_with('$') && name.contains('=') {
            continue;
        }
        if track_subcommands && TOOLS.contains(&name) {
            if let Some(sub) = words.get(i + 1) {
                if !sub.starts_with('-') {
                    return Some(format!("{} {}", name, sub));
                }
            }
        }
        return Some(name.to_string());
    }
    None
}

fn expected_stages(line: &str) -> Vec<String> {
    let mut stages = Vec::new();
    let mut remaining = line;
    while !remaining.is_empty() {
        let mut single = false;
        let mut double = false;
        let mut split = None;
        for (i, b) in remaining.bytes().enumerate() {
            match b {
                b'\'' => single = !single,
                b'"' => double = !double,
                b'|' if !single && !double => {
                    split = Some(i);
                    break;
                }
                _ => {}
            }
        }
        match split {
            Some(i) => {
                stages.push(remaining[..i].to_string());
                remaining = &remaining[i + 1..];
            }
            None => {
                stages.push(remaining.to_string());
                remaining = "";
            }
        }
    }
    stages
}

fn expected_line_keys(
    line: &str,
    filtered: &[&str],
    no_hist: bool,
    track_subcommands: bool,
) -> Vec<String> {
    if no_hist {
        expected_key(line, filtered, track_subcommands).into_iter().collect()
    } else {
        expected_stages(line)
            .iter()
            .filter_map(|stage| expected_key(stage, filtered, track_subcommands))
            .collect()
    }
}

fn tally(names: Vec<String>) -> BTreeMap<String, usize> {
    let mut out = BTreeMap::new();
    for name in names {
        *out.entry(name).or_insert(0) += 1;
    }
    out
}

fn table(counts: &FrequencyMap) -> BTreeMap<String, usize> {
    counts
        .entries()
        .into_iter()
        .map(|(name, count)| (String::from_utf8_lossy(&name).into_owned(), count))
        .collect()
}

fn set_of(names: &[&str]) -> AHashSet<Vec<u8>> {
    names.iter().map(|name| name.as_bytes().to_vec()).collect()
}

#[test]
fn tokenizer_agrees_on_every_short_stage() {
    let alphabet = ["a", "su", " ", "\t", "-", "#", "\\", "/", "=", "$", "git"];
    let filtered = ["su", "a/"];
    let set = set_of(&filtered);
    for text in texts(&alphabet, 5) {
        for track in [false, true] {
            let got = get_first_word(text.as_bytes(), &set, track)
                .map(|name| String::from_utf8(name).unwrap());
            assert_eq!(got, expected_key(&text, &filtered, track), "{:?} {}", text, track);
        }
    }
}

#[test]
fn splitter_agrees_on_every_short_line() {
    let alphabet = ["a", " ", "|", "'", "\""];
    for text in texts(&alphabet, 7) {
        let got: Vec<String> = SplitCommands::new(text.as_bytes())
            .collect()
            .into_iter()
            .map(|stage| String::from_utf8(stage.to_vec()).unwrap())
            .collect();
        assert_eq!(got, expected_stages(&text), "{:?}", text);
        // the pipes that are left in the cleaned line are the separators
        let cleaned = String::from_utf8(clean_line(text.as_bytes())).unwrap();
        let mut pieces: Vec<&str> = cleaned.split('|').collect();
        if pieces.last() == Some(&"") {
            pieces.pop();
        }
        let lengths: Vec<usize> = pieces.iter().map(|p| p.len()).collect();
        assert_eq!(lengths, got.iter().map(|s| s.len()).collect::<Vec<_>>(), "{:?}", text);
        assert_eq!(cleaned.len(), text.len());
    }
}

fn histories(lines: &[&[u8]], max_lines: usize, ends: &[&[u8]]) -> Vec<Vec<u8>> {
    let mut all: Vec<Vec<u8>> = vec![Vec::new()];
    let mut last: Vec<Vec<u8>> = vec![Vec::new()];
    for _ in 0..max_lines {
        let mut next = Vec::new();
        for text in &last {
            for line in lines {
                for end in ends {
                    let mut longer = text.clone();
                    longer.extend_from_slice(line);
                    longer.extend_from_slice(end);
                    next.push(longer);
                }
            }
        }
        all.extend(next.iter().cloned());
        last = next;
    }
    all
}

fn expected_shell(bytes: &[u8], no_hist: bool) -> BTreeMap<String, usize> {
    let filtered: &[&str] = if no_hist { &[] } else { &["sudo", "doas"] };
    let mut names = Vec::new();
    let mut awaiting = false;
    for raw in bytes.split(|b| *b == b'\n') {
        let Ok(text) = std::str::from_utf8(raw) else { continue };
        let line = text.trim_end_matches(['\n', '\r']);
        let metadata = line.starts_with(": ");
        let malformed = metadata && !line.contains(';');
        let content = if metadata && !malformed { line.split_once(';').unwrap().1 } else { line };
        let continued = content.ends_with('\\');
        if awaiting {
            awaiting = continued;
        } else if malformed {
            awaiting = true;
        } else {
            names.extend(expected_line_keys(content, filtered, no_hist, false));
            awaiting = continued;
        }
    }
    tally(names)
}

#[test]
fn shell_reader_agrees_on_every_short_history() {
    let lines: [&[u8]; 9] = [
        b"ls", b"sudo git x | wc", b"a \\", b"", b": 1:0;cd /", b": 1:0;b \\", b": 1:0", b"\xffx",
        b": 1 \\",
    ];
    for bytes in histories(&lines, 4, &[b"\n"]) {
        for no_hist in [false, true] {
            let got = table(&shell::count_from_bytes(&bytes, &[], no_hist, false));
            assert_eq!(got, expected_shell(&bytes, no_hist), "{:?}", String::from_utf8_lossy(&bytes));
        }
    }
    for bytes in histories(&lines[..3], 3, &[b"\n", b"\r\n", b""]) {
        let got = table(&shell::count_from_bytes(&bytes, &[], false, false));
        assert_eq!(got, expected_shell(&bytes, false), "{:?}", String::from_utf8_lossy(&bytes));
    }
}

fn text_lines(bytes: &[u8]) -> Vec<&[u8]> {
    let mut out = Vec::new();
    let mut rest = bytes;
    while !rest.is_empty() {
        match rest.iter().position(|b| *b == b'\n') {
            Some(i) => {
                let mut line = &rest[..i];
                if line.last() == Some(&b'\r') {
                    line = &line[..line.len() - 1];
                }
                out.push(line);
                rest = &rest[i + 1..];
            }
            None => {
                out.push(rest);
                rest = &[];
            }
        }
    }
    out
}

fn is_metadata(line: &str) -> bool {
    line.starts_with("  when: ") || line.starts_with("  paths:") || line.starts_with("  - ")
}

fn expected_fish(bytes: &[u8]) -> BTreeMap<String, usize> {
    let filtered = ["sudo", "doas"];
    let mut names = Vec::new();
    let mut current = String::new();
    for raw in text_lines(bytes) {
        let Ok(text) = std::str::from_utf8(raw) else { continue };
        let line = text.trim_end_matches(['\n', '\r']);
        if let Some(cmd) = line.strip_prefix("- cmd: ") {
            names.extend(expected_line_keys(&current, &filtered, false, false));
            current = cmd.to_string();
        } else if current.is_empty() {
        } else if is_metadata(line) {
            names.extend(expected_line_keys(&current, &filtered, false, false));
            current.clear();
        } else if current.ends_with('\\') && line.starts_with("  ") {
            current.pop();
            let kept = current.trim_end().len();
            current.truncate(kept);
            current.push(' ');
            current.push_str(&line[2..]);
        }
    }
    names.extend(expected_line_keys(&current, &filtered, false, false));
    tally(names)
}

#[test]
fn fish_reader_agrees_on_every_short_history() {
    let lines: [&[u8]; 10] = [
        b"- cmd: ls", b"- cmd: sudo a | b \\", b"  when: 1", b"  paths:", b"  - x", b"  c \\",
        b"  d", b"e", b"\xff", b"- cmd: ",
    ];
    for bytes in histories(&lines, 4, &[b"\n"]) {
        let got = table(&fish::count_from_bytes(&bytes, &[], false, false));
        assert_eq!(got, expected_fish(&bytes), "{:?}", String::from_utf8_lossy(&bytes));
    }
    for bytes in histories(&lines[..3], 3, &[b"\n", b"\r\n", b""]) {
        let got = table(&fish::count_from_bytes(&bytes, &[], false, false));
        assert_eq!(got, expected_fish(&bytes), "{:?}", String::from_utf8_lossy(&bytes));
    }
    // whitespace of more than one byte before the backslash is trimmed too
    let bytes = "- cmd: a\u{3000}\u{a0} \\\n  b\n".as_bytes();
    assert_eq!(table(&fish::count_from_bytes(bytes, &[], false, false)), expected_fish(bytes));
}

fn expected_plain(bytes: &[u8], comments: bool) -> BTreeMap<String, usize> {
    let filtered = ["sudo", "doas"];
    let mut names = Vec::new();
    for raw in text_lines(bytes) {
        let Ok(text) = std::str::from_utf8(raw) else { continue };
        let line = text.trim_end_matches(['\n', '\r']);
        if line.trim().is_empty() || (comments && line.trim().starts_with('#')) {
            continue;
        }
        names.extend(expected_line_keys(line, &filtered, false, false));
    }
    tally(names)
}

#[test]
fn plain_readers_agree_on_every_short_history() {
    let lines: [&[u8]; 8] =
        [b"ls", b"sudo a | b", b"#+1", b"  # x", b"", b" \t", b"\xff", "\u{2003}\u{a0}#c".as_bytes()];
    for bytes in histories(&lines, 4, &[b"\n"]) {
        let got = table(&tcsh::count_from_bytes(&bytes, &[], false, false));
        assert_eq!(got, expected_plain(&bytes, true), "{:?}", String::from_utf8_lossy(&bytes));
        let got = table(&powershell::count_from_bytes(&bytes, &[], false, false));
        assert_eq!(got, expected_plain(&bytes, false), "{:?}", String::from_utf8_lossy(&bytes));
    }
}

fn expected_format(bytes: &[u8]) -> HistoryFormat {
    let mut fish = 0u32;
    let mut shell = 0u32;
    let mut inspected = 0u32;
    for raw in text_lines(bytes) {
        let Ok(line) = std::str::from_utf8(raw) else { continue };
        let trimmed = line.trim();
        if trimmed.is_empty() {
            continue;
        }
        inspected += 1;
        if trimmed.starts_with("- cmd: ") {
            fish += 4;
        } else if trimmed.starts_with("when: ") || trimmed.starts_with("paths:") {
            fish += 2;
        } else if line.starts_with("  when: ")
            || line.starts_with("  paths: ")
            || line.starts_with("  - ")
        {
            fish += 1;
        } else if line.starts_with(": ") && line.contains(';') {
            shell += 3;
        } else {
            shell += 1;
        }
        if inspected >= 64 {
            break;
        }
    }
    if fish > shell {
        HistoryFormat::Fish
    } else {
        HistoryFormat::Shell
    }
}

#[test]
fn detector_agrees_on_every_short_history() {
    let lines: [&[u8]; 10] = [
        b"- cmd: ls", b" - cmd: x", b"  when: 1", b"paths:", b"  - x", b"ls", b": 1:0;ls", b": 1",
        b"\xff", b" ",
    ];
    for bytes in histories(&lines, 4, &[b"\n"]) {
        assert_eq!(
            detect_history_format(&bytes),
            expected_format(&bytes),
            "{:?}",
            String::from_utf8_lossy(&bytes)
        );
    }
    for bytes in histories(&lines[..4], 3, &[b"\r\n", b""]) {
        assert_eq!(detect_history_format(&bytes), expected_format(&bytes));
    }
}
