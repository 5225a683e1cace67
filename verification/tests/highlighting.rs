use rgrep::highlight::classify_match;
use rgrep::matcher::find_matches;
use rgrep::strip::strip_color_codes;
use rgrep::CustomWriter;

const GREEN: &str = "\u{1b}[32m";
const RED: &str = "\u{1b}[31m";
const RESET: &str = "\u{1b}[0m";

fn cv(s: &str) -> Vec<char> {
    s.chars().collect()
}

fn sv(v: &Vec<char>) -> String {
    v.iter().collect()
}

#[test]
fn partial_matches_get_weak_markers() {
    // "hello world" / "o": both occurrences sit inside longer tokens.
    let line = cv("hello world");
    let pat = cv("o");
    let ms = find_matches(&line, &pat);
    let out = CustomWriter::color_piece(&line, &ms, pat.len());
    let expected = format!("hell{RED}o{RESET} w{RED}o{RESET}rld");
    assert_eq!(sv(&out), expected);
}

#[test]
fn full_token_matches_get_strong_markers() {
    // "go gopher go" / "go": the occurrences at 0 and 10 are whole tokens,
    // the one at 3 sits inside "gopher" and is partial.
    let line = cv("go gopher go");
    let pat = cv("go");
    let ms = find_matches(&line, &pat);
    assert_eq!(ms, vec![0, 3, 10]);
    let out = CustomWriter::color_piece(&line, &ms, pat.len());
    let expected = format!("{GREEN}go{RESET} {RED}go{RESET}pher {GREEN}go{RESET}");
    assert_eq!(sv(&out), expected);
}

#[test]
fn classification_is_full_only_at_space_or_line_boundaries() {
    let line = cv("go gopher go");
    assert!(classify_match(&line, 0, 2));
    assert!(!classify_match(&line, 3, 2));
    assert!(classify_match(&line, 10, 2));
}

#[test]
fn classification_accepts_newline_and_nul_after_match() {
    let mut line = cv("ab");
    line.push('\n');
    assert!(classify_match(&line, 0, 2));
    let mut line2 = cv("ab");
    line2.push('\0');
    assert!(classify_match(&line2, 0, 2));
    let line3 = cv("abc");
    assert!(!classify_match(&line3, 0, 2));
}

#[test]
fn classification_is_idempotent() {
    let line = cv("go gopher go");
    for start in [0usize, 3, 10] {
        let first = classify_match(&line, start, 2);
        let second = classify_match(&line, start, 2);
        assert_eq!(first, second);
    }
}

#[test]
fn no_matches_leaves_line_unchanged() {
    let line = cv("nothing to see");
    let ms: Vec<usize> = Vec::new();
    let out = CustomWriter::color_piece(&line, &ms, 3);
    assert_eq!(out, line);
}

#[test]
fn stripping_markers_round_trips() {
    for (text, pat) in [("hello world", "o"), ("go gopher go", "go"), ("aaaa", "aa")] {
        let line = cv(text);
        let patv = cv(pat);
        let ms = find_matches(&line, &patv);
        let out = CustomWriter::color_piece(&line, &ms, patv.len());
        assert_ne!(out, line);
        assert_eq!(strip_color_codes(&out), line);
    }
}

#[test]
fn stripping_plain_text_changes_nothing() {
    let line = cv("no markers here");
    assert_eq!(strip_color_codes(&line), line);
}

#[test]
fn stripping_removes_any_escape_sequence() {
    assert_eq!(sv(&strip_color_codes(&cv("a\u{1b}[31mb"))), "ab");
    assert_eq!(sv(&strip_color_codes(&cv("a\u{1b}xyb"))), "a");
    assert_eq!(sv(&strip_color_codes(&cv("\u{1b}[0m"))), "");
}
