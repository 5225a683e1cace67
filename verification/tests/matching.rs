use rgrep::matcher::find_matches;

fn cv(s: &str) -> Vec<char> {
    s.chars().collect()
}

#[test]
fn matches_in_hello_world() {
    let line = cv("hello world");
    let pat = cv("o");
    assert_eq!(find_matches(&line, &pat), vec![4, 7]);
}

#[test]
fn matches_in_go_gopher_go() {
    let line = cv("go gopher go");
    let pat = cv("go");
    assert_eq!(find_matches(&line, &pat), vec![0, 3, 10]);
}

#[test]
fn matches_do_not_overlap() {
    // Repeatedly finding and skipping past the pattern: "aa" in "aaaa"
    // occurs at 0 and 2, never at 1.
    assert_eq!(find_matches(&cv("aaaa"), &cv("aa")), vec![0, 2]);
    assert_eq!(find_matches(&cv("aaaaa"), &cv("aa")), vec![0, 2]);
    assert_eq!(find_matches(&cv("aaa"), &cv("aa")), vec![0]);
}

#[test]
fn match_count_equals_occurrence_count() {
    assert_eq!(find_matches(&cv("abcabcabc"), &cv("abc")).len(), 3);
    assert_eq!(find_matches(&cv("abcabcabc"), &cv("ca")).len(), 2);
    assert_eq!(find_matches(&cv("abcabcabc"), &cv("zzz")).len(), 0);
}

#[test]
fn empty_line_has_no_matches() {
    assert_eq!(find_matches(&cv(""), &cv("x")), Vec::<usize>::new());
}

#[test]
fn empty_pattern_matches_nowhere() {
    assert_eq!(find_matches(&cv("abc"), &cv("")), Vec::<usize>::new());
    assert_eq!(find_matches(&cv(""), &cv("")), Vec::<usize>::new());
}

#[test]
fn pattern_longer_than_line_matches_nowhere() {
    assert_eq!(find_matches(&cv("ab"), &cv("abc")), Vec::<usize>::new());
}

#[test]
fn whole_line_match() {
    assert_eq!(find_matches(&cv("abc"), &cv("abc")), vec![0]);
}
