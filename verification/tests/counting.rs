use rgrep::writer::header_line;
use rgrep::CustomWriter;

fn cv(s: &str) -> Vec<char> {
    s.chars().collect()
}

fn sv(v: &Vec<char>) -> String {
    v.iter().collect()
}

#[test]
fn count_is_per_line_not_per_occurrence() {
    // Three occurrences spread over two matching lines: the count is 2.
    let lines = vec![cv("go go"), cv("nothing"), cv("a go b")];
    let pat = cv("go");
    let mut w = CustomWriter::new();
    w.write_from_buff(&lines, &pat);
    assert_eq!(w.results, 2);
    assert_eq!(w.buffered.len(), 2);
}

#[test]
fn non_matching_lines_are_omitted_from_output() {
    let lines = vec![cv("alpha"), cv("beta"), cv("gamma")];
    let pat = cv("mm");
    let mut w = CustomWriter::new();
    w.write_from_buff(&lines, &pat);
    assert_eq!(w.results, 1);
    assert_eq!(w.buffered.len(), 1);
    assert_eq!(sv(&w.buffered[0]), "ga\u{1b}[31mmm\u{1b}[0ma");
}

#[test]
fn empty_line_is_not_counted() {
    let mut w = CustomWriter::new();
    w.process_line(&cv(""), &cv("x"));
    assert_eq!(w.results, 0);
    assert_eq!(w.buffered.len(), 0);
}

#[test]
fn count_accumulates_across_batches() {
    let pat = cv("a");
    let mut w = CustomWriter::new();
    w.write_from_buff(&vec![cv("abc"), cv("xyz")], &pat);
    w.write_from_buff(&vec![cv("aaa")], &pat);
    assert_eq!(w.results, 2);
}

#[test]
fn finalize_reports_the_count() {
    let mut w = CustomWriter::new();
    w.write_from_buff(&vec![cv("one a"), cv("two a"), cv("none")], &cv("a"));
    w.finalize();
    let n = w.buffered.len();
    assert_eq!(sv(&w.buffered[n - 2]), "");
    assert_eq!(sv(&w.buffered[n - 1]), "Total Results: 2");
}

#[test]
fn finalize_with_zero_matches() {
    let mut w = CustomWriter::new();
    w.finalize();
    assert_eq!(w.buffered.len(), 2);
    assert_eq!(sv(&w.buffered[0]), "");
    assert_eq!(sv(&w.buffered[1]), "Total Results: 0");
}

#[test]
fn finalize_formats_multi_digit_counts() {
    let mut w = CustomWriter::new();
    w.results = 120;
    w.finalize();
    assert_eq!(sv(&w.buffered[1]), "Total Results: 120");
    let mut w2 = CustomWriter::new();
    w2.results = 10406;
    w2.finalize();
    assert_eq!(sv(&w2.buffered[1]), "Total Results: 10406");
}

#[test]
fn print_queues_lines_verbatim() {
    let mut w = CustomWriter::new();
    w.print(cv("first"));
    w.print(cv("second"));
    assert_eq!(w.buffered.len(), 2);
    assert_eq!(sv(&w.buffered[0]), "first");
    assert_eq!(sv(&w.buffered[1]), "second");
    assert_eq!(w.results, 0);
}

#[test]
fn header_line_names_the_file() {
    assert_eq!(sv(&header_line(&cv("notes.txt"))), "File: notes.txt");
}
