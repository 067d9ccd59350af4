use ndless_text_viewer::types::DisplayLine;
use ndless_text_viewer::wrap::split_and_wrap_lines;

fn pairs(lines: Vec<DisplayLine>) -> Vec<(String, bool)> {
    lines.into_iter().map(|l| (l.text, l.highlighted)).collect()
}

#[test]
fn empty_text_yields_no_lines() {
    assert_eq!(pairs(split_and_wrap_lines("", 10)), Vec::<(String, bool)>::new());
}

#[test]
fn single_short_line() {
    assert_eq!(pairs(split_and_wrap_lines("hello", 10)), vec![("hello".to_string(), false)]);
}

#[test]
fn single_grapheme_line() {
    assert_eq!(pairs(split_and_wrap_lines("x", 1)), vec![("x".to_string(), false)]);
}

#[test]
fn empty_middle_line_kept() {
    assert_eq!(
        pairs(split_and_wrap_lines("a\n\nb", 10)),
        vec![("a".to_string(), false), ("".to_string(), false), ("b".to_string(), false)]
    );
}

#[test]
fn trailing_newline_elided() {
    assert_eq!(pairs(split_and_wrap_lines("a\n", 10)), vec![("a".to_string(), false)]);
}

#[test]
fn overfull_line_wraps_at_width() {
    assert_eq!(
        pairs(split_and_wrap_lines("abcdef", 2)),
        vec![
            ("ab".to_string(), false),
            ("cd".to_string(), false),
            ("ef".to_string(), false),
        ]
    );
}

#[test]
fn wrapped_lines_stay_within_column_bound() {
    let lines = split_and_wrap_lines("abcdefg\nhi", 3);
    for line in &lines {
        assert!(line.text.chars().count() <= 3);
    }
    assert_eq!(lines.len(), 4);
}

#[test]
fn highlight_whole_line() {
    assert_eq!(
        pairs(split_and_wrap_lines("\u{1b}[32mhello\u{1b}[0m", 10)),
        vec![("hello".to_string(), true)]
    );
}

#[test]
fn partial_marker_is_literal() {
    assert_eq!(
        pairs(split_and_wrap_lines("\u{1b}[32mhello", 20)),
        vec![("\u{1b}[32mhello".to_string(), false)]
    );
}

#[test]
fn marker_pair_with_empty_interior() {
    assert_eq!(pairs(split_and_wrap_lines("\u{1b}[32m\u{1b}[0m", 10)), Vec::<(String, bool)>::new());
}

#[test]
fn no_markers_no_highlight() {
    let lines = split_and_wrap_lines("one\ntwo\nthree", 4);
    for line in &lines {
        assert!(!line.highlighted);
    }
}

#[test]
fn combining_cluster_never_split() {
    let lines = pairs(split_and_wrap_lines("ae\u{301}o", 2));
    assert_eq!(
        lines,
        vec![("ae\u{301}".to_string(), false), ("o".to_string(), false)]
    );
}

#[test]
fn cluster_aware_width_counts_clusters_not_chars() {
    let lines = pairs(split_and_wrap_lines("ae\u{301}", 1));
    assert_eq!(lines, vec![("a".to_string(), false), ("e\u{301}".to_string(), false)]);
}

#[test]
fn concatenation_reconstructs_line() {
    let input = "pe\u{301}dagogique";
    let lines = split_and_wrap_lines(input, 3);
    let joined: String = lines.iter().map(|l| l.text.as_str()).collect();
    assert_eq!(joined, input);
}

#[test]
fn concatenation_reconstructs_stripped_line() {
    let lines = split_and_wrap_lines("\u{1b}[32mgreen text here\u{1b}[0m", 4);
    let joined: String = lines.iter().map(|l| l.text.as_str()).collect();
    assert_eq!(joined, "green text here");
    for line in &lines {
        assert!(line.highlighted);
    }
}
