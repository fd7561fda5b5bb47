use message_meta::author::{get_author, is_delimiter};
use message_meta::normalize::{strip, to_lines};
use message_meta::year::get_release_year;
use message_meta::Message;

#[test]
fn full_message_with_author_and_year() {
    let m = Message::from("Foo BY Bar (1996)");
    assert_eq!(m.lines, vec!["Foo BY Bar (1996)".to_string()]);
    assert_eq!(m.authors, vec!["Bar".to_string()]);
    assert_eq!(m.release_year, Some("1996".to_string()));
}

#[test]
fn author_stops_at_comma() {
    let m = Message::from("Foo by Bar, dmm4 edition");
    assert_eq!(m.authors, vec!["Bar".to_string()]);
}

#[test]
fn author_search_ignores_stop_characters_before_marker() {
    let m = Message::from("Foo (abc) - by Bar");
    assert_eq!(m.authors, vec!["Bar".to_string()]);
}

#[test]
fn year_only_line() {
    let m = Message::from("(1996)");
    assert_eq!(m.lines, vec!["(1996)".to_string()]);
    assert_eq!(m.authors, Vec::<String>::new());
    assert_eq!(m.release_year, Some("1996".to_string()));
}

#[test]
fn plain_line_yields_nothing_but_itself() {
    let m = Message::from("Foo");
    assert_eq!(m.lines, vec!["Foo".to_string()]);
    assert_eq!(m.authors, Vec::<String>::new());
    assert_eq!(m.release_year, None);
}

#[test]
fn empty_input_yields_empty_message() {
    let m = Message::from("");
    assert_eq!(m.lines, Vec::<String>::new());
    assert_eq!(m.authors, Vec::<String>::new());
    assert_eq!(m.release_year, None);
}

#[test]
fn lines_are_never_empty_or_whitespace_only() {
    let m = Message::from("  \n\t\n x \n\u{7f}\u{7f}\n");
    assert_eq!(m.lines, vec!["x".to_string()]);
    for line in &m.lines {
        assert!(!line.is_empty());
        assert!(line.chars().any(|c| c != ' '));
    }
}

#[test]
fn authors_never_outnumber_lines() {
    let m = Message::from("a by B\nplain\nc by D (2001)\n");
    assert!(m.authors.len() <= m.lines.len());
    assert_eq!(m.authors, vec!["B".to_string(), "D".to_string()]);
}

#[test]
fn release_year_is_four_digits_in_range() {
    let m = Message::from("z 2003");
    let year = m.release_year.expect("a year should be found");
    assert_eq!(year.len(), 4);
    assert!(year.chars().all(|c| c.is_ascii_digit()));
    let value: u32 = year.parse().unwrap();
    assert!((1996..=2025).contains(&value));
}

#[test]
fn normalizing_normalized_lines_is_a_no_op() {
    let first = to_lines("a\n\n b   c \u{5} d\ne by F");
    let joined = first.join("\n");
    let second = to_lines(&joined);
    assert_eq!(first, second);
}

#[test]
fn strip_replaces_tab_with_space() {
    assert_eq!(strip("a\tb"), "a b".to_string());
}

#[test]
fn strip_collapses_long_space_runs() {
    assert_eq!(strip("a      b"), "a b".to_string());
    assert_eq!(strip("     "), "".to_string());
}

#[test]
fn author_takes_last_marker() {
    assert_eq!(get_author("x by A by B"), Some("B".to_string()));
}

#[test]
fn author_marker_matches_mixed_case() {
    assert_eq!(get_author("X By Y"), Some("Y".to_string()));
}

#[test]
fn author_before_stop_character_can_be_empty() {
    assert_eq!(get_author("Foo by (x)"), Some("".to_string()));
}

#[test]
fn delimiters_are_exactly_four() {
    assert!(is_delimiter('('));
    assert!(is_delimiter('['));
    assert!(is_delimiter(','));
    assert!(is_delimiter('-'));
    assert!(!is_delimiter(')'));
    assert!(!is_delimiter('b'));
    assert!(!is_delimiter(' '));
}

#[test]
fn year_bounds_are_inclusive() {
    assert_eq!(get_release_year("x 1996"), Some("1996".to_string()));
    assert_eq!(get_release_year("x 2025"), Some("2025".to_string()));
    assert_eq!(get_release_year("x 1995"), None);
    assert_eq!(get_release_year("x 2026"), None);
}

#[test]
fn smallest_year_present_wins() {
    assert_eq!(get_release_year("2000 then 1999"), Some("1999".to_string()));
}

#[test]
fn year_matches_inside_longer_token() {
    assert_eq!(get_release_year("x19960"), Some("1996".to_string()));
}

#[test]
fn year_comes_from_first_line_that_has_one() {
    let m = Message::from("nothing here\nfirst 2001\nsecond 1998");
    assert_eq!(m.release_year, Some("2001".to_string()));
}
