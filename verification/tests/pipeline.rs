use message_meta::author::get_author;
use message_meta::normalize::{strip, to_lines};
use message_meta::year::get_release_year;
use message_meta::Message;

#[test]
fn test_to_lines() {
    assert_eq!(
        to_lines("\u{5}the\u{5}foo\u{5}bar\u{5}\n\n by Bar\n"),
        vec!["the foo bar".to_string(), "by Bar".to_string()]
    )
}

#[test]
fn test_strip() {
    assert_eq!(strip("the foo bar"), "the foo bar".to_string());
    assert_eq!(strip(" the   foo  bar  "), "the foo bar".to_string());
    assert_eq!(strip("\u{5}the\u{5}foo\u{5}bar\u{5}"), "the foo bar".to_string());
}

#[test]
fn test_get_author() {
    let test_cases: Vec<(&str, Option<String>)> = vec![
        ("Foo", None),
        ("Foo BY Bar", Some("Bar".to_string())),
        ("Foo by Bar", Some("Bar".to_string())),
        ("Foo - by Bar", Some("Bar".to_string())),
        ("Foo (abc) - by Bar", Some("Bar".to_string())),
        ("Foo by Bar, dmm4 edition", Some("Bar".to_string())),
        ("Foo by Bar - dmm4 edition", Some("Bar".to_string())),
        ("by Bar", Some("Bar".to_string())),
        ("Foo BY Bar (1996)", Some("Bar".to_string())),
        ("Foo BY Bar [1996]", Some("Bar".to_string())),
    ];

    for (line, expected) in test_cases {
        assert_eq!(get_author(line), expected, "input: {}", line);
    }
}

#[test]
fn test_get_release_date() {
    let test_cases: Vec<(&str, Option<String>)> = vec![
        ("Foo", None),
        ("Foo BY Bar", None),
        ("Foo BY Bar (1996)", Some("1996".to_string())),
        ("Foo BY Bar [1996]", Some("1996".to_string())),
    ];

    for (line, expected) in test_cases {
        assert_eq!(get_release_year(line), expected, "input: {:?}", line);
    }
}

#[test]
fn test_from() {
    let test_cases: Vec<(&str, Message)> = vec![
        (
            "Foo",
            Message {
                lines: vec!["Foo".to_string()],
                authors: vec![],
                release_year: None,
            },
        ),
        (
            "Foo BY Bar",
            Message {
                lines: vec!["Foo BY Bar".to_string()],
                authors: vec!["Bar".to_string()],
                release_year: None,
            },
        ),
        (
            "Foo BY Bar (1996)",
            Message {
                lines: vec!["Foo BY Bar (1996)".to_string()],
                authors: vec!["Bar".to_string()],
                release_year: Some("1996".to_string()),
            },
        ),
        (
            "(1996)",
            Message {
                lines: vec!["(1996)".to_string()],
                authors: vec![],
                release_year: Some("1996".to_string()),
            },
        ),
    ];

    for (input, expected) in test_cases {
        assert_eq!(Message::from(input), expected, "input: {}", input);
    }
}
