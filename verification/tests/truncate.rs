use corro::common::limit_string;
use corro::common::split_content;

#[test]
fn limit_content_success() {
    let strings = [
        String::new(),
        String::from("some text"),
        "j".repeat(2000),
        "j".repeat(2100),
    ];

    let results = [
        String::new(),
        String::from("some text"),
        "j".repeat(2000),
        "j".repeat(2000),
    ];

    for (i, string) in strings.iter().enumerate() {
        println!("index: {i}");
        let string = limit_string(string, 100, 2000);
        assert_eq!(string, results[i]);
    }
}

#[test]
fn limit_string_keeps_line_count() {
    let input = "a\nb\nc\nd\ne";
    assert_eq!(limit_string(input, 3, 2000), "a\nb\nc");
    assert_eq!(limit_string(input, 1, 2000), "a");
    assert_eq!(limit_string(input, 0, 2000), "");
}

#[test]
fn limit_string_never_splits_a_character() {
    let input = "ééééé";
    let out = limit_string(input, 10, 5);
    assert_eq!(out, "éé");
    assert_eq!(out.len(), 4);
}

#[test]
fn limit_string_idempotent() {
    let cases = [
        ("one\ntwo\nthree\nfour", 2, 8),
        ("äöü äöü äöü", 5, 7),
        ("\n\n\n", 2, 100),
        ("word", 0, 0),
        ("tail\n", 10, 100),
    ];
    for (s, lines, bytes) in cases {
        let once = limit_string(s, lines, bytes);
        let twice = limit_string(&once, lines, bytes);
        assert_eq!(once, twice);
        assert!(once.len() <= bytes);
    }
}

#[test]
fn split_content_chunks_and_rejoins() {
    let input = "x".repeat(5000);
    let chunks = split_content(input.clone());
    assert_eq!(chunks.len(), 2);
    assert_eq!(chunks[0].len(), 4096);
    assert_eq!(chunks[1].len(), 904);
    assert_eq!(chunks.concat(), input);
}

#[test]
fn split_content_respects_character_boundaries() {
    let input = "é".repeat(2050);
    let chunks = split_content(input.clone());
    assert_eq!(chunks[0].len(), 4096);
    assert!(chunks[0].chars().all(|c| c == 'é'));
    assert_eq!(chunks.concat(), input);
}

#[test]
fn split_content_empty_yields_no_chunks() {
    let chunks = split_content(String::new());
    assert!(chunks.is_empty());
}
