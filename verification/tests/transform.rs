use corro::error_codes::transform_text_general;

#[test]
fn transform_full_document() {
    let input = "Some text.   \n\n\n```compile_fail,E0001\nlet x: i32 = \"str\";\n```\nAfter.\n[foo]: https://example.com\n[bad]: notaurl";
    let expected = "Some text.\n\n```rust\nlet x: i32 = \"str\";\n```\nAfter.\n[foo]: <https://example.com>\n[bad]: notaurl\n";
    assert_eq!(transform_text_general(input), expected);
}

#[test]
fn transform_preserves_code_block_contents() {
    let input = "```\nkeep   trailing   \n\n  spaced\n```";
    let expected = "```\nkeep   trailing   \n\n  spaced\n```\n";
    assert_eq!(transform_text_general(input), expected);
}

#[test]
fn transform_collapses_blank_runs_and_trailing_blanks() {
    assert_eq!(transform_text_general("a\n\n\n\nb"), "a\n\nb\n");
    assert_eq!(transform_text_general("hello\n\n\n"), "hello\n");
    assert_eq!(transform_text_general(""), "");
}

#[test]
fn transform_wraps_link_targets() {
    assert_eq!(
        transform_text_general("[E0001]: https://doc.rust-lang.org/error_codes/E0001.html"),
        "[E0001]: <https://doc.rust-lang.org/error_codes/E0001.html>\n"
    );
    assert_eq!(
        transform_text_general("[a]:: http://x"),
        "[a]: <http://x>\n"
    );
    assert_eq!(transform_text_general("[not a link] text"), "[not a link] text\n");
}
