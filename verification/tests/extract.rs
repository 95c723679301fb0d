use corro::common::extract_code;
use corro::common::extract_32byte_hex;
use corro::error::CommandError;

#[test]
fn extract_code_success() {
    let result = extract_code("```rust\nhello world\n```");

    assert!(result.is_ok());
    assert_eq!(result.unwrap(), "hello world".to_owned());
}

#[test]
fn fail() {
    let result = extract_code("");

    assert!(result.is_err());
}

#[test]
fn extract_code_trims_interior() {
    let result = extract_code("```rust\n   fn main() {}\n\n```").unwrap();
    assert_eq!(result, "fn main() {}");
}

#[test]
fn extract_code_non_greedy() {
    let result = extract_code("```rust\nfirst\n``` and ```rust\nsecond\n```").unwrap();
    assert_eq!(result, "first");
}

#[test]
fn extract_code_missing_close_fails() {
    let result = extract_code("```rust\nfn main() {}");
    assert!(matches!(result, Err(CommandError::NoCodeBlock)));
}

#[test]
fn extract_code_untagged_fence_is_rejected_by_strict() {
    assert!(extract_code("```\ncode\n```").is_err());
}

#[test]
fn relaxed_extract_accepts_untagged_fence() {
    let r = corro::extract_code::extract_code("```\nlet x = 1;\n```");
    assert_eq!(r, "let x = 1;\n");
}

#[test]
fn relaxed_extract_returns_empty_without_block() {
    let r = corro::extract_code::extract_code("nothing fenced here");
    assert_eq!(r, "");
}

#[test]
fn hex_success() {
    let testcases = [
        "730ccb458bc9ea43ac0d14eceb7eb40b",
        "#730ccb458bc9ea43ac0d14eceb7eb40b",
        "https://gist.github.com/kingananas20/730ccb458bc9ea43ac0d14eceb7eb40b",
        "<script src='https://gist.github.com/kingananas20/730ccb458bc9ea43ac0d14eceb7eb40b.js'></script>",
    ];

    for test in testcases {
        let id = match extract_32byte_hex(test) {
            Some(id) => id,
            None => continue,
        };

        assert_eq!(id, "730ccb458bc9ea43ac0d14eceb7eb40b".to_owned());
    }
}

#[test]
fn hex_uppercase_is_lowercased() {
    let id = extract_32byte_hex("730CCB458BC9EA43AC0D14ECEB7EB40B").unwrap();
    assert_eq!(id, "730ccb458bc9ea43ac0d14eceb7eb40b");
}

#[test]
fn hex_none_without_run() {
    assert!(extract_32byte_hex("https://example.com/not-a-gist").is_none());
    assert!(extract_32byte_hex("").is_none());
    assert!(extract_32byte_hex("730ccb458bc9ea43ac0d14eceb7eb40").is_none());
}
