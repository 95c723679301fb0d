use corro::commands::crates::{crates_page, CratesPage};
use corro::commands::docs::Krate;
use corro::commands::file::{decode_upload, file_reply, validate_upload};
use corro::commands::gist::{config_from_options, gist_reply, request_with_code, resolve_gist_id};
use corro::commands::krate::{crate_info_key, download_color, downloads_field};
use corro::commands::miri::miri_reply;
use corro::commands::run::{run_code_request, run_reply};
use corro::commands::share::publish_reply;
use corro::commands::version::{select_versions, version_cache_key, ChannelVersions, VersionsInfo};
use corro::error::CommandError;
use corro::request::{Channel, CrateType, Edition, ExecutionResult, Gist, Mode};

#[test]
fn scenario_inline_run_parses_mode_channel_and_code() {
    let input = "-r beta\n```rust\nfn main(){}\n```";
    let req = run_code_request(input).unwrap();
    assert_eq!(req.mode, Mode::Release);
    assert_eq!(req.channel, Channel::Beta);
    assert_eq!(req.edition, Edition::Edition2024);
    assert_eq!(req.code, "fn main(){}");
}

#[test]
fn scenario_no_code_block_stops_before_any_backend_call() {
    let result = run_code_request("just words, no fence");
    assert!(matches!(result, Err(CommandError::NoCodeBlock)));
}

#[test]
fn scenario_fence_on_first_line_means_no_parameters() {
    let input = "```rust\nfn main(){}\n```";
    let req = run_code_request(input).unwrap();
    assert_eq!(req.mode, Mode::Debug);
    assert_eq!(req.channel, Channel::Stable);
    assert_eq!(req.code, "fn main(){}");
}

#[test]
fn scenario_reference_url_resolves_to_id() {
    let url = "https://host/730ccb458bc9ea43ac0d14eceb7eb40b/raw";
    let id = resolve_gist_id(url).unwrap();
    assert_eq!(id, "730ccb458bc9ea43ac0d14eceb7eb40b");
}

#[test]
fn invalid_reference_echoes_the_input() {
    let err = resolve_gist_id("not-a-reference").unwrap_err();
    match err {
        CommandError::InvalidId(orig) => assert_eq!(orig, "not-a-reference"),
        _ => panic!("expected an invalid-id error"),
    }
}

#[test]
fn scenario_oversized_upload_rejected_before_any_backend_call() {
    let err = validate_upload("main.rs", 70_000, 65_536).unwrap_err();
    match err {
        CommandError::CodeTooLong(actual, max) => {
            assert_eq!(actual, 70_000);
            assert_eq!(max, 65_536);
            let msg = err.user_message();
            assert!(msg.contains("70000"));
            assert!(msg.contains("65536"));
        }
        _ => panic!("expected a code-too-long error"),
    }
}

#[test]
fn upload_validation_checks_extension_first() {
    let err = validate_upload("main.py", 10, 100).unwrap_err();
    assert!(matches!(err, CommandError::NotValidFile(name) if name == "main.py"));
    assert!(validate_upload("main.rs", 100, 100).is_ok());
}

#[test]
fn upload_decode_rejects_invalid_utf8() {
    let err = decode_upload(vec![0xff, 0xfe, b'a']).unwrap_err();
    assert!(matches!(err, CommandError::NotValidUTF8));
    let code = decode_upload(b"fn main() {}".to_vec()).unwrap();
    assert_eq!(code, "fn main() {}");
}

#[test]
fn gist_config_fills_defaults_and_injects_code() {
    let config = config_from_options(Some(Channel::Beta), None, None, Some(CrateType::Library), None, None);
    assert_eq!(config.channel, Channel::Beta);
    assert_eq!(config.mode, Mode::Debug);
    assert_eq!(config.edition, Edition::Edition2024);
    assert_eq!(config.crate_type, CrateType::Library);
    assert_eq!(config.code, "");

    let req = request_with_code(config, String::from("fn main(){}"));
    assert_eq!(req.channel, Channel::Beta);
    assert_eq!(req.code, "fn main(){}");
}

#[test]
fn replies_select_stream_by_success_flag() {
    let ok = ExecutionResult {
        success: true,
        stdout: String::from("out"),
        stderr: String::from("err"),
    };
    let failed = ExecutionResult {
        success: false,
        stdout: String::from("out"),
        stderr: String::from("err"),
    };
    assert_eq!(
        run_reply(42, &ok),
        "Running your code returned the following output <@42>\n```out```"
    );
    assert_eq!(
        run_reply(42, &failed),
        "Running your code returned the following output <@42>\n```err```"
    );
    assert_eq!(
        miri_reply(7, &ok),
        "Running your code with miri returned the following output <@7>\n```out```"
    );
}

#[test]
fn replies_say_so_when_output_is_empty() {
    let empty = ExecutionResult {
        success: true,
        stdout: String::new(),
        stderr: String::from("ignored"),
    };
    assert_eq!(run_reply(9, &empty), "Running your code gave no output <@9>");
    assert_eq!(
        miri_reply(9, &empty),
        "Running your code with miri gave no output <@9>"
    );
}

#[test]
fn gist_and_file_replies_link_the_source() {
    let gist = Gist {
        id: String::from("abc123"),
        url: String::from("https://gists.example/abc123"),
        code: String::new(),
    };
    let res = ExecutionResult {
        success: true,
        stdout: String::from("hi"),
        stderr: String::new(),
    };
    assert_eq!(
        gist_reply(&gist, &res),
        "Running the code from [#abc123](<https://gists.example/abc123>) gave the following output\n```hi```"
    );
    let silent = ExecutionResult {
        success: true,
        stdout: String::new(),
        stderr: String::new(),
    };
    assert_eq!(
        gist_reply(&gist, &silent),
        "Running the code from [#abc123](<https://gists.example/abc123>) gave no output"
    );
    assert_eq!(
        file_reply("main.rs", "https://files.example/main.rs", &res),
        "Running the code from [main.rs](<https://files.example/main.rs>) gave the following output\n```hi```"
    );
}

#[test]
fn simple_run_reply_wraps_stdout() {
    assert_eq!(
        corro::commands::run::simple_run_reply("hi\n"),
        "```\nhi\n\n```"
    );
}

#[test]
fn publish_reply_links_the_snippet() {
    assert_eq!(
        publish_reply("abc", "https://gists.example/abc"),
        "Done uploading your code to GitHub Gists [#abc](<https://gists.example/abc>)"
    );
}

#[test]
fn crates_paging() {
    match crates_page(50, 1) {
        CratesPage::Show { start, end, total_pages } => {
            assert_eq!((start, end, total_pages), (0, 24, 3));
        }
        _ => panic!("page 1 must be shown"),
    }
    match crates_page(50, 3) {
        CratesPage::Show { start, end, total_pages } => {
            assert_eq!((start, end, total_pages), (48, 50, 3));
        }
        _ => panic!("page 3 must be shown"),
    }
    match crates_page(50, 4) {
        CratesPage::OutOfRange { total_pages } => assert_eq!(total_pages, 3),
        _ => panic!("page 4 must be out of range"),
    }
}

#[test]
fn version_selection_per_channel() {
    let mk = |tag: &str| ChannelVersions {
        rustc: format!("rustc-{tag}"),
        clippy: format!("clippy-{tag}"),
        rustfmt: format!("rustfmt-{tag}"),
        miri: if tag == "nightly" {
            Some(format!("miri-{tag}"))
        } else {
            None
        },
    };
    let info = VersionsInfo {
        stable: mk("stable"),
        beta: mk("beta"),
        nightly: mk("nightly"),
    };
    assert_eq!(select_versions(&info, Channel::Stable).rustc, "rustc-stable");
    assert_eq!(select_versions(&info, Channel::Beta).clippy, "clippy-beta");
    let nightly = select_versions(&info, Channel::Nightly);
    assert_eq!(nightly.miri, Some(String::from("miri-nightly")));
    assert_eq!(version_cache_key(), "version");
}

#[test]
fn crate_info_helpers() {
    assert_eq!(crate_info_key("Serde"), "crate_info::serde");
    assert_eq!(download_color(200_000_000), 0x2ecc71);
    assert_eq!(download_color(5_000_000), 0x3498db);
    assert_eq!(download_color(150_000), 0xf1c40f);
    assert_eq!(download_color(20_000), 0xe67e22);
    assert_eq!(download_color(3), 0xe74c3c);
    assert_eq!(Krate::Std.color(), 0x1E88E5);
    assert_eq!(Krate::Core.color(), 0xF4511E);
    assert_eq!(Krate::Alloc.color(), 0x8E24AA);
}

#[test]
fn crate_info_display_fields() {
    let items = vec![String::from("cli"), String::from("parser")];
    assert_eq!(
        corro::commands::krate::backtick_list(&items),
        "`cli` `parser` "
    );
    assert_eq!(corro::commands::krate::backtick_list(&Vec::new()), "");
    assert_eq!(
        corro::commands::krate::timestamp_field(1700000000),
        "<t:1700000000>"
    );
}

#[test]
fn downloads_grouped_in_thousands() {
    assert_eq!(downloads_field(1_234_567, None), "1'234'567");
    assert_eq!(downloads_field(1_234_567, Some(1_234)), "1'234'567 (1'234)");
    assert_eq!(downloads_field(999, None), "999");
    assert_eq!(downloads_field(0, Some(0)), "0 (0)");
}

#[test]
fn error_messages_are_actionable() {
    let err = CommandError::InvalidId(String::from("xyz"));
    let msg = err.user_message();
    assert!(msg.starts_with("The ID `xyz` is invalid."));

    let err = CommandError::NotValidFile(String::from("a.py"));
    assert_eq!(
        err.user_message(),
        "`a.py` is not a valid filetype. Needs to be a `.rs` file."
    );

    let err = CommandError::NotValidUTF8;
    assert_eq!(
        err.user_message(),
        "The file doesn't contain valid UTF-8 characters"
    );

    let err = CommandError::CodeTooLong(70_000, 65_536);
    assert_eq!(
        err.user_message(),
        "Your code is too large: **70000** bytes. The maximum allowed size is **65536** bytes."
    );
}
