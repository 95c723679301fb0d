use corro::commands::miri::parse_miri;
use corro::commands::run::parse_run_command;
use corro::request::{AliasingModel, Channel, CrateType, Edition, Mode};

#[test]
fn parser_defaults() {
    let req = parse_run_command("", String::from("code"));
    assert_eq!(req.channel, Channel::Stable);
    assert_eq!(req.mode, Mode::Debug);
    assert_eq!(req.edition, Edition::Edition2024);
    assert_eq!(req.crate_type, CrateType::Binary);
    assert!(!req.tests);
    assert!(!req.backtrace);
    assert_eq!(req.code, "code");
}

#[test]
fn parser_recognizes_every_family() {
    let req = parse_run_command("-r nightly 2018 lib tests backtrace", String::new());
    assert_eq!(req.mode, Mode::Release);
    assert_eq!(req.channel, Channel::Nightly);
    assert_eq!(req.edition, Edition::Edition2018);
    assert_eq!(req.crate_type, CrateType::Library);
    assert!(req.tests);
    assert!(req.backtrace);
}

#[test]
fn parser_case_insensitive() {
    let req = parse_run_command("BETA E2015 Library TESTS", String::new());
    assert_eq!(req.channel, Channel::Beta);
    assert_eq!(req.edition, Edition::Edition2015);
    assert_eq!(req.crate_type, CrateType::Library);
    assert!(req.tests);
}

#[test]
fn parser_order_independent_for_non_conflicting_flags() {
    let a = parse_run_command("-r beta 2021", String::from("c"));
    let b = parse_run_command("beta 2021 -r", String::from("c"));
    let c = parse_run_command("2021 -r beta", String::from("c"));
    for other in [&b, &c] {
        assert_eq!(a.channel, other.channel);
        assert_eq!(a.mode, other.mode);
        assert_eq!(a.edition, other.edition);
        assert_eq!(a.crate_type, other.crate_type);
        assert_eq!(a.tests, other.tests);
        assert_eq!(a.backtrace, other.backtrace);
        assert_eq!(a.code, other.code);
    }
}

#[test]
fn parser_last_recognized_token_wins() {
    let req = parse_run_command("nightly beta", String::new());
    assert_eq!(req.channel, Channel::Beta);

    let req = parse_run_command("2018 2021", String::new());
    assert_eq!(req.edition, Edition::Edition2021);
}

#[test]
fn parser_ignores_unknown_tokens() {
    let with_noise = parse_run_command("banana release", String::new());
    let plain = parse_run_command("release", String::new());
    assert_eq!(with_noise.mode, plain.mode);

    let with_noise = parse_run_command("banana -r", String::new());
    let plain = parse_run_command("-r", String::new());
    assert_eq!(with_noise.mode, plain.mode);
    assert_eq!(with_noise.mode, Mode::Release);

    let noisy = parse_run_command("qwerty beta zzz", String::new());
    assert_eq!(noisy.channel, Channel::Beta);
    assert_eq!(noisy.mode, Mode::Debug);
}

#[test]
fn parser_each_edition_year_maps_to_its_own_edition() {
    for (tok, ed) in [
        ("2015", Edition::Edition2015),
        ("e2015", Edition::Edition2015),
        ("2018", Edition::Edition2018),
        ("2021", Edition::Edition2021),
        ("2024", Edition::Edition2024),
        ("e2024", Edition::Edition2024),
    ] {
        assert_eq!(parse_run_command(tok, String::new()).edition, ed);
    }
}

#[test]
fn miri_parser_defaults_and_tokens() {
    let req = parse_miri("", String::from("code"));
    assert_eq!(req.edition, Edition::Edition2024);
    assert!(!req.tests);
    assert!(req.aliasing_model.is_none());
    assert_eq!(req.code, "code");

    let req = parse_miri("2018 tests stacked", String::new());
    assert_eq!(req.edition, Edition::Edition2018);
    assert!(req.tests);
    assert_eq!(req.aliasing_model, Some(AliasingModel::Stacked));

    let req = parse_miri("stacked tree", String::new());
    assert_eq!(req.aliasing_model, Some(AliasingModel::Tree));

    let req = parse_miri("2024", String::new());
    assert_eq!(req.edition, Edition::Edition2024);
}
