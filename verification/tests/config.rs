use hegselmann_opinion_simulation::config::{parse_start_profile, StartProfile};
use hegselmann_opinion_simulation::text::trim_str;

#[test]
fn uniform_profile_parses_and_labels() {
    assert_eq!(parse_start_profile("uniform"), Ok(StartProfile::Uniform));
    assert_eq!(StartProfile::Uniform.label(), "uniform");
}

#[test]
fn surrounding_white_space_is_ignored() {
    assert_eq!(parse_start_profile("  uniform\n"), Ok(StartProfile::Uniform));
    assert_eq!(parse_start_profile("\tuniform\u{3000}"), Ok(StartProfile::Uniform));
}

#[test]
fn unknown_profile_is_an_error_naming_the_input() {
    let e = parse_start_profile("bimodal").unwrap_err();
    assert_eq!(e, "不正な初期分布: \"bimodal\" (uniform のみ対応)");
    let e = parse_start_profile(" Uniform ").unwrap_err();
    assert_eq!(e, "不正な初期分布: \" Uniform \" (uniform のみ対応)");
    assert!(parse_start_profile("").is_err());
    assert!(parse_start_profile("uni form").is_err());
}

#[test]
fn trim_removes_unicode_white_space_at_both_ends() {
    for s in ["", "   ", " a b ", "\u{85}x\u{2028}", "\u{3000}\t\nP0.01 \u{a0}", "x\u{200b}"] {
        assert_eq!(trim_str(s), s.trim());
    }
    assert_eq!(trim_str(" a b "), "a b");
}
