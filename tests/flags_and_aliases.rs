use emojic::flags::{contry_flag, country_flag, regional_flag};
use emojic::text::parse_alias;

#[test]
fn country_flag_test() {
    assert_eq!("\u{1F1E9}\u{1F1EA}", &country_flag("DE"));
}

#[test]
fn regional_flag_test() {
    assert_eq!(
        "\u{1F3F4}\u{E0067}\u{E0062}\u{E0065}\u{E006E}\u{E0067}\u{E007F}",
        &regional_flag("GB-ENG")
    );
}

#[test]
fn parse_alias_test() {
    let e = parse_alias(":flag_ecuador:").unwrap();
    assert_eq!(e.grapheme, "\u{1F1EA}\u{1F1E8}");
    assert_eq!(e.name, "flag: Ecuador");
}

#[test]
fn parse_alias_none() {
    assert!(parse_alias(":hebele:").is_none());
}

#[test]
fn country_flag_lower_case() {
    assert_eq!(country_flag("eu"), country_flag("EU"));
    assert_eq!(contry_flag("EU"), "\u{1F1EA}\u{1F1FA}");
}

#[test]
fn regional_flag_digits_kept() {
    assert_eq!(regional_flag("US-1"), "\u{1F3F4}\u{E0075}\u{E0073}\u{E0031}\u{E007F}");
}

#[test]
fn parse_alias_needs_colons_and_ascii() {
    assert!(parse_alias("crab").is_none());
    assert!(parse_alias("::").is_none());
    assert!(parse_alias(":cr\u{e4}b:").is_none());
    assert_eq!(parse_alias(":crab:").unwrap().grapheme, "\u{1F980}");
    assert_eq!(parse_alias(":+1:").unwrap().grapheme, "\u{1F44D}");
}
