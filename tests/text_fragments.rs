use emojic::text::EmojiTextParser;
use emojic::text::parse_text;

#[test]
fn text_parser_test() {
    let input = "Hello :waving_hand:, I am a :technologist:.";
    let mut parser = EmojiTextParser::new(input);

    assert_eq!(Some("Hello "), parser.next());
    assert_eq!(Some("\u{1F44B}"), parser.next());
    assert_eq!(Some(", I am a "), parser.next());
    assert_eq!(Some("\u{1F9D1}\u{200D}\u{1F4BB}"), parser.next());
    assert_eq!(Some("."), parser.next());
    assert_eq!(None, parser.next());
}

#[test]
fn text_parser_misspelled() {
    let input = "Hello :wavinghand:, I am a :tchnologist:.";
    let mut parser = EmojiTextParser::new(input);

    assert_eq!(Some("Hello "), parser.next());
    assert_eq!(Some(":wavinghand"), parser.next());
    assert_eq!(Some(":, I am a "), parser.next());
    assert_eq!(Some(":tchnologist"), parser.next());
    assert_eq!(Some(":."), parser.next());
    assert_eq!(None, parser.next());
}

#[test]
fn text_parser_thumbs() {
    let input = ":thumbs_up::+1::-1::thumbs_down:";
    let output = "\u{1F44D}\u{1F44D}\u{1F44E}\u{1F44E}";

    assert_eq!(output, &parse_text(input));
}

#[test]
fn text_parser_nothing() {
    let input = "";
    let mut parser = EmojiTextParser::new(input);

    assert_eq!(None, parser.next());
}

#[test]
fn text_parser_corner_cases() {
    let input = "100: :100:100:100: :100";
    let output = "100: \u{1F4AF}100\u{1F4AF} :100";

    assert_eq!(output, &parse_text(input));
}

#[test]
fn text_parser_no_emoji() {
    let input = "Hello :: I am: a technologist, :=: :).";

    assert_eq!(input, &parse_text(input));
}

#[test]
fn text_parser_no_colons() {
    let input = "Hello, I am a technologist.";

    assert_eq!(input, &parse_text(input));
}

#[test]
fn text_parser_single_colon() {
    let input = ":";

    assert_eq!(input, &parse_text(input));
}

#[test]
fn text_parser_only_colons() {
    let input = ":::";

    assert_eq!(input, &parse_text(input));
}

#[test]
fn text_parser_double_colons() {
    let input = "abc::technologist::def";
    let output = "abc:\u{1F9D1}\u{200D}\u{1F4BB}:def";

    assert_eq!(output, &parse_text(input));
}

#[test]
fn text_parser_many_colons() {
    let input = "abc:::technologist:::def";
    let output = "abc::\u{1F9D1}\u{200D}\u{1F4BB}::def";

    assert_eq!(output, &parse_text(input));
}
