use emojic::aliases::generate_aliases;
use emojic::attributes::{Family, Gender, Hair, OneOrTwo, Pair, Tone, TonePair, Version};
use emojic::emoji::{generate_all_graphemes, generate_regex, AppendError, Emoji, Emojis, Group, MergeError, NameMatch};
use emojic::emojis::{With, WithNoDef};
use emojic::groups::{PersonKind, PersonKindGroup, PersonKindSelector, People, Toning};
use emojic::parsing::{ParsedOneOrTwo, ParsedOneOrTwoChildren, PeopleWords, PersonEntry, ToneWords, WordError};
use emojic::people::PersonVariant;
use emojic::render::{emoji_render_example_section, emoji_render_single_example, emoji_render_text};
use emojic::strutil::{clean, generate_constant, generate_module, make_alias, remove_spaces};

#[test]
fn clean_replaces_symbols_and_punctuation() {
    assert_eq!(clean("flag: Côte d’Ivoire".to_string()), "flag Cote d Ivoire");
    assert_eq!(clean("keycap: *".to_string()), "keycap asterisk");
    assert_eq!(clean("1st place medal".to_string()), "first place medal");
}

#[test]
fn remove_spaces_drops_white_space() {
    assert_eq!(remove_spaces("a b\tc".to_string()), "abc");
}

#[test]
fn alias_in_colons() {
    assert_eq!(make_alias("crab".to_string()), ":crab:");
    assert_eq!(emojic::gemoji::make_alias("+1"), "+1");
}

#[test]
fn constant_and_module_names() {
    assert_eq!(generate_constant("man teacher: light skin tone"), "MAN_TEACHER_LIGHT_SKIN_TONE");
    assert_eq!(generate_constant("A button (blood type)"), "A_BUTTON_BLOOD_TYPE");
    assert_eq!(generate_module("Smileys & Emotion"), "smileys_and_emotion");
}

#[test]
fn version_parses() {
    assert_eq!(Version::parse("13.1"), Some(Version(13, 1)));
    assert_eq!(Version::parse("0.6"), Some(Version(0, 6)));
    assert_eq!(Version::parse("13"), None);
    assert_eq!(Version::parse("1.x"), None);
    assert_eq!(Version::parse("99999999999999999999.1"), None);
}

#[test]
fn attribute_names_and_ids() {
    assert_eq!(Tone::MediumDark.name(), "medium-dark skin tone");
    assert_eq!(Hair::Bald.name(), "no hair");
    assert_eq!(Pair::Mixed.name_adults(), "man & woman");
    assert_eq!(OneOrTwo::Two(Pair::Females).name_children(), "girls");
    assert_eq!(OneOrTwo::One(Gender::Male).name_adults(), "man");
    assert_eq!(TonePair { left: Tone::Medium, right: Tone::Dark }.to_id(), 14);
    assert_eq!(Family { parents: OneOrTwo::Two(Pair::Mixed), children: OneOrTwo::One(Gender::Female) }.to_id(), 16);
    assert_eq!(OneOrTwo::Two(Pair::Females).to_id(), 4);
    assert_eq!(Gender::Female.with_children(OneOrTwo::Two(Pair::Mixed)).parents, OneOrTwo::One(Gender::Female));
    assert_eq!(Pair::from_genders(Gender::Female, Gender::Male), Pair::Mixed);
    assert_eq!(Tone::from_word("Medium-Light"), Some(Tone::MediumLight));
    assert_eq!(Hair::from_word("curly"), Some(Hair::Curly));
    assert_eq!(Hair::from_word("green"), None);
}

#[test]
fn people_words_parse() {
    assert_eq!(ParsedOneOrTwo::from_words("woman", Some("man")).unwrap().0, Some(OneOrTwo::Two(Pair::Mixed)));
    assert_eq!(ParsedOneOrTwo::from_words("people", None).unwrap().0, None);
    assert!(ParsedOneOrTwo::from_words("dog", None).is_err());
    assert_eq!(ParsedOneOrTwoChildren::from_words("girl", Some("boy")).unwrap().0, Some(OneOrTwo::Two(Pair::Mixed)));
    assert_eq!(ParsedOneOrTwoChildren::from_words("boys", None).unwrap().0, Some(OneOrTwo::Two(Pair::Males)));
}

fn parse(people: Option<PeopleWords>, tone: Option<ToneWords>, hair: Option<&str>) -> Result<PersonEntry, WordError> {
    PersonEntry::parse("full".to_string(), "G".to_string(), "family".to_string(), Version(12, 0), people, tone, hair)
}

#[test]
fn entry_parses_every_slot() {
    let e = parse(
        Some(PeopleWords { adult_left: "man", adult_right: Some("woman"), children: Some(("girl", None)) }),
        Some(ToneWords { first: "light", second: Some("dark") }),
        Some("red"),
    )
    .unwrap();
    assert_eq!(e.kind.people, Some(People { first: OneOrTwo::Two(Pair::Mixed), second: Some(OneOrTwo::One(Gender::Female)) }));
    assert_eq!(e.kind.tone, Some(Toning { first: Tone::Light, second: Some(Tone::Dark) }));
    assert_eq!(e.kind.hair, Some(Hair::Red));
    assert_eq!(e.variant.since, Version(12, 0));
    let genderless = parse(Some(PeopleWords { adult_left: "person", adult_right: None, children: Some(("boy", None)) }), None, None).unwrap();
    assert_eq!(genderless.kind, PersonKind { hair: None, people: None, tone: None });
}

#[test]
fn entry_errors_name_the_slot() {
    let bad_people = PeopleWords { adult_left: "dog", adult_right: None, children: None };
    assert_eq!(parse(Some(bad_people), None, None).err(), Some(WordError::People));
    let bad_children = PeopleWords { adult_left: "man", adult_right: None, children: Some(("cat", None)) };
    assert_eq!(parse(Some(bad_children), None, None).err(), Some(WordError::Children));
    assert_eq!(parse(None, Some(ToneWords { first: "green", second: None }), None).err(), Some(WordError::Tone));
    assert_eq!(parse(None, None, Some("purple")).err(), Some(WordError::Hair));
}

#[test]
fn selector_specificity_and_identifier() {
    let k = PersonKind { hair: None, people: None, tone: None };
    assert_eq!(k.default_level(), 31);
    let full = PersonKind {
        hair: Some(Hair::Red),
        people: Some(People { first: OneOrTwo::One(Gender::Male), second: Some(OneOrTwo::One(Gender::Female)) }),
        tone: Some(Toning { first: Tone::Light, second: Some(Tone::Dark) }),
    };
    assert_eq!(full.default_level(), 0);
    let sel = PersonKindSelector::exact(full);
    assert!(sel.selects(full));
    assert!(!sel.selects(k));
    let adapted = PersonKindSelector::exact(full).adapt_identifier("PERSON_BOWING");
    assert_eq!(adapted, "man with girl_BOWING with red hair and light skin tone & dark skin tone");
    assert_eq!(PersonKindGroup::All.next_iter().unwrap().len(), 7);
    assert_eq!(PersonKindGroup::Hair(None).next_iter().unwrap().len(), 31);
    assert_eq!(PersonKindGroup::Tone(k).next_iter().err(), Some(k));
}

#[test]
fn renders_doc_snippets() {
    assert_eq!(emoji_render_text("\u{1F44B}"), "\u{1F44B} (`U+1F44B`)");
    assert_eq!(emoji_render_text("#\u{FE0F}"), "#\u{FE0F} (`U+0023 U+FE0F`)");
    let s = emoji_render_single_example("X.tone(Tone::Light)", "g");
    assert_eq!(s, "#[doc=\"println!(\\\"{}\\\", X.tone(Tone::Light)); // g (`U+0067`)\"] #[doc=\"# assert_eq!(X.tone(Tone::Light).to_string().as_str(), \\\"g\\\");\"]");
    assert!(emoji_render_example_section("C", "ID").contains("use emojic::flat::ID;"));
}

#[test]
fn regex_of_graphemes() {
    let v = vec!["a".to_string(), "b\\*".to_string()];
    assert_eq!(generate_regex(&v), "a|b\\*");
    assert_eq!(generate_regex(&Vec::new()), "");
}

fn feed() -> Emojis {
    let mut e = Emojis::new();
    let g = e.append("Smileys & Emotion".to_string());
    let s = e.groups[g].append("face-smiling".to_string());
    let sg = &mut e.groups[g].subgroups[s];
    assert!(sg.append_line("1F600", Some(Version(1, 0)), "grinning face", NameMatch::Plain).is_ok());
    assert!(sg.append_line("0x2A 20E3", Some(Version(0, 6)), "keycap: *", NameMatch::Plain).is_ok());
    let people = PeopleWords { adult_left: "person", adult_right: None, children: None };
    let m = NameMatch::PersonWithActivity { activity_pre: None, activity_post: Some("bowing"), people, tone: None, hair: None };
    assert!(sg.append_line("1F647", Some(Version(0, 6)), "person bowing", m).is_ok());
    e
}

#[test]
fn feed_lines_become_emojis() {
    let mut e = feed();
    let sg = &e.groups[0].subgroups[0];
    assert_eq!(sg.emojis[0].grapheme, "\u{1F600}");
    assert_eq!(sg.emojis[0].identifier, "GRINNING_FACE");
    assert_eq!(sg.emojis[1].grapheme, "*\u{20E3}");
    assert_eq!(sg.emojis[1].identifier, "KEYCAP_ASTERISK");
    assert_eq!(sg.person_emojis[0].0, "PERSON_BOWING");
    assert!(e.sort().is_ok());
    let sg = &e.groups[0].subgroups[0];
    assert_eq!(sg.constants, vec!["GRINNING_FACE".to_string(), "KEYCAP_ASTERISK".to_string(), "PERSON_BOWING".to_string()]);
    let listed: Vec<String> = sg.emoji_iter().iter().map(|e| e.identifier().to_string()).collect();
    assert_eq!(listed, sg.constants);
    assert_eq!(e.get_group("Smileys & Emotion"), Some(0));
    assert_eq!(e.groups[0].get_subgroup("face-smiling"), Some(0));
    assert_eq!(e.get_group("Flags"), None);
}

#[test]
fn feed_line_errors() {
    let mut e = feed();
    let sg = &mut e.groups[0].subgroups[0];
    assert!(matches!(sg.append_line("1F600", None, "grinning face", NameMatch::Plain), Err(AppendError::DuplicateEmoji(_))));
    let people = PeopleWords { adult_left: "person", adult_right: None, children: None };
    let m = NameMatch::PersonWithActivity { activity_pre: None, activity_post: Some("bowing"), people, tone: None, hair: None };
    assert!(matches!(sg.append_line("1F647", None, "person bowing", m), Err(AppendError::DuplicateVariant(_))));
    let m = NameMatch::ActivityWithColon { activity: "kiss", people: None, tone: Some(ToneWords { first: "blue", second: None }), hair: None };
    assert!(matches!(sg.append_line("1F48F", None, "kiss: blue skin tone", m), Err(AppendError::Words(WordError::Tone))));
}

#[test]
fn merged_families_with_shared_key_are_reported() {
    let mut e = Emojis::new();
    let g = e.append("People".to_string());
    let s = e.groups[g].append("role".to_string());
    let sg = &mut e.groups[g].subgroups[s];
    let v = || PersonVariant { full_name: "x".to_string(), grapheme: "x".to_string(), since: Version(1, 0) };
    let k = PersonKind { hair: None, people: None, tone: None };
    assert!(sg.append_person(PersonEntry { name: "cook".to_string(), kind: k, variant: v() }).is_ok());
    assert!(sg.append_person(PersonEntry { name: "person cook".to_string(), kind: k, variant: v() }).is_ok());
    assert!(matches!(e.sort(), Err(MergeError::DuplicateVariant(_))));
}

#[test]
fn graphemes_are_escaped() {
    let e = feed();
    let all = generate_all_graphemes(&e);
    assert_eq!(all.len(), 2);
    assert_eq!(all[1], "\\*\u{20E3}");
}

#[test]
fn alias_tables() {
    let mut e = feed();
    assert!(e.sort().is_ok());
    let gemojis = vec![("grinning".to_string(), "\u{1F600}".to_string()), ("nothing".to_string(), "?".to_string())];
    let t = generate_aliases(&e, &gemojis);
    assert_eq!(t.aliases, vec!["grinning".to_string(), "grinning_face".to_string(), "keycap_asterisk".to_string(), "person_bowing".to_string()]);
    assert!(t.map_lines.starts_with("(\"grinning\" , &crate::flat::GRINNING_FACE as &crate::Emoji),\n"));
    assert!(t.two.contains("\t\t\tb'g' => match sec {\n\t\t\t\tb'r' => match rest {\n"));
    assert_eq!(t.single, "");
    let empty = Group::new("empty".to_string());
    assert_eq!(empty.subgroups.len(), 0);
    let _ = Emoji { name: String::new(), identifier: String::new(), since: Version(0, 0), grapheme: String::new() };
}

#[test]
fn composers_pick_by_attribute() {
    let toned: With<Tone, u32> = With::new(0, vec![1, 2, 3, 4, 5]);
    assert_eq!(*toned.tone(Tone::Medium), 3);
    let pairs: WithNoDef<TonePair, u32> = WithNoDef::new((0..25).collect());
    assert_eq!(*pairs.tone_pair(TonePair { left: Tone::Light, right: Tone::Dark }), 4);
    assert_eq!(*pairs.tone(TonePair { left: Tone::Dark, right: Tone::Light }), 20);
    let genders: WithNoDef<Gender, &str> = WithNoDef::new(vec!["m", "f"]);
    assert_eq!(*genders.gender(Gender::Female), "f");
    let hair: With<Hair, u32> = With::new(9, (0..6).collect());
    assert_eq!(*hair.hair(Hair::Bald), 5);
    let couples: With<Pair, u32> = With::new(9, vec![0, 1, 2]);
    assert_eq!(*couples.pair(Pair::Females), 2);
    assert_eq!(*couples.gender(Pair::Mixed), 1);
    let families: With<Family, u32> = With::new(9, (0..25).collect());
    let f = Family { parents: OneOrTwo::One(Gender::Female), children: OneOrTwo::Two(Pair::Mixed) };
    assert_eq!(*families.family(f), 8);
    let oot: With<OneOrTwo, u32> = With::new(9, (0..5).collect());
    assert_eq!(*oot.gender(OneOrTwo::Two(Pair::Males)), 2);
    let e = emojic::emojis::Emoji::new("crab", Version(1, 0), "\u{1F980}");
    assert_eq!(e.grapheme, "\u{1F980}");
}

#[test]
fn groups_are_ordered_by_name() {
    let mut e = Emojis::new();
    e.append("Symbols".to_string());
    e.append("Activities".to_string());
    let g = e.append("Flags".to_string());
    e.groups[g].append("subdivision-flag".to_string());
    e.groups[g].append("country-flag".to_string());
    assert!(e.sort().is_ok());
    let names: Vec<&str> = e.groups.iter().map(|g| g.name.as_str()).collect();
    assert_eq!(names, vec!["Activities", "Flags", "Symbols"]);
    let subs: Vec<&str> = e.groups[1].subgroups.iter().map(|s| s.name.as_str()).collect();
    assert_eq!(subs, vec!["country-flag", "subdivision-flag"]);
}

#[test]
fn attributes_of_plain_names_are_spelled_out() {
    let mut e = Emojis::new();
    let g = e.append("Flags".to_string());
    let s = e.groups[g].append("country-flag".to_string());
    let sg = &mut e.groups[g].subgroups[s];
    assert!(sg.append_line("1F1EF 1F1F5", Some(Version(2, 0)), "flag: Japan", NameMatch::Plain).is_ok());
    assert_eq!(sg.emojis[0].identifier, "FLAG_JAPAN");
    assert_eq!(sg.emojis[0].grapheme, "\u{1F1EF}\u{1F1F5}");
    assert!(sg.append_line("ZZZZ 1F600", None, "odd codes", NameMatch::Plain).is_ok());
    assert_eq!(sg.emojis[1].grapheme, "\u{1F600}");
    assert_eq!(sg.emojis[1].since, Version(0, 0));
    assert!(sg.append_line("1F44E 1F3FF", None, "thumbs down: dark skin tone", NameMatch::Plain).is_ok());
    assert_eq!(sg.emojis[2].identifier, "THUMBS_DOWN_WITH_DARK_SKIN_TONE");
}
