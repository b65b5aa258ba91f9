use emojic::attributes::{Gender, Hair, OneOrTwo, Pair, Tone, Version};
use emojic::emoji::{Emoji, Subgroup, ToSourceCode};
use emojic::groups::{People, PersonKind, Toning};
use emojic::people::{PersonEmoji, PersonVariant};
use emojic::tree::PersonQualified;

fn variant(name: &str) -> PersonVariant {
    PersonVariant { full_name: name.to_string(), grapheme: format!("<{}>", name), since: Version(13, 0) }
}

fn kind(hair: Option<Hair>, people: Option<People>, tone: Option<Toning>) -> PersonKind {
    PersonKind { hair, people, tone }
}

fn lone(t: Tone) -> Option<Toning> {
    Some(Toning { first: t, second: None })
}

fn toned_record() -> PersonEmoji {
    let mut e = PersonEmoji::new("waving hand".to_string());
    e.insert(kind(None, None, None), variant("waving hand")).unwrap();
    for t in [Tone::Light, Tone::MediumLight, Tone::Medium, Tone::MediumDark, Tone::Dark] {
        e.insert(kind(None, None, lone(t)), variant(t.name())).unwrap();
    }
    e
}

fn node(t: &PersonQualified) -> &emojic::tree::PersonQualifiedNode {
    match t {
        PersonQualified::Node(n) => n,
        PersonQualified::Leaf(_) => panic!("a leaf where a node was expected"),
    }
}

fn check_each_key_once(r: &PersonEmoji) {
    let entries = r.grouping.as_ref().unwrap().to_accessor_n_kind(&r.identifier);
    assert_eq!(entries.len(), r.variants.len());
    for (k, _) in &r.variants {
        assert_eq!(entries.iter().filter(|e| e.2 == *k).count(), 1);
    }
}

#[test]
fn tone_only_set_qualifies() {
    let out = toned_record().scrub();
    assert_eq!(out.len(), 1);
    let n = node(out[0].grouping.as_ref().unwrap());
    assert_eq!(n.kind_name, "Tone");
    assert!(n.def.is_some());
    assert_eq!(n.subs.len(), 5);
    assert_eq!(n.subs[0].pub_accessor, "tone(Tone::Light)");
    assert_eq!(n.subs[4].const_accessor, "tone(Tone::Dark)");
    assert_eq!(out[0].identifier, "WAVING_HAND");
    check_each_key_once(&out[0]);
}

#[test]
fn pairs_with_tone_pairs_nest_two_levels() {
    let tones = [Tone::Light, Tone::MediumLight, Tone::Medium, Tone::MediumDark, Tone::Dark];
    let mut e = PersonEmoji::new("people holding hands".to_string());
    for p in [Pair::Males, Pair::Mixed, Pair::Females] {
        for a in tones {
            for b in tones {
                let toning = Toning { first: a, second: if a == b { None } else { Some(b) } };
                let people = People { first: OneOrTwo::Two(p), second: None };
                e.insert(kind(None, Some(people), Some(toning)), variant("holding hands")).unwrap();
            }
        }
    }
    let out = e.scrub();
    assert_eq!(out.len(), 1);
    let root = node(out[0].grouping.as_ref().unwrap());
    assert_eq!(root.kind_name, "Pair");
    assert!(root.def.is_none());
    assert_eq!(root.subs.len(), 3);
    assert_eq!(root.subs[1].pub_accessor, "gender(Pair::Mixed)");
    for sub in &root.subs {
        let inner = node(&sub.tree);
        assert_eq!(inner.kind_name, "TonePair");
        assert_eq!(inner.subs.len(), 25);
        assert!(inner.def.is_none());
    }
    let inner = node(&root.subs[0].tree);
    assert_eq!(inner.subs[0].pub_accessor, "tone(Tone::Light)");
    assert_eq!(inner.subs[0].const_accessor, "tone_pair(TonePair{left: Tone::Light, right: Tone::Light })");
    assert_eq!(inner.subs[1].pub_accessor, "tone((Tone::Light, Tone::MediumLight))");
    check_each_key_once(&out[0]);
    let (ty, _, _) = out[0].grouping.as_ref().unwrap().to_type_n_value(&out[0].identifier, &out[0].variants).unwrap();
    assert_eq!(ty, "WithNoDef<Pair,WithNoDef<TonePair,Emoji>>");
}

#[test]
fn incomplete_hair_set_splits() {
    let mut e = PersonEmoji::new("person".to_string());
    e.insert(kind(Some(Hair::Red), None, None), variant("person: red hair")).unwrap();
    e.insert(kind(Some(Hair::Curly), None, None), variant("person: curly hair")).unwrap();
    let out = e.scrub();
    assert_eq!(out.len(), 2);
    let mut ids: Vec<String> = out.iter().map(|r| r.identifier.clone()).collect();
    ids.sort();
    assert_eq!(ids, vec!["PERSON_WITH_CURLY_HAIR".to_string(), "PERSON_WITH_RED_HAIR".to_string()]);
    for r in &out {
        assert_eq!(r.variants.len(), 1);
        assert!(matches!(r.grouping, Some(PersonQualified::Leaf(_))));
        check_each_key_once(r);
    }
}

#[test]
fn finalizing_twice_keeps_the_record() {
    let once = toned_record().scrub();
    assert_eq!(once.len(), 1);
    let first = &once[0];
    let mut again = PersonEmoji::new(first.fancy_name.clone());
    for (k, v) in &first.variants {
        again.insert(*k, v.duplicate()).unwrap();
    }
    let twice = again.scrub();
    assert_eq!(twice.len(), 1);
    let mut a: Vec<PersonKind> = first.variants.iter().map(|e| e.0).collect();
    let mut b: Vec<PersonKind> = twice[0].variants.iter().map(|e| e.0).collect();
    a.sort();
    b.sort();
    assert_eq!(a, b);
}

#[test]
fn most_generic_variant_is_the_default() {
    let e = toned_record();
    let d = e.default_variants().unwrap();
    assert_eq!(d.len(), 1);
    assert_eq!(d[0].0, kind(None, None, None));
    assert_eq!(e.graphemes(), "<waving hand>");
    assert_eq!(e.default_grapheme(), Some("<waving hand>".to_string()));
}

#[test]
fn equally_generic_variants_are_all_defaults() {
    let mut e = PersonEmoji::new("person dancing".to_string());
    let man = People { first: OneOrTwo::One(Gender::Male), second: None };
    let woman = People { first: OneOrTwo::One(Gender::Female), second: None };
    e.insert(kind(None, Some(man), None), variant("man dancing")).unwrap();
    e.insert(kind(None, Some(woman), None), variant("woman dancing")).unwrap();
    e.insert(kind(None, Some(man), lone(Tone::Dark)), variant("man dancing: dark skin tone")).unwrap();
    let d = e.default_variants().unwrap();
    assert_eq!(d.len(), 2);
    assert_eq!(e.default_grapheme(), None);
    assert_eq!(e.graphemes(), "<man dancing><woman dancing>");
}

#[test]
fn empty_record_has_no_default() {
    let e = PersonEmoji::new("nobody".to_string());
    assert!(e.default_variants().is_none());
    assert_eq!(e.default_grapheme(), None);
}

#[test]
fn duplicate_key_is_refused() {
    let mut e = toned_record();
    assert!(e.insert(kind(None, None, None), variant("again")).is_err());
    assert_eq!(e.variants.len(), 6);
}

#[test]
fn toned_record_renders() {
    let out = toned_record().scrub();
    let (ty, value, _) = out[0].grouping.as_ref().unwrap().to_type_n_value(&out[0].identifier, &out[0].variants).unwrap();
    assert_eq!(ty, "With<Tone,Emoji>");
    assert!(value.starts_with("With::new(Emoji::new(\"waving hand\", Version(13, 0),\"<waving hand>\")"));
    let src = out[0].to_source_code().unwrap();
    assert!(src.contains("pub static WAVING_HAND: With<Tone,Emoji> = "));
    let list = out[0].full_emoji_list();
    assert_eq!(list.len(), 6);
    assert_eq!(list[0], ("WAVING_HAND.default".to_string(), "<waving hand>".to_string()));
    assert_eq!(list[1].0, "WAVING_HAND.tone(Tone::Light)");
}

#[test]
fn unfinalized_record_does_not_render() {
    let e = toned_record();
    assert!(e.to_source_code().is_none());
    assert!(e.full_emoji_list().is_empty());
}

#[test]
fn standalone_emoji_joins_person_emoji() {
    let mut sg = Subgroup::new("person-fantasy".to_string());
    assert_eq!(sg.identifier, "person_fantasy");
    let elf = Emoji { name: "elf".to_string(), identifier: "ELF".to_string(), since: Version(5, 0), grapheme: "E".to_string() };
    assert!(sg.append_plain(elf));
    let man = People { first: OneOrTwo::One(Gender::Male), second: None };
    let woman = People { first: OneOrTwo::One(Gender::Female), second: None };
    for (people, name) in [(man, "man elf"), (woman, "woman elf")] {
        let entry = emojic::parsing::PersonEntry { name: "person elf".to_string(), kind: kind(None, Some(people), None), variant: variant(name) };
        assert!(sg.append_person(entry).is_ok());
    }
    assert!(sg.sort().is_ok());
    assert_eq!(sg.constants, vec!["ELF".to_string()]);
    assert_eq!(sg.person_emojis.len(), 1);
    let r = &sg.person_emojis[0].1;
    assert_eq!(r.identifier, "ELF");
    assert_eq!(r.variants.len(), 3);
    let n = node(r.grouping.as_ref().unwrap());
    assert_eq!(n.kind_name, "Gender");
    assert!(n.def.is_some());
}

#[test]
fn placeholder_families_merge() {
    let mut sg = Subgroup::new("person-role".to_string());
    let plain = kind(None, None, None);
    let man = People { first: OneOrTwo::One(Gender::Male), second: None };
    let woman = People { first: OneOrTwo::One(Gender::Female), second: None };
    let entries = [
        ("teacher", plain, "teacher"),
        ("person teacher", kind(None, Some(man), None), "man teacher"),
        ("person teacher", kind(None, Some(woman), None), "woman teacher"),
    ];
    for (family, k, name) in entries {
        let entry = emojic::parsing::PersonEntry { name: family.to_string(), kind: k, variant: variant(name) };
        assert!(sg.append_person(entry).is_ok());
    }
    assert!(sg.sort().is_ok());
    assert_eq!(sg.constants, vec!["TEACHER".to_string()]);
    assert_eq!(sg.person_emojis[0].1.variants.len(), 3);
}

#[test]
fn duplicate_default_is_reported() {
    let mut sg = Subgroup::new("x".to_string());
    let e = Emoji { name: "elf".to_string(), identifier: "ELF".to_string(), since: Version(5, 0), grapheme: "E".to_string() };
    assert!(sg.append_plain(e));
    let entry = emojic::parsing::PersonEntry { name: "elf".to_string(), kind: kind(None, None, None), variant: variant("elf") };
    assert!(sg.append_person(entry).is_ok());
    assert!(sg.sort().is_err());
}

#[test]
fn finalized_record_lists_accessors() {
    let out = toned_record().scrub();
    let r = &out[0];
    assert_eq!(r.default_accessors(), Some(vec!["WAVING_HAND.default".to_string()]));
    let list = r.accessor_graphemes().unwrap();
    assert_eq!(list.len(), 6);
    assert_eq!(list[5], ("WAVING_HAND.tone(Tone::Dark)".to_string(), "<dark skin tone>".to_string()));
    assert!(toned_record().accessor_graphemes().is_none());
    assert!(toned_record().default_accessors().is_none());
}

#[test]
fn colliding_identifiers_are_refused() {
    let mut sg = Subgroup::new("person-role".to_string());
    let man = People { first: OneOrTwo::One(Gender::Male), second: None };
    for k in [kind(None, None, None), kind(None, Some(man), None)] {
        let entry = emojic::parsing::PersonEntry { name: "teacher".to_string(), kind: k, variant: variant("teacher") };
        assert!(sg.append_person(entry).is_ok());
    }
    assert!(matches!(sg.sort(), Err(emojic::emoji::MergeError::DuplicateIdentifier(_))));
}

#[test]
fn full_list_through_the_trait() {
    let out = toned_record().scrub();
    let list = ToSourceCode::full_emoji_list(&out[0]);
    assert_eq!(list.len(), 6);
    assert_eq!(ToSourceCode::default_grapheme(&out[0]), Some("<waving hand>".to_string()));
}
