//! Reading the attribute words of descriptive names.
use vstd::prelude::*;
use crate::attributes::{Gender, Hair, OneOrTwo, Pair, Tone, Version, hair_of_word, tone_of_word};
use crate::groups::{People, PersonKind, Toning};
use crate::people::PersonVariant;
use crate::strs::{eq_fold, str_eq_fold};

verus! {

/// The people that one or two adult words name (`man`, `women`, `woman, man`); `None` for
/// genderless people. `Err` where the words name nobody.
pub open spec fn adults_of(a: Seq<char>, b: Option<Seq<char>>) -> Result<Option<OneOrTwo>, ()> {
    match b {
        None => if eq_fold(a, "person"@) || eq_fold(a, "people"@) {
            Ok(None)
        } else if eq_fold(a, "man"@) {
            Ok(Some(OneOrTwo::One(Gender::Male)))
        } else if eq_fold(a, "men"@) {
            Ok(Some(OneOrTwo::Two(Pair::Males)))
        } else if eq_fold(a, "woman"@) {
            Ok(Some(OneOrTwo::One(Gender::Female)))
        } else if eq_fold(a, "women"@) {
            Ok(Some(OneOrTwo::Two(Pair::Females)))
        } else {
            Err(())
        },
        Some(b) => if eq_fold(a, "person"@) && eq_fold(b, "person"@) {
            Ok(None)
        } else if eq_fold(a, "man"@) && eq_fold(b, "man"@) {
            Ok(Some(OneOrTwo::Two(Pair::Males)))
        } else if (eq_fold(a, "man"@) && eq_fold(b, "woman"@)) || (eq_fold(a, "woman"@) && eq_fold(b, "man"@)) {
            Ok(Some(OneOrTwo::Two(Pair::Mixed)))
        } else if eq_fold(a, "woman"@) && eq_fold(b, "woman"@) {
            Ok(Some(OneOrTwo::Two(Pair::Females)))
        } else {
            Err(())
        },
    }
}

/// The children that one or two child words name (`boy`, `girls`, `girl, boy`); `None` for
/// genderless children. `Err` where the words name nobody.
pub open spec fn children_of(a: Seq<char>, b: Option<Seq<char>>) -> Result<Option<OneOrTwo>, ()> {
    match b {
        None => if eq_fold(a, "child"@) || eq_fold(a, "children"@) {
            Ok(None)
        } else if eq_fold(a, "boy"@) {
            Ok(Some(OneOrTwo::One(Gender::Male)))
        } else if eq_fold(a, "boys"@) {
            Ok(Some(OneOrTwo::Two(Pair::Males)))
        } else if eq_fold(a, "girl"@) {
            Ok(Some(OneOrTwo::One(Gender::Female)))
        } else if eq_fold(a, "girls"@) {
            Ok(Some(OneOrTwo::Two(Pair::Females)))
        } else {
            Err(())
        },
        Some(b) => if eq_fold(a, "child"@) && eq_fold(b, "child"@) {
            Ok(None)
        } else if eq_fold(a, "boy"@) && eq_fold(b, "boy"@) {
            Ok(Some(OneOrTwo::Two(Pair::Males)))
        } else if (eq_fold(a, "boy"@) && eq_fold(b, "girl"@)) || (eq_fold(a, "girl"@) && eq_fold(b, "boy"@)) {
            Ok(Some(OneOrTwo::Two(Pair::Mixed)))
        } else if eq_fold(a, "girl"@) && eq_fold(b, "girl"@) {
            Ok(Some(OneOrTwo::Two(Pair::Females)))
        } else {
            Err(())
        },
    }
}

/// People as read from adult words.
pub struct ParsedOneOrTwo(pub Option<OneOrTwo>);

/// Children as read from child words.
pub struct ParsedOneOrTwoChildren(pub Option<OneOrTwo>);

impl ParsedOneOrTwo {
    /// Reads one or two adult words, ignoring ASCII case.
    pub fn from_words(a: &str, b: Option<&str>) -> (r: Result<ParsedOneOrTwo, ()>)
        ensures
            match (r, adults_of(a@, match b { Some(x) => Some(x@), None => None })) {
                (Ok(p), Ok(q)) => p.0 == q,
                (Err(_), Err(_)) => true,
                _ => false,
            },
    {
        match b {
            None => {
                if str_eq_fold(a, "person") || str_eq_fold(a, "people") {
                    Ok(ParsedOneOrTwo(None))
                } else if str_eq_fold(a, "man") {
                    Ok(ParsedOneOrTwo(Some(OneOrTwo::One(Gender::Male))))
                } else if str_eq_fold(a, "men") {
                    Ok(ParsedOneOrTwo(Some(OneOrTwo::Two(Pair::Males))))
                } else if str_eq_fold(a, "woman") {
                    Ok(ParsedOneOrTwo(Some(OneOrTwo::One(Gender::Female))))
                } else if str_eq_fold(a, "women") {
                    Ok(ParsedOneOrTwo(Some(OneOrTwo::Two(Pair::Females))))
                } else {
                    Err(())
                }
            },
            Some(b) => {
                let (ap, am, aw) = (str_eq_fold(a, "person"), str_eq_fold(a, "man"), str_eq_fold(a, "woman"));
                let (bp, bm, bw) = (str_eq_fold(b, "person"), str_eq_fold(b, "man"), str_eq_fold(b, "woman"));
                if ap && bp {
                    Ok(ParsedOneOrTwo(None))
                } else if am && bm {
                    Ok(ParsedOneOrTwo(Some(OneOrTwo::Two(Pair::Males))))
                } else if (am && bw) || (aw && bm) {
                    Ok(ParsedOneOrTwo(Some(OneOrTwo::Two(Pair::Mixed))))
                } else if aw && bw {
                    Ok(ParsedOneOrTwo(Some(OneOrTwo::Two(Pair::Females))))
                } else {
                    Err(())
                }
            },
        }
    }
}

impl ParsedOneOrTwoChildren {
    /// Reads one or two child words, ignoring ASCII case.
    pub fn from_words(a: &str, b: Option<&str>) -> (r: Result<ParsedOneOrTwoChildren, ()>)
        ensures
            match (r, children_of(a@, match b { Some(x) => Some(x@), None => None })) {
                (Ok(p), Ok(q)) => p.0 == q,
                (Err(_), Err(_)) => true,
                _ => false,
            },
    {
        match b {
            None => {
                if str_eq_fold(a, "child") || str_eq_fold(a, "children") {
                    Ok(ParsedOneOrTwoChildren(None))
                } else if str_eq_fold(a, "boy") {
                    Ok(ParsedOneOrTwoChildren(Some(OneOrTwo::One(Gender::Male))))
                } else if str_eq_fold(a, "boys") {
                    Ok(ParsedOneOrTwoChildren(Some(OneOrTwo::Two(Pair::Males))))
                } else if str_eq_fold(a, "girl") {
                    Ok(ParsedOneOrTwoChildren(Some(OneOrTwo::One(Gender::Female))))
                } else if str_eq_fold(a, "girls") {
                    Ok(ParsedOneOrTwoChildren(Some(OneOrTwo::Two(Pair::Females))))
                } else {
                    Err(())
                }
            },
            Some(b) => {
                let (ac, ab, ag) = (str_eq_fold(a, "child"), str_eq_fold(a, "boy"), str_eq_fold(a, "girl"));
                let (bc, bb, bg) = (str_eq_fold(b, "child"), str_eq_fold(b, "boy"), str_eq_fold(b, "girl"));
                if ac && bc {
                    Ok(ParsedOneOrTwoChildren(None))
                } else if ab && bb {
                    Ok(ParsedOneOrTwoChildren(Some(OneOrTwo::Two(Pair::Males))))
                } else if (ab && bg) || (ag && bb) {
                    Ok(ParsedOneOrTwoChildren(Some(OneOrTwo::Two(Pair::Mixed))))
                } else if ag && bg {
                    Ok(ParsedOneOrTwoChildren(Some(OneOrTwo::Two(Pair::Females))))
                } else {
                    Err(())
                }
            },
        }
    }
}

/// The people fragments of a descriptive name: one or two adult words, and optionally one or
/// two child words.
pub struct PeopleWords<'a> {
    pub adult_left: &'a str,
    pub adult_right: Option<&'a str>,
    pub children: Option<(&'a str, Option<&'a str>)>,
}

/// The tone fragments of a descriptive name: one or two tone words.
pub struct ToneWords<'a> {
    pub first: &'a str,
    pub second: Option<&'a str>,
}

/// Why the fragments of a name could not be read.
#[derive(Debug, Clone, Copy, PartialEq, Eq, Structural)]
pub enum WordError {
    People,
    Children,
    Tone,
    Hair,
}

/// A freshly read person emoji variant: the name of its family, its attribute key and payload.
pub struct PersonEntry {
    pub name: String,
    pub kind: PersonKind,
    pub variant: PersonVariant,
}

/// The words of the people fragments.
pub open spec fn people_view(p: Option<PeopleWords>) -> Option<(Seq<char>, Option<Seq<char>>, Option<(Seq<char>, Option<Seq<char>>)>)> {
    match p {
        None => None,
        Some(p) => Some((
            p.adult_left@,
            match p.adult_right { Some(x) => Some(x@), None => None },
            match p.children {
                None => None,
                Some((c1, c2)) => Some((c1@, match c2 { Some(x) => Some(x@), None => None })),
            },
        )),
    }
}

/// The words of the tone fragments.
pub open spec fn tone_view(t: Option<ToneWords>) -> Option<(Seq<char>, Option<Seq<char>>)> {
    match t {
        None => None,
        Some(t) => Some((t.first@, match t.second { Some(x) => Some(x@), None => None })),
    }
}

/// The text of an optional fragment.
pub open spec fn opt_view(h: Option<&str>) -> Option<Seq<char>> {
    match h {
        Some(x) => Some(x@),
        None => None,
    }
}

/// The key that the fragments name, or the first slot, people before tone before hair, whose
/// words name no value.
pub open spec fn kind_of_words(
    pv: Option<(Seq<char>, Option<Seq<char>>, Option<(Seq<char>, Option<Seq<char>>)>)>,
    tv: Option<(Seq<char>, Option<Seq<char>>)>,
    hv: Option<Seq<char>>,
) -> Result<PersonKind, WordError> {
    match people_slot(pv) {
        Err(e) => Err(e),
        Ok(p) => match tone_slot(tv) {
            Err(e) => Err(e),
            Ok(t) => match hair_slot(hv) {
                Err(e) => Err(e),
                Ok(h) => Ok(PersonKind { hair: h, people: p, tone: t }),
            },
        },
    }
}

/// The people slot that the people fragments name.
pub open spec fn people_slot(p: Option<(Seq<char>, Option<Seq<char>>, Option<(Seq<char>, Option<Seq<char>>)>)>) -> Result<Option<People>, WordError> {
    match p {
        None => Ok(None),
        Some((a, b, c)) => match adults_of(a, b) {
            Err(_) => Err(WordError::People),
            Ok(None) => Ok(None),
            Ok(Some(first)) => match c {
                None => Ok(Some(People { first, second: None })),
                Some((c1, c2)) => match children_of(c1, c2) {
                    Err(_) => Err(WordError::Children),
                    Ok(second) => Ok(Some(People { first, second })),
                },
            },
        },
    }
}

/// The tone slot that the tone fragments name.
pub open spec fn tone_slot(t: Option<(Seq<char>, Option<Seq<char>>)>) -> Result<Option<Toning>, WordError> {
    match t {
        None => Ok(None),
        Some((a, b)) => match (tone_of_word(a), b) {
            (None, _) => Err(WordError::Tone),
            (Some(f), None) => Ok(Some(Toning { first: f, second: None })),
            (Some(f), Some(b)) => match tone_of_word(b) {
                None => Err(WordError::Tone),
                Some(s) => Ok(Some(Toning { first: f, second: Some(s) })),
            },
        },
    }
}

/// The hair slot that the hair fragment names.
pub open spec fn hair_slot(h: Option<Seq<char>>) -> Result<Option<Hair>, WordError> {
    match h {
        None => Ok(None),
        Some(w) => match hair_of_word(w) {
            None => Err(WordError::Hair),
            Some(x) => Ok(Some(x)),
        },
    }
}

impl PersonEntry {
    /// Reads the people, tone and hair fragments of a descriptive name into an attribute key.
    /// Genderless people give an absent people slot; so do children whose parents are
    /// genderless. A word that names no value is refused, people first, then tone, then hair.
    pub fn parse(
        full_name: String,
        grapheme: String,
        name: String,
        since: Version,
        people: Option<PeopleWords>,
        tone: Option<ToneWords>,
        hair: Option<&str>,
    ) -> (r: Result<PersonEntry, WordError>)
        ensures
            ({
                let pv = match people {
                    None => None,
                    Some(p) => Some((
                        p.adult_left@,
                        match p.adult_right { Some(x) => Some(x@), None => None },
                        match p.children {
                            None => None,
                            Some((c1, c2)) => Some((c1@, match c2 { Some(x) => Some(x@), None => None })),
                        },
                    )),
                };
                let tv = match tone {
                    None => None,
                    Some(t) => Some((t.first@, match t.second { Some(x) => Some(x@), None => None })),
                };
                let hv = match hair { Some(x) => Some(x@), None => None };
                match r {
                    Ok(e) => people_slot(pv) == Ok::<Option<People>, WordError>(e.kind.people)
                        && tone_slot(tv) == Ok::<Option<Toning>, WordError>(e.kind.tone)
                        && hair_slot(hv) == Ok::<Option<Hair>, WordError>(e.kind.hair)
                        && e.name@ == name@ && e.variant.full_name@ == full_name@
                        && e.variant.grapheme@ == grapheme@ && e.variant.since == since,
                    Err(err) => (people_slot(pv) == Err::<Option<People>, WordError>(err))
                        || (people_slot(pv) is Ok && tone_slot(tv) == Err::<Option<Toning>, WordError>(err))
                        || (people_slot(pv) is Ok && tone_slot(tv) is Ok && hair_slot(hv) == Err::<Option<Hair>, WordError>(err)),
                }
            }),
            match (r, kind_of_words(people_view(people), tone_view(tone), opt_view(hair))) {
                (Ok(e), Ok(k)) => e.kind == k && e.name@ == name@ && e.variant@ == (full_name@, grapheme@, since),
                (Err(a), Err(b)) => a == b,
                _ => false,
            },
    {
        let people_value: Option<People> = match people {
            None => None,
            Some(p) => {
                match ParsedOneOrTwo::from_words(p.adult_left, p.adult_right) {
                    Err(_) => return Err(WordError::People),
                    Ok(ParsedOneOrTwo(None)) => None,
                    Ok(ParsedOneOrTwo(Some(first))) => match p.children {
                        None => Some(People { first, second: None }),
                        Some((c1, c2)) => match ParsedOneOrTwoChildren::from_words(c1, c2) {
                            Err(_) => return Err(WordError::Children),
                            Ok(ParsedOneOrTwoChildren(second)) => Some(People { first, second }),
                        },
                    },
                }
            },
        };
        let tone_value: Option<Toning> = match tone {
            None => None,
            Some(t) => match Tone::from_word(t.first) {
                None => return Err(WordError::Tone),
                Some(f) => match t.second {
                    None => Some(Toning { first: f, second: None }),
                    Some(w) => match Tone::from_word(w) {
                        None => return Err(WordError::Tone),
                        Some(s) => Some(Toning { first: f, second: Some(s) }),
                    },
                },
            },
        };
        let hair_value: Option<Hair> = match hair {
            None => None,
            Some(w) => match Hair::from_word(w) {
                None => return Err(WordError::Hair),
                Some(h) => Some(h),
            },
        };
        Ok(PersonEntry {
            name,
            kind: PersonKind { hair: hair_value, people: people_value, tone: tone_value },
            variant: PersonVariant { full_name, grapheme, since },
        })
    }
}

} // verus!
