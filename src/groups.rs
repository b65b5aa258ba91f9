//! Attribute keys of person emojis, selectors over them, and the groups that the qualification
//! walks through.
use vstd::prelude::*;
use crate::attributes::{Hair, OneOrTwo, Tone, adults_name, all_hair, all_one_or_two, all_tones, children_name, hair_index, hair_name, one_or_two_index, tone_index, tone_name};
use crate::strs::{cat, replace_all, replaced};

verus! {

/// The people slot of a key: who is shown, and for a family, the children.
#[derive(Debug, Clone, Copy, PartialEq, Eq, Structural, PartialOrd, Ord, Hash)]
pub struct People {
    pub first: OneOrTwo,
    pub second: Option<OneOrTwo>,
}

/// The tone slot of a key: the tone, and for two people, the second one.
#[derive(Debug, Clone, Copy, PartialEq, Eq, Structural, PartialOrd, Ord, Hash)]
pub struct Toning {
    pub first: Tone,
    pub second: Option<Tone>,
}

/// One emoji variant, by its attributes. `None` stands for the default or absent value.
#[derive(Debug, Clone, Copy, PartialEq, Eq, Structural, PartialOrd, Ord, Hash)]
pub struct PersonKind {
    pub hair: Option<Hair>,
    pub people: Option<People>,
    pub tone: Option<Toning>,
}

/// How generic a key is: weighted count of its absent slots.
pub open spec fn level_of(k: PersonKind) -> nat {
    (if k.hair is None { 1nat } else { 0 })
    + (if k.people is None || k.people.unwrap().second is None { 2nat } else { 0 })
    + (if k.people is None { 4nat } else { 0 })
    + (if k.tone is None || k.tone.unwrap().second is None { 8nat } else { 0 })
    + (if k.tone is None { 16nat } else { 0 })
}

impl PersonKind {
    /// The key with every slot absent.
    pub fn default_kind() -> (r: PersonKind)
        ensures
            r == (PersonKind { hair: None, people: None, tone: None }),
    {
        PersonKind { hair: None, people: None, tone: None }
    }

    /// Classifies how generic this key is: the more absent slots, the higher.
    pub fn default_level(self) -> (r: usize)
        ensures
            r == level_of(self),
    {
        let a: usize = if self.hair.is_none() { 1 } else { 0 };
        let b: usize = match self.people {
            None => 2,
            Some(p) => if p.second.is_none() { 2 } else { 0 },
        };
        let c: usize = if self.people.is_none() { 4 } else { 0 };
        let d: usize = match self.tone {
            None => 8,
            Some(t) => if t.second.is_none() { 8 } else { 0 },
        };
        let e: usize = if self.tone.is_none() { 16 } else { 0 };
        a + b + c + d + e
    }
}

/// A set of keys: per slot, `None` takes any value, `Some(None)` only the absent one, and
/// `Some(Some(v))` only `v`.
#[derive(Debug, Clone, Copy, PartialEq, Eq, Structural, PartialOrd, Ord, Hash)]
pub struct PersonKindSelector {
    pub hair: Option<Option<Hair>>,
    pub people: Option<Option<People>>,
    pub tone: Option<Option<Toning>>,
}

/// Whether one slot of a selector admits a value.
pub open spec fn slot_admits<T>(s: Option<Option<T>>, v: Option<T>) -> bool {
    match s {
        None => true,
        Some(x) => x == v,
    }
}

/// Whether a selector admits a key.
pub open spec fn selects_spec(s: PersonKindSelector, k: PersonKind) -> bool {
    slot_admits(s.hair, k.hair) && slot_admits(s.people, k.people) && slot_admits(s.tone, k.tone)
}

/// The selector that admits exactly one key.
pub open spec fn exact_selector(k: PersonKind) -> PersonKindSelector {
    PersonKindSelector { hair: Some(k.hair), people: Some(k.people), tone: Some(k.tone) }
}

impl PersonKindSelector {
    /// The selector that admits exactly `k`.
    pub fn exact(k: PersonKind) -> (r: PersonKindSelector)
        ensures
            r == exact_selector(k),
    {
        PersonKindSelector { hair: Some(k.hair), people: Some(k.people), tone: Some(k.tone) }
    }

    /// Whether this selector admits `kind`.
    pub fn selects(self, kind: PersonKind) -> (r: bool)
        ensures
            r == selects_spec(self, kind),
    {
        let h = match self.hair {
            None => true,
            Some(x) => x == kind.hair,
        };
        let p = match self.people {
            None => true,
            Some(x) => x == kind.people,
        };
        let t = match self.tone {
            None => true,
            Some(x) => x == kind.tone,
        };
        h && p && t
    }
}

/// The name of the people of a key: the adults, and the children if there are any.
pub open spec fn people_name(p: People) -> Seq<char> {
    match p.second {
        None => adults_name(p.first),
        Some(c) => adults_name(p.first) + " with "@ + children_name(c),
    }
}

/// The words that name the tone slot of a key.
pub open spec fn toning_name(t: Toning) -> Seq<char> {
    match t.second {
        None => tone_name(t.first),
        Some(s) => tone_name(t.first) + " & "@ + tone_name(s),
    }
}

/// An identifier extended by the concrete values of a selector: the hair appended, the people
/// put in place of `PERSON`, the tone appended.
pub open spec fn adapted(s: PersonKindSelector, id: Seq<char>) -> Seq<char> {
    let with_hair = match s.hair {
        Some(Some(h)) => id + " with "@ + hair_name(h),
        _ => id,
    };
    let with_people = match s.people {
        Some(Some(p)) => replaced(with_hair, "PERSON"@, people_name(p)),
        _ => with_hair,
    };
    match s.tone {
        Some(Some(t)) => with_people + (if s.hair matches Some(Some(_)) { " and "@ } else { " with "@ }) + toning_name(t),
        _ => with_people,
    }
}

impl PersonKindSelector {
    /// The identifier `id` told apart by the concrete values of this selector.
    pub fn adapt_identifier(self, id: &str) -> (r: String)
        ensures
            r@ == adapted(self, id@),
    {
        let mut s = id.to_string();
        let mut with = false;
        match self.hair {
            Some(Some(h)) => {
                let a = cat(s.as_str(), " with ");
                s = cat(a.as_str(), h.name());
                with = true;
            },
            _ => {},
        }
        match self.people {
            Some(Some(p)) => {
                let name = match p.second {
                    None => p.first.name_adults().to_string(),
                    Some(c) => {
                        let a = cat(p.first.name_adults(), " with ");
                        cat(a.as_str(), c.name_children())
                    },
                };
                s = replace_all(s.as_str(), "PERSON", name.as_str());
            },
            _ => {},
        }
        match self.tone {
            Some(Some(t)) => {
                let a = cat(s.as_str(), if with { " and " } else { " with " });
                s = cat(a.as_str(), t.first.name());
                match t.second {
                    Some(t2) => {
                        let b = cat(s.as_str(), " & ");
                        s = cat(b.as_str(), t2.name());
                    },
                    None => {},
                }
            },
            _ => {},
        }
        s
    }
}

/// The keys that the qualification handles at once: all, those of one hair value, those of one
/// hair and people value, or a single key.
#[derive(Debug, Clone, Copy, PartialEq, Eq, Structural, PartialOrd, Ord, Hash)]
pub enum PersonKindGroup {
    All,
    Hair(Option<Hair>),
    People(Option<Hair>, Option<People>),
    Tone(PersonKind),
}

/// The value of the people slot at a position among its 31 values: the absent one first,
/// then each one-or-two value alone and with each one-or-two value as children.
pub open spec fn people_value_at(i: int) -> Option<People> {
    if i == 0 {
        None
    } else {
        let p = all_one_or_two()[(i - 1) / 6];
        let j = (i - 1) % 6;
        Some(People { first: p, second: if j == 0 { None } else { Some(all_one_or_two()[j - 1]) } })
    }
}

/// The value of the tone slot at a position among its 31 values.
pub open spec fn tone_value_at(i: int) -> Option<Toning> {
    if i == 0 {
        None
    } else {
        let t = all_tones()[(i - 1) / 6];
        let j = (i - 1) % 6;
        Some(Toning { first: t, second: if j == 0 { None } else { Some(all_tones()[j - 1]) } })
    }
}

/// Whether a selector keeps the values that a group fixes.
pub open spec fn pins(g: PersonKindGroup, s: PersonKindSelector) -> bool {
    match g {
        PersonKindGroup::All => true,
        PersonKindGroup::Hair(h) => s.hair == Some(h),
        PersonKindGroup::People(h, p) => s.hair == Some(h) && s.people == Some(p),
        PersonKindGroup::Tone(k) => s == exact_selector(k),
    }
}

/// The keys that a group stands for.
pub open spec fn in_scope(g: PersonKindGroup, k: PersonKind) -> bool {
    match g {
        PersonKindGroup::All => true,
        PersonKindGroup::Hair(h) => k.hair == h,
        PersonKindGroup::People(h, p) => k.hair == h && k.people == p,
        PersonKindGroup::Tone(j) => k == j,
    }
}

/// The position of a hair value among the hair groups.
pub open spec fn hair_pos(h: Option<Hair>) -> int {
    match h {
        None => 0,
        Some(x) => 1 + hair_index(x) as int,
    }
}

/// The position of a people value among the people groups.
pub open spec fn people_pos(p: Option<People>) -> int {
    match p {
        None => 0,
        Some(v) => 1 + 6 * (one_or_two_index(v.first) as int) + match v.second {
            None => 0int,
            Some(c) => 1 + one_or_two_index(c) as int,
        },
    }
}

/// The position of a tone value among the tone groups.
pub open spec fn tone_pos(t: Option<Toning>) -> int {
    match t {
        None => 0,
        Some(v) => 1 + 6 * (tone_index(v.first) as int) + match v.second {
            None => 0int,
            Some(c) => 1 + tone_index(c) as int,
        },
    }
}

/// The position, among the groups below `g`, of the group of key `k`.
pub open spec fn kind_pos(g: PersonKindGroup, k: PersonKind) -> int {
    match g {
        PersonKindGroup::All => hair_pos(k.hair),
        PersonKindGroup::Hair(_) => people_pos(k.people),
        _ => tone_pos(k.tone),
    }
}

/// The position, among the groups below `g`, of the group whose values a selector pins.
pub open spec fn sel_pos(g: PersonKindGroup, s: PersonKindSelector) -> int {
    match g {
        PersonKindGroup::All => hair_pos(s.hair.unwrap()),
        PersonKindGroup::Hair(_) => people_pos(s.people.unwrap()),
        _ => tone_pos(s.tone.unwrap()),
    }
}

proof fn lemma_one_or_two_index(o: OneOrTwo)
    ensures
        0 <= one_or_two_index(o) < 5,
        all_one_or_two()[one_or_two_index(o) as int] == o,
{
}

proof fn lemma_one_or_two_at(j: int)
    requires
        0 <= j < 5,
    ensures
        one_or_two_index(all_one_or_two()[j]) == j,
{
}

proof fn lemma_tone_index(t: Tone)
    ensures
        0 <= tone_index(t) < 5,
        all_tones()[tone_index(t) as int] == t,
{
}

proof fn lemma_tone_at(j: int)
    requires
        0 <= j < 5,
    ensures
        tone_index(all_tones()[j]) == j,
{
}

proof fn lemma_hair_index(h: Hair)
    ensures
        0 <= hair_index(h) < 6,
        all_hair()[hair_index(h) as int] == h,
{
}

proof fn lemma_hair_at(j: int)
    requires
        0 <= j < 6,
    ensures
        hair_index(all_hair()[j]) == j,
{
}

proof fn lemma_div6(a: int, b: int)
    requires
        0 <= a,
        0 <= b < 6,
    ensures
        (6 * a + b) / 6 == a,
        (6 * a + b) % 6 == b,
{
    assert((6 * a + b) / 6 == a && (6 * a + b) % 6 == b) by (nonlinear_arith)
        requires 0 <= a, 0 <= b < 6;
}

proof fn lemma_people_pos(p: Option<People>)
    ensures
        0 <= people_pos(p) < 31,
        people_value_at(people_pos(p)) == p,
{
    match p {
        None => {},
        Some(v) => {
            lemma_one_or_two_index(v.first);
            let b: int = match v.second {
                None => 0,
                Some(c) => {
                    lemma_one_or_two_index(c);
                    1 + one_or_two_index(c) as int
                },
            };
            lemma_div6(one_or_two_index(v.first) as int, b);
        },
    }
}

proof fn lemma_people_at(i: int)
    requires
        0 <= i < 31,
    ensures
        people_pos(people_value_at(i)) == i,
{
    if i > 0 {
        assert(0 <= (i - 1) / 6 < 5 && 0 <= (i - 1) % 6 < 6 && i - 1 == 6 * ((i - 1) / 6) + (i - 1) % 6) by (nonlinear_arith)
            requires 0 < i < 31;
        lemma_one_or_two_at((i - 1) / 6);
        if (i - 1) % 6 > 0 {
            lemma_one_or_two_at((i - 1) % 6 - 1);
        }
    }
}

proof fn lemma_tone_pos(t: Option<Toning>)
    ensures
        0 <= tone_pos(t) < 31,
        tone_value_at(tone_pos(t)) == t,
{
    match t {
        None => {},
        Some(v) => {
            lemma_tone_index(v.first);
            let b: int = match v.second {
                None => 0,
                Some(c) => {
                    lemma_tone_index(c);
                    1 + tone_index(c) as int
                },
            };
            lemma_div6(tone_index(v.first) as int, b);
        },
    }
}

proof fn lemma_tone_at_pos(i: int)
    requires
        0 <= i < 31,
    ensures
        tone_pos(tone_value_at(i)) == i,
{
    if i > 0 {
        assert(0 <= (i - 1) / 6 < 5 && 0 <= (i - 1) % 6 < 6 && i - 1 == 6 * ((i - 1) / 6) + (i - 1) % 6) by (nonlinear_arith)
            requires 0 < i < 31;
        lemma_tone_at((i - 1) / 6);
        if (i - 1) % 6 > 0 {
            lemma_tone_at((i - 1) % 6 - 1);
        }
    }
}

/// A number for each key that orders keys as their derived order does: by hair, then people,
/// then tone, the absent value first.
pub open spec fn kind_code(k: PersonKind) -> int {
    hair_pos(k.hair) * 961 + people_pos(k.people) * 31 + tone_pos(k.tone)
}

proof fn lemma_hair_pos(h: Option<Hair>)
    ensures
        0 <= hair_pos(h) < 7,
        (if hair_pos(h) == 0 { None } else { Some(all_hair()[hair_pos(h) - 1]) }) == h,
{
    match h {
        None => {},
        Some(x) => { lemma_hair_index(x); },
    }
}

/// Distinct keys have distinct codes.
pub proof fn lemma_kind_code_injective(a: PersonKind, b: PersonKind)
    requires
        kind_code(a) == kind_code(b),
    ensures
        a == b,
{
    lemma_hair_pos(a.hair);
    lemma_hair_pos(b.hair);
    lemma_people_pos(a.people);
    lemma_people_pos(b.people);
    lemma_tone_pos(a.tone);
    lemma_tone_pos(b.tone);
    let (ha, pa, ta) = (hair_pos(a.hair), people_pos(a.people), tone_pos(a.tone));
    let (hb, pb, tb) = (hair_pos(b.hair), people_pos(b.people), tone_pos(b.tone));
    assert(ha == hb && pa == pb && ta == tb) by (nonlinear_arith)
        requires
            0 <= ha < 7, 0 <= hb < 7, 0 <= pa < 31, 0 <= pb < 31, 0 <= ta < 31, 0 <= tb < 31,
            ha * 961 + pa * 31 + ta == hb * 961 + pb * 31 + tb;
}

impl PersonKind {
    /// The number that orders this key among all keys.
    pub fn order_code(self) -> (r: usize)
        ensures
            r == kind_code(self),
    {
        proof {
            lemma_hair_pos(self.hair);
            lemma_people_pos(self.people);
            lemma_tone_pos(self.tone);
        }
        let h: usize = match self.hair {
            None => 0,
            Some(x) => 1 + x.id(),
        };
        let p: usize = match self.people {
            None => 0,
            Some(v) => 1 + 6 * v.first.to_id() + match v.second {
                None => 0,
                Some(c) => 1 + c.to_id(),
            },
        };
        let t: usize = match self.tone {
            None => 0,
            Some(v) => {
                proof { lemma_tone_index(v.first); }
                1 + 6 * v.first.id() + match v.second {
                    None => 0,
                    Some(c) => {
                        proof { lemma_tone_index(c); }
                        1 + c.id()
                    },
                }
            },
        };
        h * 961 + p * 31 + t
    }
}

/// Each key of a group lies in the group below it at its position.
pub proof fn lemma_child_scope(g: PersonKindGroup, k: PersonKind)
    requires
        !(g is Tone),
        in_scope(g, k),
    ensures
        next_groups(g) is Ok,
        0 <= kind_pos(g, k) < next_groups(g)->Ok_0.len(),
        in_scope(next_groups(g)->Ok_0[kind_pos(g, k)], k),
{
    match g {
        PersonKindGroup::All => {
            match k.hair {
                None => {},
                Some(h) => { lemma_hair_index(h); },
            }
        },
        PersonKindGroup::Hair(_) => { lemma_people_pos(k.people); },
        PersonKindGroup::People(_, _) => { lemma_tone_pos(k.tone); },
        _ => {},
    }
}

/// A selector that pins the values of the group below `g` at position `i` pins those of `g`,
/// fixes the dimension `g` leaves open, and has position `i`.
pub proof fn lemma_child_pins(g: PersonKindGroup, i: int, s: PersonKindSelector)
    requires
        !(g is Tone),
        next_groups(g) is Ok,
        0 <= i < next_groups(g)->Ok_0.len(),
        pins(next_groups(g)->Ok_0[i], s),
    ensures
        pins(g, s),
        sel_pos(g, s) == i,
        match g {
            PersonKindGroup::All => s.hair is Some,
            PersonKindGroup::Hair(_) => s.people is Some,
            _ => s.tone is Some,
        },
        forall|k: PersonKind| selects_spec(s, k) ==> kind_pos(g, k) == i,
{
    match g {
        PersonKindGroup::All => {
            if i > 0 {
                lemma_hair_at(i - 1);
            }
        },
        PersonKindGroup::Hair(_) => { lemma_people_at(i); },
        PersonKindGroup::People(_, _) => { lemma_tone_at_pos(i); },
        _ => {},
    }
}

/// The groups one level below `g`, or the single key that `g` stands for.
pub open spec fn next_groups(g: PersonKindGroup) -> Result<Seq<PersonKindGroup>, PersonKind> {
    match g {
        PersonKindGroup::All => Ok(
            Seq::new(
                7,
                |i: int| PersonKindGroup::Hair(if i == 0 { None } else { Some(all_hair()[i - 1]) }),
            ),
        ),
        PersonKindGroup::Hair(h) => Ok(
            Seq::new(31, |i: int| PersonKindGroup::People(h, people_value_at(i))),
        ),
        PersonKindGroup::People(h, p) => Ok(
            Seq::new(
                31,
                |i: int| PersonKindGroup::Tone(PersonKind { hair: h, people: p, tone: tone_value_at(i) }),
            ),
        ),
        PersonKindGroup::Tone(k) => Err(k),
    }
}

/// The depth of a group: how many levels lie below it.
pub open spec fn group_depth(g: PersonKindGroup) -> nat {
    match g {
        PersonKindGroup::All => 3,
        PersonKindGroup::Hair(_) => 2,
        PersonKindGroup::People(_, _) => 1,
        PersonKindGroup::Tone(_) => 0,
    }
}

impl PersonKindGroup {
    /// The groups one level below this one, or the single key this group stands for.
    pub fn next_iter(self) -> (r: Result<Vec<PersonKindGroup>, PersonKind>)
        ensures
            match (r, next_groups(self)) {
                (Ok(v), Ok(s)) => v@ == s,
                (Err(k), Err(j)) => k == j,
                _ => false,
            },
    {
        match self {
            PersonKindGroup::All => {
                let hairs = Hair::all();
                let mut v: Vec<PersonKindGroup> = Vec::new();
                v.push(PersonKindGroup::Hair(None));
                let mut i: usize = 0;
                while i < hairs.len()
                    invariant
                        hairs@ == all_hair(),
                        i <= hairs@.len(),
                        v@.len() == i + 1,
                        forall|j: int| 0 <= j < v@.len() ==> v@[j] == PersonKindGroup::Hair(
                            if j == 0 { None } else { Some(all_hair()[j - 1]) },
                        ),
                    decreases hairs@.len() - i,
                {
                    v.push(PersonKindGroup::Hair(Some(hairs[i])));
                    i = i + 1;
                }
                assert(v@ =~= Seq::new(
                    7,
                    |i: int| PersonKindGroup::Hair(if i == 0 { None } else { Some(all_hair()[i - 1]) }),
                ));
                Ok(v)
            },
            PersonKindGroup::Hair(h) => {
                let all = OneOrTwo::all();
                let mut v: Vec<PersonKindGroup> = Vec::new();
                v.push(PersonKindGroup::People(h, None));
                let mut i: usize = 0;
                while i < 5
                    invariant
                        all@ == all_one_or_two(),
                        i <= 5,
                        v@.len() == 6 * i + 1,
                        forall|j: int| 0 <= j < v@.len() ==> v@[j] == PersonKindGroup::People(h, people_value_at(j)),
                    decreases 5 - i,
                {
                    let p = all[i];
                    v.push(PersonKindGroup::People(h, Some(People { first: p, second: None })));
                    let mut s: usize = 0;
                    while s < 5
                        invariant
                            all@ == all_one_or_two(),
                            i < 5,
                            s <= 5,
                            p == all_one_or_two()[i as int],
                            v@.len() == 6 * i + 2 + s,
                            forall|j: int| 0 <= j < v@.len() ==> v@[j] == PersonKindGroup::People(h, people_value_at(j)),
                        decreases 5 - s,
                    {
                        assert((6 * i + 2 + s - 1) / 6 == i && (6 * i + 2 + s - 1) % 6 == s + 1) by (nonlinear_arith)
                            requires s < 5;
                        v.push(PersonKindGroup::People(h, Some(People { first: p, second: Some(all[s]) })));
                        s = s + 1;
                    }
                    assert((6 * i + 1) / 6 == i && (6 * i + 1) % 6 == 1) by (nonlinear_arith);
                    i = i + 1;
                }
                assert(v@ =~= Seq::new(31, |i: int| PersonKindGroup::People(h, people_value_at(i))));
                Ok(v)
            },
            PersonKindGroup::People(h, pp) => {
                let all = Tone::all();
                let mut v: Vec<PersonKindGroup> = Vec::new();
                v.push(PersonKindGroup::Tone(PersonKind { hair: h, people: pp, tone: None }));
                let mut i: usize = 0;
                while i < 5
                    invariant
                        all@ == all_tones(),
                        i <= 5,
                        v@.len() == 6 * i + 1,
                        forall|j: int| 0 <= j < v@.len() ==> v@[j] == PersonKindGroup::Tone(
                            PersonKind { hair: h, people: pp, tone: tone_value_at(j) },
                        ),
                    decreases 5 - i,
                {
                    let t = all[i];
                    v.push(PersonKindGroup::Tone(PersonKind { hair: h, people: pp, tone: Some(Toning { first: t, second: None }) }));
                    let mut s: usize = 0;
                    while s < 5
                        invariant
                            all@ == all_tones(),
                            i < 5,
                            s <= 5,
                            t == all_tones()[i as int],
                            v@.len() == 6 * i + 2 + s,
                            forall|j: int| 0 <= j < v@.len() ==> v@[j] == PersonKindGroup::Tone(
                                PersonKind { hair: h, people: pp, tone: tone_value_at(j) },
                            ),
                        decreases 5 - s,
                    {
                        assert((6 * i + 2 + s - 1) / 6 == i && (6 * i + 2 + s - 1) % 6 == s + 1) by (nonlinear_arith)
                            requires s < 5;
                        v.push(PersonKindGroup::Tone(PersonKind { hair: h, people: pp, tone: Some(Toning { first: t, second: Some(all[s]) }) }));
                        s = s + 1;
                    }
                    assert((6 * i + 1) / 6 == i && (6 * i + 1) % 6 == 1) by (nonlinear_arith);
                    i = i + 1;
                }
                assert(v@ =~= Seq::new(
                    31,
                    |i: int| PersonKindGroup::Tone(PersonKind { hair: h, people: pp, tone: tone_value_at(i) }),
                ));
                Ok(v)
            },
            PersonKindGroup::Tone(k) => Err(k),
        }
    }
}

} // verus!
