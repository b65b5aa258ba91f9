//! Emojis as a program uses them, and composers that pick a variant by attribute.
use vstd::prelude::*;
use core::marker::PhantomData;
use crate::attributes::{Family, Gender, Hair, OneOrTwo, Pair, Tone, TonePair, Version, gender_index, hair_index, one_or_two_index, pair_index, tone_index};

verus! {

/// A specific emoji: its name, the version that introduced it and its grapheme.
#[derive(Debug, Clone, Copy)]
pub struct Emoji {
    pub name: &'static str,
    pub since: Version,
    pub grapheme: &'static str,
}

impl Emoji {
    /// An emoji from its parts.
    pub fn new(name: &'static str, since: Version, grapheme: &'static str) -> (r: Emoji)
        ensures
            r.name == name,
            r.since == since,
            r.grapheme == grapheme,
    {
        Emoji { name, since, grapheme }
    }
}

/// A set of variants told apart by the attribute `M`, without a default variant.
#[derive(Debug)]
pub struct WithNoDef<M, T> {
    entries: Vec<T>,
    _m: PhantomData<M>,
}

/// A set of variants told apart by the attribute `M`, with a default variant.
#[derive(Debug)]
pub struct With<M, T> {
    pub default: T,
    entries: Vec<T>,
    _m: PhantomData<M>,
}

impl<M, T> WithNoDef<M, T> {
    /// The variants, one per value of the attribute, in its natural order.
    pub closed spec fn entries(&self) -> Seq<T> {
        self.entries@
    }

    /// The set of `entries`.
    pub fn new(entries: Vec<T>) -> (r: Self)
        ensures
            r.entries() == entries@,
    {
        WithNoDef { entries, _m: PhantomData }
    }
}

impl<M, T> With<M, T> {
    /// The default variant.
    pub closed spec fn default_variant(&self) -> T {
        self.default
    }

    /// The variants, one per value of the attribute, in its natural order.
    pub closed spec fn entries(&self) -> Seq<T> {
        self.entries@
    }

    /// The set of `entries` with the default variant `default`.
    pub fn new(default: T, entries: Vec<T>) -> (r: Self)
        ensures
            r.entries() == entries@,
            r.default_variant() == default,
    {
        With { default, entries, _m: PhantomData }
    }
}

} // verus!

verus! {

impl<T> With<Tone, T> {
    /// The variant of the given skin tone.
    pub fn tone(&self, tone: Tone) -> (r: &T)
        requires
            self.entries().len() >= 5,
        ensures
            *r == self.entries()[(tone_index(tone)) as int],
    {
        &self.entries[tone.id()]
    }

}

impl<T> With<TonePair, T> {
    /// The variant of the given pair of skin tones.
    pub fn tone(&self, tone: TonePair) -> (r: &T)
        requires
            self.entries().len() >= 25,
        ensures
            *r == self.entries()[(tone_index(tone.left) * 5 + tone_index(tone.right)) as int],
    {
        &self.entries[tone.to_id()]
    }

    /// The variant of the given pair of skin tones.
    pub fn tone_pair(&self, tone_pair: TonePair) -> (r: &T)
        requires
            self.entries().len() >= 25,
        ensures
            *r == self.entries()[(tone_index(tone_pair.left) * 5 + tone_index(tone_pair.right)) as int],
    {
        &self.entries[tone_pair.to_id()]
    }

}

impl<T> With<Gender, T> {
    /// The variant of the given gender.
    pub fn gender(&self, gender: Gender) -> (r: &T)
        requires
            self.entries().len() >= 2,
        ensures
            *r == self.entries()[(gender_index(gender)) as int],
    {
        &self.entries[gender.id()]
    }

}

impl<T> With<Hair, T> {
    /// The variant of the given hair style.
    pub fn hair(&self, hair: Hair) -> (r: &T)
        requires
            self.entries().len() >= 6,
        ensures
            *r == self.entries()[(hair_index(hair)) as int],
    {
        &self.entries[hair.id()]
    }

}

impl<T> With<Pair, T> {
    /// The variant of the given gender pair.
    pub fn gender(&self, pair: Pair) -> (r: &T)
        requires
            self.entries().len() >= 3,
        ensures
            *r == self.entries()[(pair_index(pair)) as int],
    {
        &self.entries[pair.id()]
    }

    /// The variant of the given gender pair.
    pub fn pair(&self, pair: Pair) -> (r: &T)
        requires
            self.entries().len() >= 3,
        ensures
            *r == self.entries()[(pair_index(pair)) as int],
    {
        &self.entries[pair.id()]
    }

}

impl<T> With<OneOrTwo, T> {
    /// The variant of the given one or two people.
    pub fn gender(&self, oot: OneOrTwo) -> (r: &T)
        requires
            self.entries().len() >= 5,
        ensures
            *r == self.entries()[(one_or_two_index(oot)) as int],
    {
        &self.entries[oot.to_id()]
    }

    /// The variant of the given one or two people.
    pub fn pair(&self, oot: OneOrTwo) -> (r: &T)
        requires
            self.entries().len() >= 5,
        ensures
            *r == self.entries()[(one_or_two_index(oot)) as int],
    {
        &self.entries[oot.to_id()]
    }

}

impl<T> With<Family, T> {
    /// The variant of the given family.
    pub fn gender(&self, family: Family) -> (r: &T)
        requires
            self.entries().len() >= 25,
        ensures
            *r == self.entries()[(one_or_two_index(family.parents) * 5 + one_or_two_index(family.children)) as int],
    {
        &self.entries[family.to_id()]
    }

    /// The variant of the given family.
    pub fn family(&self, family: Family) -> (r: &T)
        requires
            self.entries().len() >= 25,
        ensures
            *r == self.entries()[(one_or_two_index(family.parents) * 5 + one_or_two_index(family.children)) as int],
    {
        &self.entries[family.to_id()]
    }

}

impl<T> WithNoDef<Tone, T> {
    /// The variant of the given skin tone.
    pub fn tone(&self, tone: Tone) -> (r: &T)
        requires
            self.entries().len() >= 5,
        ensures
            *r == self.entries()[(tone_index(tone)) as int],
    {
        &self.entries[tone.id()]
    }

}

impl<T> WithNoDef<TonePair, T> {
    /// The variant of the given pair of skin tones.
    pub fn tone(&self, tone: TonePair) -> (r: &T)
        requires
            self.entries().len() >= 25,
        ensures
            *r == self.entries()[(tone_index(tone.left) * 5 + tone_index(tone.right)) as int],
    {
        &self.entries[tone.to_id()]
    }

    /// The variant of the given pair of skin tones.
    pub fn tone_pair(&self, tone_pair: TonePair) -> (r: &T)
        requires
            self.entries().len() >= 25,
        ensures
            *r == self.entries()[(tone_index(tone_pair.left) * 5 + tone_index(tone_pair.right)) as int],
    {
        &self.entries[tone_pair.to_id()]
    }

}

impl<T> WithNoDef<Gender, T> {
    /// The variant of the given gender.
    pub fn gender(&self, gender: Gender) -> (r: &T)
        requires
            self.entries().len() >= 2,
        ensures
            *r == self.entries()[(gender_index(gender)) as int],
    {
        &self.entries[gender.id()]
    }

}

impl<T> WithNoDef<Hair, T> {
    /// The variant of the given hair style.
    pub fn hair(&self, hair: Hair) -> (r: &T)
        requires
            self.entries().len() >= 6,
        ensures
            *r == self.entries()[(hair_index(hair)) as int],
    {
        &self.entries[hair.id()]
    }

}

impl<T> WithNoDef<Pair, T> {
    /// The variant of the given gender pair.
    pub fn gender(&self, pair: Pair) -> (r: &T)
        requires
            self.entries().len() >= 3,
        ensures
            *r == self.entries()[(pair_index(pair)) as int],
    {
        &self.entries[pair.id()]
    }

    /// The variant of the given gender pair.
    pub fn pair(&self, pair: Pair) -> (r: &T)
        requires
            self.entries().len() >= 3,
        ensures
            *r == self.entries()[(pair_index(pair)) as int],
    {
        &self.entries[pair.id()]
    }

}

impl<T> WithNoDef<OneOrTwo, T> {
    /// The variant of the given one or two people.
    pub fn gender(&self, oot: OneOrTwo) -> (r: &T)
        requires
            self.entries().len() >= 5,
        ensures
            *r == self.entries()[(one_or_two_index(oot)) as int],
    {
        &self.entries[oot.to_id()]
    }

    /// The variant of the given one or two people.
    pub fn pair(&self, oot: OneOrTwo) -> (r: &T)
        requires
            self.entries().len() >= 5,
        ensures
            *r == self.entries()[(one_or_two_index(oot)) as int],
    {
        &self.entries[oot.to_id()]
    }

}

impl<T> WithNoDef<Family, T> {
    /// The variant of the given family.
    pub fn gender(&self, family: Family) -> (r: &T)
        requires
            self.entries().len() >= 25,
        ensures
            *r == self.entries()[(one_or_two_index(family.parents) * 5 + one_or_two_index(family.children)) as int],
    {
        &self.entries[family.to_id()]
    }

    /// The variant of the given family.
    pub fn family(&self, family: Family) -> (r: &T)
        requires
            self.entries().len() >= 25,
        ensures
            *r == self.entries()[(one_or_two_index(family.parents) * 5 + one_or_two_index(family.children)) as int],
    {
        &self.entries[family.to_id()]
    }

}

} // verus!
