use vstd::prelude::*;
use crate::strs::eq_fold;
use crate::strs::str_eq_fold;

verus! {

/// Unicode Emoji version: major and minor number.
#[derive(Debug, Clone, Copy, PartialEq, Eq, Structural, PartialOrd, Ord, Hash)]
pub struct Version(pub u64, pub u64);

/// Skin tone, from the least to the most pigmented.
#[derive(Debug, Clone, Copy, PartialEq, Eq, Structural, PartialOrd, Ord, Hash)]
pub enum Tone {
    Light,
    MediumLight,
    Medium,
    MediumDark,
    Dark,
}

/// Position of a tone in the natural order.
pub open spec fn tone_index(t: Tone) -> nat {
    match t {
        Tone::Light => 0,
        Tone::MediumLight => 1,
        Tone::Medium => 2,
        Tone::MediumDark => 3,
        Tone::Dark => 4,
    }
}

/// Every tone, in natural order.
pub open spec fn all_tones() -> Seq<Tone> {
    seq![Tone::Light, Tone::MediumLight, Tone::Medium, Tone::MediumDark, Tone::Dark]
}

/// The tone that a lower-case word of the data feed names.
pub open spec fn tone_of_word(s: Seq<char>) -> Option<Tone> {
    if eq_fold(s, "light"@) {
        Some(Tone::Light)
    } else if eq_fold(s, "medium-light"@) {
        Some(Tone::MediumLight)
    } else if eq_fold(s, "medium"@) {
        Some(Tone::Medium)
    } else if eq_fold(s, "medium-dark"@) {
        Some(Tone::MediumDark)
    } else if eq_fold(s, "dark"@) {
        Some(Tone::Dark)
    } else {
        None
    }
}

/// Descriptive name of a tone.
pub open spec fn tone_name(t: Tone) -> Seq<char> {
    match t {
        Tone::Light => "light skin tone"@,
        Tone::MediumLight => "medium-light skin tone"@,
        Tone::Medium => "medium skin tone"@,
        Tone::MediumDark => "medium-dark skin tone"@,
        Tone::Dark => "dark skin tone"@,
    }
}

/// Descriptive name of a hair style.
pub open spec fn hair_name(h: Hair) -> Seq<char> {
    match h {
        Hair::Beard => "beard"@,
        Hair::Bald => "no hair"@,
        Hair::Blond => "blond hair"@,
        Hair::Red => "red hair"@,
        Hair::Curly => "curly hair"@,
        Hair::White => "white hair"@,
    }
}

/// Descriptive name of a one-or-two value as adults.
pub open spec fn adults_name(o: OneOrTwo) -> Seq<char> {
    match o {
        OneOrTwo::One(g) => g.name_adults_spec(),
        OneOrTwo::Two(p) => p.name_adults_spec(),
    }
}

/// Descriptive name of a one-or-two value as children.
pub open spec fn children_name(o: OneOrTwo) -> Seq<char> {
    match o {
        OneOrTwo::One(g) => g.name_children_spec(),
        OneOrTwo::Two(p) => p.name_children_spec(),
    }
}

impl Tone {
    /// Every tone, in natural order.
    pub fn all() -> (r: Vec<Tone>)
        ensures
            r@ == all_tones(),
    {
        let r = vec![Tone::Light, Tone::MediumLight, Tone::Medium, Tone::MediumDark, Tone::Dark];
        assert(r@ =~= all_tones());
        r
    }

    /// Position of this tone in the natural order.
    pub fn id(self) -> (r: usize)
        ensures
            r == tone_index(self),
    {
        match self {
            Tone::Light => 0,
            Tone::MediumLight => 1,
            Tone::Medium => 2,
            Tone::MediumDark => 3,
            Tone::Dark => 4,
        }
    }

    /// Descriptive name of this tone.
    pub fn name(self) -> (r: &'static str)
        ensures
            r@ == tone_name(self),
            self == Tone::Light ==> r@ == "light skin tone"@,
            self == Tone::MediumLight ==> r@ == "medium-light skin tone"@,
            self == Tone::Medium ==> r@ == "medium skin tone"@,
            self == Tone::MediumDark ==> r@ == "medium-dark skin tone"@,
            self == Tone::Dark ==> r@ == "dark skin tone"@,
    {
        match self {
            Tone::Light => "light skin tone",
            Tone::MediumLight => "medium-light skin tone",
            Tone::Medium => "medium skin tone",
            Tone::MediumDark => "medium-dark skin tone",
            Tone::Dark => "dark skin tone",
        }
    }

    /// Reads a tone word of the data feed (`medium-dark`), ignoring ASCII case.
    pub fn from_word(s: &str) -> (r: Option<Tone>)
        ensures
            r == tone_of_word(s@),
    {
        if str_eq_fold(s, "light") {
            Some(Tone::Light)
        } else if str_eq_fold(s, "medium-light") {
            Some(Tone::MediumLight)
        } else if str_eq_fold(s, "medium") {
            Some(Tone::Medium)
        } else if str_eq_fold(s, "medium-dark") {
            Some(Tone::MediumDark)
        } else if str_eq_fold(s, "dark") {
            Some(Tone::Dark)
        } else {
            None
        }
    }
}

/// Two independent skin tones, for emojis showing two people.
#[derive(Debug, Clone, Copy, PartialEq, Eq, Structural, PartialOrd, Ord, Hash)]
pub struct TonePair {
    pub left: Tone,
    pub right: Tone,
}

impl TonePair {
    /// Index of this pair among the 25 pairs, left tone first.
    pub fn to_id(self) -> (r: usize)
        ensures
            r == tone_index(self.left) * 5 + tone_index(self.right),
            r < 25,
    {
        self.left.id() * 5 + self.right.id()
    }

    /// The pair with the same tone on both sides.
    pub fn both(t: Tone) -> (r: TonePair)
        ensures
            r == (TonePair { left: t, right: t }),
    {
        TonePair { left: t, right: t }
    }
}

/// Gender of one person.
#[derive(Debug, Clone, Copy, PartialEq, Eq, Structural, PartialOrd, Ord, Hash)]
pub enum Gender {
    Male,
    Female,
}

/// Position of a gender in the natural order.
pub open spec fn gender_index(g: Gender) -> nat {
    match g {
        Gender::Male => 0,
        Gender::Female => 1,
    }
}

/// Gender of a pair of people.
#[derive(Debug, Clone, Copy, PartialEq, Eq, Structural, PartialOrd, Ord, Hash)]
pub enum Pair {
    Males,
    Mixed,
    Females,
}

/// Position of a pair in the natural order.
pub open spec fn pair_index(p: Pair) -> nat {
    match p {
        Pair::Males => 0,
        Pair::Mixed => 1,
        Pair::Females => 2,
    }
}

/// The pair made of two people of the given genders, in either order.
pub open spec fn pair_of(a: Gender, b: Gender) -> Pair {
    if a == Gender::Male && b == Gender::Male {
        Pair::Males
    } else if a == Gender::Female && b == Gender::Female {
        Pair::Females
    } else {
        Pair::Mixed
    }
}

/// One person or two people.
#[derive(Debug, Clone, Copy, PartialEq, Eq, Structural, PartialOrd, Ord, Hash)]
pub enum OneOrTwo {
    One(Gender),
    Two(Pair),
}

/// Position of a one-or-two value in the natural order.
pub open spec fn one_or_two_index(o: OneOrTwo) -> nat {
    match o {
        OneOrTwo::One(g) => gender_index(g),
        OneOrTwo::Two(p) => 2 + pair_index(p),
    }
}

/// Every one-or-two value, in natural order.
pub open spec fn all_one_or_two() -> Seq<OneOrTwo> {
    seq![
        OneOrTwo::One(Gender::Male),
        OneOrTwo::One(Gender::Female),
        OneOrTwo::Two(Pair::Males),
        OneOrTwo::Two(Pair::Mixed),
        OneOrTwo::Two(Pair::Females),
    ]
}

/// Parents and children of a family.
#[derive(Debug, Clone, Copy, PartialEq, Eq, Structural, PartialOrd, Ord, Hash)]
pub struct Family {
    pub parents: OneOrTwo,
    pub children: OneOrTwo,
}

impl Gender {
    /// Both genders, in natural order.
    pub fn all() -> (r: Vec<Gender>)
        ensures
            r@ == seq![Gender::Male, Gender::Female],
    {
        let r = vec![Gender::Male, Gender::Female];
        assert(r@ =~= seq![Gender::Male, Gender::Female]);
        r
    }

    /// Position of this gender in the natural order.
    pub fn id(self) -> (r: usize)
        ensures
            r == gender_index(self),
    {
        match self {
            Gender::Male => 0,
            Gender::Female => 1,
        }
    }

    /// The family with `self` as the one parent.
    pub fn with_children(self, children: OneOrTwo) -> (r: Family)
        ensures
            r == (Family { parents: OneOrTwo::One(self), children }),
    {
        Family { parents: OneOrTwo::One(self), children }
    }

    /// Descriptive name of this gender as an adult.
    pub fn name_adults(self) -> (r: &'static str)
        ensures
            self == Gender::Male ==> r@ == "man"@,
            self == Gender::Female ==> r@ == "woman"@,
    {
        match self {
            Gender::Male => "man",
            Gender::Female => "woman",
        }
    }

    /// Descriptive name of this gender as a child.
    pub fn name_children(self) -> (r: &'static str)
        ensures
            self == Gender::Male ==> r@ == "boy"@,
            self == Gender::Female ==> r@ == "girl"@,
    {
        match self {
            Gender::Male => "boy",
            Gender::Female => "girl",
        }
    }
}

impl Pair {
    /// The three pairs, in natural order.
    pub fn all() -> (r: Vec<Pair>)
        ensures
            r@ == seq![Pair::Males, Pair::Mixed, Pair::Females],
    {
        let r = vec![Pair::Males, Pair::Mixed, Pair::Females];
        assert(r@ =~= seq![Pair::Males, Pair::Mixed, Pair::Females]);
        r
    }

    /// Position of this pair in the natural order.
    pub fn id(self) -> (r: usize)
        ensures
            r == pair_index(self),
    {
        match self {
            Pair::Males => 0,
            Pair::Mixed => 1,
            Pair::Females => 2,
        }
    }

    /// The pair made of two people of the given genders, in either order.
    pub fn from_genders(a: Gender, b: Gender) -> (r: Pair)
        ensures
            r == pair_of(a, b),
    {
        match (a, b) {
            (Gender::Male, Gender::Male) => Pair::Males,
            (Gender::Female, Gender::Female) => Pair::Females,
            _ => Pair::Mixed,
        }
    }

    /// The family with `self` as the two parents.
    pub fn with_children(self, children: OneOrTwo) -> (r: Family)
        ensures
            r == (Family { parents: OneOrTwo::Two(self), children }),
    {
        Family { parents: OneOrTwo::Two(self), children }
    }

    /// Descriptive name of this pair as adults.
    pub fn name_adults(self) -> (r: &'static str)
        ensures
            self == Pair::Males ==> r@ == "men"@,
            self == Pair::Mixed ==> r@ == "man & woman"@,
            self == Pair::Females ==> r@ == "women"@,
    {
        match self {
            Pair::Males => "men",
            Pair::Mixed => "man & woman",
            Pair::Females => "women",
        }
    }

    /// Descriptive name of this pair as children.
    pub fn name_children(self) -> (r: &'static str)
        ensures
            self == Pair::Males ==> r@ == "boys"@,
            self == Pair::Mixed ==> r@ == "boy & girl"@,
            self == Pair::Females ==> r@ == "girls"@,
    {
        match self {
            Pair::Males => "boys",
            Pair::Mixed => "boy & girl",
            Pair::Females => "girls",
        }
    }
}

impl OneOrTwo {
    /// Every one-or-two value, in natural order.
    pub fn all() -> (r: Vec<OneOrTwo>)
        ensures
            r@ == all_one_or_two(),
    {
        let r = vec![
            OneOrTwo::One(Gender::Male),
            OneOrTwo::One(Gender::Female),
            OneOrTwo::Two(Pair::Males),
            OneOrTwo::Two(Pair::Mixed),
            OneOrTwo::Two(Pair::Females),
        ];
        assert(r@ =~= all_one_or_two());
        r
    }

    /// Index of this value among the five.
    pub fn to_id(self) -> (r: usize)
        ensures
            r == one_or_two_index(self),
            r < 5,
    {
        match self {
            OneOrTwo::One(g) => g.id(),
            OneOrTwo::Two(p) => 2 + p.id(),
        }
    }

    /// The family with `self` as parents.
    pub fn with_children(self, children: OneOrTwo) -> (r: Family)
        ensures
            r == (Family { parents: self, children }),
    {
        Family { parents: self, children }
    }

    /// Descriptive name of this value as adults.
    pub fn name_adults(self) -> (r: &'static str)
        ensures
            r@ == adults_name(self),
            forall|g: Gender| self == OneOrTwo::One(g) ==> r@ == g.name_adults_spec(),
            forall|p: Pair| self == OneOrTwo::Two(p) ==> r@ == p.name_adults_spec(),
    {
        match self {
            OneOrTwo::One(g) => g.name_adults(),
            OneOrTwo::Two(p) => p.name_adults(),
        }
    }

    /// Descriptive name of this value as children.
    pub fn name_children(self) -> (r: &'static str)
        ensures
            r@ == children_name(self),
            forall|g: Gender| self == OneOrTwo::One(g) ==> r@ == g.name_children_spec(),
            forall|p: Pair| self == OneOrTwo::Two(p) ==> r@ == p.name_children_spec(),
    {
        match self {
            OneOrTwo::One(g) => g.name_children(),
            OneOrTwo::Two(p) => p.name_children(),
        }
    }
}

impl Gender {
    pub open spec fn name_adults_spec(self) -> Seq<char> {
        if self == Gender::Male { "man"@ } else { "woman"@ }
    }

    pub open spec fn name_children_spec(self) -> Seq<char> {
        if self == Gender::Male { "boy"@ } else { "girl"@ }
    }
}

impl Pair {
    pub open spec fn name_adults_spec(self) -> Seq<char> {
        match self {
            Pair::Males => "men"@,
            Pair::Mixed => "man & woman"@,
            Pair::Females => "women"@,
        }
    }

    pub open spec fn name_children_spec(self) -> Seq<char> {
        match self {
            Pair::Males => "boys"@,
            Pair::Mixed => "boy & girl"@,
            Pair::Females => "girls"@,
        }
    }
}

impl Family {
    /// Index of this family among the 25, parents first.
    pub fn to_id(self) -> (r: usize)
        ensures
            r == one_or_two_index(self.parents) * 5 + one_or_two_index(self.children),
            r < 25,
    {
        self.parents.to_id() * 5 + self.children.to_id()
    }
}

/// Hair style.
#[derive(Debug, Clone, Copy, PartialEq, Eq, Structural, PartialOrd, Ord, Hash)]
pub enum Hair {
    Beard,
    Blond,
    Red,
    Curly,
    White,
    Bald,
}

/// Position of a hair style in the natural order.
pub open spec fn hair_index(h: Hair) -> nat {
    match h {
        Hair::Beard => 0,
        Hair::Blond => 1,
        Hair::Red => 2,
        Hair::Curly => 3,
        Hair::White => 4,
        Hair::Bald => 5,
    }
}

/// Every hair style, in natural order.
pub open spec fn all_hair() -> Seq<Hair> {
    seq![Hair::Beard, Hair::Blond, Hair::Red, Hair::Curly, Hair::White, Hair::Bald]
}

/// The hair style that a word of the data feed names.
pub open spec fn hair_of_word(s: Seq<char>) -> Option<Hair> {
    if eq_fold(s, "beard"@) {
        Some(Hair::Beard)
    } else if eq_fold(s, "blond"@) {
        Some(Hair::Blond)
    } else if eq_fold(s, "red"@) {
        Some(Hair::Red)
    } else if eq_fold(s, "curly"@) {
        Some(Hair::Curly)
    } else if eq_fold(s, "white"@) {
        Some(Hair::White)
    } else if eq_fold(s, "bald"@) {
        Some(Hair::Bald)
    } else {
        None
    }
}

impl Hair {
    /// Every hair style, in natural order.
    pub fn all() -> (r: Vec<Hair>)
        ensures
            r@ == all_hair(),
    {
        let r = vec![Hair::Beard, Hair::Blond, Hair::Red, Hair::Curly, Hair::White, Hair::Bald];
        assert(r@ =~= all_hair());
        r
    }

    /// Position of this hair style in the natural order.
    pub fn id(self) -> (r: usize)
        ensures
            r == hair_index(self),
    {
        match self {
            Hair::Beard => 0,
            Hair::Blond => 1,
            Hair::Red => 2,
            Hair::Curly => 3,
            Hair::White => 4,
            Hair::Bald => 5,
        }
    }

    /// Descriptive name of this hair style.
    pub fn name(self) -> (r: &'static str)
        ensures
            r@ == hair_name(self),
            self == Hair::Beard ==> r@ == "beard"@,
            self == Hair::Bald ==> r@ == "no hair"@,
            self == Hair::Blond ==> r@ == "blond hair"@,
            self == Hair::Red ==> r@ == "red hair"@,
            self == Hair::Curly ==> r@ == "curly hair"@,
            self == Hair::White ==> r@ == "white hair"@,
    {
        match self {
            Hair::Beard => "beard",
            Hair::Bald => "no hair",
            Hair::Blond => "blond hair",
            Hair::Red => "red hair",
            Hair::Curly => "curly hair",
            Hair::White => "white hair",
        }
    }

    /// Reads a hair word of the data feed (`curly`), ignoring ASCII case.
    pub fn from_word(s: &str) -> (r: Option<Hair>)
        ensures
            r == hair_of_word(s@),
    {
        if str_eq_fold(s, "beard") {
            Some(Hair::Beard)
        } else if str_eq_fold(s, "blond") {
            Some(Hair::Blond)
        } else if str_eq_fold(s, "red") {
            Some(Hair::Red)
        } else if str_eq_fold(s, "curly") {
            Some(Hair::Curly)
        } else if str_eq_fold(s, "white") {
            Some(Hair::White)
        } else if str_eq_fold(s, "bald") {
            Some(Hair::Bald)
        } else {
            None
        }
    }
}

} // verus!

verus! {

/// The number that a string of decimal digits spells.
pub open spec fn digits_value(s: Seq<char>) -> nat
    decreases s.len(),
{
    if s.len() == 0 {
        0
    } else {
        digits_value(s.drop_last()) * 10 + ((s.last() as u32) - ('0' as u32)) as nat
    }
}

/// Whether a string is a non-empty run of decimal digits.
pub open spec fn all_digits(s: Seq<char>) -> bool {
    s.len() > 0 && forall|i: int| 0 <= i < s.len() ==> '0' <= #[trigger] s[i] && s[i] <= '9'
}

fn parse_u64(s: &str) -> (r: Option<u64>)
    ensures
        r matches Some(v) ==> all_digits(s@) && v as nat == digits_value(s@),
        all_digits(s@) && digits_value(s@) <= u64::MAX ==> r is Some,
{
    let n = s.unicode_len();
    if n == 0 {
        return None;
    }
    let mut v: u64 = 0;
    let mut i: usize = 0;
    while i < n
        invariant
            n == s@.len(),
            i <= n,
            forall|j: int| 0 <= j < i ==> '0' <= #[trigger] s@[j] && s@[j] <= '9',
            v as nat == digits_value(s@.take(i as int)),
        decreases n - i,
    {
        let c = s.get_char(i);
        proof {
            assert(s@.take(i + 1).drop_last() =~= s@.take(i as int));
        }
        if c < '0' || c > '9' {
            return None;
        }
        let d = (c as u32 - '0' as u32) as u64;
        if v > (u64::MAX - d) / 10 {
            proof {
                lemma_digits_prefix_bound(s@, i + 1);
                assert(digits_value(s@.take(i + 1)) == v * 10 + d);
                assert(v * 10 + d > u64::MAX) by (nonlinear_arith)
                    requires v > (u64::MAX - d) / 10, d <= 9;
            }
            return None;
        }
        assert(v * 10 + d <= u64::MAX) by (nonlinear_arith)
            requires v <= (u64::MAX - d) / 10, d <= 9;
        v = v * 10 + d;
        i = i + 1;
    }
    assert(s@.take(n as int) =~= s@);
    Some(v)
}

proof fn lemma_digits_prefix_bound(s: Seq<char>, k: int)
    requires
        0 <= k <= s.len(),
        forall|i: int| 0 <= i < k ==> '0' <= #[trigger] s[i] && s[i] <= '9',
    ensures
        all_digits(s) ==> digits_value(s.take(k)) <= digits_value(s),
    decreases s.len() - k,
{
    if k < s.len() && all_digits(s) {
        lemma_digits_prefix_bound(s, k + 1);
        assert(s.take(k + 1).drop_last() =~= s.take(k));
    } else if k == s.len() {
        assert(s.take(k) =~= s);
    }
}

impl Version {
    /// Reads a version written `major.minor`, each a run of decimal digits.
    pub fn parse(s: &str) -> (r: Option<Version>)
        ensures
            r matches Some(v) ==> exists|k: int| 0 <= k < s@.len() && s@[k] == '.'
                && all_digits(s@.take(k)) && all_digits(s@.skip(k + 1))
                && v.0 as nat == digits_value(s@.take(k)) && v.1 as nat == digits_value(s@.skip(k + 1)),
    {
        let n = s.unicode_len();
        let mut k: usize = 0;
        while k < n && s.get_char(k) != '.'
            invariant
                n == s@.len(),
                k <= n,
            decreases n - k,
        {
            k = k + 1;
        }
        if k >= n {
            return None;
        }
        let major = s.substring_char(0, k);
        let minor = s.substring_char(k + 1, n);
        match (parse_u64(major), parse_u64(minor)) {
            (Some(a), Some(b)) => {
                assert(s@.skip(k + 1) =~= minor@);
                Some(Version(a, b))
            },
            _ => None,
        }
    }
}

} // verus!
