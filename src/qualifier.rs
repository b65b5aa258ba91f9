//! Qualification of a set of variants over one attribute at a time.
//!
//! A bucket of variants that agree on every other attribute qualifies when its values of the
//! attribute form one of the recognised complete sets; it then collapses into one node.
use vstd::prelude::*;
use crate::attributes::{Gender, Hair, OneOrTwo, Pair, Tone};
use crate::groups::{People, PersonKind, PersonKindGroup, PersonKindSelector, Toning, pins, selects_spec};
use crate::tree::{PersonQualified, PersonQualifiedLeaf, PersonQualifiedNode, SubTree, leaves, subs_leaves, def_leaves};

verus! {

/// One attribute dimension.
#[derive(Debug, Clone, Copy, PartialEq, Eq, Structural)]
pub enum Dim {
    Hair,
    People,
    Tone,
}

/// A concrete value of one dimension.
#[derive(Debug, Clone, Copy, PartialEq, Eq, Structural)]
pub enum DimValue {
    Hair(Hair),
    People(People),
    Tone(Toning),
}

/// Whether a value belongs to a dimension.
pub open spec fn fits(d: Dim, v: DimValue) -> bool {
    match (d, v) {
        (Dim::Hair, DimValue::Hair(_)) => true,
        (Dim::People, DimValue::People(_)) => true,
        (Dim::Tone, DimValue::Tone(_)) => true,
        _ => false,
    }
}

/// Whether a slot value (absent, or a value) belongs to a dimension.
pub open spec fn fits_opt(d: Dim, x: Option<DimValue>) -> bool {
    match x {
        None => true,
        Some(v) => fits(d, v),
    }
}

/// The value that a key has in one dimension.
pub open spec fn kind_slot(k: PersonKind, d: Dim) -> Option<DimValue> {
    match d {
        Dim::Hair => match k.hair {
            None => None,
            Some(h) => Some(DimValue::Hair(h)),
        },
        Dim::People => match k.people {
            None => None,
            Some(p) => Some(DimValue::People(p)),
        },
        Dim::Tone => match k.tone {
            None => None,
            Some(t) => Some(DimValue::Tone(t)),
        },
    }
}

/// The slot of a selector in one dimension.
pub open spec fn slot_of(s: PersonKindSelector, d: Dim) -> Option<Option<DimValue>> {
    match d {
        Dim::Hair => match s.hair {
            None => None,
            Some(None) => Some(None),
            Some(Some(h)) => Some(Some(DimValue::Hair(h))),
        },
        Dim::People => match s.people {
            None => None,
            Some(None) => Some(None),
            Some(Some(p)) => Some(Some(DimValue::People(p))),
        },
        Dim::Tone => match s.tone {
            None => None,
            Some(None) => Some(None),
            Some(Some(t)) => Some(Some(DimValue::Tone(t))),
        },
    }
}

/// A selector with its slot in one dimension replaced; a value of another dimension counts as
/// absent.
pub open spec fn with_slot(s: PersonKindSelector, d: Dim, x: Option<Option<DimValue>>) -> PersonKindSelector {
    match d {
        Dim::Hair => PersonKindSelector {
            hair: match x {
                None => None,
                Some(Some(DimValue::Hair(h))) => Some(Some(h)),
                Some(_) => Some(None),
            },
            ..s
        },
        Dim::People => PersonKindSelector {
            people: match x {
                None => None,
                Some(Some(DimValue::People(p))) => Some(Some(p)),
                Some(_) => Some(None),
            },
            ..s
        },
        Dim::Tone => PersonKindSelector {
            tone: match x {
                None => None,
                Some(Some(DimValue::Tone(t))) => Some(Some(t)),
                Some(_) => Some(None),
            },
            ..s
        },
    }
}

/// A selector that pins a dimension to a value admits only keys with that value there.
pub proof fn lemma_pinned_slot(g: PersonKindSelector, d: Dim, x: Option<DimValue>, k: PersonKind)
    requires
        fits_opt(d, x),
        selects_spec(with_slot(g, d, Some(x)), k),
    ensures
        kind_slot(k, d) == x,
        selects_spec(with_slot(g, d, None), k),
{
}

/// The slot of a selector in one dimension.
pub fn get_slot(s: PersonKindSelector, d: Dim) -> (r: Option<Option<DimValue>>)
    ensures
        r == slot_of(s, d),
{
    match d {
        Dim::Hair => match s.hair {
            None => None,
            Some(None) => Some(None),
            Some(Some(h)) => Some(Some(DimValue::Hair(h))),
        },
        Dim::People => match s.people {
            None => None,
            Some(None) => Some(None),
            Some(Some(p)) => Some(Some(DimValue::People(p))),
        },
        Dim::Tone => match s.tone {
            None => None,
            Some(None) => Some(None),
            Some(Some(t)) => Some(Some(DimValue::Tone(t))),
        },
    }
}

/// A selector with its slot in one dimension replaced.
pub fn set_slot(s: PersonKindSelector, d: Dim, x: Option<Option<DimValue>>) -> (r: PersonKindSelector)
    ensures
        r == with_slot(s, d, x),
{
    match d {
        Dim::Hair => PersonKindSelector {
            hair: match x {
                None => None,
                Some(Some(DimValue::Hair(h))) => Some(Some(h)),
                Some(_) => Some(None),
            },
            people: s.people,
            tone: s.tone,
        },
        Dim::People => PersonKindSelector {
            hair: s.hair,
            people: match x {
                None => None,
                Some(Some(DimValue::People(p))) => Some(Some(p)),
                Some(_) => Some(None),
            },
            tone: s.tone,
        },
        Dim::Tone => PersonKindSelector {
            hair: s.hair,
            people: s.people,
            tone: match x {
                None => None,
                Some(Some(DimValue::Tone(t))) => Some(Some(t)),
                Some(_) => Some(None),
            },
        },
    }
}

/// How the accessors of a qualified set are spelled in generated code.
#[derive(Debug, Clone, Copy, PartialEq, Eq, Structural)]
pub enum AccessStyle {
    TonePair,
    TonePairReduced,
    Tone,
    Family,
    OneOrTwo,
    Pair,
    Gender,
    PseudoGender,
    Hair,
}

/// A recognised complete set of values of one dimension.
pub struct QualifierSet {
    /// The values, in the order of their branches.
    pub set: Vec<DimValue>,
    /// Name of the attribute type of the node.
    pub kind_name: &'static str,
    /// How the accessors are spelled.
    pub style: AccessStyle,
    /// Whether a lone tone is read as the same tone twice.
    pub pair_up: bool,
}

/// A set is usable for a dimension: its values belong to it and are distinct.
pub open spec fn set_wf(q: QualifierSet, d: Dim) -> bool {
    &&& forall|i: int| 0 <= i < q.set@.len() ==> fits(d, #[trigger] q.set@[i])
    &&& q.set@.no_duplicates()
}

/// A classified entry: its tree has distinct leaves, each a key of the emoji and admitted by
/// the entry's selector.
pub open spec fn entry_wf(e: (PersonKindSelector, PersonQualified), keys: Set<PersonKind>) -> bool {
    let l = leaves(e.1);
    &&& l.no_duplicates()
    &&& forall|i: int| 0 <= i < l.len() ==> keys.contains(#[trigger] l[i]) && selects_spec(e.0, l[i])
}

/// Every entry of a list is well formed.
pub open spec fn entries_wf(s: Seq<(PersonKindSelector, PersonQualified)>, keys: Set<PersonKind>) -> bool {
    forall|i: int| 0 <= i < s.len() ==> entry_wf(#[trigger] s[i], keys)
}

/// Whether some entry of a list has `k` among its leaves.
pub open spec fn covers(s: Seq<(PersonKindSelector, PersonQualified)>, k: PersonKind) -> bool {
    exists|i: int| 0 <= i < s.len() && (#[trigger] leaves(s[i].1)).contains(k)
}

/// No key is a leaf of two entries of a list.
pub open spec fn leaves_disjoint(s: Seq<(PersonKindSelector, PersonQualified)>) -> bool {
    forall|i: int, j: int, k: PersonKind| #![trigger leaves(s[i].1).contains(k), leaves(s[j].1).contains(k)]
        0 <= i < s.len() && 0 <= j < s.len() && i != j && leaves(s[i].1).contains(k) ==> !leaves(s[j].1).contains(k)
}

/// The entries of a list have distinct selectors.
pub open spec fn sels_distinct(s: Seq<(PersonKindSelector, PersonQualified)>) -> bool {
    forall|i: int, j: int| 0 <= i < s.len() && 0 <= j < s.len() && i != j ==> s[i].0 != s[j].0
}

proof fn lemma_remove_covers(s: Seq<(PersonKindSelector, PersonQualified)>, i: int, k: PersonKind)
    requires
        0 <= i < s.len(),
        covers(s, k),
    ensures
        leaves(s[i].1).contains(k) || covers(s.remove(i), k),
{
    let x = choose|x: int| 0 <= x < s.len() && (#[trigger] leaves(s[x].1)).contains(k);
    if x < i {
        assert(s.remove(i)[x] == s[x]);
    } else if x > i {
        assert(s.remove(i)[x - 1] == s[x]);
    }
}

proof fn lemma_remove_distinct(s: Seq<(PersonKindSelector, PersonQualified)>, i: int)
    requires
        0 <= i < s.len(),
        sels_distinct(s),
    ensures
        sels_distinct(s.remove(i)),
        forall|x: int| 0 <= x < s.remove(i).len() ==> (#[trigger] s.remove(i)[x]).0 != s[i].0,
{
    let t = s.remove(i);
    assert forall|x: int| 0 <= x < t.len() implies (#[trigger] t[x]).0 != s[i].0 by {
        if x < i {
            assert(t[x] == s[x]);
        } else {
            assert(t[x] == s[x + 1]);
        }
    }
    assert forall|a: int, b: int| 0 <= a < t.len() && 0 <= b < t.len() && a != b implies t[a].0 != t[b].0 by {
        let a2 = if a < i { a } else { a + 1 };
        let b2 = if b < i { b } else { b + 1 };
        assert(t[a] == s[a2] && t[b] == s[b2]);
    }
}

/// Whether a bucket holds exactly the values of a set (and perhaps the default member).
///
/// A bucket matches a set only when every value of the set has its member and no member has a
/// value outside the set: a bucket with more values than the set is not collapsed under it,
/// since the node would have no branch for the extra values, and such a bucket is split
/// instead.
pub open spec fn bucket_matches(
    members: Seq<(PersonKindSelector, PersonQualified)>,
    gen: PersonKindSelector,
    d: Dim,
    q: Seq<DimValue>,
) -> bool {
    &&& all_present(members, gen, d, q)
    &&& forall|i: int| 0 <= i < members.len() ==> member_allowed((#[trigger] members[i]).0, gen, d, q)
}

fn find_member(members: &Vec<(PersonKindSelector, PersonQualified)>, sel: PersonKindSelector) -> (r: Option<usize>)
    ensures
        match r {
            Some(i) => i < members@.len() && members@[i as int].0 == sel,
            None => forall|i: int| 0 <= i < members@.len() ==> members@[i].0 != sel,
        },
{
    let mut i: usize = 0;
    while i < members.len()
        invariant
            i <= members@.len(),
            forall|j: int| 0 <= j < i ==> members@[j].0 != sel,
        decreases members@.len() - i,
    {
        if members[i].0 == sel {
            return Some(i);
        }
        i = i + 1;
    }
    None
}

fn value_index(q: &Vec<DimValue>, v: DimValue) -> (r: Option<usize>)
    ensures
        match r {
            Some(j) => j < q@.len() && q@[j as int] == v,
            None => forall|j: int| 0 <= j < q@.len() ==> q@[j] != v,
        },
{
    let mut j: usize = 0;
    while j < q.len()
        invariant
            j <= q@.len(),
            forall|k: int| 0 <= k < j ==> q@[k] != v,
        decreases q@.len() - j,
    {
        if q[j] == v {
            return Some(j);
        }
        j = j + 1;
    }
    None
}

/// Whether a bucket has a member with the given selector.
pub open spec fn has_member(members: Seq<(PersonKindSelector, PersonQualified)>, sel: PersonKindSelector) -> bool {
    exists|i: int| 0 <= i < members.len() && (#[trigger] members[i]).0 == sel
}

/// Whether every value of the set has its member in the bucket.
pub open spec fn all_present(
    members: Seq<(PersonKindSelector, PersonQualified)>,
    gen: PersonKindSelector,
    d: Dim,
    q: Seq<DimValue>,
) -> bool {
    forall|j: int| 0 <= j < q.len() ==> has_member(members, with_slot(gen, d, Some(Some(#[trigger] q[j]))))
}

fn check_all_present(
    members: &Vec<(PersonKindSelector, PersonQualified)>,
    gen: PersonKindSelector,
    d: Dim,
    q: &Vec<DimValue>,
) -> (r: bool)
    ensures
        r == all_present(members@, gen, d, q@),
{
    let mut j: usize = 0;
    while j < q.len()
        invariant
            j <= q@.len(),
            forall|jj: int| 0 <= jj < j ==> has_member(members@, with_slot(gen, d, Some(Some(#[trigger] q@[jj])))),
        decreases q@.len() - j,
    {
        let sel = set_slot(gen, d, Some(Some(q[j])));
        match find_member(members, sel) {
            Some(i) => {
                assert(members@[i as int].0 == sel);
                assert(has_member(members@, sel));
            },
            None => {
                assert(!has_member(members@, with_slot(gen, d, Some(Some(q@[j as int])))));
                return false;
            },
        }
        j = j + 1;
    }
    true
}

fn check_all_allowed(
    members: &Vec<(PersonKindSelector, PersonQualified)>,
    gen: PersonKindSelector,
    d: Dim,
    q: &Vec<DimValue>,
) -> (r: bool)
    requires
        forall|k: int| 0 <= k < q@.len() ==> fits(d, #[trigger] q@[k]),
    ensures
        r == (forall|i: int| 0 <= i < members@.len() ==> member_allowed((#[trigger] members@[i]).0, gen, d, q@)),
{
    let mut i: usize = 0;
    while i < members.len()
        invariant
            i <= members@.len(),
            forall|k: int| 0 <= k < q@.len() ==> fits(d, #[trigger] q@[k]),
            forall|ii: int| 0 <= ii < i ==> member_allowed((#[trigger] members@[ii]).0, gen, d, q@),
        decreases members@.len() - i,
    {
        if !is_member_allowed(members[i].0, gen, d, q) {
            return false;
        }
        i = i + 1;
    }
    true
}

/// Whether a bucket holds every value of the set, and nothing but those and the default.
pub fn matches_set(
    members: &Vec<(PersonKindSelector, PersonQualified)>,
    gen: PersonKindSelector,
    d: Dim,
    q: &Vec<DimValue>,
) -> (r: bool)
    requires
        forall|k: int| 0 <= k < q@.len() ==> fits(d, #[trigger] q@[k]),
    ensures
        r == bucket_matches(members@, gen, d, q@),
{
    check_all_present(members, gen, d, q) && check_all_allowed(members, gen, d, q)
}

/// Whether a selector is the default member of a bucket or the member of a value of the set.
pub open spec fn member_allowed(s: PersonKindSelector, gen: PersonKindSelector, d: Dim, q: Seq<DimValue>) -> bool {
    s == with_slot(gen, d, Some(None))
        || exists|jj: int| 0 <= jj < q.len() && s == with_slot(gen, d, Some(Some(#[trigger] q[jj])))
}

proof fn lemma_slot_roundtrip(g: PersonKindSelector, d: Dim, v: DimValue)
    requires
        fits(d, v),
    ensures
        slot_of(with_slot(g, d, Some(Some(v))), d) == Some(Some(v)),
{
}

fn is_member_allowed(s: PersonKindSelector, gen: PersonKindSelector, d: Dim, q: &Vec<DimValue>) -> (r: bool)
    requires
        forall|k: int| 0 <= k < q@.len() ==> fits(d, #[trigger] q@[k]),
    ensures
        r == member_allowed(s, gen, d, q@),
{
    if s == set_slot(gen, d, Some(None)) {
        return true;
    }
    match get_slot(s, d) {
        Some(Some(v)) => {
            match value_index(q, v) {
                Some(jj) => {
                    if s == set_slot(gen, d, Some(Some(v))) {
                        true
                    } else {
                        proof {
                            assert forall|k: int| 0 <= k < q@.len() implies s != with_slot(gen, d, Some(Some(q@[k]))) by {
                                lemma_slot_roundtrip(gen, d, q@[k]);
                            }
                        }
                        false
                    }
                },
                None => {
                    proof {
                        assert forall|k: int| 0 <= k < q@.len() implies s != with_slot(gen, d, Some(Some(q@[k]))) by {
                            lemma_slot_roundtrip(gen, d, q@[k]);
                        }
                    }
                    false
                },
            }
        },
        _ => {
            proof {
                assert forall|k: int| 0 <= k < q@.len() implies s != with_slot(gen, d, Some(Some(q@[k]))) by {
                    lemma_slot_roundtrip(gen, d, q@[k]);
                }
            }
            false
        },
    }
}

} // verus!

verus! {

/// The variant name of a tone in source code.
pub open spec fn tone_word(t: Tone) -> Seq<char> {
    match t {
        Tone::Light => "Light"@,
        Tone::MediumLight => "MediumLight"@,
        Tone::Medium => "Medium"@,
        Tone::MediumDark => "MediumDark"@,
        Tone::Dark => "Dark"@,
    }
}

/// The variant name of a hair style in source code.
pub open spec fn hair_word(h: Hair) -> Seq<char> {
    match h {
        Hair::Beard => "Beard"@,
        Hair::Blond => "Blond"@,
        Hair::Red => "Red"@,
        Hair::Curly => "Curly"@,
        Hair::White => "White"@,
        Hair::Bald => "Bald"@,
    }
}

/// The constant accessor of a pair of tones.
pub open spec fn tone_pair_spec(a: Tone, b: Tone) -> Seq<char> {
    "tone_pair(TonePair{left: Tone::"@ + tone_word(a) + ", right: Tone::"@ + tone_word(b) + " })"@
}

/// The public accessor of a pair of tones: the lone tone where both are equal.
pub open spec fn tone_spec(a: Tone, b: Tone) -> Seq<char> {
    if a != b {
        "tone((Tone::"@ + tone_word(a) + ", Tone::"@ + tone_word(b) + "))"@
    } else {
        "tone(Tone::"@ + tone_word(a) + ")"@
    }
}

/// The accessor of a gender.
pub open spec fn gender_spec(g: Gender) -> Seq<char> {
    "gender(Gender::"@ + gender_word(g) + ")"@
}

/// The accessor in constants and the public accessor of one value in a given style.
pub open spec fn accessor_texts(style: AccessStyle, v: DimValue) -> (Seq<char>, Seq<char>) {
    match v {
        DimValue::Tone(t) => {
            let b = match t.second {
                Some(s) => s,
                None => t.first,
            };
            match style {
                AccessStyle::TonePair | AccessStyle::TonePairReduced => (tone_pair_spec(t.first, b), tone_spec(t.first, b)),
                _ => (tone_spec(t.first, t.first), tone_spec(t.first, t.first)),
            }
        },
        DimValue::People(p) => {
            let a = p.first;
            match (style, a, p.second) {
                (AccessStyle::Family, _, Some(c)) => (
                    "family(Family{parents: "@ + full_source_of(a) + ", children: "@ + full_source_of(c) + " })"@,
                    "gender(("@ + source_of(a) + ", "@ + source_of(c) + "))"@,
                ),
                (AccessStyle::Pair, OneOrTwo::Two(pp), _) => (
                    "pair(Pair::"@ + pair_word(pp) + ")"@,
                    "gender(Pair::"@ + pair_word(pp) + ")"@,
                ),
                (AccessStyle::PseudoGender, OneOrTwo::Two(Pair::Males), _) => (gender_spec(Gender::Male), gender_spec(Gender::Male)),
                (AccessStyle::PseudoGender, OneOrTwo::Two(Pair::Females), _) => (gender_spec(Gender::Female), gender_spec(Gender::Female)),
                (_, OneOrTwo::One(g), _) => (gender_spec(g), gender_spec(g)),
                _ => ("pair("@ + full_source_of(a) + ")"@, "gender("@ + source_of(a) + ")"@),
            }
        },
        DimValue::Hair(h) => ("hair(Hair::"@ + hair_word(h) + ")"@, "hair(Hair::"@ + hair_word(h) + ")"@),
    }
}

fn tone_src(t: Tone) -> (r: &'static str)
    ensures
        r@ == tone_word(t),
{
    match t {
        Tone::Light => "Light",
        Tone::MediumLight => "MediumLight",
        Tone::Medium => "Medium",
        Tone::MediumDark => "MediumDark",
        Tone::Dark => "Dark",
    }
}

/// The variant name of a gender in source code.
pub open spec fn gender_word(g: Gender) -> Seq<char> {
    match g {
        Gender::Male => "Male"@,
        Gender::Female => "Female"@,
    }
}

/// The variant name of a pair in source code.
pub open spec fn pair_word(p: Pair) -> Seq<char> {
    match p {
        Pair::Males => "Males"@,
        Pair::Mixed => "Mixed"@,
        Pair::Females => "Females"@,
    }
}

/// Source text of a one-or-two value as the argument of a gender accessor.
pub open spec fn source_of(o: OneOrTwo) -> Seq<char> {
    match o {
        OneOrTwo::One(g) => "Gender::"@ + gender_word(g),
        OneOrTwo::Two(p) => "Pair::"@ + pair_word(p),
    }
}

/// Full source text of a one-or-two value.
pub open spec fn full_source_of(o: OneOrTwo) -> Seq<char> {
    match o {
        OneOrTwo::One(g) => "OneOrTwo::One(Gender::"@ + gender_word(g) + ")"@,
        OneOrTwo::Two(p) => "OneOrTwo::Two(Pair::"@ + pair_word(p) + ")"@,
    }
}

fn gender_src(g: Gender) -> (r: &'static str)
    ensures
        r@ == gender_word(g),
{
    match g {
        Gender::Male => "Male",
        Gender::Female => "Female",
    }
}

fn pair_src(p: Pair) -> (r: &'static str)
    ensures
        r@ == pair_word(p),
{
    match p {
        Pair::Males => "Males",
        Pair::Mixed => "Mixed",
        Pair::Females => "Females",
    }
}

fn hair_src(h: Hair) -> (r: &'static str)
    ensures
        r@ == hair_word(h),
{
    match h {
        Hair::Beard => "Beard",
        Hair::Blond => "Blond",
        Hair::Red => "Red",
        Hair::Curly => "Curly",
        Hair::White => "White",
        Hair::Bald => "Bald",
    }
}

/// Source text of a one-or-two value as the argument of a gender accessor.
pub fn fancy_source(o: OneOrTwo) -> (r: String)
    ensures
        r@ == source_of(o),
{
    match o {
        OneOrTwo::One(g) => crate::strs::cat("Gender::", gender_src(g)),
        OneOrTwo::Two(p) => crate::strs::cat("Pair::", pair_src(p)),
    }
}

/// Full source text of a one-or-two value.
pub fn fancy_full_source(o: OneOrTwo) -> (r: String)
    ensures
        r@ == full_source_of(o),
{
    let inner = match o {
        OneOrTwo::One(g) => crate::strs::cat("OneOrTwo::One(Gender::", gender_src(g)),
        OneOrTwo::Two(p) => crate::strs::cat("OneOrTwo::Two(Pair::", pair_src(p)),
    };
    crate::strs::cat(inner.as_str(), ")")
}

fn join3(a: &str, b: &str, c: &str) -> (r: String)
    ensures
        r@ == a@ + b@ + c@,
{
    let ab = crate::strs::cat(a, b);
    crate::strs::cat(ab.as_str(), c)
}

fn join5(a: &str, b: &str, c: &str, d: &str, e: &str) -> (r: String)
    ensures
        r@ == a@ + b@ + c@ + d@ + e@,
{
    let abc = join3(a, b, c);
    let r = join3(abc.as_str(), d, e);
    assert(r@ =~= a@ + b@ + c@ + d@ + e@);
    r
}

fn tone_pair_text(a: Tone, b: Tone) -> (r: String)
    ensures
        r@ == tone_pair_spec(a, b),
{
    join5("tone_pair(TonePair{left: Tone::", tone_src(a), ", right: Tone::", tone_src(b), " })")
}

fn tone_text(a: Tone, b: Tone) -> (r: String)
    ensures
        r@ == tone_spec(a, b),
{
    if a != b {
        join5("tone((Tone::", tone_src(a), ", Tone::", tone_src(b), "))")
    } else {
        join3("tone(Tone::", tone_src(a), ")")
    }
}

fn gender_text(g: Gender) -> (r: String)
    ensures
        r@ == gender_spec(g),
{
    join3("gender(Gender::", gender_src(g), ")")
}

/// The accessor in constants and the public accessor of one value in a given style.
fn accessors(style: AccessStyle, v: DimValue) -> (r: (String, String))
    ensures
        (r.0@, r.1@) == accessor_texts(style, v),
{
    match v {
        DimValue::Tone(t) => {
            let b = match t.second {
                Some(s) => s,
                None => t.first,
            };
            match style {
                AccessStyle::TonePair | AccessStyle::TonePairReduced => (tone_pair_text(t.first, b), tone_text(t.first, b)),
                _ => (tone_text(t.first, t.first), tone_text(t.first, t.first)),
            }
        },
        DimValue::People(p) => {
            let a = p.first;
            match (style, a, p.second) {
                (AccessStyle::Family, _, Some(c)) => {
                    let fa = fancy_full_source(a);
                    let fc = fancy_full_source(c);
                    let sa = fancy_source(a);
                    let sc = fancy_source(c);
                    (
                        join5("family(Family{parents: ", fa.as_str(), ", children: ", fc.as_str(), " })"),
                        join5("gender((", sa.as_str(), ", ", sc.as_str(), "))"),
                    )
                },
                (AccessStyle::Pair, OneOrTwo::Two(pp), _) => (
                    join3("pair(Pair::", pair_src(pp), ")"),
                    join3("gender(Pair::", pair_src(pp), ")"),
                ),
                (AccessStyle::PseudoGender, OneOrTwo::Two(Pair::Males), _) => (gender_text(Gender::Male), gender_text(Gender::Male)),
                (AccessStyle::PseudoGender, OneOrTwo::Two(Pair::Females), _) => (gender_text(Gender::Female), gender_text(Gender::Female)),
                (_, OneOrTwo::One(g), _) => (gender_text(g), gender_text(g)),
                _ => {
                    let fa = fancy_full_source(a);
                    let sa = fancy_source(a);
                    (join3("pair(", fa.as_str(), ")"), join3("gender(", sa.as_str(), ")"))
                },
            }
        },
        DimValue::Hair(h) => {
            (join3("hair(Hair::", hair_src(h), ")"), join3("hair(Hair::", hair_src(h), ")"))
        },
    }
}

/// A lone tone read as the same tone twice, where the set asks for it.
pub open spec fn normalized(pair_up: bool, v: DimValue) -> DimValue {
    match v {
        DimValue::Tone(t) => if pair_up && t.second is None {
            DimValue::Tone(Toning { first: t.first, second: Some(t.first) })
        } else {
            v
        },
        _ => v,
    }
}

/// Reads a lone tone as the same tone twice, where the set asks for it.
pub fn normalize(pair_up: bool, v: DimValue) -> (r: DimValue)
    ensures
        r == normalized(pair_up, v),
{
    match v {
        DimValue::Tone(t) => if pair_up && t.second.is_none() {
            DimValue::Tone(Toning { first: t.first, second: Some(t.first) })
        } else {
            v
        },
        _ => v,
    }
}

proof fn lemma_no_dup_concat(a: Seq<PersonKind>, b: Seq<PersonKind>)
    requires
        a.no_duplicates(),
        b.no_duplicates(),
        forall|i: int, j: int| 0 <= i < a.len() && 0 <= j < b.len() ==> a[i] != b[j],
    ensures
        (a + b).no_duplicates(),
{
    let c = a + b;
    assert forall|i: int, j: int| 0 <= i < c.len() && 0 <= j < c.len() && i != j implies c[i] != c[j] by {
        if i < a.len() && j < a.len() {
        } else if i >= a.len() && j >= a.len() {
            assert(c[i] == b[i - a.len()] && c[j] == b[j - a.len()]);
        } else if i < a.len() {
            assert(c[j] == b[j - a.len()]);
        } else {
            assert(c[i] == b[i - a.len()]);
        }
    }
}

/// The leaves of an optional tree.
pub open spec fn opt_leaves(t: Option<Box<PersonQualified>>) -> Seq<PersonKind> {
    match t {
        Some(b) => leaves(*b),
        None => Seq::empty(),
    }
}

proof fn lemma_unpinned(g: PersonKindSelector, d: Dim)
    requires
        slot_of(g, d) is None,
    ensures
        with_slot(g, d, None) == g,
{
}

proof fn lemma_subs_push(s: Seq<SubTree>, e: SubTree)
    ensures
        subs_leaves(s.push(e)) == subs_leaves(s) + leaves(e.tree),
{
    assert(s.push(e).drop_last() =~= s);
}

/// `n` is the node that a matched bucket collapses into: the member at the default selector
/// as the default branch, then one branch per value of the set, in the set's order, each the
/// member at that value, with the accessors of the value in the set's style.
pub open spec fn node_built(
    n: PersonQualifiedNode,
    members: Seq<(PersonKindSelector, PersonQualified)>,
    gen: PersonKindSelector,
    d: Dim,
    q: QualifierSet,
) -> bool {
    &&& match n.def {
        Some(b) => exists|i: int| 0 <= i < members.len() && members[i].0 == with_slot(gen, d, Some(None)) && *b == (#[trigger] members[i]).1,
        None => !has_member(members, with_slot(gen, d, Some(None))),
    }
    &&& n.subs@.len() == q.set@.len()
    &&& forall|j: int| 0 <= j < n.subs@.len() ==> branch_built(#[trigger] n.subs@[j], members, gen, d, q, j)
}

/// Branch `j` of a node built from a bucket over set `q`.
pub open spec fn branch_built(
    b: SubTree,
    members: Seq<(PersonKindSelector, PersonQualified)>,
    gen: PersonKindSelector,
    d: Dim,
    q: QualifierSet,
    j: int,
) -> bool {
    &&& (b.const_accessor@, b.pub_accessor@) == accessor_texts(q.style, normalized(q.pair_up, q.set@[j]))
    &&& exists|i: int| 0 <= i < members.len() && members[i].0 == with_slot(gen, d, Some(Some(q.set@[j])))
        && b.tree == (#[trigger] members[i]).1
}

/// Collapses a matched bucket into one node over dimension `d`.
fn build_node(
    d: Dim,
    gen: PersonKindSelector,
    members: Vec<(PersonKindSelector, PersonQualified)>,
    q: &QualifierSet,
    Ghost(keys): Ghost<Set<PersonKind>>,
) -> (r: PersonQualified)
    requires
        entries_wf(members@, keys),
        set_wf(*q, d),
        slot_of(gen, d) is None,
        sels_distinct(members@),
        forall|i: int| 0 <= i < members@.len() ==> member_allowed((#[trigger] members@[i]).0, gen, d, q.set@),
        all_present(members@, gen, d, q.set@),
    ensures
        entry_wf((gen, r), keys),
        r is Node,
        r->Node_0.kind_name@ == q.kind_name@,
        node_built(r->Node_0, members@, gen, d, *q),
        forall|k: PersonKind| covers(members@, k) ==> leaves(r).contains(k),
        forall|k: PersonKind| leaves(r).contains(k) ==> covers(members@, k),
{
    proof { lemma_unpinned(gen, d); }
    let ghost orig = members@;
    let mut rest = members;
    let def_sel = set_slot(gen, d, Some(None));
    let def: Option<Box<PersonQualified>> = match find_member(&rest, def_sel) {
        Some(i) => {
            let ghost r0 = rest@;
            let (s, t) = rest.remove(i);
            proof {
                lemma_remove_distinct(r0, i as int);
                assert(rest@ == r0.remove(i as int));
                assert forall|k: PersonKind| covers(orig, k) implies leaves(t).contains(k) || covers(rest@, k) by {
                    lemma_remove_covers(r0, i as int, k);
                }
                assert forall|k: PersonKind| leaves(t).contains(k) implies covers(orig, k) by {
                    assert(leaves(orig[i as int].1).contains(k));
                }
                assert forall|x: int| 0 <= x < rest@.len() implies member_allowed((#[trigger] rest@[x]).0, gen, d, q.set@) by {
                    if x < i {
                        assert(rest@[x] == r0[x]);
                    } else {
                        assert(rest@[x] == r0[x + 1]);
                    }
                }
                assert(entry_wf((s, t), keys));
                assert forall|k: int| 0 <= k < leaves(t).len() implies kind_slot(leaves(t)[k], d) is None
                    && selects_spec(gen, leaves(t)[k]) by {
                    lemma_pinned_slot(gen, d, None, leaves(t)[k]);
                }
                assert(orig[i as int].1 == t && orig[i as int].0 == def_sel);
                assert forall|jj: int| 0 <= jj < q.set@.len() implies has_member(rest@, with_slot(gen, d, Some(Some(#[trigger] q.set@[jj])))) by {
                    assert(has_member(r0, with_slot(gen, d, Some(Some(q.set@[jj])))));
                    let x = choose|x: int| 0 <= x < r0.len() && (#[trigger] r0[x]).0 == with_slot(gen, d, Some(Some(q.set@[jj])));
                    lemma_slot_roundtrip(gen, d, q.set@[jj]);
                    assert(x != i);
                    if x < i {
                        assert(rest@[x] == r0[x]);
                    } else {
                        assert(rest@[x - 1] == r0[x]);
                    }
                }
            }
            Some(Box::new(t))
        },
        None => None,
    };
    assert(forall|jj: int| 0 <= jj < q.set@.len() ==> has_member(rest@, with_slot(gen, d, Some(Some(#[trigger] q.set@[jj])))));
    assert(match def {
        Some(b) => exists|i: int| 0 <= i < orig.len() && orig[i].0 == with_slot(gen, d, Some(None)) && *b == (#[trigger] orig[i]).1,
        None => !has_member(orig, with_slot(gen, d, Some(None))),
    });
    let ghost dl: Seq<PersonKind> = opt_leaves(def);
    assert(forall|k: PersonKind| covers(orig, k) ==> dl.contains(k) || covers(rest@, k));
    assert(forall|k: PersonKind| dl.contains(k) ==> covers(orig, k));
    assert(forall|x: int| 0 <= x < rest@.len() ==> orig.contains(#[trigger] rest@[x]));
    assert(forall|x: int| 0 <= x < rest@.len() ==> (#[trigger] rest@[x]).0 != def_sel);
    let mut subs: Vec<SubTree> = Vec::new();
    let mut j: usize = 0;
    assert(subs_leaves(subs@) =~= Seq::<PersonKind>::empty());
    assert(dl + subs_leaves(subs@) =~= dl);
    while j < q.set.len()
        invariant
            j <= q.set@.len(),
            set_wf(*q, d),
            slot_of(gen, d) is None,
            with_slot(gen, d, None) == gen,
            entries_wf(rest@, keys),
            (dl + subs_leaves(subs@)).no_duplicates(),
            forall|k: int| 0 <= k < (dl + subs_leaves(subs@)).len() ==> keys.contains(#[trigger] (dl + subs_leaves(subs@))[k])
                && selects_spec(gen, (dl + subs_leaves(subs@))[k]),
            forall|k: int, j2: int| 0 <= k < (dl + subs_leaves(subs@)).len() && j <= j2 < q.set@.len()
                ==> kind_slot(#[trigger] (dl + subs_leaves(subs@))[k], d) != Some(#[trigger] q.set@[j2]),
            sels_distinct(rest@),
            subs@.len() == j,
            forall|jj: int| 0 <= jj < j ==> branch_built(#[trigger] subs@[jj], orig, gen, d, *q, jj),
            forall|jj: int| j <= jj < q.set@.len() ==> has_member(rest@, with_slot(gen, d, Some(Some(#[trigger] q.set@[jj])))),
            def_sel == with_slot(gen, d, Some(None)),
            forall|x: int| 0 <= x < rest@.len() ==> member_allowed((#[trigger] rest@[x]).0, gen, d, q.set@),
            forall|x: int| 0 <= x < rest@.len() ==> (#[trigger] rest@[x]).0 != def_sel,
            forall|x: int, j2: int| 0 <= x < rest@.len() && 0 <= j2 < j
                ==> (#[trigger] rest@[x]).0 != with_slot(gen, d, Some(Some(#[trigger] q.set@[j2]))),
            forall|k: PersonKind| covers(orig, k) ==> (dl + subs_leaves(subs@)).contains(k) || covers(rest@, k),
            forall|k: PersonKind| (dl + subs_leaves(subs@)).contains(k) ==> covers(orig, k),
            forall|x: int| 0 <= x < rest@.len() ==> orig.contains(#[trigger] rest@[x]),
        decreases q.set@.len() - j,
    {
        let v = q.set[j];
        let sel = set_slot(gen, d, Some(Some(v)));
        match find_member(&rest, sel) {
            Some(i) => {
                let ghost before = dl + subs_leaves(subs@);
                let ghost r0 = rest@;
                let (s, t) = rest.remove(i);
                proof {
                    lemma_remove_distinct(r0, i as int);
                    assert(rest@ == r0.remove(i as int));
                    assert forall|k: PersonKind| covers(orig, k) implies (before + leaves(t)).contains(k) || covers(rest@, k) by {
                        if !before.contains(k) {
                            lemma_remove_covers(r0, i as int, k);
                            if leaves(t).contains(k) {
                                let y = choose|y: int| 0 <= y < leaves(t).len() && leaves(t)[y] == k;
                                assert((before + leaves(t))[before.len() + y] == k);
                            }
                        } else {
                            let y = choose|y: int| 0 <= y < before.len() && before[y] == k;
                            assert((before + leaves(t))[y] == k);
                        }
                    }
                    assert forall|x: int| 0 <= x < rest@.len() implies member_allowed((#[trigger] rest@[x]).0, gen, d, q.set@)
                        && rest@[x].0 != def_sel
                        && orig.contains(rest@[x])
                        && forall|j2: int| 0 <= j2 < j + 1 ==> rest@[x].0 != with_slot(gen, d, Some(Some(#[trigger] q.set@[j2]))) by {
                        if x < i {
                            assert(rest@[x] == r0[x]);
                        } else {
                            assert(rest@[x] == r0[x + 1]);
                        }
                    }
                    assert(orig.contains(r0[i as int]));
                    assert forall|k: PersonKind| (before + leaves(t)).contains(k) implies covers(orig, k) by {
                        if !before.contains(k) {
                            let y = choose|y: int| 0 <= y < (before + leaves(t)).len() && (before + leaves(t))[y] == k;
                            assert(leaves(t)[y - before.len()] == k);
                            let z = choose|z: int| 0 <= z < orig.len() && orig[z] == r0[i as int];
                            assert(leaves(orig[z].1).contains(k));
                        }
                    }
                }
                let (ca, pa) = accessors(q.style, normalize(q.pair_up, v));
                let e = SubTree { const_accessor: ca, pub_accessor: pa, tree: t };
                let ghost bsubs = subs@;
                proof {
                    let z = choose|z: int| 0 <= z < orig.len() && orig[z] == r0[i as int];
                    assert(orig[z].0 == with_slot(gen, d, Some(Some(q.set@[j as int]))) && e.tree == orig[z].1);
                    assert(branch_built(e, orig, gen, d, *q, j as int));
                    assert forall|jj: int| j + 1 <= jj < q.set@.len() implies has_member(rest@, with_slot(gen, d, Some(Some(#[trigger] q.set@[jj])))) by {
                        assert(has_member(r0, with_slot(gen, d, Some(Some(q.set@[jj])))));
                        let x = choose|x: int| 0 <= x < r0.len() && (#[trigger] r0[x]).0 == with_slot(gen, d, Some(Some(q.set@[jj])));
                        lemma_slot_roundtrip(gen, d, q.set@[jj]);
                        lemma_slot_roundtrip(gen, d, q.set@[j as int]);
                        assert(q.set@[jj] != q.set@[j as int]);
                        assert(x != i);
                        if x < i {
                            assert(rest@[x] == r0[x]);
                        } else {
                            assert(rest@[x - 1] == r0[x]);
                        }
                    }
                    assert(entry_wf((s, t), keys));
                    assert(fits(d, q.set@[j as int]));
                    let l = leaves(t);
                    assert forall|k: int| 0 <= k < l.len() implies kind_slot(l[k], d) == Some(v)
                        && selects_spec(gen, l[k]) by {
                        lemma_pinned_slot(gen, d, Some(v), l[k]);
                    }
                    lemma_no_dup_concat(before, l);
                    lemma_subs_push(subs@, e);
                    assert(dl + subs_leaves(subs@.push(e)) =~= before + l);
                    assert forall|k: int, j2: int| 0 <= k < (before + l).len() && j + 1 <= j2 < q.set@.len()
                        implies kind_slot(#[trigger] (before + l)[k], d) != Some(#[trigger] q.set@[j2]) by {
                        if k >= before.len() {
                            assert((before + l)[k] == l[k - before.len()]);
                            assert(q.set@[j as int] != q.set@[j2]);
                        }
                    }
                    assert forall|k: int| 0 <= k < (before + l).len() implies keys.contains(#[trigger] (before + l)[k])
                        && selects_spec(gen, (before + l)[k]) by {
                        if k >= before.len() {
                            assert((before + l)[k] == l[k - before.len()]);
                        }
                    }
                }
                subs.push(e);
                proof {
                    assert forall|jj: int| 0 <= jj < j + 1 implies branch_built(#[trigger] subs@[jj], orig, gen, d, *q, jj) by {
                        if jj < j {
                            assert(subs@[jj] == bsubs[jj]);
                        }
                    }
                }
            },
            None => {
                assert(has_member(rest@, with_slot(gen, d, Some(Some(q.set@[j as int])))));
                assert(false);
            },
        }
        j = j + 1;
    }
    proof {
        if rest@.len() > 0 {
            assert(member_allowed(rest@[0].0, gen, d, q.set@));
            if rest@[0].0 != with_slot(gen, d, Some(None)) {
                let jj = choose|jj: int| 0 <= jj < q.set@.len() && rest@[0].0 == with_slot(gen, d, Some(Some(#[trigger] q.set@[jj])));
                assert(rest@[0].0 != with_slot(gen, d, Some(Some(q.set@[jj]))));
            }
        }
        assert forall|k: PersonKind| covers(orig, k) implies (dl + subs_leaves(subs@)).contains(k) by {
            if covers(rest@, k) {
                let x = choose|x: int| 0 <= x < rest@.len() && (#[trigger] leaves(rest@[x].1)).contains(k);
            }
        }
    }
    let node = PersonQualifiedNode { def, subs, kind_name: q.kind_name.to_string() };
    proof {
        assert(def_leaves(node) == dl);
        assert(leaves(PersonQualified::Node(node)) == dl + subs_leaves(subs@));
    }
    PersonQualified::Node(node)
}

} // verus!

verus! {

/// Every value of a list belongs to dimension `d`.
pub open spec fn values_fit(s: Seq<DimValue>, d: Dim) -> bool {
    forall|i: int| 0 <= i < s.len() ==> fits(d, #[trigger] s[i])
}

/// Every set of a list holds only values of dimension `d`.
pub open spec fn sets_fit(s: Seq<QualifierSet>, d: Dim) -> bool {
    forall|i: int| 0 <= i < s.len() ==> values_fit((#[trigger] s[i]).set@, d)
}

/// The first set, from position `j` on, that a bucket matches exactly; a set with a repeated
/// value is passed over.
pub open spec fn first_match(
    members: Seq<(PersonKindSelector, PersonQualified)>,
    gen: PersonKindSelector,
    d: Dim,
    sets: Seq<QualifierSet>,
    j: int,
) -> Option<int>
    decreases sets.len() - j,
{
    if j < 0 || j >= sets.len() {
        None
    } else if sets[j].set@.no_duplicates() && bucket_matches(members, gen, d, sets[j].set@) {
        Some(j)
    } else {
        first_match(members, gen, d, sets, j + 1)
    }
}

/// Whether a list of values has no repetition.
pub fn distinct(q: &Vec<DimValue>) -> (r: bool)
    ensures
        r == q@.no_duplicates(),
{
    let mut i: usize = 0;
    while i < q.len()
        invariant
            i <= q@.len(),
            forall|a: int, b: int| 0 <= a < i && 0 <= b < q@.len() && a != b ==> q@[a] != q@[b],
        decreases q@.len() - i,
    {
        let mut j: usize = 0;
        while j < q.len()
            invariant
                i < q@.len(),
                j <= q@.len(),
                forall|a: int, b: int| 0 <= a < i && 0 <= b < q@.len() && a != b ==> q@[a] != q@[b],
                forall|b: int| 0 <= b < j && b != i ==> q@[i as int] != q@[b],
            decreases q@.len() - j,
        {
            if j != i && q[i] == q[j] {
                return false;
            }
            j = j + 1;
        }
        i = i + 1;
    }
    true
}

/// Decides whether a bucket of entries, which agree everywhere but in dimension `d`, forms a
/// recognised complete set. On the first set of `sets` that the bucket matches exactly, the
/// bucket collapses into one node under `gen`; where none matches, the entries come back as
/// they were.
pub fn validate(
    d: Dim,
    gen: PersonKindSelector,
    members: Vec<(PersonKindSelector, PersonQualified)>,
    sets: &Vec<QualifierSet>,
    Ghost(keys): Ghost<Set<PersonKind>>,
) -> (r: Vec<(PersonKindSelector, PersonQualified)>)
    requires
        entries_wf(members@, keys),
        sets_fit(sets@, d),
        slot_of(gen, d) is None,
        sels_distinct(members@),
        leaves_disjoint(members@),
    ensures
        entries_wf(r@, keys),
        sels_distinct(r@),
        leaves_disjoint(r@),
        forall|k: PersonKind| covers(members@, k) ==> covers(r@, k),
        forall|j: int, k: PersonKind| #![trigger leaves(r@[j].1).contains(k)] 0 <= j < r@.len() && leaves(r@[j].1).contains(k) ==> covers(members@, k),
        forall|j: int| 0 <= j < r@.len() ==> (#[trigger] r@[j]).0 == gen || has_member(members@, r@[j].0),
        abs_seq(r@) == abs_validate(d, gen, abs_seq(members@), set_values(sets@)),
        match first_match(members@, gen, d, sets@, 0) {
            Some(j) => r@.len() == 1 && r@[0].0 == gen && r@[0].1 is Node
                && r@[0].1->Node_0.kind_name@ == sets@[j].kind_name@
                && node_built(r@[0].1->Node_0, members@, gen, d, sets@[j]),
            None => r@ == members@,
        },
{
    let mut j: usize = 0;
    while j < sets.len()
        invariant
            j <= sets@.len(),
            sets_fit(sets@, d),
            entries_wf(members@, keys),
            slot_of(gen, d) is None,
            sels_distinct(members@),
            leaves_disjoint(members@),
            first_match(members@, gen, d, sets@, 0) == first_match(members@, gen, d, sets@, j as int),
        decreases sets@.len() - j,
    {
        let q = &sets[j];
        proof { assert(values_fit(sets@[j as int].set@, d)); }
        if distinct(&q.set) && matches_set(&members, gen, d, &q.set) {
            proof {
                assert(values_fit(q.set@, d));
                assert(set_wf(*q, d));
            }
            let ghost m0 = members@;
            let node = build_node(d, gen, members, q, Ghost(keys));
            let r = vec![(gen, node)];
            proof {
                assert forall|k: PersonKind| covers(m0, k) implies covers(r@, k) by {
                    assert(leaves(r@[0].1).contains(k));
                }
                assert forall|j: int, k: PersonKind| #![trigger leaves(r@[j].1).contains(k)] 0 <= j < r@.len() && leaves(r@[j].1).contains(k) implies covers(m0, k) by {
                    assert(j == 0);
                }
                lemma_first_match_abs(m0, gen, d, sets@, 0);
                let am = abs_seq(m0);
                assert(leaves(r@[0].1).to_set() =~= union_leaves(am)) by {
                    assert forall|k: PersonKind| leaves(r@[0].1).to_set().contains(k) <==> union_leaves(am).contains(k) by {
                        if leaves(r@[0].1).contains(k) {
                            let i = choose|i: int| 0 <= i < m0.len() && (#[trigger] leaves(m0[i].1)).contains(k);
                            assert(am[i].1.contains(k));
                        }
                        if union_leaves(am).contains(k) {
                            let i = choose|i: int| 0 <= i < am.len() && (#[trigger] am[i]).1.contains(k);
                            assert(leaves(m0[i].1).contains(k));
                            assert(covers(m0, k));
                        }
                    }
                }
                assert(abs_seq(r@) =~= seq![(gen, union_leaves(am))]);
                assert(first_match(members@, gen, d, sets@, j as int) == Some(j as int));
                assert(entry_wf(r@[0], keys));
            }
            return r;
        }
        j = j + 1;
    }
    proof {
        assert forall|x: int| 0 <= x < members@.len() implies (#[trigger] members@[x]).0 == gen || has_member(members@, members@[x].0) by {
            assert(members@[x].0 == members@[x].0);
        }
        assert forall|j: int, k: PersonKind| #![trigger leaves(members@[j].1).contains(k)] 0 <= j < members@.len() && leaves(members@[j].1).contains(k) implies covers(members@, k) by {
        }
        lemma_first_match_abs(members@, gen, d, sets@, 0);
    }
    members
}

/// The dimension that a group leaves open to its qualification.
pub open spec fn dim_of(g: PersonKindGroup) -> Dim {
    match g {
        PersonKindGroup::All => Dim::Hair,
        PersonKindGroup::Hair(_) => Dim::People,
        _ => Dim::Tone,
    }
}

proof fn lemma_pins_open_slot(g: PersonKindGroup, s: PersonKindSelector, x: Option<Option<DimValue>>)
    requires
        !(g is Tone),
        pins(g, s),
    ensures
        pins(g, with_slot(s, dim_of(g), x)),
{
}

/// Splits off the entries whose selector, with dimension `d` opened, is `g`.
fn split_bucket(
    input: Vec<(PersonKindSelector, PersonQualified)>,
    d: Dim,
    g: PersonKindSelector,
) -> (r: (Vec<(PersonKindSelector, PersonQualified)>, Vec<(PersonKindSelector, PersonQualified)>))
    requires
        sels_distinct(input@),
    ensures
        forall|x: int| 0 <= x < r.0@.len() ==> with_slot((#[trigger] r.0@[x]).0, d, None) == g,
        forall|y: int| 0 <= y < r.1@.len() ==> with_slot((#[trigger] r.1@[y]).0, d, None) != g,
        forall|x: int| 0 <= x < r.0@.len() ==> input@.contains(#[trigger] r.0@[x]),
        forall|y: int| 0 <= y < r.1@.len() ==> input@.contains(#[trigger] r.1@[y]),
        sels_distinct(r.0@),
        sels_distinct(r.1@),
        forall|k: PersonKind| covers(input@, k) ==> covers(r.0@, k) || covers(r.1@, k),
        r.0@.len() + r.1@.len() == input@.len(),
        input@.len() > 0 && with_slot(input@[0].0, d, None) == g ==> r.0@.len() > 0,
        abs_seq(r.0@) == abs_seq(input@).filter(|a: (PersonKindSelector, Set<PersonKind>)| in_bucket(a, d, g)),
        abs_seq(r.1@) == abs_seq(input@).filter(|a: (PersonKindSelector, Set<PersonKind>)| !in_bucket(a, d, g)),
{
    let ghost orig = input@;
    let mut rest_in = input;
    let mut members: Vec<(PersonKindSelector, PersonQualified)> = Vec::new();
    let mut rest: Vec<(PersonKindSelector, PersonQualified)> = Vec::new();
    let ghost mut mi: Seq<int> = Seq::empty();
    let ghost mut ri: Seq<int> = Seq::empty();
    let ghost mut t: int = 0;
    assert(orig.skip(0) =~= orig);
    proof {
        reveal(Seq::filter);
        assert(abs_seq(orig.take(0)) =~= Seq::<(PersonKindSelector, Set<PersonKind>)>::empty());
        assert(abs_seq(members@) =~= Seq::<(PersonKindSelector, Set<PersonKind>)>::empty());
        assert(abs_seq(rest@) =~= Seq::<(PersonKindSelector, Set<PersonKind>)>::empty());
    }
    while rest_in.len() > 0
        invariant
            sels_distinct(orig),
            0 <= t <= orig.len(),
            rest_in@ == orig.skip(t),
            mi.len() == members@.len(),
            ri.len() == rest@.len(),
            members@.len() + rest@.len() == t,
            forall|x: int| 0 <= x < members@.len() ==> 0 <= #[trigger] mi[x] < t && members@[x] == orig[mi[x]],
            forall|y: int| 0 <= y < rest@.len() ==> 0 <= #[trigger] ri[y] < t && rest@[y] == orig[ri[y]],
            forall|x1: int, x2: int| 0 <= x1 < x2 < mi.len() ==> mi[x1] < mi[x2],
            forall|y1: int, y2: int| 0 <= y1 < y2 < ri.len() ==> ri[y1] < ri[y2],
            forall|x: int| 0 <= x < members@.len() ==> with_slot((#[trigger] members@[x]).0, d, None) == g,
            forall|y: int| 0 <= y < rest@.len() ==> with_slot((#[trigger] rest@[y]).0, d, None) != g,
            forall|k: PersonKind| covers(orig, k) ==> covers(members@, k) || covers(rest@, k) || covers(rest_in@, k),
            orig.len() > 0 && with_slot(orig[0].0, d, None) == g ==> (t > 0 ==> members@.len() > 0),
            abs_seq(members@) == abs_seq(orig.take(t)).filter(|a: (PersonKindSelector, Set<PersonKind>)| in_bucket(a, d, g)),
            abs_seq(rest@) == abs_seq(orig.take(t)).filter(|a: (PersonKindSelector, Set<PersonKind>)| !in_bucket(a, d, g)),
        decreases rest_in@.len(),
    {
        let ghost before_in = rest_in@;
        let e = rest_in.remove(0);
        proof {
            assert(e == orig[t]);
            assert(rest_in@ =~= orig.skip(t + 1));
        }
        let ghost bm = members@;
        let ghost br = rest@;
        proof {
            reveal(Seq::filter);
            assert(abs_seq(orig.take(t + 1)).drop_last() =~= abs_seq(orig.take(t)));
            assert(abs_seq(orig.take(t + 1)).last() == abs(e));
        }
        if set_slot(e.0, d, None) == g {
            members.push(e);
            proof {
                assert(abs_seq(members@) =~= abs_seq(bm).push(abs(e)));
                assert(abs_seq(rest@) =~= abs_seq(br));
                mi = mi.push(t);
                assert forall|k: PersonKind| covers(orig, k) implies covers(members@, k) || covers(rest@, k) || covers(rest_in@, k) by {
                    if covers(bm, k) {
                        let x = choose|x: int| 0 <= x < bm.len() && (#[trigger] leaves(bm[x].1)).contains(k);
                        assert(members@[x] == bm[x]);
                    } else if covers(before_in, k) && !covers(br, k) {
                        let x = choose|x: int| 0 <= x < before_in.len() && (#[trigger] leaves(before_in[x].1)).contains(k);
                        if x == 0 {
                            assert(members@[bm.len() as int] == e);
                        } else {
                            assert(rest_in@[x - 1] == before_in[x]);
                        }
                    }
                }
                assert forall|x: int| 0 <= x < members@.len() implies 0 <= #[trigger] mi[x] < t + 1 && members@[x] == orig[mi[x]] by {
                    if x < bm.len() {
                        assert(members@[x] == bm[x]);
                    }
                }
                assert forall|x: int| 0 <= x < members@.len() implies with_slot((#[trigger] members@[x]).0, d, None) == g by {
                    if x < bm.len() {
                        assert(members@[x] == bm[x]);
                    }
                }
            }
        } else {
            rest.push(e);
            proof {
                assert(abs_seq(rest@) =~= abs_seq(br).push(abs(e)));
                assert(abs_seq(members@) =~= abs_seq(bm));
                ri = ri.push(t);
                assert forall|k: PersonKind| covers(orig, k) implies covers(members@, k) || covers(rest@, k) || covers(rest_in@, k) by {
                    if covers(br, k) {
                        let x = choose|x: int| 0 <= x < br.len() && (#[trigger] leaves(br[x].1)).contains(k);
                        assert(rest@[x] == br[x]);
                    } else if covers(before_in, k) && !covers(bm, k) {
                        let x = choose|x: int| 0 <= x < before_in.len() && (#[trigger] leaves(before_in[x].1)).contains(k);
                        if x == 0 {
                            assert(rest@[br.len() as int] == e);
                        } else {
                            assert(rest_in@[x - 1] == before_in[x]);
                        }
                    }
                }
                assert forall|y: int| 0 <= y < rest@.len() implies 0 <= #[trigger] ri[y] < t + 1 && rest@[y] == orig[ri[y]] by {
                    if y < br.len() {
                        assert(rest@[y] == br[y]);
                    }
                }
                assert forall|y: int| 0 <= y < rest@.len() implies with_slot((#[trigger] rest@[y]).0, d, None) != g by {
                    if y < br.len() {
                        assert(rest@[y] == br[y]);
                    }
                }
            }
        }
        proof {
            t = t + 1;
        }
    }
    proof {
        assert(orig.take(t) =~= orig);
        assert forall|k: PersonKind| covers(orig, k) implies covers(members@, k) || covers(rest@, k) by {
            if covers(rest_in@, k) {
                let x = choose|x: int| 0 <= x < rest_in@.len() && (#[trigger] leaves(rest_in@[x].1)).contains(k);
            }
        }
        assert forall|x: int| 0 <= x < members@.len() implies orig.contains(#[trigger] members@[x]) by {
            assert(orig[mi[x]] == members@[x]);
        }
        assert forall|y: int| 0 <= y < rest@.len() implies orig.contains(#[trigger] rest@[y]) by {
            assert(orig[ri[y]] == rest@[y]);
        }
        assert forall|x1: int, x2: int| 0 <= x1 < members@.len() && 0 <= x2 < members@.len() && x1 != x2
            implies members@[x1].0 != members@[x2].0 by {
            if x1 < x2 {
                assert(mi[x1] < mi[x2]);
            } else {
                assert(mi[x2] < mi[x1]);
            }
            assert(members@[x1] == orig[mi[x1]] && members@[x2] == orig[mi[x2]]);
        }
        assert forall|y1: int, y2: int| 0 <= y1 < rest@.len() && 0 <= y2 < rest@.len() && y1 != y2
            implies rest@[y1].0 != rest@[y2].0 by {
            if y1 < y2 {
                assert(ri[y1] < ri[y2]);
            } else {
                assert(ri[y2] < ri[y1]);
            }
            assert(rest@[y1] == orig[ri[y1]] && rest@[y2] == orig[ri[y2]]);
        }
    }
    (members, rest)
}

/// Groups entries into buckets that agree everywhere but in dimension `d`, and validates each
/// bucket against `sets`. Every leaf of the entries stays in the result, under distinct
/// selectors that keep the values `grp` fixes.
pub fn qualify_dim(
    d: Dim,
    subs: Vec<(PersonKindSelector, PersonQualified)>,
    sets: &Vec<QualifierSet>,
    Ghost(keys): Ghost<Set<PersonKind>>,
    Ghost(grp): Ghost<PersonKindGroup>,
) -> (r: Vec<(PersonKindSelector, PersonQualified)>)
    requires
        entries_wf(subs@, keys),
        sets_fit(sets@, d),
        sels_distinct(subs@),
        leaves_disjoint(subs@),
        !(grp is Tone),
        d == dim_of(grp),
        forall|i: int| 0 <= i < subs@.len() ==> slot_of((#[trigger] subs@[i]).0, d) is Some,
        forall|i: int| 0 <= i < subs@.len() ==> pins(grp, (#[trigger] subs@[i]).0),
    ensures
        entries_wf(r@, keys),
        sels_distinct(r@),
        leaves_disjoint(r@),
        forall|j: int, k: PersonKind| #![trigger leaves(r@[j].1).contains(k)] 0 <= j < r@.len() && leaves(r@[j].1).contains(k) ==> covers(subs@, k),
        forall|k: PersonKind| covers(subs@, k) ==> covers(r@, k),
        forall|j: int| 0 <= j < r@.len() ==> pins(grp, (#[trigger] r@[j]).0),
        abs_seq(r@) == abs_qualify_dim(d, abs_seq(subs@), set_values(sets@), subs@.len() as nat),
{
    let ghost orig = subs@;
    let ghost sv = set_values(sets@);
    let mut input = subs;
    let mut out: Vec<(PersonKindSelector, PersonQualified)> = Vec::new();
    assert(forall|i: int| 0 <= i < input@.len() ==> orig.contains(#[trigger] input@[i]));
    assert(abs_seq(out@) =~= Seq::<(PersonKindSelector, Set<PersonKind>)>::empty());
    assert(abs_seq(out@) + abs_qualify_dim(d, abs_seq(input@), sv, input@.len() as nat)
        =~= abs_qualify_dim(d, abs_seq(orig), sv, orig.len() as nat));
    while input.len() > 0
        invariant
            entries_wf(input@, keys),
            entries_wf(out@, keys),
            sets_fit(sets@, d),
            sels_distinct(input@),
            sels_distinct(out@),
            leaves_disjoint(input@),
            leaves_disjoint(out@),
            forall|o: int, i: int, k: PersonKind| #![trigger leaves(out@[o].1).contains(k), leaves(input@[i].1).contains(k)]
                0 <= o < out@.len() && 0 <= i < input@.len() && leaves(out@[o].1).contains(k) ==> !leaves(input@[i].1).contains(k),
            forall|j: int, k: PersonKind| #![trigger leaves(out@[j].1).contains(k)] 0 <= j < out@.len() && leaves(out@[j].1).contains(k) ==> covers(orig, k),
            forall|i: int| 0 <= i < input@.len() ==> orig.contains(#[trigger] input@[i]),
            sv == set_values(sets@),
            abs_seq(out@) + abs_qualify_dim(d, abs_seq(input@), sv, input@.len() as nat)
                == abs_qualify_dim(d, abs_seq(orig), sv, orig.len() as nat),
            !(grp is Tone),
            d == dim_of(grp),
            forall|i: int| 0 <= i < input@.len() ==> slot_of((#[trigger] input@[i]).0, d) is Some,
            forall|i: int| 0 <= i < input@.len() ==> pins(grp, (#[trigger] input@[i]).0),
            forall|j: int| 0 <= j < out@.len() ==> pins(grp, (#[trigger] out@[j]).0),
            forall|o: int, i: int| 0 <= o < out@.len() && 0 <= i < input@.len() ==> (#[trigger] out@[o]).0 != (#[trigger] input@[i]).0
                && out@[o].0 != with_slot(input@[i].0, d, None),
            forall|k: PersonKind| covers(orig, k) ==> covers(out@, k) || covers(input@, k),
        decreases input@.len(),
    {
        let g = set_slot(input[0].0, d, None);
        let ghost in0 = input@;
        proof {
            lemma_pins_open_slot(grp, in0[0].0, None);
            assert(slot_of(g, d) is None);
        }
        let (members, rest) = split_bucket(input, d, g);
        let ghost mv = members@;
        proof {
            assert forall|x: int| 0 <= x < mv.len() implies entry_wf(#[trigger] mv[x], keys) && slot_of(mv[x].0, d) is Some
                && pins(grp, mv[x].0) by {
                let i = choose|i: int| 0 <= i < in0.len() && in0[i] == mv[x];
            }
        }
        let ghost restv = rest@;
        let mut res = validate(d, g, members, sets, Ghost(keys));
        let ghost bo = out@;
        let ghost rv = res@;
        out.append(&mut res);
        input = rest;
        proof {
            assert(out@ == bo + rv);
            let ai = abs_seq(in0);
            assert(ai[0].0 == in0[0].0);
            lemma_filter_split(ai, d, g);
            lemma_fuel(d, abs_seq(restv), sv, (in0.len() - 1) as nat);
            assert(abs_seq(out@) =~= abs_seq(bo) + abs_seq(rv));
            assert forall|i: int| 0 <= i < input@.len() implies entry_wf(#[trigger] input@[i], keys)
                && slot_of(input@[i].0, d) is Some && pins(grp, input@[i].0) by {
                let x = choose|x: int| 0 <= x < in0.len() && in0[x] == input@[i];
            }
            assert forall|j: int| 0 <= j < out@.len() implies entry_wf(#[trigger] out@[j], keys) && pins(grp, out@[j].0) by {
                if j < bo.len() {
                    assert(out@[j] == bo[j]);
                } else {
                    assert(out@[j] == rv[j - bo.len()]);
                    if rv[j - bo.len()].0 != g {
                        let x = choose|x: int| 0 <= x < mv.len() && (#[trigger] mv[x]).0 == rv[j - bo.len()].0;
                    }
                }
            }
            assert forall|o: int, i: int| 0 <= o < out@.len() && 0 <= i < input@.len() implies (#[trigger] out@[o]).0 != (#[trigger] input@[i]).0
                && out@[o].0 != with_slot(input@[i].0, d, None) by {
                let y = choose|y: int| 0 <= y < in0.len() && in0[y] == input@[i];
                assert(with_slot(input@[i].0, d, None) != g);
                assert(slot_of(input@[i].0, d) is Some);
                if o < bo.len() {
                    assert(out@[o] == bo[o]);
                } else {
                    assert(out@[o] == rv[o - bo.len()]);
                    if rv[o - bo.len()].0 != g {
                        let x = choose|x: int| 0 <= x < mv.len() && (#[trigger] mv[x]).0 == rv[o - bo.len()].0;
                        let z = choose|z: int| 0 <= z < in0.len() && in0[z] == mv[x];
                        assert(with_slot(mv[x].0, d, None) == g);
                        assert(z != y);
                    }
                }
            }
            assert forall|a: int, b: int| 0 <= a < out@.len() && 0 <= b < out@.len() && a != b implies out@[a].0 != out@[b].0 by {
                if a < bo.len() && b < bo.len() {
                    assert(out@[a] == bo[a] && out@[b] == bo[b]);
                } else if a >= bo.len() && b >= bo.len() {
                    assert(out@[a] == rv[a - bo.len()] && out@[b] == rv[b - bo.len()]);
                } else {
                    let (o, n) = if a < bo.len() { (a, b) } else { (b, a) };
                    assert(out@[o] == bo[o]);
                    assert(out@[n] == rv[n - bo.len()]);
                    if rv[n - bo.len()].0 == g {
                        assert(g == with_slot(in0[0].0, d, None));
                    } else {
                        let x = choose|x: int| 0 <= x < mv.len() && (#[trigger] mv[x]).0 == rv[n - bo.len()].0;
                        let z = choose|z: int| 0 <= z < in0.len() && in0[z] == mv[x];
                    }
                }
            }
            assert forall|y: int| 0 <= y < input@.len() implies orig.contains(#[trigger] input@[y]) by {
                let z = choose|z: int| 0 <= z < in0.len() && in0[z] == input@[y];
                assert(orig.contains(in0[z]));
            }
            assert forall|a: int, b: int, k: PersonKind| #![trigger leaves(input@[a].1).contains(k), leaves(input@[b].1).contains(k)]
                0 <= a < input@.len() && 0 <= b < input@.len() && a != b && leaves(input@[a].1).contains(k) implies !leaves(input@[b].1).contains(k) by {
                let za = choose|z: int| 0 <= z < in0.len() && in0[z] == input@[a];
                let zb = choose|z: int| 0 <= z < in0.len() && in0[z] == input@[b];
                assert(input@[a].0 != input@[b].0);
                assert(leaves(in0[za].1).contains(k));
            }
            assert forall|j: int, k: PersonKind| 0 <= j < rv.len() && leaves(rv[j].1).contains(k) implies
                exists|z: int| 0 <= z < in0.len() && with_slot(in0[z].0, d, None) == g && (#[trigger] leaves(in0[z].1)).contains(k) by {
                assert(covers(mv, k));
                let x = choose|x: int| 0 <= x < mv.len() && (#[trigger] leaves(mv[x].1)).contains(k);
                let z = choose|z: int| 0 <= z < in0.len() && in0[z] == mv[x];
                assert(leaves(in0[z].1).contains(k));
            }
            assert forall|o: int, i: int, k: PersonKind| #![trigger leaves(out@[o].1).contains(k), leaves(input@[i].1).contains(k)]
                0 <= o < out@.len() && 0 <= i < input@.len() && leaves(out@[o].1).contains(k) implies !leaves(input@[i].1).contains(k) by {
                let y = choose|y: int| 0 <= y < in0.len() && in0[y] == input@[i];
                assert(with_slot(in0[y].0, d, None) != g);
                if o < bo.len() {
                    assert(out@[o] == bo[o]);
                    assert(!leaves(in0[y].1).contains(k));
                } else {
                    assert(out@[o] == rv[o - bo.len()]);
                    let z = choose|z: int| 0 <= z < in0.len() && with_slot(in0[z].0, d, None) == g && (#[trigger] leaves(in0[z].1)).contains(k);
                    assert(z != y);
                }
            }
            assert forall|a: int, b: int, k: PersonKind| #![trigger leaves(out@[a].1).contains(k), leaves(out@[b].1).contains(k)]
                0 <= a < out@.len() && 0 <= b < out@.len() && a != b && leaves(out@[a].1).contains(k) implies !leaves(out@[b].1).contains(k) by {
                if a < bo.len() && b < bo.len() {
                    assert(out@[a] == bo[a] && out@[b] == bo[b]);
                } else if a >= bo.len() && b >= bo.len() {
                    assert(out@[a] == rv[a - bo.len()] && out@[b] == rv[b - bo.len()]);
                } else {
                    let (o, n) = if a < bo.len() { (a, b) } else { (b, a) };
                    assert(out@[o] == bo[o]);
                    assert(out@[n] == rv[n - bo.len()]);
                    if leaves(out@[n].1).contains(k) {
                        let z = choose|z: int| 0 <= z < in0.len() && with_slot(in0[z].0, d, None) == g && (#[trigger] leaves(in0[z].1)).contains(k);
                        assert(!leaves(bo[o].1).contains(k));
                    }
                }
            }
            assert forall|j: int, k: PersonKind| #![trigger leaves(out@[j].1).contains(k)] 0 <= j < out@.len() && leaves(out@[j].1).contains(k) implies covers(orig, k) by {
                if j < bo.len() {
                    assert(out@[j] == bo[j]);
                } else {
                    assert(out@[j] == rv[j - bo.len()]);
                    let z = choose|z: int| 0 <= z < in0.len() && with_slot(in0[z].0, d, None) == g && (#[trigger] leaves(in0[z].1)).contains(k);
                    let w = choose|w: int| 0 <= w < orig.len() && orig[w] == in0[z];
                    assert(leaves(orig[w].1).contains(k));
                }
            }
            assert forall|k: PersonKind| covers(orig, k) implies covers(out@, k) || covers(input@, k) by {
                if covers(bo, k) {
                    let x = choose|x: int| 0 <= x < bo.len() && (#[trigger] leaves(bo[x].1)).contains(k);
                    assert(out@[x] == bo[x]);
                } else if covers(in0, k) {
                    if covers(mv, k) {
                        assert(covers(rv, k));
                        let x = choose|x: int| 0 <= x < rv.len() && (#[trigger] leaves(rv[x].1)).contains(k);
                        assert(out@[bo.len() + x] == rv[x]);
                    }
                }
            }
        }
    }
    out
}

} // verus!

verus! {

/// The tone pairs in natural order, a pair of equal tones written as the lone tone.
pub open spec fn tone_pair_values() -> Seq<DimValue> {
    Seq::new(
        25,
        |i: int| DimValue::Tone(Toning {
            first: crate::attributes::all_tones()[i / 5],
            second: if i / 5 == i % 5 { None } else { Some(crate::attributes::all_tones()[i % 5]) },
        }),
    )
}

/// The lone tones in natural order.
pub open spec fn lone_tone_values() -> Seq<DimValue> {
    Seq::new(5, |i: int| DimValue::Tone(Toning { first: crate::attributes::all_tones()[i], second: None }))
}

/// The families: every parents value with every children value.
pub open spec fn family_values() -> Seq<DimValue> {
    Seq::new(
        25,
        |i: int| DimValue::People(People {
            first: crate::attributes::all_one_or_two()[i / 5],
            second: Some(crate::attributes::all_one_or_two()[i % 5]),
        }),
    )
}

/// The one-or-two values without children.
pub open spec fn lone_people_values() -> Seq<DimValue> {
    Seq::new(5, |i: int| DimValue::People(People { first: crate::attributes::all_one_or_two()[i], second: None }))
}

/// The hair styles.
pub open spec fn hair_values() -> Seq<DimValue> {
    Seq::new(6, |i: int| DimValue::Hair(crate::attributes::all_hair()[i]))
}

fn tone_pairs() -> (r: Vec<DimValue>)
    ensures
        r@ == tone_pair_values(),
{
    let all = Tone::all();
    let mut v: Vec<DimValue> = Vec::new();
    let mut i: usize = 0;
    while i < 5
        invariant
            all@ == crate::attributes::all_tones(),
            i <= 5,
            v@.len() == 5 * i,
            forall|k: int| 0 <= k < v@.len() ==> v@[k] == tone_pair_values()[k],
        decreases 5 - i,
    {
        let mut s: usize = 0;
        while s < 5
            invariant
                all@ == crate::attributes::all_tones(),
                i < 5,
                s <= 5,
                v@.len() == 5 * i + s,
                forall|k: int| 0 <= k < v@.len() ==> v@[k] == tone_pair_values()[k],
            decreases 5 - s,
        {
            assert((5 * i + s) / 5 == i && (5 * i + s) % 5 == s) by (nonlinear_arith)
                requires s < 5;
            let second = if i == s { None } else { Some(all[s]) };
            v.push(DimValue::Tone(Toning { first: all[i], second }));
            s = s + 1;
        }
        i = i + 1;
    }
    assert(v@ =~= tone_pair_values());
    v
}

fn families() -> (r: Vec<DimValue>)
    ensures
        r@ == family_values(),
{
    let all = OneOrTwo::all();
    let mut v: Vec<DimValue> = Vec::new();
    let mut i: usize = 0;
    while i < 5
        invariant
            all@ == crate::attributes::all_one_or_two(),
            i <= 5,
            v@.len() == 5 * i,
            forall|k: int| 0 <= k < v@.len() ==> v@[k] == family_values()[k],
        decreases 5 - i,
    {
        let mut s: usize = 0;
        while s < 5
            invariant
                all@ == crate::attributes::all_one_or_two(),
                i < 5,
                s <= 5,
                v@.len() == 5 * i + s,
                forall|k: int| 0 <= k < v@.len() ==> v@[k] == family_values()[k],
            decreases 5 - s,
        {
            assert((5 * i + s) / 5 == i && (5 * i + s) % 5 == s) by (nonlinear_arith)
                requires s < 5;
            v.push(DimValue::People(People { first: all[i], second: Some(all[s]) }));
            s = s + 1;
        }
        i = i + 1;
    }
    assert(v@ =~= family_values());
    v
}

fn lone_tones() -> (r: Vec<DimValue>)
    ensures
        r@ == lone_tone_values(),
{
    let all = Tone::all();
    let mut v: Vec<DimValue> = Vec::new();
    let mut i: usize = 0;
    while i < 5
        invariant
            all@ == crate::attributes::all_tones(),
            i <= 5,
            v@.len() == i,
            forall|k: int| 0 <= k < v@.len() ==> v@[k] == lone_tone_values()[k],
        decreases 5 - i,
    {
        v.push(DimValue::Tone(Toning { first: all[i], second: None }));
        i = i + 1;
    }
    assert(v@ =~= lone_tone_values());
    v
}

fn lone_people() -> (r: Vec<DimValue>)
    ensures
        r@ == lone_people_values(),
{
    let all = OneOrTwo::all();
    let mut v: Vec<DimValue> = Vec::new();
    let mut i: usize = 0;
    while i < 5
        invariant
            all@ == crate::attributes::all_one_or_two(),
            i <= 5,
            v@.len() == i,
            forall|k: int| 0 <= k < v@.len() ==> v@[k] == lone_people_values()[k],
        decreases 5 - i,
    {
        v.push(DimValue::People(People { first: all[i], second: None }));
        i = i + 1;
    }
    assert(v@ =~= lone_people_values());
    v
}

fn hair_styles() -> (r: Vec<DimValue>)
    ensures
        r@ == hair_values(),
{
    let all = Hair::all();
    let mut v: Vec<DimValue> = Vec::new();
    let mut i: usize = 0;
    while i < 6
        invariant
            all@ == crate::attributes::all_hair(),
            i <= 6,
            v@.len() == i,
            forall|k: int| 0 <= k < v@.len() ==> v@[k] == hair_values()[k],
        decreases 6 - i,
    {
        v.push(DimValue::Hair(all[i]));
        i = i + 1;
    }
    assert(v@ =~= hair_values());
    v
}

/// The pairs of two different tones, the lighter one first.
pub open spec fn reduced_tone_values() -> Seq<DimValue> {
    seq![
        DimValue::Tone(Toning { first: Tone::Light, second: Some(Tone::MediumLight) }),
        DimValue::Tone(Toning { first: Tone::Light, second: Some(Tone::Medium) }),
        DimValue::Tone(Toning { first: Tone::Light, second: Some(Tone::MediumDark) }),
        DimValue::Tone(Toning { first: Tone::Light, second: Some(Tone::Dark) }),
        DimValue::Tone(Toning { first: Tone::MediumLight, second: Some(Tone::Medium) }),
        DimValue::Tone(Toning { first: Tone::MediumLight, second: Some(Tone::MediumDark) }),
        DimValue::Tone(Toning { first: Tone::MediumLight, second: Some(Tone::Dark) }),
        DimValue::Tone(Toning { first: Tone::Medium, second: Some(Tone::MediumDark) }),
        DimValue::Tone(Toning { first: Tone::Medium, second: Some(Tone::Dark) }),
        DimValue::Tone(Toning { first: Tone::MediumDark, second: Some(Tone::Dark) }),
    ]
}

/// The pairs of people without children.
pub open spec fn pair_values() -> Seq<DimValue> {
    seq![
        DimValue::People(People { first: OneOrTwo::Two(Pair::Males), second: None }),
        DimValue::People(People { first: OneOrTwo::Two(Pair::Mixed), second: None }),
        DimValue::People(People { first: OneOrTwo::Two(Pair::Females), second: None }),
    ]
}

/// The single people without children.
pub open spec fn gender_values() -> Seq<DimValue> {
    seq![
        DimValue::People(People { first: OneOrTwo::One(Gender::Male), second: None }),
        DimValue::People(People { first: OneOrTwo::One(Gender::Female), second: None }),
    ]
}

/// Two men and two women, read as one man and one woman.
pub open spec fn pseudo_gender_values() -> Seq<DimValue> {
    seq![
        DimValue::People(People { first: OneOrTwo::Two(Pair::Males), second: None }),
        DimValue::People(People { first: OneOrTwo::Two(Pair::Females), second: None }),
    ]
}

/// The recognised complete sets of dimension `d`, the most specific first.
pub open spec fn supported_values(d: Dim) -> Seq<Seq<DimValue>> {
    match d {
        Dim::Tone => seq![tone_pair_values(), reduced_tone_values(), lone_tone_values()],
        Dim::People => seq![
            family_values(),
            lone_people_values(),
            pair_values(),
            gender_values(),
            pseudo_gender_values(),
        ],
        Dim::Hair => seq![hair_values()],
    }
}

/// The styles of the recognised sets of dimension `d`, in the same order.
pub open spec fn supported_styles(d: Dim) -> Seq<AccessStyle> {
    match d {
        Dim::Tone => seq![AccessStyle::TonePair, AccessStyle::TonePairReduced, AccessStyle::Tone],
        Dim::People => seq![
            AccessStyle::Family,
            AccessStyle::OneOrTwo,
            AccessStyle::Pair,
            AccessStyle::Gender,
            AccessStyle::PseudoGender,
        ],
        Dim::Hair => seq![AccessStyle::Hair],
    }
}

/// The names of the attribute types of the recognised sets of dimension `d`, in the same order.
pub open spec fn supported_names(d: Dim) -> Seq<Seq<char>> {
    match d {
        Dim::Tone => seq!["TonePair"@, "TonePairReduced"@, "Tone"@],
        Dim::People => seq!["Family"@, "OneOrTwo"@, "Pair"@, "Gender"@, "Gender"@],
        Dim::Hair => seq!["Hair"@],
    }
}

/// The recognised complete sets of one dimension, the most specific first: the first that a
/// bucket matches wins.
pub fn supported_sets(d: Dim) -> (r: Vec<QualifierSet>)
    ensures
        r@.len() == supported_values(d).len(),
        forall|i: int| 0 <= i < r@.len() ==> (#[trigger] r@[i]).set@ == supported_values(d)[i]
            && r@[i].style == supported_styles(d)[i]
            && r@[i].kind_name@ == supported_names(d)[i]
            && r@[i].pair_up == (r@[i].style == AccessStyle::TonePair),
        sets_fit(r@, d),
{
    let r = match d {
        Dim::Tone => {
            let reduced = vec![
                DimValue::Tone(Toning { first: Tone::Light, second: Some(Tone::MediumLight) }),
                DimValue::Tone(Toning { first: Tone::Light, second: Some(Tone::Medium) }),
                DimValue::Tone(Toning { first: Tone::Light, second: Some(Tone::MediumDark) }),
                DimValue::Tone(Toning { first: Tone::Light, second: Some(Tone::Dark) }),
                DimValue::Tone(Toning { first: Tone::MediumLight, second: Some(Tone::Medium) }),
                DimValue::Tone(Toning { first: Tone::MediumLight, second: Some(Tone::MediumDark) }),
                DimValue::Tone(Toning { first: Tone::MediumLight, second: Some(Tone::Dark) }),
                DimValue::Tone(Toning { first: Tone::Medium, second: Some(Tone::MediumDark) }),
                DimValue::Tone(Toning { first: Tone::Medium, second: Some(Tone::Dark) }),
                DimValue::Tone(Toning { first: Tone::MediumDark, second: Some(Tone::Dark) }),
            ];
            assert(reduced@ =~= reduced_tone_values());
            vec![
                QualifierSet { set: tone_pairs(), kind_name: "TonePair", style: AccessStyle::TonePair, pair_up: true },
                QualifierSet { set: reduced, kind_name: "TonePairReduced", style: AccessStyle::TonePairReduced, pair_up: false },
                QualifierSet { set: lone_tones(), kind_name: "Tone", style: AccessStyle::Tone, pair_up: false },
            ]
        },
        Dim::People => {
            let pairs = vec![
                DimValue::People(People { first: OneOrTwo::Two(Pair::Males), second: None }),
                DimValue::People(People { first: OneOrTwo::Two(Pair::Mixed), second: None }),
                DimValue::People(People { first: OneOrTwo::Two(Pair::Females), second: None }),
            ];
            let genders = vec![
                DimValue::People(People { first: OneOrTwo::One(Gender::Male), second: None }),
                DimValue::People(People { first: OneOrTwo::One(Gender::Female), second: None }),
            ];
            let pseudo = vec![
                DimValue::People(People { first: OneOrTwo::Two(Pair::Males), second: None }),
                DimValue::People(People { first: OneOrTwo::Two(Pair::Females), second: None }),
            ];
            assert(pairs@ =~= pair_values());
            assert(genders@ =~= gender_values());
            assert(pseudo@ =~= pseudo_gender_values());
            vec![
                QualifierSet { set: families(), kind_name: "Family", style: AccessStyle::Family, pair_up: false },
                QualifierSet { set: lone_people(), kind_name: "OneOrTwo", style: AccessStyle::OneOrTwo, pair_up: false },
                QualifierSet { set: pairs, kind_name: "Pair", style: AccessStyle::Pair, pair_up: false },
                QualifierSet { set: genders, kind_name: "Gender", style: AccessStyle::Gender, pair_up: false },
                QualifierSet { set: pseudo, kind_name: "Gender", style: AccessStyle::PseudoGender, pair_up: false },
            ]
        },
        Dim::Hair => {
            vec![QualifierSet { set: hair_styles(), kind_name: "Hair", style: AccessStyle::Hair, pair_up: false }]
        },
    };
    proof {
        assert forall|i: int| 0 <= i < r@.len() implies values_fit((#[trigger] r@[i]).set@, d) by {
            let s = r@[i].set@;
            assert forall|k: int| 0 <= k < s.len() implies fits(d, #[trigger] s[k]) by {
                if d == Dim::Tone && i == 1 {
                    assert(reduced_tone_values()[k] == s[k]);
                }
            }
        }
    }
    r
}

} // verus!

verus! {

impl crate::groups::PersonKindGroup {
    /// Qualifies the entries of the groups one level below this one over the dimension that
    /// this group leaves open: hair for all, people within one hair value, tone within one
    /// hair and people value.
    pub fn qualify(
        self,
        subs: Vec<(PersonKindSelector, PersonQualified)>,
        Ghost(keys): Ghost<Set<PersonKind>>,
    ) -> (r: Vec<(PersonKindSelector, PersonQualified)>)
        requires
            !(self is Tone),
            entries_wf(subs@, keys),
            sels_distinct(subs@),
            leaves_disjoint(subs@),
            forall|i: int| 0 <= i < subs@.len() ==> slot_of((#[trigger] subs@[i]).0, dim_of(self)) is Some,
            forall|i: int| 0 <= i < subs@.len() ==> pins(self, (#[trigger] subs@[i]).0),
        ensures
            entries_wf(r@, keys),
            sels_distinct(r@),
            leaves_disjoint(r@),
            forall|j: int, k: PersonKind| #![trigger leaves(r@[j].1).contains(k)] 0 <= j < r@.len() && leaves(r@[j].1).contains(k) ==> covers(subs@, k),
            forall|k: PersonKind| covers(subs@, k) ==> covers(r@, k),
            forall|j: int| 0 <= j < r@.len() ==> pins(self, (#[trigger] r@[j]).0),
            abs_seq(r@) == abs_qualify_dim(dim_of(self), abs_seq(subs@), supported_values(dim_of(self)), subs@.len() as nat),
    {
        let d = match self {
            crate::groups::PersonKindGroup::All => Dim::Hair,
            crate::groups::PersonKindGroup::Hair(_) => Dim::People,
            _ => Dim::Tone,
        };
        let sets = supported_sets(d);
        assert(set_values(sets@) =~= supported_values(d));
        qualify_dim(d, subs, &sets, Ghost(keys), Ghost(self))
    }
}

} // verus!

verus! {

/// An entry seen by its selector and the set of its leaves.
pub open spec fn abs(e: (PersonKindSelector, PersonQualified)) -> (PersonKindSelector, Set<PersonKind>) {
    (e.0, leaves(e.1).to_set())
}

/// A list of entries seen by selectors and leaf sets.
pub open spec fn abs_seq(s: Seq<(PersonKindSelector, PersonQualified)>) -> Seq<(PersonKindSelector, Set<PersonKind>)> {
    s.map_values(|e: (PersonKindSelector, PersonQualified)| abs(e))
}

/// Whether an abstract bucket has a member with the given selector.
pub open spec fn abs_has_member(m: Seq<(PersonKindSelector, Set<PersonKind>)>, sel: PersonKindSelector) -> bool {
    exists|i: int| 0 <= i < m.len() && (#[trigger] m[i]).0 == sel
}

/// Whether an abstract bucket holds exactly the values of a set (and perhaps the default).
pub open spec fn abs_matches(m: Seq<(PersonKindSelector, Set<PersonKind>)>, gen: PersonKindSelector, d: Dim, q: Seq<DimValue>) -> bool {
    &&& forall|j: int| 0 <= j < q.len() ==> abs_has_member(m, with_slot(gen, d, Some(Some(#[trigger] q[j]))))
    &&& forall|i: int| 0 <= i < m.len() ==> member_allowed((#[trigger] m[i]).0, gen, d, q)
}

/// The first set, from position `j` on, without repeated values that an abstract bucket matches.
pub open spec fn abs_first_match(
    m: Seq<(PersonKindSelector, Set<PersonKind>)>,
    gen: PersonKindSelector,
    d: Dim,
    sets: Seq<Seq<DimValue>>,
    j: int,
) -> Option<int>
    decreases sets.len() - j,
{
    if j < 0 || j >= sets.len() {
        None
    } else if sets[j].no_duplicates() && abs_matches(m, gen, d, sets[j]) {
        Some(j)
    } else {
        abs_first_match(m, gen, d, sets, j + 1)
    }
}

/// All leaves of an abstract bucket.
pub open spec fn union_leaves(m: Seq<(PersonKindSelector, Set<PersonKind>)>) -> Set<PersonKind> {
    Set::new(|k: PersonKind| exists|i: int| 0 <= i < m.len() && (#[trigger] m[i]).1.contains(k))
}

/// What validation makes of an abstract bucket: one entry under `gen` holding all its leaves
/// where a set matches, else the bucket as it is.
pub open spec fn abs_validate(
    d: Dim,
    gen: PersonKindSelector,
    m: Seq<(PersonKindSelector, Set<PersonKind>)>,
    sets: Seq<Seq<DimValue>>,
) -> Seq<(PersonKindSelector, Set<PersonKind>)> {
    match abs_first_match(m, gen, d, sets, 0) {
        Some(_) => seq![(gen, union_leaves(m))],
        None => m,
    }
}

/// Whether an entry belongs to the bucket `g` of dimension `d`.
pub open spec fn in_bucket(a: (PersonKindSelector, Set<PersonKind>), d: Dim, g: PersonKindSelector) -> bool {
    with_slot(a.0, d, None) == g
}

/// What qualification over dimension `d` makes of abstract entries: the bucket of the first
/// entry validated, then the rest, within `fuel` buckets.
pub open spec fn abs_qualify_dim(
    d: Dim,
    input: Seq<(PersonKindSelector, Set<PersonKind>)>,
    sets: Seq<Seq<DimValue>>,
    fuel: nat,
) -> Seq<(PersonKindSelector, Set<PersonKind>)>
    decreases fuel,
{
    if fuel == 0 || input.len() == 0 {
        Seq::empty()
    } else {
        let g = with_slot(input[0].0, d, None);
        abs_validate(d, g, input.filter(|a: (PersonKindSelector, Set<PersonKind>)| in_bucket(a, d, g)), sets)
            + abs_qualify_dim(d, input.filter(|a: (PersonKindSelector, Set<PersonKind>)| !in_bucket(a, d, g)), sets, (fuel - 1) as nat)
    }
}

/// What qualification makes of the keys of a group, as selectors and leaf sets.
pub open spec fn abs_qualify(keys: Set<PersonKind>, g: PersonKindGroup) -> Seq<(PersonKindSelector, Set<PersonKind>)>
    decreases crate::groups::group_depth(g), 32nat,
{
    match crate::groups::next_groups(g) {
        Ok(gs) => {
            let subs = children_abs(keys, g, gs.len());
            abs_qualify_dim(dim_of(g), subs, supported_values(dim_of(g)), subs.len() as nat)
        },
        Err(k) => if keys.contains(k) {
            seq![(crate::groups::exact_selector(k), set![k])]
        } else {
            Seq::empty()
        },
    }
}

/// What qualification makes of the keys of the first `n` groups below `g`, in order.
pub open spec fn children_abs(keys: Set<PersonKind>, g: PersonKindGroup, n: nat) -> Seq<(PersonKindSelector, Set<PersonKind>)>
    decreases crate::groups::group_depth(g), n,
{
    match crate::groups::next_groups(g) {
        Ok(gs) => if n == 0 || n > gs.len() || n > 31 {
            Seq::empty()
        } else {
            children_abs(keys, g, (n - 1) as nat) + abs_qualify(keys, gs[n - 1])
        },
        Err(_) => Seq::empty(),
    }
}

/// The values of each set of a list.
pub open spec fn set_values(sets: Seq<QualifierSet>) -> Seq<Seq<DimValue>> {
    sets.map_values(|q: QualifierSet| q.set@)
}

proof fn lemma_matches_abs(m: Seq<(PersonKindSelector, PersonQualified)>, gen: PersonKindSelector, d: Dim, q: Seq<DimValue>)
    ensures
        bucket_matches(m, gen, d, q) == abs_matches(abs_seq(m), gen, d, q),
{
    let a = abs_seq(m);
    assert forall|sel: PersonKindSelector| has_member(m, sel) == abs_has_member(a, sel) by {
        if has_member(m, sel) {
            let i = choose|i: int| 0 <= i < m.len() && (#[trigger] m[i]).0 == sel;
            assert(a[i].0 == sel);
        }
        if abs_has_member(a, sel) {
            let i = choose|i: int| 0 <= i < a.len() && (#[trigger] a[i]).0 == sel;
            assert(m[i].0 == sel);
        }
    }
    assert forall|i: int| 0 <= i < m.len() implies a[i].0 == m[i].0 by {}
}

proof fn lemma_first_match_abs(m: Seq<(PersonKindSelector, PersonQualified)>, gen: PersonKindSelector, d: Dim, sets: Seq<QualifierSet>, j: int)
    requires
        0 <= j,
    ensures
        first_match(m, gen, d, sets, j) == abs_first_match(abs_seq(m), gen, d, set_values(sets), j),
    decreases sets.len() - j,
{
    if j < sets.len() {
        assert(set_values(sets)[j] == sets[j].set@);
        lemma_matches_abs(m, gen, d, sets[j].set@);
        lemma_first_match_abs(m, gen, d, sets, j + 1);
    }
}

proof fn lemma_filter_split(x: Seq<(PersonKindSelector, Set<PersonKind>)>, d: Dim, g: PersonKindSelector)
    ensures
        x.filter(|a: (PersonKindSelector, Set<PersonKind>)| in_bucket(a, d, g)).len()
            + x.filter(|a: (PersonKindSelector, Set<PersonKind>)| !in_bucket(a, d, g)).len() == x.len(),
        x.len() > 0 && in_bucket(x[0], d, g) ==> x.filter(|a: (PersonKindSelector, Set<PersonKind>)| !in_bucket(a, d, g)).len() < x.len(),
    decreases x.len(),
{
    reveal(Seq::filter);
    if x.len() > 0 {
        lemma_filter_split(x.drop_last(), d, g);
        if x.len() > 1 && in_bucket(x[0], d, g) {
            assert(x.drop_last()[0] == x[0]);
        }
    }
}

proof fn lemma_fuel(d: Dim, x: Seq<(PersonKindSelector, Set<PersonKind>)>, sets: Seq<Seq<DimValue>>, f: nat)
    requires
        f >= x.len(),
    ensures
        abs_qualify_dim(d, x, sets, f) == abs_qualify_dim(d, x, sets, x.len() as nat),
    decreases f,
{
    if x.len() > 0 {
        let g = with_slot(x[0].0, d, None);
        let rest = x.filter(|a: (PersonKindSelector, Set<PersonKind>)| !in_bucket(a, d, g));
        lemma_filter_split(x, d, g);
        lemma_fuel(d, rest, sets, (f - 1) as nat);
        lemma_fuel(d, rest, sets, (x.len() - 1) as nat);
    }
}

} // verus!
