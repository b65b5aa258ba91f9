//! The emojis of the data feed, in groups and subgroups.
use vstd::prelude::*;
use crate::attributes::Version;
use crate::groups::PersonKind;
use crate::parsing::PersonEntry;
use crate::people::{PersonEmoji, PersonVariant};
use crate::strs::{replace_all, replaced, seq_lt, str_eq, str_lt};
use crate::strutil::{generate_constant, generate_module};

verus! {

/// A standalone emoji.
#[derive(Debug)]
pub struct Emoji {
    pub name: String,
    pub identifier: String,
    pub since: Version,
    pub grapheme: String,
}

/// The identifiers of a list of standalone emojis.
pub open spec fn plain_ids(v: Seq<Emoji>) -> Seq<Seq<char>> {
    v.map_values(|e: Emoji| e.identifier@)
}

/// The keys of a list of person emojis.
pub open spec fn person_keys(v: Seq<(String, PersonEmoji)>) -> Seq<Seq<char>> {
    v.map_values(|e: (String, PersonEmoji)| e.0@)
}

/// A list of strings in strictly increasing order.
pub open spec fn strictly_sorted(v: Seq<Seq<char>>) -> bool {
    forall|i: int, j: int| 0 <= i < j < v.len() ==> seq_lt(v[i], v[j])
}

/// A subgroup of the data feed: its standalone emojis, its person emojis by key, and the sorted
/// list of their identifiers.
#[derive(Debug)]
pub struct Subgroup {
    pub name: String,
    pub identifier: String,
    pub emojis: Vec<Emoji>,
    pub constants: Vec<String>,
    pub person_emojis: Vec<(String, PersonEmoji)>,
}

/// An emoji of a subgroup: standalone or a person emoji.
pub enum EmojiRef<'a> {
    Plain(&'a Emoji),
    Person(&'a PersonEmoji),
}

/// What adding the variant `(kind, v)` to the person emoji keyed `key` (named `fancy` where it
/// is new) makes of the list `o`: the first record of that key gains the variant unless it has
/// one of that key already (then `ok` is false and nothing changes), or a new record is
/// appended.
pub open spec fn person_appended(
    o: Seq<(String, PersonEmoji)>,
    f: Seq<(String, PersonEmoji)>,
    key: Seq<char>,
    fancy: Seq<char>,
    kind: PersonKind,
    v: (Seq<char>, Seq<char>, Version),
    ok: bool,
) -> bool {
    match first_key(o, key, 0) {
        Some(i) => {
            &&& f.len() == o.len()
            &&& forall|j: int| 0 <= j < o.len() && j != i ==> f[j] == o[j]
            &&& f[i].0 == o[i].0
            &&& same_but_variants(f[i].1, o[i].1)
            &&& (ok <==> !crate::people::keys_of(o[i].1.variants@).contains(kind))
            &&& ok ==> f[i].1.variants@.len() == o[i].1.variants@.len() + 1
                && f[i].1.variants@.drop_last() == o[i].1.variants@
                && f[i].1.variants@.last().0 == kind && f[i].1.variants@.last().1@ == v
            &&& !ok ==> f[i].1.variants@ == o[i].1.variants@
        },
        None => {
            &&& ok
            &&& f.len() == o.len() + 1
            &&& forall|j: int| 0 <= j < o.len() ==> f[j] == o[j]
            &&& f[o.len() as int].0@ == key
            &&& f[o.len() as int].1.identifier@ == key
            &&& f[o.len() as int].1.fancy_name@ == fancy
            &&& f[o.len() as int].1.grouping is None
            &&& f[o.len() as int].1.variants@.len() == 1
            &&& f[o.len() as int].1.variants@[0].0 == kind && f[o.len() as int].1.variants@[0].1@ == v
        },
    }
}

/// The version of a feed line, 0.0 where it has none.
pub open spec fn since_of(v: Option<Version>) -> Version {
    match v {
        Some(x) => x,
        None => Version(0, 0),
    }
}

/// What a feed line of a standalone emoji makes of the subgroup `o`.
pub open spec fn plain_appended(o: Subgroup, f: Subgroup, code: Seq<char>, version: Option<Version>, name: Seq<char>, r: Result<(), AppendError>) -> bool {
    let id = crate::strutil::constant_name(attr_spelled(name));
    &&& f.person_emojis@ == o.person_emojis@
    &&& (r is Ok <==> !plain_ids(o.emojis@).contains(id))
    &&& r is Ok ==> f.emojis@.len() == o.emojis@.len() + 1 && f.emojis@.drop_last() == o.emojis@
        && f.emojis@.last().name@ == name && f.emojis@.last().identifier@ == id
        && f.emojis@.last().since == since_of(version) && f.emojis@.last().grapheme@ == unicode_from(code, 0)
    &&& r is Err ==> f.emojis@ == o.emojis@ && (r matches Err(AppendError::DuplicateEmoji(x)) && x@ == id)
}

/// What a feed line of a person emoji of family `family`, whose fragments give `k`, makes of
/// the subgroup `o`.
pub open spec fn person_line(
    o: Subgroup,
    f: Subgroup,
    family: Seq<char>,
    code: Seq<char>,
    version: Option<Version>,
    name: Seq<char>,
    k: Result<PersonKind, crate::parsing::WordError>,
    r: Result<(), AppendError>,
) -> bool {
    &&& f.emojis@ == o.emojis@
    &&& match k {
        Err(w) => r == Err::<(), AppendError>(AppendError::Words(w)) && f.person_emojis@ == o.person_emojis@,
        Ok(kind) => person_appended(o.person_emojis@, f.person_emojis@, crate::strutil::constant_name(family), family,
            kind, (name, unicode_from(code, 0), since_of(version)), r is Ok)
            && (r is Err ==> r matches Err(AppendError::DuplicateVariant(_))),
    }
}

/// Two records that agree in everything but their variants.
pub open spec fn same_but_variants(a: PersonEmoji, b: PersonEmoji) -> bool {
    a.identifier == b.identifier && a.fancy_name == b.fancy_name && a.grouping == b.grouping
}

/// What stops the merge of a subgroup.
#[derive(Debug)]
pub enum MergeError {
    /// A person emoji that already had a default variant met a standalone emoji of its name.
    DuplicateDefault(String),
    /// Two person emojis that were merged both had a variant of the same key.
    DuplicateVariant(String),
    /// Finalizing gave two records of the same identifier.
    DuplicateIdentifier(String),
}

/// `s` with the placeholder token for a person removed.
pub open spec fn shortened(s: Seq<char>) -> Seq<char> {
    replaced(replaced(s, "_PERSON"@, ""@), "PERSON_"@, ""@)
}

/// Removes the placeholder token for a person from an identifier.
pub fn shorten(s: &str) -> (r: String)
    ensures
        r@ == shortened(s@),
{
    let a = replace_all(s, "_PERSON", "");
    replace_all(a.as_str(), "PERSON_", "")
}

proof fn lemma_first_plain_range(v: Seq<Emoji>, id: Seq<char>, i: int)
    requires
        0 <= i,
    ensures
        first_plain(v, id, i) matches Some(j) ==> i <= j < v.len(),
    decreases v.len() - i,
{
    if i < v.len() && v[i].identifier@ != id {
        lemma_first_plain_range(v, id, i + 1);
    }
}

/// Whether the record keyed `k` is merged away.
fn moved_key(ps: &Vec<(String, PersonEmoji)>, k: &str) -> (r: bool)
    ensures
        r == moved(person_keys(ps@), k@),
{
    let s1 = shorten(k);
    if str_eq(s1.as_str(), k) || s1.unicode_len() == 0 {
        return false;
    }
    match find_person(ps, s1.as_str()) {
        None => {
            return false;
        },
        Some(a) => {
            assert(person_keys(ps@)[a as int] == s1@);
        },
    }
    let s2 = shorten(s1.as_str());
    if str_eq(s2.as_str(), s1.as_str()) || s2.unicode_len() == 0 {
        return true;
    }
    match find_person(ps, s2.as_str()) {
        None => true,
        Some(b) => {
            assert(person_keys(ps@)[b as int] == s2@);
            false
        },
    }
}

proof fn lemma_vkeys(v: Seq<(PersonKind, PersonVariant)>)
    ensures
        vkeys(vview(v)) == crate::people::keys_of(v),
{
    assert(vkeys(vview(v)) =~= crate::people::keys_of(v));
}

/// Adds the variants of `src` to `m` one by one; false where a key comes twice.
fn insert_all(m: &mut PersonEmoji, src: &Vec<(PersonKind, PersonVariant)>) -> (r: bool)
    requires
        old(m).wf(),
    ensures
        final(m).identifier == old(m).identifier,
        final(m).fancy_name == old(m).fancy_name,
        final(m).grouping == old(m).grouping,
        r == (vkeys(vview(old(m).variants@)) + vkeys(vview(src@))).no_duplicates(),
        r ==> final(m).wf(),
        r ==> vview(final(m).variants@) == vview(old(m).variants@) + vview(src@),
{
    let ghost ov = vview(m.variants@);
    let ghost sv = vview(src@);
    let mut i: usize = 0;
    proof {
        lemma_vkeys(m.variants@);
        assert(sv.take(0) =~= Seq::<(PersonKind, (Seq<char>, Seq<char>, Version))>::empty());
        assert(vview(m.variants@) =~= ov + sv.take(0));
    }
    while i < src.len()
        invariant
            i <= src@.len(),
            sv == vview(src@),
            m.wf(),
            m.identifier == old(m).identifier,
            m.fancy_name == old(m).fancy_name,
            m.grouping == old(m).grouping,
            ov == vview(old(m).variants@),
            vview(m.variants@) == ov + sv.take(i as int),
        decreases src@.len() - i,
    {
        let (k, v) = (src[i].0, src[i].1.duplicate());
        let ghost before = m.variants@;
        proof { lemma_vkeys(before); }
        match m.insert(k, v) {
            Ok(()) => {
                proof {
                    assert(sv.take(i + 1) =~= sv.take(i as int).push(sv[i as int]));
                    assert(vview(m.variants@) =~= vview(before).push((k, v@)));
                }
            },
            Err(_) => {
                proof {
                    let whole = vkeys(ov) + vkeys(sv);
                    let a = choose|a: int| 0 <= a < crate::people::keys_of(before).len() && crate::people::keys_of(before)[a] == k;
                    assert(vkeys(vview(before)) == vkeys(ov + sv.take(i as int)));
                    assert(vkeys(ov + sv.take(i as int))[a] == k);
                    assert(whole[a] == k);
                    assert(whole[vkeys(ov).len() + i] == k);
                }
                return false;
            },
        }
        i = i + 1;
    }
    proof {
        assert(sv.take(i as int) =~= sv);
        lemma_vkeys(m.variants@);
        assert(vkeys(ov) + vkeys(sv) =~= vkeys(ov + sv));
    }
    true
}

proof fn lemma_prefix_dup(a: Seq<PersonKind>, b: Seq<PersonKind>)
    requires
        a.len() <= b.len(),
        a =~= b.take(a.len() as int),
        !a.no_duplicates(),
    ensures
        !b.no_duplicates(),
{
    let (x, y) = choose|x: int, y: int| 0 <= x < a.len() && 0 <= y < a.len() && x != y && a[x] == a[y];
    assert(b[x] == a[x] && b[y] == a[y]);
}

proof fn lemma_gathered_prefix(pv: Seq<RecView>, k: Seq<char>, i: int, n: int)
    requires
        0 <= i <= n,
    ensures
        exists|rest: Seq<(PersonKind, (Seq<char>, Seq<char>, Version))>| gathered(pv, k, n) == gathered(pv, k, i) + rest,
    decreases n - i,
{
    if i < n {
        lemma_gathered_prefix(pv, k, i, n - 1);
        let rest = choose|rest: Seq<(PersonKind, (Seq<char>, Seq<char>, Version))>| gathered(pv, k, n - 1) == gathered(pv, k, i) + rest;
        let ks = pv.map_values(|r: RecView| r.0);
        let last = if moved(ks, pv[n - 1].0) && shortened(pv[n - 1].0) == k { pv[n - 1].3 } else { Seq::empty() };
        assert(gathered(pv, k, n) =~= gathered(pv, k, i) + (rest + last));
    } else {
        assert(gathered(pv, k, n) =~= gathered(pv, k, i) + Seq::empty());
    }
}

fn find_plain(v: &Vec<Emoji>, id: &str) -> (r: Option<usize>)
    ensures
        match first_plain(v@, id@, 0) {
            Some(i) => r == Some(i as usize),
            None => r is None,
        },
        first_plain(v@, id@, 0) matches Some(q) ==> 0 <= q < v@.len(),
        match r {
            Some(i) => i < v@.len() && v@[i as int].identifier@ == id@,
            None => !plain_ids(v@).contains(id@),
        },
{
    let count = v.len();
    proof { lemma_first_plain_range(v@, id@, 0); }
    let mut i: usize = 0;
    while i < v.len()
        invariant
            i <= v@.len(),
            count == v@.len(),
            forall|j: int| 0 <= j < i ==> v@[j].identifier@ != id@,
            first_plain(v@, id@, 0) == first_plain(v@, id@, i as int),
            first_plain(v@, id@, 0) matches Some(q) ==> 0 <= q < v@.len(),
        decreases v@.len() - i,
    {
        if str_eq(v[i].identifier.as_str(), id) {
            return Some(i);
        }
        i = i + 1;
    }
    proof {
        if plain_ids(v@).contains(id@) {
            let j = choose|j: int| 0 <= j < plain_ids(v@).len() && plain_ids(v@)[j] == id@;
            assert(v@[j].identifier@ == id@);
        }
    }
    None
}

/// The position of the first person emoji keyed `key`, from position `i` on.
pub open spec fn first_key(v: Seq<(String, PersonEmoji)>, key: Seq<char>, i: int) -> Option<int>
    decreases v.len() - i,
{
    if i < 0 || i >= v.len() {
        None
    } else if v[i].0@ == key {
        Some(i)
    } else {
        first_key(v, key, i + 1)
    }
}

proof fn lemma_first_key_range(v: Seq<(String, PersonEmoji)>, key: Seq<char>, i: int)
    requires
        0 <= i,
    ensures
        first_key(v, key, i) matches Some(j) ==> i <= j < v.len() && v[j].0@ == key,
    decreases v.len() - i,
{
    if i < v.len() && v[i].0@ != key {
        lemma_first_key_range(v, key, i + 1);
    }
}

fn find_person(v: &Vec<(String, PersonEmoji)>, key: &str) -> (r: Option<usize>)
    ensures
        match r {
            Some(i) => i < v@.len() && v@[i as int].0@ == key@,
            None => !person_keys(v@).contains(key@),
        },
        r == match first_key(v@, key@, 0) { Some(i) => Some(i as usize), None => None::<usize> },
        first_key(v@, key@, 0) matches Some(j) ==> 0 <= j < v@.len(),
{
    proof { lemma_first_key_range(v@, key@, 0); }
    let mut i: usize = 0;
    while i < v.len()
        invariant
            first_key(v@, key@, 0) == first_key(v@, key@, i as int),
            i <= v@.len(),
            forall|j: int| 0 <= j < i ==> v@[j].0@ != key@,
        decreases v@.len() - i,
    {
        if str_eq(v[i].0.as_str(), key) {
            return Some(i);
        }
        i = i + 1;
    }
    proof {
        if person_keys(v@).contains(key@) {
            let j = choose|j: int| 0 <= j < person_keys(v@).len() && person_keys(v@)[j] == key@;
            assert(v@[j].0@ == key@);
        }
    }
    None
}

/// Inserts `s` into a strictly sorted list, unless it is there already.
pub(crate) fn insert_sorted(v: &mut Vec<String>, s: String)
    requires
        strictly_sorted(old(v)@.map_values(|x: String| x@)),
    ensures
        strictly_sorted(final(v)@.map_values(|x: String| x@)),
        final(v)@.map_values(|x: String| x@).to_set() == old(v)@.map_values(|x: String| x@).to_set().insert(s@),
{
    let ghost old_view = v@.map_values(|x: String| x@);
    let mut i: usize = 0;
    while i < v.len() && str_lt(v[i].as_str(), s.as_str())
        invariant
            i <= v@.len(),
            v@.map_values(|x: String| x@) == old_view,
            forall|j: int| 0 <= j < i ==> seq_lt(#[trigger] v@[j]@, s@),
        decreases v@.len() - i,
    {
        i = i + 1;
    }
    if i < v.len() && str_eq(v[i].as_str(), s.as_str()) {
        proof {
            assert(old_view[i as int] == s@);
            assert(old_view.to_set().insert(s@) =~= old_view.to_set());
        }
        return;
    }
    v.insert(i, s);
    proof {
        let nv = v@.map_values(|x: String| x@);
        assert(nv =~= old_view.insert(i as int, s@));
        assert forall|a: int, b: int| 0 <= a < b < nv.len() implies seq_lt(nv[a], nv[b]) by {
            if b < i {
            } else if a < i && b == i {
                assert(seq_lt(v@[a]@, s@));
            } else if a < i && b > i {
                assert(seq_lt(old_view[a], old_view[b - 1]));
            } else if a == i {
                assert(b - 1 >= i);
                if b - 1 == i {
                    assert(!seq_lt(old_view[i as int], s@) && old_view[i as int] != s@);
                    lemma_seq_lt_total(old_view[i as int], s@);
                } else {
                    assert(!seq_lt(old_view[i as int], s@) && old_view[i as int] != s@);
                    lemma_seq_lt_total(old_view[i as int], s@);
                    assert(seq_lt(old_view[i as int], old_view[b - 1]));
                    lemma_seq_lt_trans(s@, old_view[i as int], old_view[b - 1]);
                }
            } else {
                assert(seq_lt(old_view[a - 1], old_view[b - 1]));
            }
        }
        assert(nv.to_set() =~= old_view.to_set().insert(s@)) by {
            assert forall|x: Seq<char>| nv.to_set().contains(x) <==> old_view.to_set().insert(s@).contains(x) by {
                if nv.to_set().contains(x) {
                    let k = choose|k: int| 0 <= k < nv.len() && nv[k] == x;
                    if k < i {
                        assert(old_view[k] == x);
                    } else if k > i {
                        assert(old_view[k - 1] == x);
                    }
                }
                if old_view.to_set().contains(x) {
                    let k = choose|k: int| 0 <= k < old_view.len() && old_view[k] == x;
                    if k < i {
                        assert(nv[k] == x);
                    } else {
                        assert(nv[k + 1] == x);
                    }
                }
                if x == s@ {
                    assert(nv[i as int] == x);
                }
            }
        }
    }
}

proof fn lemma_lt_irrefl(a: Seq<char>)
    ensures
        !seq_lt(a, a),
    decreases a.len(),
{
    if a.len() > 0 {
        lemma_lt_irrefl(a.skip(1));
    }
}

proof fn lemma_lt_asym(a: Seq<char>, b: Seq<char>)
    requires
        seq_lt(a, b),
    ensures
        !seq_lt(b, a),
{
    if seq_lt(b, a) {
        lemma_seq_lt_trans(a, b, a);
        lemma_lt_irrefl(a);
    }
}

proof fn lemma_le_trans(x: Seq<char>, y: Seq<char>, z: Seq<char>)
    requires
        !seq_lt(y, x),
        !seq_lt(z, y),
    ensures
        !seq_lt(z, x),
{
    if x != y {
        lemma_seq_lt_total(x, y);
    }
    if y != z {
        lemma_seq_lt_total(y, z);
    }
    if x != y && y != z {
        lemma_seq_lt_trans(x, y, z);
        lemma_lt_asym(x, z);
    } else if x != y {
        lemma_lt_asym(x, y);
    } else if y != z {
        lemma_lt_asym(y, z);
    } else {
        lemma_lt_irrefl(x);
    }
}

proof fn lemma_seq_lt_total(a: Seq<char>, b: Seq<char>)
    requires
        a != b,
    ensures
        seq_lt(a, b) || seq_lt(b, a),
    decreases a.len(),
{
    if a.len() > 0 && b.len() > 0 && a[0] == b[0] {
        if a.skip(1) == b.skip(1) {
            assert(a =~= seq![a[0]] + a.skip(1));
            assert(b =~= seq![b[0]] + b.skip(1));
        }
        lemma_seq_lt_total(a.skip(1), b.skip(1));
    } else if a.len() == 0 && b.len() == 0 {
        assert(a =~= b);
    } else if a.len() > 0 && b.len() > 0 {
        vstd::utf8::char_u32_cast(a[0], a[0] as u32);
        vstd::utf8::char_u32_cast(b[0], b[0] as u32);
    }
}

proof fn lemma_seq_lt_trans(a: Seq<char>, b: Seq<char>, c: Seq<char>)
    requires
        seq_lt(a, b),
        seq_lt(b, c),
    ensures
        seq_lt(a, c),
    decreases a.len(),
{
    if a.len() > 0 && b.len() > 0 && c.len() > 0 && a[0] == b[0] && b[0] == c[0] {
        lemma_seq_lt_trans(a.skip(1), b.skip(1), c.skip(1));
    }
}

} // verus!

verus! {

/// The payload of a standalone emoji, as a variant of a person emoji.
pub fn variant_of(e: Emoji) -> (r: PersonVariant)
    ensures
        r.full_name@ == e.name@,
        r.grapheme@ == e.grapheme@,
        r.since == e.since,
{
    PersonVariant { full_name: e.name, grapheme: e.grapheme, since: e.since }
}

impl Subgroup {
    /// Every person emoji has distinct keys.
    pub open spec fn wf(&self) -> bool {
        forall|i: int| 0 <= i < self.person_emojis@.len() ==> (#[trigger] self.person_emojis@[i]).1.wf()
    }

    /// The identifiers of all emojis of the subgroup, standalone and person.
    pub open spec fn all_ids(&self) -> Set<Seq<char>> {
        plain_ids(self.emojis@).to_set().union(person_keys(self.person_emojis@).to_set())
    }

    /// `e` is what looking up `id` in this subgroup gives: the standalone emoji of that
    /// identifier, else the person emoji of that key.
    pub open spec fn found_as(&self, e: EmojiRef, id: Seq<char>) -> bool {
        match e {
            EmojiRef::Plain(p) => p.identifier@ == id && self.emojis@.contains(*p),
            EmojiRef::Person(p) => !plain_ids(self.emojis@).contains(id)
                && exists|i: int| 0 <= i < self.person_emojis@.len() && self.person_emojis@[i].0@ == id
                    && (#[trigger] self.person_emojis@[i]).1 == *p,
        }
    }

    /// An empty subgroup named `name`.
    pub fn new(name: String) -> (r: Subgroup)
        ensures
            r.wf(),
            r.name@ == name@,
            r.identifier@ == crate::strutil::module_name(name@),
            r.emojis@.len() == 0,
            r.person_emojis@.len() == 0,
            r.constants@.len() == 0,
    {
        let identifier = generate_module(name.as_str());
        Subgroup { name, identifier, emojis: Vec::new(), constants: Vec::new(), person_emojis: Vec::new() }
    }

    /// The emoji with identifier `identifier`: a standalone one first, else a person emoji.
    pub fn get_emoji(&self, identifier: &str) -> (r: Option<EmojiRef<'_>>)
        ensures
            match r {
                Some(EmojiRef::Plain(e)) => e.identifier@ == identifier@ && self.emojis@.contains(*e),
                Some(EmojiRef::Person(p)) => !plain_ids(self.emojis@).contains(identifier@)
                    && exists|i: int| 0 <= i < self.person_emojis@.len() && self.person_emojis@[i].0@ == identifier@
                        && self.person_emojis@[i].1 == *p,
                None => !self.all_ids().contains(identifier@),
            },
    {
        match find_plain(&self.emojis, identifier) {
            Some(i) => Some(EmojiRef::Plain(&self.emojis[i])),
            None => match find_person(&self.person_emojis, identifier) {
                Some(i) => Some(EmojiRef::Person(&self.person_emojis[i].1)),
                None => None,
            },
        }
    }

    /// Adds a standalone emoji, unless one of its identifier is there already; says whether it
    /// was added.
    pub fn append_plain(&mut self, e: Emoji) -> (r: bool)
        requires
            old(self).wf(),
        ensures
            final(self).wf(),
            r == !plain_ids(old(self).emojis@).contains(e.identifier@),
            final(self).name == old(self).name,
            r ==> final(self).emojis@ == old(self).emojis@.push(e),
            !r ==> final(self).emojis@ == old(self).emojis@,
            final(self).person_emojis@ == old(self).person_emojis@,
    {
        match find_plain(&self.emojis, e.identifier.as_str()) {
            Some(i) => {
                assert(plain_ids(self.emojis@)[i as int] == e.identifier@);
                false
            },
            None => {
                let id = e.identifier.clone();
                self.emojis.push(e);
                self.constants.push(id);
                true
            },
        }
    }

    /// Adds a person variant to the person emoji of its name, which is created where it is
    /// missing. A key that the person emoji has already is refused, and the entry handed back.
    pub fn append_person(&mut self, entry: PersonEntry) -> (r: Result<(), PersonEntry>)
        requires
            old(self).wf(),
        ensures
            final(self).wf(),
            final(self).emojis@ == old(self).emojis@,
            final(self).name == old(self).name,
            r matches Err(e) ==> e == entry,
            person_appended(old(self).person_emojis@, final(self).person_emojis@, crate::strutil::constant_name(entry.name@),
                entry.name@, entry.kind, entry.variant@, r is Ok),
            ({
                let key = crate::strutil::constant_name(entry.name@);
                let o = old(self).person_emojis@;
                let f = final(self).person_emojis@;
                match first_key(o, key, 0) {
                    Some(i) => {
                        &&& f.len() == o.len()
                        &&& forall|j: int| 0 <= j < o.len() && j != i ==> f[j] == o[j]
                        &&& f[i].0 == o[i].0
                        &&& same_but_variants(f[i].1, o[i].1)
                        &&& (r is Ok <==> !crate::people::keys_of(o[i].1.variants@).contains(entry.kind))
                        &&& r is Ok ==> f[i].1.variants@ == o[i].1.variants@.push((entry.kind, entry.variant))
                        &&& r is Err ==> f[i].1.variants@ == o[i].1.variants@
                    },
                    None => {
                        &&& r is Ok
                        &&& f.len() == o.len() + 1
                        &&& forall|j: int| 0 <= j < o.len() ==> f[j] == o[j]
                        &&& f[o.len() as int].0@ == key
                        &&& f[o.len() as int].1.identifier@ == key
                        &&& f[o.len() as int].1.fancy_name@ == entry.name@
                        &&& f[o.len() as int].1.grouping is None
                        &&& f[o.len() as int].1.variants@ == seq![(entry.kind, entry.variant)]
                    },
                }
            }),
    {
        let ghost en = entry.name@;
        let ghost ek = entry.kind;
        let ghost ent = entry;
        let ghost o = old(self).person_emojis@;
        assert(self.person_emojis@ == o);
        let key = generate_constant(entry.name.as_str());
        let PersonEntry { name, kind, variant } = entry;
        let count = self.person_emojis.len();
        match find_person(&self.person_emojis, key.as_str()) {
            Some(i) => {
                proof {
                    assert(count == o.len());
                    assert(key@ == crate::strutil::constant_name(ent.name@));
                    lemma_first_key_range(o, key@, 0);
                    let fk = first_key(o, key@, 0);
                    assert(fk is Some);
                    assert(fk->0 as usize == i);
                    assert(fk->0 == i as int);
                }
                let ghost before = self.person_emojis@;
                let (k, mut p) = self.person_emojis.remove(i);
                proof { assert(before[i as int].1.wf()); }
                let res = p.insert(kind, variant);
                proof {
                    if res is Ok {
                        assert(crate::people::keys_of(p.variants@)[p.variants@.len() - 1] == ek);
                    }
                }
                self.person_emojis.insert(i, (k, p));
                proof {
                    assert forall|j: int| 0 <= j < self.person_emojis@.len() implies (#[trigger] self.person_emojis@[j]).1.wf() by {
                        if j != i {
                            assert(self.person_emojis@[j] == before[j]);
                        }
                    }
                    assert forall|j: int| 0 <= j < before.len() && j != i implies self.person_emojis@[j] == before[j] by {}
                    assert(self.person_emojis@[i as int].0@ == crate::strutil::constant_name(en));
                    assert(before == o);
                    assert(self.person_emojis@[i as int].0 == o[i as int].0);
                    assert(same_but_variants(self.person_emojis@[i as int].1, o[i as int].1));
                    if res is Ok {
                        assert(self.person_emojis@[i as int].1.variants@.drop_last() =~= o[i as int].1.variants@);
                        assert(self.person_emojis@[i as int].1.variants@.last() == (ek, ent.variant));
                    }
                    assert(first_key(o, crate::strutil::constant_name(ent.name@), 0) == Some(i as int));
                    assert(res is Ok <==> !crate::people::keys_of(o[i as int].1.variants@).contains(ent.kind));
                    assert(forall|j: int| 0 <= j < o.len() && j != i ==> self.person_emojis@[j] == o[j]);
                }
                match res {
                    Ok(()) => Ok(()),
                    Err(v) => Err(PersonEntry { name, kind, variant: v }),
                }
            },
            None => {
                let mut p = PersonEmoji::new(name.clone());
                p.identifier = key.clone();
                let res = p.insert(kind, variant);
                proof {
                    assert(p.variants@ =~= seq![(ek, ent.variant)]);
                }
                proof {
                    if res is Ok {
                        assert(crate::people::keys_of(p.variants@)[p.variants@.len() - 1] == ek);
                    }
                }
                let ghost before = self.person_emojis@;
                self.person_emojis.push((key, p));
                proof {
                    assert(self.person_emojis@[before.len() as int].0@ == crate::strutil::constant_name(en));
                    assert forall|j: int| 0 <= j < before.len() implies self.person_emojis@[j] == before[j] by {}
                    assert forall|j: int| 0 <= j < self.person_emojis@.len() implies (#[trigger] self.person_emojis@[j]).1.wf() by {
                        if j < before.len() {
                            assert(self.person_emojis@[j] == before[j]);
                        }
                    }
                }
                match res {
                    Ok(()) => Ok(()),
                    Err(v) => Err(PersonEntry { name, kind, variant: v }),
                }
            },
        }
    }

    /// Folds into each person record, in order, the standalone emoji named by its key, or by its
    /// key without the placeholder token, as its default variant; the emoji leaves the list.
    fn join_plain(&mut self) -> (r: Result<(), MergeError>)
        requires
            old(self).wf(),
        ensures
            final(self).name == old(self).name,
            (r is Err) == fold_fails(*old(self)),
            r is Err ==> (r matches Err(MergeError::DuplicateDefault(_))),
            r is Ok ==> final(self).wf(),
            r is Ok ==> final(self).emojis@ == left_after(old(self).emojis@, person_keys(old(self).person_emojis@),
                old(self).person_emojis@.len() as int),
            r is Ok ==> rviews(final(self).person_emojis@) == fold_view(*old(self)),
    {
        let ghost o = *old(self);
        let ghost ks = person_keys(o.person_emojis@);
        let n = self.person_emojis.len();
        let mut i: usize = 0;
        while i < n
            invariant
                n == o.person_emojis@.len(),
                n == self.person_emojis@.len(),
                i <= n,
                self.wf(),
                self.name == o.name,
                o == *old(self),
                ks == person_keys(o.person_emojis@),
                self.emojis@ == left_after(o.emojis@, ks, i as int),
                forall|j: int| i <= j < n ==> self.person_emojis@[j] == o.person_emojis@[j],
                forall|j: int| 0 <= j < i ==> rview(#[trigger] self.person_emojis@[j]) == folded_view(o, j),
                forall|j: int| 0 <= j < i ==> !((#[trigger] picked(o, j)) is Some
                    && crate::people::keys_of(o.person_emojis@[j].1.variants@).contains(default_key())),
            decreases n - i,
        {
            let ghost before = self.person_emojis@;
            let ghost be = self.emojis@;
            let (k, mut p) = self.person_emojis.remove(i);
            proof {
                assert(before[i as int] == o.person_emojis@[i as int]);
                assert(ks[i as int] == k@);
                assert(before[i as int].1.wf());
            }
            let short = shorten(k.as_str());
            let ghost pv = p.variants@;
            let ghost old_p = p;
            let mut res: Result<(), PersonVariant> = Ok(());
            let ghost mut took: Option<Emoji> = None;
            let ecount = self.emojis.len();
            match find_plain(&self.emojis, k.as_str()) {
                Some(j) => {
                    proof {
                        assert(ecount == be.len());
                        assert(pick(be, k@) == Some((j as int, false)));
                        assert(left_after(o.emojis@, ks, i + 1) == be.remove(j as int));
                    }
                    let e = self.emojis.remove(j);
                    proof { took = Some(e); }
                    res = p.insert(PersonKind::default_kind(), variant_of(e));
                },
                None => match find_plain(&self.emojis, short.as_str()) {
                    Some(j) => {
                        proof {
                            assert(ecount == be.len());
                            assert(pick(be, k@) == Some((j as int, true)));
                            assert(left_after(o.emojis@, ks, i + 1) == be.remove(j as int));
                        }
                        let e = self.emojis.remove(j);
                        proof { took = Some(e); }
                        p.identifier = short;
                        res = p.insert(PersonKind::default_kind(), variant_of(e));
                    },
                    None => {
                        proof {
                            assert(pick(be, k@) is None);
                            assert(left_after(o.emojis@, ks, i + 1) == be);
                        }
                    },
                },
            }
            proof {
                assert(picked(o, i as int) == pick(be, k@));
                assert(self.emojis@ == left_after(o.emojis@, ks, i + 1));
                if res is Err {
                    assert(fold_fails(o));
                }
            }
            let failed = res.is_err();
            let id = p.identifier.clone();
            self.person_emojis.insert(i, (k, p));
            proof {
                assert forall|j: int| 0 <= j < self.person_emojis@.len() implies (#[trigger] self.person_emojis@[j]).1.wf() by {
                    if j != i {
                        assert(self.person_emojis@[j] == before[j]);
                    }
                }
                assert forall|j: int| i < j < n implies self.person_emojis@[j] == o.person_emojis@[j] by {
                    assert(self.person_emojis@[j] == before[j]);
                }
                assert forall|j: int| 0 <= j < i implies rview(#[trigger] self.person_emojis@[j]) == folded_view(o, j) by {
                    assert(self.person_emojis@[j] == before[j]);
                }
                if !failed {
                    match took {
                        Some(e) => {
                            assert(vview(self.person_emojis@[i as int].1.variants@) =~= vview(pv).push((default_key(), (e.name@, e.grapheme@, e.since))));
                        },
                        None => {},
                    }
                    assert(rview(self.person_emojis@[i as int]) == folded_view(o, i as int));
                }
            }
            if failed {
                return Err(MergeError::DuplicateDefault(id));
            }
            i = i + 1;
        }
        proof {
            assert(!fold_fails(o));
            assert(rviews(self.person_emojis@) =~= fold_view(o));
        }
        Ok(())
    }

    /// Merges each record whose key holds the placeholder token into the record keyed without
    /// it, unless that one is merged away itself: the records that stay keep their order, each
    /// with its own variants followed by those merged into it.
    fn merge_persons(&mut self) -> (r: Result<(), MergeError>)
        requires
            old(self).wf(),
        ensures
            final(self).name == old(self).name,
            final(self).emojis@ == old(self).emojis@,
            (r is Err) == merge_fails(rviews(old(self).person_emojis@)),
            r is Err ==> (r matches Err(MergeError::DuplicateVariant(_))),
            r is Ok ==> final(self).wf(),
            r is Ok ==> rviews(final(self).person_emojis@) == merge_view(rviews(old(self).person_emojis@)),
    {
        let ghost pv = rviews(self.person_emojis@);
        let ghost ks = pv.map_values(|r: RecView| r.0);
        assert(ks =~= person_keys(self.person_emojis@));
        let n = self.person_emojis.len();
        let mut out: Vec<(String, PersonEmoji)> = Vec::new();
        let mut t: usize = 0;
        proof {
            reveal(Seq::filter);
            assert(pv.take(0).filter(|r: RecView| !moved(ks, r.0)) =~= Seq::<RecView>::empty());
            assert(rviews(out@) =~= pv.take(0).filter(|r: RecView| !moved(ks, r.0)).map_values(|r: RecView| (r.0, r.1, r.2, merged_vars(pv, r))));
        }
        while t < n
            invariant
                n == self.person_emojis@.len(),
                t <= n,
                self.wf(),
                self.name == old(self).name,
                self.emojis@ == old(self).emojis@,
                self.person_emojis@ == old(self).person_emojis@,
                pv == rviews(self.person_emojis@),
                ks == pv.map_values(|r: RecView| r.0),
                ks == person_keys(self.person_emojis@),
                rviews(out@) == pv.take(t as int).filter(|r: RecView| !moved(ks, r.0)).map_values(|r: RecView| (r.0, r.1, r.2, merged_vars(pv, r))),
                forall|x: int| 0 <= x < out@.len() ==> (#[trigger] out@[x]).1.wf(),
                forall|tt: int| 0 <= tt < t && !moved(ks, pv[tt].0) ==> vkeys(#[trigger] merged_vars(pv, pv[tt])).no_duplicates(),
            decreases n - t,
        {
            let key = self.person_emojis[t].0.as_str();
            proof {
                reveal(Seq::filter);
                assert(pv.take(t + 1).drop_last() =~= pv.take(t as int));
                assert(pv.take(t + 1).last() == pv[t as int]);
                assert(pv[t as int].0 == key@);
            }
            if moved_key(&self.person_emojis, key) {
                proof {
                    assert(pv.take(t + 1).filter(|r: RecView| !moved(ks, r.0)) == pv.take(t as int).filter(|r: RecView| !moved(ks, r.0)));
                }
            } else {
                let rec = &self.person_emojis[t].1;
                let mut m = PersonEmoji {
                    identifier: rec.identifier.clone(),
                    fancy_name: rec.fancy_name.clone(),
                    grouping: None,
                    variants: Vec::new(),
                };
                proof {
                    assert(crate::people::keys_of(m.variants@) =~= Seq::<PersonKind>::empty());
                    assert(vview(m.variants@) =~= Seq::empty());
                }
                let own_ok = insert_all(&mut m, &rec.variants);
                proof {
                    assert(pv[t as int].3 == vview(rec.variants@));
                    assert(Seq::<(PersonKind, (Seq<char>, Seq<char>, Version))>::empty() + vview(rec.variants@) =~= vview(rec.variants@));
                    assert(vkeys(Seq::empty()) + vkeys(vview(rec.variants@)) =~= vkeys(vview(rec.variants@)));
                }
                let mut ok = own_ok;
                let mut i: usize = 0;
                while i < n && ok
                    invariant
                        n == self.person_emojis@.len(),
                        t < n,
                        i <= n,
                        pv == rviews(self.person_emojis@),
                        ks == pv.map_values(|r: RecView| r.0),
                        ks == person_keys(self.person_emojis@),
                        key@ == pv[t as int].0,
                        ok ==> m.wf(),
                        ok ==> vview(m.variants@) == pv[t as int].3 + gathered(pv, key@, i as int),
                        !ok ==> !vkeys(pv[t as int].3 + gathered(pv, key@, i as int)).no_duplicates(),
                        m.identifier@ == pv[t as int].1,
                        m.fancy_name@ == pv[t as int].2,
                        m.grouping is None,
                    decreases n - i + (if ok { 1int } else { 0 }),
                {
                    let ki = self.person_emojis[i].0.as_str();
                    let ghost before = vview(m.variants@);
                    proof {
                        assert(pv[i as int].0 == ki@);
                    }
                    if moved_key(&self.person_emojis, ki) && str_eq(shorten(ki).as_str(), key) {
                        let src = &self.person_emojis[i].1.variants;
                        let got = insert_all(&mut m, src);
                        proof {
                            assert(pv[i as int].3 == vview(src@));
                            assert(gathered(pv, key@, i + 1) == gathered(pv, key@, i as int) + pv[i as int].3);
                            assert(vkeys(before) + vkeys(vview(src@)) =~= vkeys(before + vview(src@)));
                            assert(pv[t as int].3 + gathered(pv, key@, i + 1) =~= before + vview(src@));
                        }
                        ok = got;
                    } else {
                        proof {
                            assert(gathered(pv, key@, i + 1) =~= gathered(pv, key@, i as int));
                        }
                    }
                    i = i + 1;
                }
                proof {
                    if !ok {
                        lemma_gathered_prefix(pv, key@, i as int, n as int);
                        lemma_prefix_dup(vkeys(pv[t as int].3 + gathered(pv, key@, i as int)), vkeys(merged_vars(pv, pv[t as int])));
                        assert(merge_fails(pv));
                    }
                }
                if !ok {
                    return Err(MergeError::DuplicateVariant(m.identifier));
                }
                proof {
                    assert(merged_vars(pv, pv[t as int]) == pv[t as int].3 + gathered(pv, key@, n as int));
                }
                proof {
                    lemma_vkeys(m.variants@);
                    assert(vkeys(merged_vars(pv, pv[t as int])).no_duplicates());
                }
                let ghost o0 = out@;
                out.push((key.to_string(), m));
                proof {
                    assert(rviews(out@) =~= rviews(o0).push(rview(out@[o0.len() as int])));
                    assert(pv.take(t + 1).filter(|r: RecView| !moved(ks, r.0)) == pv.take(t as int).filter(|r: RecView| !moved(ks, r.0)).push(pv[t as int]));
                    assert forall|x: int| 0 <= x < out@.len() implies (#[trigger] out@[x]).1.wf() by {
                        if x < o0.len() {
                            assert(out@[x] == o0[x]);
                        }
                    }
                }
            }
            t = t + 1;
        }
        proof {
            assert(pv.take(n as int) =~= pv);
            assert(!merge_fails(pv));
        }
        self.person_emojis = out;
        Ok(())
    }

    /// Replaces the person records by the records that finalizing each of them gives, keyed by
    /// their identifiers; two records of the same identifier are refused.
    fn finalize_persons(&mut self) -> (r: Result<(), MergeError>)
        requires
            old(self).wf(),
        ensures
            final(self).emojis@ == old(self).emojis@,
            final(self).name == old(self).name,
            (r is Err) == !final_ids(rviews(old(self).person_emojis@)).no_duplicates(),
            r is Err ==> (r matches Err(MergeError::DuplicateIdentifier(_))),
            r is Ok ==> exists|oss: Seq<Seq<PersonEmoji>>| finalized_all(old(self).person_emojis@, final(self).person_emojis@, oss),
            r is Ok ==> forall|i: int| 0 <= i < final(self).person_emojis@.len() ==> (#[trigger] final(self).person_emojis@[i]).1.finalized(),
            r is Ok ==> person_keys(final(self).person_emojis@) == final_ids(rviews(old(self).person_emojis@)),
    {
        let ghost ms = self.person_emojis@;
        let ghost all = final_ids(rviews(ms));
        let mut done: Vec<(String, PersonEmoji)> = Vec::new();
        let ghost mut oss: Seq<Seq<PersonEmoji>> = Seq::empty();
        let ghost mut m: int = 0;
        proof {
            assert(ms.skip(0) =~= ms);
            assert(person_keys(done@) + final_ids(rviews(self.person_emojis@)) =~= all);
            assert(done@.map_values(|e: (String, PersonEmoji)| e.1) =~= flatten(oss));
        }
        while self.person_emojis.len() > 0
            invariant
                self.wf(),
                self.emojis@ == old(self).emojis@,
                self.name == old(self).name,
                ms == old(self).person_emojis@,
                all == final_ids(rviews(ms)),
                0 <= m <= ms.len(),
                self.person_emojis@ == ms.skip(m),
                person_keys(done@) + final_ids(rviews(self.person_emojis@)) == all,
                person_keys(done@).no_duplicates(),
                oss.len() == m,
                forall|mm: int| 0 <= mm < m ==> crate::people::finalizes(ms[mm].1, #[trigger] oss[mm]),
                done@.map_values(|e: (String, PersonEmoji)| e.1) == flatten(oss),
                forall|x: int| 0 <= x < done@.len() ==> (#[trigger] done@[x]).0@ == done@[x].1.identifier@,
                forall|i: int| 0 <= i < done@.len() ==> (#[trigger] done@[i]).1.finalized(),
            decreases self.person_emojis@.len(),
        {
            let ghost b0 = self.person_emojis@;
            let (_, p) = self.person_emojis.remove(0);
            proof {
                assert(b0[0] == ms[m]);
                assert(b0[0].1.wf());
                assert(self.person_emojis@ =~= ms.skip(m + 1));
                assert forall|j: int| 0 <= j < self.person_emojis@.len() implies (#[trigger] self.person_emojis@[j]).1.wf() by {
                    assert(self.person_emojis@[j] == b0[j + 1]);
                }
                assert(rviews(b0).skip(1) =~= rviews(self.person_emojis@));
                assert(final_ids(rviews(b0)) == ids_of(rview(b0[0])) + final_ids(rviews(self.person_emojis@)));
            }
            let ghost pp = p;
            let ghost ids = ids_of(rview(b0[0]));
            let mut outs = p.scrub();
            let ghost outs0 = outs@;
            proof {
                assert(crate::people::keys_of(pp.variants@) =~= vkeys(vview(pp.variants@)));
                assert(outs0.len() == ids.len());
                assert forall|x: int| 0 <= x < outs0.len() implies (#[trigger] outs0[x]).identifier@ == ids[x] by {}
                assert(ids.skip(0) =~= ids);
                assert(outs0.take(0) =~= Seq::<PersonEmoji>::empty());
            }
            let ghost mut c: int = 0;
            let ghost fl0 = flatten(oss);
            let ghost dk0 = done@.len();
            while outs.len() > 0
                invariant
                    0 <= c <= outs0.len(),
                    outs@ == outs0.skip(c),
                    self.emojis@ == old(self).emojis@,
                    self.name == old(self).name,
                    all == final_ids(rviews(old(self).person_emojis@)),
                    outs0.len() == ids.len(),
                    forall|x: int| 0 <= x < outs0.len() ==> (#[trigger] outs0[x]).identifier@ == ids[x],
                    forall|x: int| 0 <= x < outs0.len() ==> (#[trigger] outs0[x]).finalized(),
                    person_keys(done@) + ids.skip(c) + final_ids(rviews(self.person_emojis@)) == all,
                    person_keys(done@).no_duplicates(),
                    done@.map_values(|e: (String, PersonEmoji)| e.1) == fl0 + outs0.take(c),
                    forall|x: int| 0 <= x < done@.len() ==> (#[trigger] done@[x]).0@ == done@[x].1.identifier@,
                    forall|i: int| 0 <= i < done@.len() ==> (#[trigger] done@[i]).1.finalized(),
                decreases outs@.len(),
            {
                let ghost o0 = outs@;
                let e = outs.remove(0);
                proof {
                    assert(e == outs0[c]);
                    assert(outs@ =~= outs0.skip(c + 1));
                    assert(ids.skip(c) =~= seq![ids[c]] + ids.skip(c + 1));
                }
                let key = e.identifier.clone();
                match find_person(&done, key.as_str()) {
                    Some(j) => {
                        proof {
                            let pk = person_keys(done@);
                            let whole = pk + ids.skip(c) + final_ids(rviews(self.person_emojis@));
                            assert(whole[j as int] == key@);
                            assert(whole[pk.len() as int] == key@);
                            assert(!all.no_duplicates());
                        }
                        return Err(MergeError::DuplicateIdentifier(key));
                    },
                    None => {
                        let ghost d0 = done@;
                        let ghost ev = e;
                        done.push((key, e));
                        proof {
                            assert(done@.map_values(|e: (String, PersonEmoji)| e.1) =~= d0.map_values(|e: (String, PersonEmoji)| e.1).push(ev));
                            assert(person_keys(done@) =~= person_keys(d0).push(ids[c]));
                            assert(person_keys(done@) + ids.skip(c + 1) + final_ids(rviews(self.person_emojis@)) =~= all);
                            assert(outs0.take(c + 1) =~= outs0.take(c).push(outs0[c]));
                            assert(done@.map_values(|e: (String, PersonEmoji)| e.1) =~= fl0 + outs0.take(c + 1));
                            assert forall|x: int| 0 <= x < done@.len() implies (#[trigger] done@[x]).0@ == done@[x].1.identifier@
                                && done@[x].1.finalized() by {
                                if x < d0.len() {
                                    assert(done@[x] == d0[x]);
                                }
                            }
                        }
                    },
                }
                proof { c = c + 1; }
            }
            proof {
                assert(outs0.take(c) =~= outs0);
                assert(ids.skip(c) =~= Seq::<Seq<char>>::empty());
                assert(person_keys(done@) + final_ids(rviews(self.person_emojis@)) =~= all);
                let oss0 = oss;
                oss = oss.push(outs0);
                assert(oss.drop_last() =~= oss0);
                assert(flatten(oss) == fl0 + outs0);
                assert forall|mm: int| 0 <= mm < m + 1 implies crate::people::finalizes(ms[mm].1, #[trigger] oss[mm]) by {
                    if mm < m {
                        assert(oss[mm] == oss0[mm]);
                    }
                }
                m = m + 1;
            }
        }
        proof {
            assert(final_ids(rviews(self.person_emojis@)) =~= Seq::<Seq<char>>::empty());
            assert(person_keys(done@) + Seq::<Seq<char>>::empty() =~= person_keys(done@));
            assert(ms.skip(m).len() == 0);
            assert(finalized_all(ms, done@, oss));
        }
        self.person_emojis = done;
        assert(finalized_all(old(self).person_emojis@, self.person_emojis@, oss));
        Ok(())
    }

    /// Rebuilds the sorted list of identifiers.
    fn rebuild_constants(&mut self)
        ensures
            final(self).emojis@ == old(self).emojis@,
            final(self).person_emojis@ == old(self).person_emojis@,
            final(self).name == old(self).name,
            strictly_sorted(final(self).constants@.map_values(|x: String| x@)),
            final(self).constants@.map_values(|x: String| x@).to_set() == old(self).all_ids(),
    {
        let mut c: Vec<String> = Vec::new();
        assert(c@.map_values(|x: String| x@) =~= Seq::<Seq<char>>::empty());
        assert(c@.map_values(|x: String| x@).to_set() =~= plain_ids(self.emojis@).take(0).to_set());
        let mut i: usize = 0;
        while i < self.emojis.len()
            invariant
                i <= self.emojis@.len(),
                strictly_sorted(c@.map_values(|x: String| x@)),
                c@.map_values(|x: String| x@).to_set() == plain_ids(self.emojis@).take(i as int).to_set(),
            decreases self.emojis@.len() - i,
        {
            let id = self.emojis[i].identifier.clone();
            insert_sorted(&mut c, id);
            proof {
                assert(plain_ids(self.emojis@).take(i + 1) =~= plain_ids(self.emojis@).take(i as int).push(self.emojis@[i as int].identifier@));
                plain_ids(self.emojis@).take(i as int).lemma_push_to_set_commute(self.emojis@[i as int].identifier@);
            }
            i = i + 1;
        }
        assert(plain_ids(self.emojis@).take(i as int) =~= plain_ids(self.emojis@));
        let ghost base = plain_ids(self.emojis@).to_set();
        assert(c@.map_values(|x: String| x@).to_set() =~= base.union(person_keys(self.person_emojis@).take(0).to_set()));
        let mut j: usize = 0;
        while j < self.person_emojis.len()
            invariant
                j <= self.person_emojis@.len(),
                base == plain_ids(self.emojis@).to_set(),
                strictly_sorted(c@.map_values(|x: String| x@)),
                c@.map_values(|x: String| x@).to_set() == base.union(person_keys(self.person_emojis@).take(j as int).to_set()),
            decreases self.person_emojis@.len() - j,
        {
            let id = self.person_emojis[j].0.clone();
            insert_sorted(&mut c, id);
            proof {
                let pk = person_keys(self.person_emojis@);
                assert(pk.take(j + 1) =~= pk.take(j as int).push(self.person_emojis@[j as int].0@));
                pk.take(j as int).lemma_push_to_set_commute(self.person_emojis@[j as int].0@);
                assert(c@.map_values(|x: String| x@).to_set() =~= base.union(pk.take(j + 1).to_set()));
            }
            j = j + 1;
        }
        assert(person_keys(self.person_emojis@).take(j as int) =~= person_keys(self.person_emojis@));
        self.constants = c;
    }

    /// Folds standalone emojis into person emojis, merges person emojis that differ only by the
    /// placeholder token, finalizes every person emoji, and rebuilds the sorted identifiers.
    /// Meeting a key twice, in the fold, the merge or the finalized identifiers, is refused.
    pub fn sort(&mut self) -> (r: Result<(), MergeError>)
        requires
            old(self).wf(),
        ensures
            final(self).name == old(self).name,
            (r matches Err(MergeError::DuplicateDefault(_))) <==> fold_fails(*old(self)),
            (r matches Err(MergeError::DuplicateVariant(_))) <==> !fold_fails(*old(self)) && merge_fails(fold_view(*old(self))),
            (r matches Err(MergeError::DuplicateIdentifier(_))) <==> !fold_fails(*old(self))
                && !merge_fails(fold_view(*old(self))) && !final_ids(merge_view(fold_view(*old(self)))).no_duplicates(),
            (r is Ok) <==> sort_succeeds(*old(self)),
            r is Ok ==> sorted_to(*old(self), *final(self)),
    {
        match self.join_plain() {
            Err(e) => return Err(e),
            Ok(()) => {},
        }
        match self.merge_persons() {
            Err(e) => return Err(e),
            Ok(()) => {},
        }
        let ghost ms = self.person_emojis@;
        match self.finalize_persons() {
            Err(e) => return Err(e),
            Ok(()) => {},
        }
        let ghost fin = self.person_emojis@;
        self.rebuild_constants();
        proof {
            let oss = choose|oss: Seq<Seq<PersonEmoji>>| finalized_all(ms, fin, oss);
            assert(finalized_all(ms, self.person_emojis@, oss));
        }
        Ok(())
    }

    /// The emojis in the order of the sorted identifiers; an identifier without emoji is passed
    /// over.
    pub fn emoji_iter(&self) -> (r: Vec<EmojiRef<'_>>)
        ensures
            r@.len() <= self.constants@.len(),
            (forall|j: int| 0 <= j < self.constants@.len() ==> self.all_ids().contains(#[trigger] self.constants@[j]@))
                ==> r@.len() == self.constants@.len()
                && forall|i: int| 0 <= i < r@.len() ==> self.found_as(#[trigger] r@[i], self.constants@[i]@),
    {
        let mut out: Vec<EmojiRef<'_>> = Vec::new();
        let mut i: usize = 0;
        while i < self.constants.len()
            invariant
                i <= self.constants@.len(),
                out@.len() <= i,
                (forall|j: int| 0 <= j < self.constants@.len() ==> self.all_ids().contains(#[trigger] self.constants@[j]@))
                    ==> out@.len() == i && forall|x: int| 0 <= x < out@.len() ==> self.found_as(#[trigger] out@[x], self.constants@[x]@),
            decreases self.constants@.len() - i,
        {
            match self.get_emoji(self.constants[i].as_str()) {
                Some(e) => {
                    let ghost before = out@;
                    out.push(e);
                    proof {
                        assert forall|x: int| 0 <= x < out@.len() - 1 implies out@[x] == before[x] by {}
                    }
                },
                None => {},
            }
            i = i + 1;
        }
        out
    }
}

} // verus!

verus! {

/// The identifier of a person emoji whose name puts the person between two activity parts.
pub open spec fn person_id(pre: Option<Seq<char>>, post: Option<Seq<char>>) -> Seq<char> {
    (match pre { Some(s) => s + " "@, None => Seq::empty() }) + "person"@
        + (match post { Some(s) => " "@ + s, None => Seq::empty() })
}

/// The name of a person emoji whose name puts the person between two activity parts.
fn person_identifier(activity_pre: Option<&str>, activity_post: Option<&str>) -> (r: String)
    ensures
        r@ == person_id(
            match activity_pre { Some(s) => Some(s@), None => None },
            match activity_post { Some(s) => Some(s@), None => None },
        ),
{
    let a = match activity_pre {
        Some(s) => crate::strs::cat(s, " "),
        None => String::new(),
    };
    let b = crate::strs::cat(a.as_str(), "person");
    match activity_post {
        Some(s) => {
            let c = crate::strs::cat(b.as_str(), " ");
            let r = crate::strs::cat(c.as_str(), s);
            proof {
                assert(r@ =~= a@ + "person"@ + (" "@ + s@));
            }
            r
        },
        None => {
            proof {
                assert(b@ =~= a@ + "person"@ + Seq::<char>::empty());
            }
            b
        },
    }
}

/// The first position from `i` on that holds `c`, or the length of `s`.
pub open spec fn first_of(s: Seq<char>, i: int, c: char) -> int
    decreases s.len() - i,
{
    if i < 0 || i >= s.len() {
        s.len() as int
    } else if s[i] == c {
        i
    } else {
        first_of(s, i + 1, c)
    }
}

proof fn lemma_first_of(s: Seq<char>, i: int, c: char)
    requires
        0 <= i <= s.len(),
    ensures
        i <= first_of(s, i, c) <= s.len(),
    decreases s.len() - i,
{
    if i < s.len() && s[i] != c {
        lemma_first_of(s, i + 1, c);
    }
}

fn find_char(s: &str, from: usize, c: char) -> (r: usize)
    requires
        from <= s@.len(),
    ensures
        r == first_of(s@, from as int, c),
        from <= r <= s@.len(),
        r < s@.len() ==> s@[r as int] == c,
        forall|j: int| from <= j < r ==> s@[j] != c,
{
    let n = s.unicode_len();
    let mut i: usize = from;
    while i < n && s.get_char(i) != c
        invariant
            n == s@.len(),
            from <= i <= n,
            forall|j: int| from <= j < i ==> s@[j] != c,
            first_of(s@, from as int, c) == first_of(s@, i as int, c),
        decreases n - i,
    {
        i = i + 1;
    }
    i
}

/// Whether `w` occurs in `s`.
pub open spec fn occurs(s: Seq<char>, w: Seq<char>) -> bool {
    exists|i: int| 0 <= i && i + w.len() <= s.len() && #[trigger] s.subrange(i, i + w.len()) == w
}

fn contains_word(s: &str, w: &str) -> (r: bool)
    ensures
        r == occurs(s@, w@),
{
    let n = s.unicode_len();
    let m = w.unicode_len();
    if m > n {
        return false;
    }
    let last = n - m;
    let mut i: usize = 0;
    loop
        invariant
            n == s@.len(),
            m == w@.len(),
            m <= n,
            last == n - m,
            i <= last,
            forall|x: int| 0 <= x < i ==> #[trigger] s@.subrange(x, x + m) != w@,
        decreases last - i,
    {
        let part = s.substring_char(i, i + m);
        if crate::strs::str_eq(part, w) {
            return true;
        }
        if i == last {
            return false;
        }
        i = i + 1;
    }
}

/// How an attribute joins the name it follows: `with` a tone or hair, `for` a flag.
pub open spec fn joiner_of(a: Seq<char>) -> Seq<char> {
    if occurs(a, "tone"@) || occurs(a, "hair"@) {
        " with "@
    } else if occurs(a, "flag"@) {
        " for "@
    } else {
        " "@
    }
}

/// The comma-separated attributes of `s` between `i` and `end`, each after its joiner.
pub open spec fn attrs_from(s: Seq<char>, i: int, end: int) -> Seq<char>
    decreases end - i,
{
    let next = first_of(s, i, ',');
    let stop = if next < end { next } else { end };
    let a = s.subrange(i, stop);
    joiner_of(a) + a + (if stop >= end || stop < i { Seq::empty() } else { attrs_from(s, stop + 1, end) })
}

/// The name of a standalone emoji with the attributes after its colon spelled out.
pub open spec fn attr_spelled(s: Seq<char>) -> Seq<char> {
    let colon = first_of(s, 0, ':');
    if colon >= s.len() {
        s
    } else {
        s.subrange(0, colon) + attrs_from(s, colon + 1, first_of(s, colon + 1, ':'))
    }
}

/// The name of a standalone emoji with its attribute list spelled out: `flag: Japan` becomes
/// `flag for Japan`, `x: light skin tone` becomes `x with light skin tone`.
fn extract_attr(name: &str) -> (r: String)
    ensures
        r@ == attr_spelled(name@),
{
    let n = name.unicode_len();
    let colon = find_char(name, 0, ':');
    if colon >= n {
        return name.to_string();
    }
    let end = find_char(name, colon + 1, ':');
    let ghost sn = name@;
    let mut c = name.substring_char(0, colon).to_string();
    let mut i: usize = colon + 1;
    loop
        invariant_except_break
            c@ + attrs_from(sn, i as int, end as int) == attr_spelled(sn),
        invariant
            colon < n,
            n == name@.len(),
            sn == name@,
            colon + 1 <= i <= end,
            end <= n,
            end == first_of(sn, colon + 1, ':'),
        ensures
            c@ == attr_spelled(sn),
        decreases end - i,
    {
        let next = find_char(name, i, ',');
        let stop = if next < end { next } else { end };
        let attribute = name.substring_char(i, stop);
        let joiner = if contains_word(attribute, "tone") || contains_word(attribute, "hair") {
            " with "
        } else if contains_word(attribute, "flag") {
            " for "
        } else {
            " "
        };
        assert(joiner@ == joiner_of(attribute@));
        let ghost c0 = c@;
        let a = crate::strs::cat(c.as_str(), joiner);
        c = crate::strs::cat(a.as_str(), attribute);
        if stop >= end {
            assert(c@ =~= c0 + attrs_from(sn, i as int, end as int));
            break;
        }
        assert(c0 + attrs_from(sn, i as int, end as int) =~= c@ + attrs_from(sn, stop + 1, end as int));
        i = stop + 1;
    }
    c
}

fn hex_digit(c: char) -> (r: Option<u32>)
    ensures
        r == hex_of(c),
{
    if '0' <= c && c <= '9' {
        Some(c as u32 - '0' as u32)
    } else if 'A' <= c && c <= 'F' {
        Some(c as u32 - 'A' as u32 + 10)
    } else if 'a' <= c && c <= 'f' {
        Some(c as u32 - 'a' as u32 + 10)
    } else {
        None
    }
}

/// The value of a hexadecimal digit.
pub open spec fn hex_of(c: char) -> Option<u32> {
    if '0' <= c && c <= '9' {
        Some((c as u32 - '0' as u32) as u32)
    } else if 'A' <= c && c <= 'F' {
        Some((c as u32 - 'A' as u32 + 10) as u32)
    } else if 'a' <= c && c <= 'f' {
        Some((c as u32 - 'a' as u32 + 10) as u32)
    } else {
        None
    }
}

/// The number that a string of hexadecimal digits spells.
pub open spec fn hex_value(s: Seq<char>) -> nat
    decreases s.len(),
{
    if s.len() == 0 {
        0
    } else {
        hex_value(s.drop_last()) * 16 + hex_of(s.last()).unwrap() as nat
    }
}

/// The number of a hexadecimal token: its digits, none where it is empty, has another
/// character, or does not fit in 32 bits.
pub open spec fn hex_token(s: Seq<char>) -> Option<u32> {
    if s.len() > 0 && (forall|i: int| 0 <= i < s.len() ==> #[trigger] hex_of(s[i]) is Some) && hex_value(s) <= u32::MAX {
        Some(hex_value(s) as u32)
    } else {
        None
    }
}

proof fn lemma_hex_prefix(s: Seq<char>, k: int)
    requires
        0 <= k <= s.len(),
        forall|i: int| 0 <= i < s.len() ==> #[trigger] hex_of(s[i]) is Some,
    ensures
        hex_value(s.take(k)) <= hex_value(s),
    decreases s.len() - k,
{
    if k < s.len() {
        lemma_hex_prefix(s, k + 1);
        assert(s.take(k + 1).drop_last() =~= s.take(k));
    } else {
        assert(s.take(k) =~= s);
    }
}

fn parse_hex(s: &str) -> (r: Option<u32>)
    ensures
        r == hex_token(s@),
{
    let n = s.unicode_len();
    if n == 0 {
        return None;
    }
    let mut v: u32 = 0;
    let mut i: usize = 0;
    while i < n
        invariant
            n == s@.len(),
            n > 0,
            i <= n,
            forall|j: int| 0 <= j < i ==> #[trigger] hex_of(s@[j]) is Some,
            v as nat == hex_value(s@.take(i as int)),
        decreases n - i,
    {
        proof {
            assert(s@.take(i + 1).drop_last() =~= s@.take(i as int));
        }
        match hex_digit(s.get_char(i)) {
            None => {
                assert(hex_of(s@[i as int]) is None);
                return None;
            },
            Some(d) => {
                if v > 0x0FFF_FFFF {
                    proof {
                        if forall|j: int| 0 <= j < s@.len() ==> #[trigger] hex_of(s@[j]) is Some {
                            lemma_hex_prefix(s@, i + 1);
                            assert(hex_value(s@.take(i + 1)) == v * 16 + d);
                        }
                    }
                    return None;
                }
                v = v * 16 + d;
            },
        }
        i = i + 1;
    }
    assert(s@.take(n as int) =~= s@);
    Some(v)
}

/// A token with each leading `0x` removed.
pub open spec fn strip_0x(t: Seq<char>) -> Seq<char>
    decreases t.len(),
{
    if t.len() >= 2 && t[0] == '0' && t[1] == 'x' {
        strip_0x(t.skip(2))
    } else {
        t
    }
}

/// The character that a token of code points stands for, if any.
pub open spec fn token_char(t: Seq<char>) -> Seq<char> {
    match hex_token(strip_0x(t)) {
        Some(v) => if crate::strs::scalar(v) { seq![v as char] } else { Seq::empty() },
        None => Seq::empty(),
    }
}

/// The characters of the space-separated code points of `s` from position `i` on.
pub open spec fn unicode_from(s: Seq<char>, i: int) -> Seq<char>
    decreases s.len() - i,
{
    if i < 0 || i > s.len() {
        Seq::empty()
    } else {
        let stop = first_of(s, i, ' ');
        token_char(s.subrange(i, stop)) + (if stop >= s.len() || stop < i { Seq::empty() } else { unicode_from(s, stop + 1) })
    }
}

/// The grapheme of a list of hexadecimal code points separated by spaces; a token that is no
/// code point is left out.
fn generate_unicode(code: &str) -> (r: String)
    ensures
        r@ == unicode_from(code@, 0),
{
    let n = code.unicode_len();
    let ghost sc = code@;
    let mut out = String::new();
    let mut i: usize = 0;
    loop
        invariant_except_break
            out@ + unicode_from(sc, i as int) == unicode_from(sc, 0),
        invariant
            n == code@.len(),
            sc == code@,
            i <= n,
        ensures
            out@ == unicode_from(sc, 0),
        decreases n - i,
    {
        let stop = find_char(code, i, ' ');
        let mut a = i;
        while a < stop && stop - a >= 2 && code.get_char(a) == '0' && code.get_char(a + 1) == 'x'
            invariant
                n == code@.len(),
                sc == code@,
                i <= a <= stop <= n,
                strip_0x(sc.subrange(i as int, stop as int)) == strip_0x(sc.subrange(a as int, stop as int)),
            decreases stop - a,
        {
            assert(sc.subrange(a as int, stop as int).skip(2) =~= sc.subrange(a + 2, stop as int));
            a = a + 2;
        }
        proof {
            let t = sc.subrange(a as int, stop as int);
            if t.len() >= 2 {
                assert(t[0] == sc[a as int] && t[1] == sc[a + 1]);
            }
        }
        let token = code.substring_char(a, stop);
        let ghost o0 = out@;
        match parse_hex(token) {
            Some(v) => match crate::strs::char_from_u32(v) {
                Some(c) => {
                    proof { vstd::utf8::char_u32_cast(c, c as u32); }
                    crate::strs::push_char(&mut out, c);
                },
                None => {},
            },
            None => {},
        }
        assert(out@ == o0 + token_char(sc.subrange(i as int, stop as int)));
        if stop >= n {
            assert(o0 + unicode_from(sc, i as int) =~= out@);
            break;
        }
        assert(o0 + unicode_from(sc, i as int) =~= out@ + unicode_from(sc, stop + 1));
        i = stop + 1;
    }
    out
}

/// What the phrase grammars found in a descriptive name.
#[allow(inconsistent_fields)]
pub enum NameMatch<'a> {
    /// A person, perhaps between two activity parts, with attribute fragments.
    PersonWithActivity {
        activity_pre: Option<&'a str>,
        activity_post: Option<&'a str>,
        people: crate::parsing::PeopleWords<'a>,
        tone: Option<crate::parsing::ToneWords<'a>>,
        hair: Option<&'a str>,
    },
    /// An activity followed by a colon and a list of attribute fragments.
    ActivityWithColon {
        activity: &'a str,
        people: Option<crate::parsing::PeopleWords<'a>>,
        tone: Option<crate::parsing::ToneWords<'a>>,
        hair: Option<&'a str>,
    },
    /// No person: a standalone emoji.
    Plain,
}

/// Why a line of the feed was not added.
#[derive(Debug)]
pub enum AppendError {
    /// A fragment named no attribute value.
    Words(crate::parsing::WordError),
    /// The person emoji already had a variant of the same attributes.
    DuplicateVariant(String),
    /// A standalone emoji of the same identifier was there already.
    DuplicateEmoji(String),
}

impl Subgroup {
    /// Adds the emoji of one feed line: its code points, version (0.0 where missing), name, and
    /// what the phrase grammars found in the name. A person goes to the person emoji of its
    /// name, anything else stands alone.
    pub fn append_line(&mut self, code: &str, version: Option<Version>, name: &str, m: NameMatch) -> (r: Result<(), AppendError>)
        requires
            old(self).wf(),
        ensures
            final(self).wf(),
            final(self).name == old(self).name,
            match m {
                NameMatch::Plain => plain_appended(*old(self), *final(self), code@, version, name@, r),
                NameMatch::PersonWithActivity { activity_pre, activity_post, people, tone, hair } => person_line(
                    *old(self), *final(self),
                    person_id(crate::parsing::opt_view(activity_pre), crate::parsing::opt_view(activity_post)),
                    code@, version, name@,
                    crate::parsing::kind_of_words(crate::parsing::people_view(Some(people)), crate::parsing::tone_view(tone), crate::parsing::opt_view(hair)),
                    r,
                ),
                NameMatch::ActivityWithColon { activity, people, tone, hair } => person_line(
                    *old(self), *final(self), activity@, code@, version, name@,
                    crate::parsing::kind_of_words(crate::parsing::people_view(people), crate::parsing::tone_view(tone), crate::parsing::opt_view(hair)),
                    r,
                ),
            },
    {
        let since = match version {
            Some(v) => v,
            None => Version(0, 0),
        };
        let grapheme = generate_unicode(code);
        let (family, people, tone, hair) = match m {
            NameMatch::PersonWithActivity { activity_pre, activity_post, people, tone, hair } => {
                (person_identifier(activity_pre, activity_post), Some(people), tone, hair)
            },
            NameMatch::ActivityWithColon { activity, people, tone, hair } => (activity.to_string(), people, tone, hair),
            NameMatch::Plain => {
                let cleaned = extract_attr(name);
                let id = generate_constant(cleaned.as_str());
                let e = Emoji { name: name.to_string(), identifier: id.clone(), since, grapheme };
                let ghost ev = e;
                let ghost o = self.emojis@;
                if self.append_plain(e) {
                    assert(self.emojis@.drop_last() =~= o);
                    assert(self.emojis@.last() == ev);
                    return Ok(());
                } else {
                    return Err(AppendError::DuplicateEmoji(id));
                }
            },
        };
        match PersonEntry::parse(name.to_string(), grapheme, family, since, people, tone, hair) {
            Err(w) => Err(AppendError::Words(w)),
            Ok(entry) => match self.append_person(entry) {
                Ok(()) => Ok(()),
                Err(e) => Err(AppendError::DuplicateVariant(e.name)),
            },
        }
    }
}

/// A group of the feed and its subgroups.
#[derive(Debug)]
pub struct Group {
    pub name: String,
    pub identifier: String,
    pub subgroups: Vec<Subgroup>,
}

/// Every subgroup of a list is well formed.
pub open spec fn subgroups_wf(v: Seq<Subgroup>) -> bool {
    forall|i: int| 0 <= i < v.len() ==> (#[trigger] v[i]).wf()
}

/// A list of names in non-decreasing order.
pub open spec fn names_sorted(v: Seq<Seq<char>>) -> bool {
    forall|i: int, j: int| 0 <= i < j < v.len() ==> !seq_lt(v[j], v[i])
}

impl Group {
    /// An empty group named `name`.
    pub fn new(name: String) -> (r: Group)
        ensures
            r.name@ == name@,
            r.identifier@ == crate::strutil::module_name(name@),
            r.subgroups@.len() == 0,
    {
        let identifier = generate_module(name.as_str());
        Group { identifier, name, subgroups: Vec::new() }
    }

    /// Adds an empty subgroup named `subgroup`; gives its position.
    pub fn append(&mut self, subgroup: String) -> (r: usize)
        requires
            subgroups_wf(old(self).subgroups@),
        ensures
            subgroups_wf(final(self).subgroups@),
            r == old(self).subgroups@.len(),
            final(self).subgroups@.len() == r + 1,
            final(self).subgroups@.take(r as int) == old(self).subgroups@,
            final(self).subgroups@[r as int].name@ == subgroup@,
    {
        let sg = Subgroup::new(subgroup);
        let r = self.subgroups.len();
        self.subgroups.push(sg);
        proof {
            assert(self.subgroups@.take(r as int) =~= old(self).subgroups@);
        }
        r
    }

    /// The position of the first subgroup named `sgn`.
    pub fn get_subgroup(&self, sgn: &str) -> (r: Option<usize>)
        ensures
            match r {
                Some(i) => i < self.subgroups@.len() && self.subgroups@[i as int].name@ == sgn@,
                None => forall|i: int| 0 <= i < self.subgroups@.len() ==> self.subgroups@[i].name@ != sgn@,
            },
    {
        let mut i: usize = 0;
        while i < self.subgroups.len()
            invariant
                i <= self.subgroups@.len(),
                forall|j: int| 0 <= j < i ==> self.subgroups@[j].name@ != sgn@,
            decreases self.subgroups@.len() - i,
        {
            if str_eq(self.subgroups[i].name.as_str(), sgn) {
                return Some(i);
            }
            i = i + 1;
        }
        None
    }

    /// Orders the subgroups by name, then sorts each of them.
    pub fn sort(&mut self) -> (r: Result<(), MergeError>)
        requires
            subgroups_wf(old(self).subgroups@),
        ensures
            final(self).subgroups@.len() == old(self).subgroups@.len(),
            final(self).name == old(self).name,
            names_sorted(final(self).subgroups@.map_values(|s: Subgroup| s.name@)),
            (forall|x: int| 0 <= x < old(self).subgroups@.len() ==> sort_succeeds(#[trigger] old(self).subgroups@[x])) ==> r is Ok,
            r is Err ==> exists|x: int| 0 <= x < old(self).subgroups@.len() && !sort_succeeds(#[trigger] old(self).subgroups@[x]),
            r is Ok ==> exists|perm: Seq<int>| #[trigger] sorted_perm(old(self).subgroups@, final(self).subgroups@, perm),
    {
        let ghost og = self.subgroups@;
        let ghost mut perm: Seq<int> = Seq::empty();
        assert(og.skip(0) =~= og);
        let mut sorted: Vec<Subgroup> = Vec::new();
        let ghost total = self.subgroups@.len();
        while self.subgroups.len() > 0
            invariant
                subgroups_wf(self.subgroups@),
                subgroups_wf(sorted@),
                names_sorted(sorted@.map_values(|s: Subgroup| s.name@)),
                sorted@.len() + self.subgroups@.len() == total,
                total == old(self).subgroups@.len(),
                self.name == old(self).name,
                og == old(self).subgroups@,
                forall|x: int| 0 <= x < self.subgroups@.len() ==> og.contains(#[trigger] self.subgroups@[x]),
                forall|x: int| 0 <= x < sorted@.len() ==> og.contains(#[trigger] sorted@[x]),
                self.subgroups@ == og.skip(sorted@.len() as int),
                perm.len() == sorted@.len(),
                perm.no_duplicates(),
                forall|x: int| 0 <= x < perm.len() ==> 0 <= #[trigger] perm[x] < sorted@.len() && sorted@[x] == og[perm[x]],
            decreases self.subgroups@.len(),
        {
            let ghost b0 = self.subgroups@;
            let ghost c = sorted@.len() as int;
            let sg = self.subgroups.remove(0);
            proof {
                assert(sg == og[c]);
                assert(self.subgroups@ =~= og.skip(c + 1));
            }
            proof {
                assert(og.contains(b0[0]));
                assert forall|x: int| 0 <= x < self.subgroups@.len() implies og.contains(#[trigger] self.subgroups@[x]) by {
                    assert(self.subgroups@[x] == b0[x + 1]);
                }
            }
            proof {
                assert(b0[0].wf());
                assert forall|j: int| 0 <= j < self.subgroups@.len() implies (#[trigger] self.subgroups@[j]).wf() by {
                    assert(self.subgroups@[j] == b0[j + 1]);
                }
            }
            let mut k: usize = sorted.len();
            while k > 0 && str_lt(sg.name.as_str(), sorted[k - 1].name.as_str())
                invariant
                    k <= sorted@.len(),
                    forall|j: int| k <= j < sorted@.len() ==> seq_lt(sg.name@, #[trigger] sorted@[j].name@),
                decreases k,
            {
                k = k - 1;
            }
            let ghost before = sorted@.map_values(|s: Subgroup| s.name@);
            let ghost sb = sorted@;
            sorted.insert(k, sg);
            proof {
                let p0 = perm;
                perm = perm.insert(k as int, c);
                assert forall|x: int| 0 <= x < perm.len() implies 0 <= #[trigger] perm[x] < sorted@.len() && sorted@[x] == og[perm[x]] by {
                    if x < k {
                        assert(perm[x] == p0[x] && sorted@[x] == sb[x]);
                    } else if x > k {
                        assert(perm[x] == p0[x - 1] && sorted@[x] == sb[x - 1]);
                    }
                }
                assert forall|x: int, y: int| 0 <= x < perm.len() && 0 <= y < perm.len() && x != y implies perm[x] != perm[y] by {
                    if x != k && y != k {
                        let x0 = if x < k { x } else { x - 1 };
                        let y0 = if y < k { y } else { y - 1 };
                        assert(perm[x] == p0[x0] && perm[y] == p0[y0]);
                    } else if x == k {
                        let y0 = if y < k { y } else { y - 1 };
                        assert(perm[y] == p0[y0]);
                    } else {
                        let x0 = if x < k { x } else { x - 1 };
                        assert(perm[x] == p0[x0]);
                    }
                }
                let nv = sorted@.map_values(|s: Subgroup| s.name@);
                assert(nv =~= before.insert(k as int, sg.name@));
                assert forall|a: int, b: int| 0 <= a < b < nv.len() implies !seq_lt(nv[b], nv[a]) by {
                    if a < k && b == k {
                        assert(!seq_lt(sg.name@, before[k - 1]));
                        if a < k - 1 {
                            assert(!seq_lt(before[k - 1], before[a]));
                            lemma_le_trans(before[a], before[k - 1], sg.name@);
                        }
                    } else if a == k && b > k {
                        assert(seq_lt(sg.name@, sb[b - 1].name@));
                        lemma_lt_asym(sg.name@, before[b - 1]);
                    } else if a < k && b > k {
                        assert(!seq_lt(before[b - 1], before[a]));
                    } else if a > k {
                        assert(!seq_lt(before[b - 1], before[a - 1]));
                    }
                }
                assert forall|j: int| 0 <= j < sorted@.len() implies (#[trigger] sorted@[j]).wf() && og.contains(sorted@[j]) by {
                    if j < k {
                        assert(sorted@[j] == sb[j]);
                    } else if j > k {
                        assert(sorted@[j] == sb[j - 1]);
                    }
                }
            }
        }
        self.subgroups = sorted;
        let ghost mid = self.subgroups@;
        let mut i: usize = 0;
        while i < self.subgroups.len()
            invariant
                i <= self.subgroups@.len(),
                self.subgroups@.len() == total,
                total == old(self).subgroups@.len(),
                self.name == old(self).name,
                og == old(self).subgroups@,
                forall|x: int| i <= x < self.subgroups@.len() ==> og.contains(#[trigger] self.subgroups@[x]),
                subgroups_wf(self.subgroups@),
                names_sorted(self.subgroups@.map_values(|s: Subgroup| s.name@)),
                mid.len() == total,
                perm.len() == total,
                perm.no_duplicates(),
                forall|x: int| 0 <= x < perm.len() ==> 0 <= #[trigger] perm[x] < total && mid[x] == og[perm[x]],
                forall|x: int| i <= x < total ==> self.subgroups@[x] == mid[x],
                forall|x: int| 0 <= x < i ==> sorted_to(mid[x], #[trigger] self.subgroups@[x]),
            decreases self.subgroups@.len() - i,
        {
            let ghost b0 = self.subgroups@;
            let mut sg = self.subgroups.remove(i);
            proof {
                assert(b0[i as int].wf());
                assert(og.contains(b0[i as int]));
            }
            let ghost sg0 = sg;
            let res = sg.sort();
            proof {
                if res is Err {
                    let x = choose|x: int| 0 <= x < og.len() && og[x] == sg0;
                    assert(!sort_succeeds(og[x]));
                }
            }
            self.subgroups.insert(i, sg);
            proof {
                assert(self.subgroups@.map_values(|s: Subgroup| s.name@) =~= b0.map_values(|s: Subgroup| s.name@));
                assert forall|x: int| i < x < self.subgroups@.len() implies og.contains(#[trigger] self.subgroups@[x]) by {
                    assert(self.subgroups@[x] == b0[x]);
                }
            }
            if res.is_err() {
                return res;
            }
            proof {
                assert forall|j: int| 0 <= j < self.subgroups@.len() implies (#[trigger] self.subgroups@[j]).wf() by {
                    if j != i {
                        assert(self.subgroups@[j] == b0[j]);
                    }
                }
                assert forall|x: int| i < x < total implies self.subgroups@[x] == mid[x] by {
                    assert(self.subgroups@[x] == b0[x]);
                }
                assert forall|x: int| 0 <= x < i + 1 implies sorted_to(mid[x], #[trigger] self.subgroups@[x]) by {
                    if x < i {
                        assert(self.subgroups@[x] == b0[x]);
                    }
                }
            }
            i = i + 1;
        }
        assert(sorted_perm(og, self.subgroups@, perm));
        Ok(())
    }
}

} // verus!

verus! {

/// All groups of the feed.
#[derive(Debug)]
pub struct Emojis {
    pub groups: Vec<Group>,
}

/// A group whose subgroups can all be merged without failure.
pub open spec fn group_free(g: Group) -> bool {
    forall|x: int| 0 <= x < g.subgroups@.len() ==> sort_succeeds(#[trigger] g.subgroups@[x])
}

/// Every group of a list holds well-formed subgroups.
pub open spec fn groups_wf(v: Seq<Group>) -> bool {
    forall|i: int| 0 <= i < v.len() ==> subgroups_wf((#[trigger] v[i]).subgroups@)
}

impl Emojis {
    /// No groups yet.
    pub fn new() -> (r: Emojis)
        ensures
            r.groups@.len() == 0,
    {
        Emojis { groups: Vec::new() }
    }

    /// Adds an empty group named `name`; gives its position.
    pub fn append(&mut self, name: String) -> (r: usize)
        requires
            groups_wf(old(self).groups@),
        ensures
            groups_wf(final(self).groups@),
            r == old(self).groups@.len(),
            final(self).groups@.len() == r + 1,
            final(self).groups@.take(r as int) == old(self).groups@,
            final(self).groups@[r as int].name@ == name@,
    {
        let g = Group::new(name);
        let r = self.groups.len();
        self.groups.push(g);
        proof {
            assert(self.groups@.take(r as int) =~= old(self).groups@);
        }
        r
    }

    /// The position of the first group named `gn`.
    pub fn get_group(&self, gn: &str) -> (r: Option<usize>)
        ensures
            match r {
                Some(i) => i < self.groups@.len() && self.groups@[i as int].name@ == gn@,
                None => forall|i: int| 0 <= i < self.groups@.len() ==> self.groups@[i].name@ != gn@,
            },
    {
        let mut i: usize = 0;
        while i < self.groups.len()
            invariant
                i <= self.groups@.len(),
                forall|j: int| 0 <= j < i ==> self.groups@[j].name@ != gn@,
            decreases self.groups@.len() - i,
        {
            if str_eq(self.groups[i].name.as_str(), gn) {
                return Some(i);
            }
            i = i + 1;
        }
        None
    }

    /// Orders the groups by name, then sorts each of them; stops at the first subgroup whose
    /// merge fails.
    pub fn sort(&mut self) -> (r: Result<(), MergeError>)
        requires
            groups_wf(old(self).groups@),
        ensures
            final(self).groups@.len() == old(self).groups@.len(),
            names_sorted(final(self).groups@.map_values(|g: Group| g.name@)),
            r is Ok ==> forall|i: int| 0 <= i < final(self).groups@.len()
                ==> names_sorted((#[trigger] final(self).groups@[i]).subgroups@.map_values(|s: Subgroup| s.name@)),
            (forall|x: int| 0 <= x < old(self).groups@.len() ==> group_free(#[trigger] old(self).groups@[x])) ==> r is Ok,
            r is Err ==> exists|x: int| 0 <= x < old(self).groups@.len() && !group_free(#[trigger] old(self).groups@[x]),
            r is Ok ==> exists|perm: Seq<int>| #[trigger] groups_sorted_perm(old(self).groups@, final(self).groups@, perm),
    {
        let ghost og = self.groups@;
        let ghost mut perm: Seq<int> = Seq::empty();
        assert(og.skip(0) =~= og);
        let mut sorted: Vec<Group> = Vec::new();
        let ghost total = self.groups@.len();
        while self.groups.len() > 0
            invariant
                groups_wf(self.groups@),
                groups_wf(sorted@),
                names_sorted(sorted@.map_values(|g: Group| g.name@)),
                sorted@.len() + self.groups@.len() == total,
                total == old(self).groups@.len(),
                og == old(self).groups@,
                forall|x: int| 0 <= x < self.groups@.len() ==> og.contains(#[trigger] self.groups@[x]),
                forall|x: int| 0 <= x < sorted@.len() ==> og.contains(#[trigger] sorted@[x]),
                self.groups@ == og.skip(sorted@.len() as int),
                perm.len() == sorted@.len(),
                perm.no_duplicates(),
                forall|x: int| 0 <= x < perm.len() ==> 0 <= #[trigger] perm[x] < sorted@.len() && sorted@[x] == og[perm[x]],
            decreases self.groups@.len(),
        {
            let ghost b0 = self.groups@;
            let ghost c = sorted@.len() as int;
            let g = self.groups.remove(0);
            proof {
                assert(g == og[c]);
                assert(self.groups@ =~= og.skip(c + 1));
            }
            proof {
                assert(og.contains(b0[0]));
                assert forall|x: int| 0 <= x < self.groups@.len() implies og.contains(#[trigger] self.groups@[x]) by {
                    assert(self.groups@[x] == b0[x + 1]);
                }
                assert(subgroups_wf(b0[0].subgroups@));
                assert forall|j: int| 0 <= j < self.groups@.len() implies subgroups_wf((#[trigger] self.groups@[j]).subgroups@) by {
                    assert(self.groups@[j] == b0[j + 1]);
                }
            }
            let mut k: usize = sorted.len();
            while k > 0 && str_lt(g.name.as_str(), sorted[k - 1].name.as_str())
                invariant
                    k <= sorted@.len(),
                    forall|j: int| k <= j < sorted@.len() ==> seq_lt(g.name@, #[trigger] sorted@[j].name@),
                decreases k,
            {
                k = k - 1;
            }
            let ghost before = sorted@.map_values(|g: Group| g.name@);
            let ghost sb = sorted@;
            sorted.insert(k, g);
            proof {
                let p0 = perm;
                perm = perm.insert(k as int, c);
                assert forall|x: int| 0 <= x < perm.len() implies 0 <= #[trigger] perm[x] < sorted@.len() && sorted@[x] == og[perm[x]] by {
                    if x < k {
                        assert(perm[x] == p0[x] && sorted@[x] == sb[x]);
                    } else if x > k {
                        assert(perm[x] == p0[x - 1] && sorted@[x] == sb[x - 1]);
                    }
                }
                assert forall|x: int, y: int| 0 <= x < perm.len() && 0 <= y < perm.len() && x != y implies perm[x] != perm[y] by {
                    if x != k && y != k {
                        let x0 = if x < k { x } else { x - 1 };
                        let y0 = if y < k { y } else { y - 1 };
                        assert(perm[x] == p0[x0] && perm[y] == p0[y0]);
                    } else if x == k {
                        let y0 = if y < k { y } else { y - 1 };
                        assert(perm[y] == p0[y0]);
                    } else {
                        let x0 = if x < k { x } else { x - 1 };
                        assert(perm[x] == p0[x0]);
                    }
                }
                let nv = sorted@.map_values(|g: Group| g.name@);
                assert(nv =~= before.insert(k as int, g.name@));
                assert forall|a: int, b: int| 0 <= a < b < nv.len() implies !seq_lt(nv[b], nv[a]) by {
                    if a < k && b == k {
                        assert(!seq_lt(g.name@, before[k - 1]));
                        if a < k - 1 {
                            assert(!seq_lt(before[k - 1], before[a]));
                            lemma_le_trans(before[a], before[k - 1], g.name@);
                        }
                    } else if a == k && b > k {
                        assert(seq_lt(g.name@, sb[b - 1].name@));
                        lemma_lt_asym(g.name@, before[b - 1]);
                    } else if a < k && b > k {
                        assert(!seq_lt(before[b - 1], before[a]));
                    } else if a > k {
                        assert(!seq_lt(before[b - 1], before[a - 1]));
                    }
                }
                assert forall|j: int| 0 <= j < sorted@.len() implies subgroups_wf((#[trigger] sorted@[j]).subgroups@) && og.contains(sorted@[j]) by {
                    if j < k {
                        assert(sorted@[j] == sb[j]);
                    } else if j > k {
                        assert(sorted@[j] == sb[j - 1]);
                    }
                }
            }
        }
        self.groups = sorted;
        let ghost mid = self.groups@;
        let n = self.groups.len();
        let mut i: usize = 0;
        while i < n
            invariant
                n == self.groups@.len(),
                n == total,
                total == old(self).groups@.len(),
                og == old(self).groups@,
                forall|x: int| i <= x < n ==> og.contains(#[trigger] self.groups@[x]),
                mid.len() == n,
                perm.len() == n,
                perm.no_duplicates(),
                forall|x: int| 0 <= x < perm.len() ==> 0 <= #[trigger] perm[x] < n && mid[x] == og[perm[x]],
                forall|x: int| i <= x < n ==> self.groups@[x] == mid[x],
                forall|x: int| 0 <= x < i ==> group_sorted_to(mid[x], #[trigger] self.groups@[x]),
                i <= n,
                names_sorted(self.groups@.map_values(|g: Group| g.name@)),
                forall|j: int| i <= j < n ==> subgroups_wf((#[trigger] self.groups@[j]).subgroups@),
                forall|j: int| 0 <= j < i ==> names_sorted((#[trigger] self.groups@[j]).subgroups@.map_values(|s: Subgroup| s.name@)),
            decreases n - i,
        {
            let ghost b0 = self.groups@;
            let mut g = self.groups.remove(i);
            proof {
                assert(subgroups_wf(b0[i as int].subgroups@));
                assert(og.contains(b0[i as int]));
            }
            let ghost g0 = g;
            let res = g.sort();
            proof {
                if res is Err {
                    let x = choose|x: int| 0 <= x < og.len() && og[x] == g0;
                    assert(!group_free(og[x]));
                }
            }
            self.groups.insert(i, g);
            proof {
                assert forall|x: int| i < x < n implies og.contains(#[trigger] self.groups@[x]) by {
                    assert(self.groups@[x] == b0[x]);
                }
                assert(self.groups@.map_values(|g: Group| g.name@) =~= b0.map_values(|g: Group| g.name@));
                assert forall|j: int| i < j < n implies subgroups_wf((#[trigger] self.groups@[j]).subgroups@) by {
                    assert(self.groups@[j] == b0[j]);
                }
                assert forall|j: int| 0 <= j < i implies names_sorted((#[trigger] self.groups@[j]).subgroups@.map_values(|s: Subgroup| s.name@)) by {
                    assert(self.groups@[j] == b0[j]);
                }
            }
            if res.is_err() {
                return res;
            }
            proof {
                assert forall|x: int| i < x < n implies self.groups@[x] == mid[x] by {
                    assert(self.groups@[x] == b0[x]);
                }
                assert forall|x: int| 0 <= x < i + 1 implies group_sorted_to(mid[x], #[trigger] self.groups@[x]) by {
                    if x < i {
                        assert(self.groups@[x] == b0[x]);
                    }
                }
            }
            i = i + 1;
        }
        assert(groups_sorted_perm(og, self.groups@, perm));
        Ok(())
    }
}

/// An emoji that can be written out as a generated constant.
pub trait ToSourceCode {
    /// Whether `r` is the source code of this emoji's constant, or none where it cannot be
    /// generated.
    spec fn source_of(&self, r: Option<String>) -> bool;

    /// Whether `g` is the preview of this emoji: its default graphemes.
    spec fn preview_of(&self, g: Seq<char>) -> bool;

    /// Whether `r` is this emoji's default grapheme, where it is unique.
    spec fn default_of(&self, r: Option<String>) -> bool;

    /// The source code of the constant's definition; none where it cannot be generated.
    fn to_source_code(&self) -> (r: Option<String>)
        ensures
            self.source_of(r);
    /// The identifier of the constant.
    fn identifier(&self) -> &str;
    /// The default graphemes, all of them where several are equally generic.
    fn graphemes(&self) -> (r: String)
        ensures
            self.preview_of(r@);

    /// The default grapheme, where it is unique.
    fn default_grapheme(&self) -> (r: Option<String>)
        ensures
            self.default_of(r);
    /// The descriptive name.
    fn name(&self) -> &str;
    /// Whether `l` lists each addressable variant of this emoji: its accessor path and its
    /// grapheme, in the order of the enumeration.
    spec fn lists(&self, l: Seq<(String, String)>) -> bool;

    /// Each addressable variant: its accessor path and its grapheme.
    fn full_emoji_list(&self) -> (r: Vec<(String, String)>)
        ensures
            self.lists(r@);
}

impl ToSourceCode for Emoji {
    open spec fn source_of(&self, r: Option<String>) -> bool {
        r is Some
    }

    open spec fn preview_of(&self, g: Seq<char>) -> bool {
        g == self.grapheme@
    }

    open spec fn default_of(&self, r: Option<String>) -> bool {
        r matches Some(g) && g@ == self.grapheme@
    }

    fn to_source_code(&self) -> (r: Option<String>) {
        let major = crate::strs::decimal_string(self.since.0);
        let minor = crate::strs::decimal_string(self.since.1);
        let example = crate::render::emoji_render_single_example(self.identifier.as_str(), self.grapheme.as_str());
        let section = crate::render::emoji_render_example_section(example.as_str(), self.identifier.as_str());
        let escaped = crate::strs::escape_text(self.name.as_str());
        let parts: [&str; 24] = [
            "#[doc=\"", self.name.as_str(), " ", self.grapheme.as_str(), "\"]#[doc=\"\"]#[doc=\"Since E",
            major.as_str(), ".", minor.as_str(), "\"]#[doc=\"\"]", section.as_str(), "\n",
            "pub static ", self.identifier.as_str(), " :  Emoji = Emoji::new(\"", escaped.as_str(),
            "\", Version(", major.as_str(), ", ", minor.as_str(), "), \"", self.grapheme.as_str(),
            "\"); // ", self.name.as_str(), "",
        ];
        let mut out = String::new();
        let mut i: usize = 0;
        while i < 24
            invariant
                i <= 24,
            decreases 24 - i,
        {
            out = crate::strs::cat(out.as_str(), parts[i]);
            i = i + 1;
        }
        Some(out)
    }

    fn identifier(&self) -> &str {
        self.identifier.as_str()
    }

    fn graphemes(&self) -> (r: String) {
        self.grapheme.clone()
    }

    fn default_grapheme(&self) -> (r: Option<String>) {
        Some(self.grapheme.clone())
    }

    fn name(&self) -> &str {
        self.name.as_str()
    }

    open spec fn lists(&self, l: Seq<(String, String)>) -> bool {
        l.len() == 1 && l[0].0@ == self.identifier@ && l[0].1@ == self.grapheme@
    }

    fn full_emoji_list(&self) -> (r: Vec<(String, String)>) {
        vec![(self.identifier.clone(), self.grapheme.clone())]
    }
}

/// Whether a list of variants holds key `k` with grapheme `g`.
pub open spec fn has_grapheme(v: Seq<(PersonKind, PersonVariant)>, k: PersonKind, g: Seq<char>) -> bool {
    exists|j: int| 0 <= j < v.len() && v[j].0 == k && (#[trigger] v[j]).1.grapheme@ == g
}

impl PersonEmoji {
    /// The enumeration of the tree, rooted at the identifier.
    pub open spec fn enumeration(&self) -> Seq<(Seq<char>, Seq<char>, PersonKind)> {
        crate::tree::enumerate(self.grouping->0, self.identifier@, self.identifier@)
    }

    /// Each variant reachable from the tree: its accessor path in constants and its grapheme, in
    /// the order of the enumeration. None before finalizing, or where the tree reaches a key
    /// that has no variant.
    pub fn accessor_graphemes(&self) -> (r: Option<Vec<(String, String)>>)
        ensures
            r is None <==> (self.grouping is None || exists|i: int| 0 <= i < self.enumeration().len()
                && !crate::people::keys_of(self.variants@).contains(#[trigger] self.enumeration()[i].2)),
            r matches Some(l) ==> l@.len() == self.enumeration().len()
                && forall|i: int| 0 <= i < l@.len() ==> (#[trigger] l@[i]).0@ == self.enumeration()[i].0
                    && has_grapheme(self.variants@, self.enumeration()[i].2, l@[i].1@),
    {
        match &self.grouping {
            None => None,
            Some(group) => {
                let entries = group.to_accessor_n_kind(self.identifier.as_str());
                let ghost e = self.enumeration();
                assert(crate::tree::entries_view(entries@) == e);
                let mut out: Vec<(String, String)> = Vec::new();
                let mut i: usize = 0;
                while i < entries.len()
                    invariant
                        i <= entries@.len(),
                        crate::tree::entries_view(entries@) == e,
                        e == self.enumeration(),
                        out@.len() == i,
                        forall|x: int| 0 <= x < i ==> (#[trigger] out@[x]).0@ == e[x].0 && has_grapheme(self.variants@, e[x].2, out@[x].1@),
                        forall|x: int| 0 <= x < i ==> crate::people::keys_of(self.variants@).contains(#[trigger] e[x].2),
                    decreases entries@.len() - i,
                {
                    assert(crate::tree::entries_view(entries@)[i as int] == (entries@[i as int].0@, entries@[i as int].1@, entries@[i as int].2));
                    match self.get(entries[i].2) {
                        Some(v) => {
                            let ghost before = out@;
                            let g = v.grapheme.clone();
                            out.push((entries[i].0.clone(), g));
                            proof {
                                let j = choose|j: int| 0 <= j < self.variants@.len() && self.variants@[j].0 == entries@[i as int].2 && self.variants@[j].1 == *v;
                                assert(has_grapheme(self.variants@, e[i as int].2, out@[i as int].1@));
                                assert(crate::people::keys_of(self.variants@)[j] == e[i as int].2);
                                assert forall|x: int| 0 <= x < i + 1 implies (#[trigger] out@[x]).0@ == e[x].0 && has_grapheme(self.variants@, e[x].2, out@[x].1@) by {
                                    if x < i {
                                        assert(out@[x] == before[x]);
                                    }
                                }
                            }
                        },
                        None => {
                            assert(!crate::people::keys_of(self.variants@).contains(e[i as int].2));
                            return None;
                        },
                    }
                    i = i + 1;
                }
                assert(e.len() == entries@.len());
                assert(!exists|x: int| 0 <= x < e.len() && !crate::people::keys_of(self.variants@).contains(#[trigger] e[x].2));
                Some(out)
            },
        }
    }

    /// The source code of the record's constant: its documentation and its definition. None
    /// before finalizing, or where the tree cannot be generated.
    pub fn source_code(&self) -> (r: Option<String>)
        ensures
            r is None <==> (self.grouping is None
                || !crate::tree::renderable(self.grouping->0, crate::people::keys_of(self.variants@))),
            r matches Some(t) ==> exists|g: Seq<char>| #[trigger] previews(*self, g) && t@ == source_text(*self, g),
    {
        match &self.grouping {
            None => None,
            Some(group) => match group.to_type_n_value(self.identifier.as_str(), &self.variants) {
                None => None,
                Some((ty, value, docs)) => {
                    let section = crate::render::emoji_render_example_section(docs.as_str(), self.identifier.as_str());
                    let graphemes = match self.default_graphemes() {
                        Some(g) => g,
                        None => String::new(),
                    };
                    let a = crate::strs::cat("#[doc=\"", self.fancy_name.as_str());
                    let b = crate::strs::cat(a.as_str(), " ");
                    let c = crate::strs::cat(b.as_str(), graphemes.as_str());
                    let d = crate::strs::cat(c.as_str(), "\"]#[doc=\"\"] ");
                    let e = crate::strs::cat(d.as_str(), section.as_str());
                    let f = crate::strs::cat(e.as_str(), "\npub static ");
                    let g = crate::strs::cat(f.as_str(), self.identifier.as_str());
                    let h = crate::strs::cat(g.as_str(), ": ");
                    let i = crate::strs::cat(h.as_str(), ty.as_str());
                    let j = crate::strs::cat(i.as_str(), " = ");
                    let k = crate::strs::cat(j.as_str(), value.as_str());
                    let out = crate::strs::cat(k.as_str(), ";\n");
                    proof {
                        assert(previews(*self, graphemes@));
                        assert(out@ =~= source_text(*self, graphemes@));
                    }
                    Some(out)
                },
            },
        }
    }
}

/// `g` is the preview of a record: the graphemes of its most generic variants joined, or
/// nothing for a record without variants.
pub open spec fn previews(e: PersonEmoji, g: Seq<char>) -> bool {
    if e.variants@.len() == 0 {
        g == Seq::<char>::empty()
    } else {
        exists|d: Seq<(PersonKind, PersonVariant)>| crate::people::default_selection(e.variants@, d)
            && g == crate::people::graphemes_joined(d)
    }
}

/// The source code of a finalized record's constant with preview `g`: a documentation line
/// with its name and preview, the example section, and the definition with the tree's type and
/// constructor.
pub open spec fn source_text(e: PersonEmoji, g: Seq<char>) -> Seq<char> {
    let t = e.grouping->0;
    let texts = crate::tree::texts_of(t, e.identifier@, e.variants@);
    "#[doc=\""@ + e.fancy_name@ + " "@ + g + "\"]#[doc=\"\"] "@
        + crate::render::example_section(texts.1, e.identifier@)
        + "\npub static "@ + e.identifier@ + ": "@ + crate::tree::type_of(t) + " = "@ + texts.0 + ";\n"@
}


/// The constant paths of the entries of an enumeration whose keys are among `ks`, in order.
pub open spec fn paths_of(e: Seq<(Seq<char>, Seq<char>, PersonKind)>, ks: Seq<PersonKind>) -> Seq<Seq<char>>
    decreases e.len(),
{
    if e.len() == 0 {
        Seq::empty()
    } else {
        paths_of(e.drop_last(), ks) + (if ks.contains(e.last().2) { seq![e.last().0] } else { Seq::empty() })
    }
}

impl PersonEmoji {
    /// The constant paths of the most generic variants, in the order of the enumeration. None
    /// before finalizing, or for a record without variants.
    pub fn default_accessors(&self) -> (r: Option<Vec<String>>)
        ensures
            r is None <==> (self.grouping is None || self.variants@.len() == 0),
            r matches Some(l) ==> exists|d: Seq<(PersonKind, PersonVariant)>| crate::people::default_selection(self.variants@, d)
                && l@.map_values(|x: String| x@) == paths_of(self.enumeration(), crate::people::keys_of(d)),
    {
        let defaults = match self.default_variants() {
            None => {
                return None;
            },
            Some(d) => d,
        };
        match &self.grouping {
            None => None,
            Some(group) => {
                let entries = group.to_accessor_n_kind(self.identifier.as_str());
                let ghost e = self.enumeration();
                let ghost ks = crate::people::keys_of(defaults@);
                let mut out: Vec<String> = Vec::new();
                let mut i: usize = 0;
                assert(e.take(0) =~= Seq::<(Seq<char>, Seq<char>, PersonKind)>::empty());
                assert(out@.map_values(|x: String| x@) =~= paths_of(e.take(0), ks));
                while i < entries.len()
                    invariant
                        i <= entries@.len(),
                        crate::tree::entries_view(entries@) == e,
                        ks == crate::people::keys_of(defaults@),
                        out@.map_values(|x: String| x@) == paths_of(e.take(i as int), ks),
                    decreases entries@.len() - i,
                {
                    assert(e[i as int] == (entries@[i as int].0@, entries@[i as int].1@, entries@[i as int].2));
                    assert(e.take(i + 1).drop_last() =~= e.take(i as int));
                    assert(e.take(i + 1).last() == e[i as int]);
                    let mut found = false;
                    let mut k: usize = 0;
                    while k < defaults.len()
                        invariant
                            k <= defaults@.len(),
                            i < entries@.len(),
                            ks == crate::people::keys_of(defaults@),
                            found == exists|x: int| 0 <= x < k && defaults@[x].0 == entries@[i as int].2,
                        decreases defaults@.len() - k,
                    {
                        if defaults[k].0 == entries[i].2 {
                            found = true;
                        }
                        k = k + 1;
                    }
                    proof {
                        if found {
                            let x = choose|x: int| 0 <= x < k && defaults@[x].0 == entries@[i as int].2;
                            assert(ks[x] == entries@[i as int].2);
                        } else if ks.contains(entries@[i as int].2) {
                            let x = choose|x: int| 0 <= x < ks.len() && ks[x] == entries@[i as int].2;
                            assert(defaults@[x].0 == entries@[i as int].2);
                        }
                    }
                    let ghost before = out@;
                    if found {
                        out.push(entries[i].0.clone());
                        assert(out@.map_values(|x: String| x@) =~= before.map_values(|x: String| x@) + seq![entries@[i as int].0@]);
                    } else {
                        assert(before.map_values(|x: String| x@) + Seq::<Seq<char>>::empty() =~= before.map_values(|x: String| x@));
                    }
                    i = i + 1;
                }
                assert(e.take(i as int) =~= e);
                Some(out)
            },
        }
    }
}

impl ToSourceCode for PersonEmoji {
    open spec fn source_of(&self, r: Option<String>) -> bool {
        &&& r is None <==> (self.grouping is None
            || !crate::tree::renderable(self.grouping->0, crate::people::keys_of(self.variants@)))
        &&& r matches Some(t) ==> exists|g: Seq<char>| #[trigger] previews(*self, g) && t@ == source_text(*self, g)
    }

    open spec fn preview_of(&self, g: Seq<char>) -> bool {
        previews(*self, g)
    }

    open spec fn default_of(&self, r: Option<String>) -> bool {
        &&& r matches Some(g) ==> exists|d: Seq<(PersonKind, PersonVariant)>| crate::people::default_selection(self.variants@, d)
            && d.len() == 1 && g@ == d[0].1.grapheme@
        &&& r is None ==> self.variants@.len() == 0 || exists|d: Seq<(PersonKind, PersonVariant)>|
            crate::people::default_selection(self.variants@, d) && d.len() != 1
    }

    fn to_source_code(&self) -> (r: Option<String>) {
        self.source_code()
    }

    fn identifier(&self) -> &str {
        self.identifier.as_str()
    }

    fn graphemes(&self) -> (r: String) {
        match self.default_graphemes() {
            Some(g) => g,
            None => {
                let e = String::new();
                assert(e@ =~= Seq::<char>::empty());
                e
            },
        }
    }

    fn default_grapheme(&self) -> (r: Option<String>) {
        self.unique_default_grapheme()
    }

    fn name(&self) -> &str {
        self.fancy_name.as_str()
    }

    open spec fn lists(&self, l: Seq<(String, String)>) -> bool {
        if self.grouping is None || exists|i: int| 0 <= i < self.enumeration().len()
            && !crate::people::keys_of(self.variants@).contains(#[trigger] self.enumeration()[i].2) {
            l.len() == 0
        } else {
            l.len() == self.enumeration().len() && forall|i: int| 0 <= i < l.len() ==> (#[trigger] l[i]).0@ == self.enumeration()[i].0
                && has_grapheme(self.variants@, self.enumeration()[i].2, l[i].1@)
        }
    }

    fn full_emoji_list(&self) -> (r: Vec<(String, String)>) {
        match self.accessor_graphemes() {
            Some(l) => l,
            None => Vec::new(),
        }
    }
}

impl<'a> EmojiRef<'a> {
    /// The identifier of the emoji.
    pub fn identifier(&self) -> (r: &str)
        ensures
            r@ == match self {
                EmojiRef::Plain(e) => e.identifier@,
                EmojiRef::Person(p) => p.identifier@,
            },
    {
        match self {
            EmojiRef::Plain(e) => e.identifier.as_str(),
            EmojiRef::Person(p) => p.identifier.as_str(),
        }
    }

    /// The default grapheme of the emoji, where it is unique.
    pub fn default_grapheme(&self) -> (r: Option<String>)
        ensures
            r matches Some(g) ==> default_of(*self, g@),
            (*self matches EmojiRef::Plain(_)) ==> r is Some,
    {
        match self {
            EmojiRef::Plain(e) => Some(e.grapheme.clone()),
            EmojiRef::Person(p) => p.unique_default_grapheme(),
        }
    }
}

/// `g` is the default grapheme of an emoji: that of a standalone emoji, or the grapheme of the
/// single most generic variant of a person emoji.
pub open spec fn default_of(e: EmojiRef, g: Seq<char>) -> bool {
    match e {
        EmojiRef::Plain(p) => g == p.grapheme@,
        EmojiRef::Person(p) => exists|d: Seq<(PersonKind, PersonVariant)>| crate::people::default_selection(p.variants@, d)
            && d.len() == 1 && g == d[0].1.grapheme@,
    }
}

/// `g` is the default grapheme of the emoji of the `i`-th identifier of a subgroup.
pub open spec fn previewed_at(sub: Subgroup, i: int, g: Seq<char>) -> bool {
    0 <= i < sub.constants@.len() && exists|e: EmojiRef| sub.found_as(e, sub.constants@[i]@) && #[trigger] default_of(e, g)
}

/// `g` is the default grapheme of the emoji of some identifier of a subgroup.
pub open spec fn previewed(sub: Subgroup, g: Seq<char>) -> bool {
    exists|i: int| #[trigger] previewed_at(sub, i, g)
}

/// A list of strings, joined.
pub open spec fn joined(l: Seq<Seq<char>>) -> Seq<char>
    decreases l.len(),
{
    if l.len() == 0 {
        Seq::empty()
    } else {
        joined(l.drop_last()) + l.last()
    }
}

/// Up to three default graphemes of a subgroup, in the order of its identifiers.
pub fn emojis_for_sub_group_list(sub: &Subgroup) -> (r: Vec<String>)
    ensures
        r@.len() <= 3,
        forall|x: int| 0 <= x < r@.len() ==> previewed(*sub, #[trigger] r@[x]@),
{
    let mut out: Vec<String> = Vec::new();
    let mut i: usize = 0;
    while i < sub.constants.len() && out.len() < 3
        invariant
            i <= sub.constants@.len(),
            out@.len() <= 3,
            forall|x: int| 0 <= x < out@.len() ==> previewed(*sub, #[trigger] out@[x]@),
        decreases sub.constants@.len() - i,
    {
        match sub.get_emoji(sub.constants[i].as_str()) {
            Some(e) => match e.default_grapheme() {
                Some(g) => {
                    proof {
                        assert(sub.found_as(e, sub.constants@[i as int]@));
                        assert(previewed_at(*sub, i as int, g@));
                        assert(previewed(*sub, g@));
                    }
                    let ghost before = out@;
                    out.push(g);
                    proof {
                        assert forall|x: int| 0 <= x < out@.len() implies previewed(*sub, #[trigger] out@[x]@) by {
                            if x < before.len() {
                                assert(out@[x] == before[x]);
                            }
                        }
                    }
                },
                None => {},
            },
            None => {},
        }
        i = i + 1;
    }
    out
}

/// Up to three default graphemes of a subgroup, joined.
pub fn emojis_for_subgroup(sub: &Subgroup) -> (r: String)
    ensures
        exists|l: Seq<Seq<char>>| l.len() <= 3 && (forall|x: int| 0 <= x < l.len() ==> previewed(*sub, #[trigger] l[x]))
            && r@ == joined(l),
{
    let list = emojis_for_sub_group_list(sub);
    let ghost l = list@.map_values(|x: String| x@);
    let mut out = String::new();
    let mut i: usize = 0;
    assert(l.take(0) =~= Seq::<Seq<char>>::empty());
    while i < list.len()
        invariant
            i <= list@.len(),
            l == list@.map_values(|x: String| x@),
            out@ == joined(l.take(i as int)),
        decreases list@.len() - i,
    {
        assert(l.take(i + 1).drop_last() =~= l.take(i as int));
        out = crate::strs::cat(out.as_str(), list[i].as_str());
        i = i + 1;
    }
    assert(l.take(i as int) =~= l);
    assert(forall|x: int| 0 <= x < l.len() ==> previewed(*sub, #[trigger] l[x]));
    out
}

/// `g` is a default grapheme of one of the first three subgroups of a group.
pub open spec fn group_previewed(grp: Group, g: Seq<char>) -> bool {
    exists|s: int| 0 <= s < 3 && s < grp.subgroups@.len() && #[trigger] previewed(grp.subgroups@[s], g)
}

/// The first default grapheme of each of the first three subgroups of a group, joined.
pub fn emojis_for_group(grp: &Group) -> (r: String)
    ensures
        exists|l: Seq<Seq<char>>| l.len() <= 3 && (forall|x: int| 0 <= x < l.len() ==> group_previewed(*grp, #[trigger] l[x]))
            && r@ == joined(l),
{
    let mut out = String::new();
    let ghost mut l: Seq<Seq<char>> = Seq::empty();
    let mut i: usize = 0;
    while i < grp.subgroups.len() && i < 3
        invariant
            i <= grp.subgroups@.len(),
            i <= 3,
            l.len() <= i,
            forall|x: int| 0 <= x < l.len() ==> group_previewed(*grp, #[trigger] l[x]),
            out@ == joined(l),
        decreases grp.subgroups@.len() - i,
    {
        let list = emojis_for_sub_group_list(&grp.subgroups[i]);
        if list.len() > 0 {
            proof {
                assert(previewed(grp.subgroups@[i as int], list@[0]@));
                assert(group_previewed(*grp, list@[0]@));
                let l0 = l;
                l = l.push(list@[0]@);
                assert(l.drop_last() =~= l0);
                assert forall|x: int| 0 <= x < l.len() implies group_previewed(*grp, #[trigger] l[x]) by {
                    if x < l0.len() {
                        assert(l[x] == l0[x]);
                    }
                }
            }
            out = crate::strs::cat(out.as_str(), list[0].as_str());
        }
        i = i + 1;
    }
    out
}

/// The alternatives of a pattern joined by `|`.
pub open spec fn alternation(v: Seq<Seq<char>>) -> Seq<char>
    decreases v.len(),
{
    if v.len() == 0 {
        Seq::empty()
    } else if v.len() == 1 {
        v[0]
    } else {
        alternation(v.drop_last()) + "|"@ + v.last()
    }
}

/// Joins the escaped graphemes into one pattern of alternatives.
pub fn generate_regex(all_emojis: &Vec<String>) -> (r: String)
    ensures
        r@ == alternation(all_emojis@.map_values(|s: String| s@)),
{
    let mut out = String::new();
    let ghost v = all_emojis@.map_values(|s: String| s@);
    let mut i: usize = 0;
    assert(v.take(0) =~= Seq::<Seq<char>>::empty());
    while i < all_emojis.len()
        invariant
            i <= all_emojis@.len(),
            v == all_emojis@.map_values(|s: String| s@),
            out@ == alternation(v.take(i as int)),
        decreases all_emojis@.len() - i,
    {
        proof {
            assert(v.take(i + 1).drop_last() =~= v.take(i as int));
            assert(v.take(i + 1).last() == all_emojis@[i as int]@);
        }
        if i == 0 {
            out = all_emojis[0].clone();
        } else {
            let a = crate::strs::cat(out.as_str(), "|");
            out = crate::strs::cat(a.as_str(), all_emojis[i].as_str());
        }
        i = i + 1;
    }
    assert(v.take(i as int) =~= v);
    out
}

/// Whether a character has a meaning in a pattern.
pub open spec fn regex_meta(c: char) -> bool {
    c == '\\' || c == '.' || c == '+' || c == '*' || c == '?' || c == '(' || c == ')' || c == '|'
        || c == '[' || c == ']' || c == '{' || c == '}' || c == '^' || c == '$' || c == '#' || c == '&'
        || c == '-' || c == '~'
}

/// `s` with a backslash before each character that has a meaning in a pattern.
pub open spec fn regex_escaped(s: Seq<char>) -> Seq<char>
    decreases s.len(),
{
    if s.len() == 0 {
        Seq::empty()
    } else {
        regex_escaped(s.drop_last()) + (if regex_meta(s.last()) { seq!['\\', s.last()] } else { seq![s.last()] })
    }
}

/// Relies on regex::escape (regex-syntax's `escape_into`): a backslash before each of the
/// characters that `is_meta_character` lists, every other character kept.
#[verifier::external_body]
fn escape(s: &str) -> (r: String)
    ensures
        r@ == regex_escaped(s@),
{
    regex::escape(s)
}

/// The escaped graphemes of a list of standalone emojis.
pub open spec fn escaped_emojis(v: Seq<Emoji>) -> Seq<Seq<char>> {
    v.map_values(|e: Emoji| regex_escaped(e.grapheme@))
}

/// The escaped graphemes of the standalone emojis of a list of subgroups, in order.
pub open spec fn escaped_subgroups(v: Seq<Subgroup>) -> Seq<Seq<char>>
    decreases v.len(),
{
    if v.len() == 0 {
        Seq::empty()
    } else {
        escaped_subgroups(v.drop_last()) + escaped_emojis(v.last().emojis@)
    }
}

/// The escaped graphemes of the standalone emojis of a list of groups, in order.
pub open spec fn escaped_groups(v: Seq<Group>) -> Seq<Seq<char>>
    decreases v.len(),
{
    if v.len() == 0 {
        Seq::empty()
    } else {
        escaped_groups(v.drop_last()) + escaped_subgroups(v.last().subgroups@)
    }
}

/// The grapheme of every standalone emoji, escaped for a pattern.
pub fn generate_all_graphemes(e: &Emojis) -> (r: Vec<String>)
    ensures
        r@.map_values(|x: String| x@) == escaped_groups(e.groups@),
{
    let mut out: Vec<String> = Vec::new();
    let mut g: usize = 0;
    assert(out@.map_values(|x: String| x@) =~= escaped_groups(e.groups@.take(0)));
    while g < e.groups.len()
        invariant
            g <= e.groups@.len(),
            out@.map_values(|x: String| x@) == escaped_groups(e.groups@.take(g as int)),
        decreases e.groups@.len() - g,
    {
        let grp = &e.groups[g];
        let ghost base = out@.map_values(|x: String| x@);
        let mut s: usize = 0;
        assert(base + escaped_subgroups(grp.subgroups@.take(0)) =~= base);
        while s < grp.subgroups.len()
            invariant
                s <= grp.subgroups@.len(),
                out@.map_values(|x: String| x@) == base + escaped_subgroups(grp.subgroups@.take(s as int)),
            decreases grp.subgroups@.len() - s,
        {
            let sub = &grp.subgroups[s];
            let ghost base2 = out@.map_values(|x: String| x@);
            let mut k: usize = 0;
            assert(base2 + escaped_emojis(sub.emojis@.take(0)) =~= base2);
            while k < sub.emojis.len()
                invariant
                    k <= sub.emojis@.len(),
                    out@.map_values(|x: String| x@) == base2 + escaped_emojis(sub.emojis@.take(k as int)),
                decreases sub.emojis@.len() - k,
            {
                let x = escape(sub.emojis[k].grapheme.as_str());
                let ghost before = out@;
                out.push(x);
                proof {
                    assert(sub.emojis@.take(k + 1) =~= sub.emojis@.take(k as int).push(sub.emojis@[k as int]));
                    assert(escaped_emojis(sub.emojis@.take(k + 1)) =~= escaped_emojis(sub.emojis@.take(k as int)).push(regex_escaped(sub.emojis@[k as int].grapheme@)));
                    assert(out@.map_values(|x: String| x@) =~= before.map_values(|x: String| x@).push(x@));
                }
                k = k + 1;
            }
            proof {
                assert(sub.emojis@.take(k as int) =~= sub.emojis@);
                assert(grp.subgroups@.take(s + 1).drop_last() =~= grp.subgroups@.take(s as int));
                assert(grp.subgroups@.take(s + 1).last() == *sub);
            }
            s = s + 1;
        }
        proof {
            assert(grp.subgroups@.take(s as int) =~= grp.subgroups@);
            assert(e.groups@.take(g + 1).drop_last() =~= e.groups@.take(g as int));
            assert(e.groups@.take(g + 1).last() == *grp);
        }
        g = g + 1;
    }
    assert(e.groups@.take(g as int) =~= e.groups@);
    out
}

} // verus!

verus! {

/// The variants of a list, each seen by its key and payload.
pub open spec fn vview(v: Seq<(PersonKind, PersonVariant)>) -> Seq<(PersonKind, (Seq<char>, Seq<char>, Version))> {
    v.map_values(|x: (PersonKind, PersonVariant)| (x.0, x.1@))
}

/// The keys of variants seen by key and payload.
pub open spec fn vkeys(v: Seq<(PersonKind, (Seq<char>, Seq<char>, Version))>) -> Seq<PersonKind> {
    v.map_values(|x: (PersonKind, (Seq<char>, Seq<char>, Version))| x.0)
}

/// A keyed person record seen by its key, identifier, name and variants.
pub type RecView = (Seq<char>, Seq<char>, Seq<char>, Seq<(PersonKind, (Seq<char>, Seq<char>, Version))>);

/// A keyed person record as seen by [`RecView`].
pub open spec fn rview(e: (String, PersonEmoji)) -> RecView {
    (e.0@, e.1.identifier@, e.1.fancy_name@, vview(e.1.variants@))
}

/// A list of keyed person records, seen record by record.
pub open spec fn rviews(ps: Seq<(String, PersonEmoji)>) -> Seq<RecView> {
    ps.map_values(|e: (String, PersonEmoji)| rview(e))
}

/// The key with every slot absent: the default variant.
pub open spec fn default_key() -> PersonKind {
    PersonKind { hair: None, people: None, tone: None }
}

/// The position of the first standalone emoji named `id`, from position `i` on.
pub open spec fn first_plain(es: Seq<Emoji>, id: Seq<char>, i: int) -> Option<int>
    decreases es.len() - i,
{
    if i < 0 || i >= es.len() {
        None
    } else if es[i].identifier@ == id {
        Some(i)
    } else {
        first_plain(es, id, i + 1)
    }
}

/// The standalone emoji that the record keyed `k` takes: the one named `k`, else the one named
/// `k` without the placeholder token (then the flag is set).
pub open spec fn pick(es: Seq<Emoji>, k: Seq<char>) -> Option<(int, bool)> {
    match first_plain(es, k, 0) {
        Some(j) => Some((j, false)),
        None => match first_plain(es, shortened(k), 0) {
            Some(j) => Some((j, true)),
            None => None,
        },
    }
}

/// The standalone emojis left once the records keyed `ks[..i]` have taken theirs, in order.
pub open spec fn left_after(es: Seq<Emoji>, ks: Seq<Seq<char>>, i: int) -> Seq<Emoji>
    decreases i,
{
    if i <= 0 {
        es
    } else {
        let prev = left_after(es, ks, i - 1);
        match pick(prev, ks[i - 1]) {
            Some(p) => prev.remove(p.0),
            None => prev,
        }
    }
}

/// What person record `i` of subgroup `s` takes, when the records before it have taken theirs.
pub open spec fn picked(s: Subgroup, i: int) -> Option<(int, bool)> {
    pick(left_after(s.emojis@, person_keys(s.person_emojis@), i), s.person_emojis@[i].0@)
}

/// Folding fails: some person record takes a standalone emoji but has a default variant already.
pub open spec fn fold_fails(s: Subgroup) -> bool {
    exists|i: int| 0 <= i < s.person_emojis@.len() && (#[trigger] picked(s, i)) is Some
        && crate::people::keys_of(s.person_emojis@[i].1.variants@).contains(default_key())
}

/// Person record `i` of `s` after folding in the emoji it takes as its default variant; one
/// taken by its shortened name gives the record that name.
pub open spec fn folded_view(s: Subgroup, i: int) -> RecView {
    let r = rview(s.person_emojis@[i]);
    match picked(s, i) {
        None => r,
        Some(p) => {
            let e = left_after(s.emojis@, person_keys(s.person_emojis@), i)[p.0];
            (r.0, if p.1 { shortened(r.0) } else { r.1 }, r.2, r.3.push((default_key(), (e.name@, e.grapheme@, e.since))))
        },
    }
}

/// The person records of `s` after folding.
pub open spec fn fold_view(s: Subgroup) -> Seq<RecView> {
    Seq::new(s.person_emojis@.len(), |i: int| folded_view(s, i))
}

/// A key holds the placeholder token and some record has the key without it.
pub open spec fn is_source(ks: Seq<Seq<char>>, k: Seq<char>) -> bool {
    shortened(k) != k && shortened(k).len() > 0 && ks.contains(shortened(k))
}

/// The record keyed `k` is merged into the record keyed `k` without the placeholder token,
/// which is not itself merged away.
pub open spec fn moved(ks: Seq<Seq<char>>, k: Seq<char>) -> bool {
    is_source(ks, k) && !is_source(ks, shortened(k))
}

/// The variants of the records among `pv[..n]` that are merged into the record keyed `k`, in order.
pub open spec fn gathered(pv: Seq<RecView>, k: Seq<char>, n: int) -> Seq<(PersonKind, (Seq<char>, Seq<char>, Version))>
    decreases n,
{
    if n <= 0 {
        Seq::empty()
    } else {
        let ks = pv.map_values(|r: RecView| r.0);
        gathered(pv, k, n - 1) + (if moved(ks, pv[n - 1].0) && shortened(pv[n - 1].0) == k { pv[n - 1].3 } else { Seq::empty() })
    }
}

/// The variants of record `r` of `pv` after merging: its own, then those merged into it.
pub open spec fn merged_vars(pv: Seq<RecView>, r: RecView) -> Seq<(PersonKind, (Seq<char>, Seq<char>, Version))> {
    r.3 + gathered(pv, r.0, pv.len() as int)
}

/// Merging fails: a record that stays would hold two variants of one key.
pub open spec fn merge_fails(pv: Seq<RecView>) -> bool {
    exists|t: int| 0 <= t < pv.len() && !moved(pv.map_values(|r: RecView| r.0), pv[t].0)
        && !vkeys(#[trigger] merged_vars(pv, pv[t])).no_duplicates()
}

/// The records that stay after merging, in order, each with its merged variants.
pub open spec fn merge_view(pv: Seq<RecView>) -> Seq<RecView> {
    let ks = pv.map_values(|r: RecView| r.0);
    pv.filter(|r: RecView| !moved(ks, r.0)).map_values(|r: RecView| (r.0, r.1, r.2, merged_vars(pv, r)))
}

/// The identifiers of the records that finalizing a record gives, in order.
pub open spec fn ids_of(r: RecView) -> Seq<Seq<char>> {
    let g = crate::qualifier::abs_qualify(vkeys(r.3).to_set(), crate::groups::PersonKindGroup::All);
    Seq::new(g.len(), |i: int| crate::strutil::constant_name(crate::groups::adapted(g[i].0, r.1)))
}

/// The identifiers of the records that finalizing each record of `ms` gives, in order.
pub open spec fn final_ids(ms: Seq<RecView>) -> Seq<Seq<char>>
    decreases ms.len(),
{
    if ms.len() == 0 {
        Seq::empty()
    } else {
        ids_of(ms[0]) + final_ids(ms.skip(1))
    }
}

/// The records of `oss`, in order.
pub open spec fn flatten(oss: Seq<Seq<PersonEmoji>>) -> Seq<PersonEmoji>
    decreases oss.len(),
{
    if oss.len() == 0 {
        Seq::empty()
    } else {
        flatten(oss.drop_last()) + oss.last()
    }
}

/// `outs` are the records that finalizing each record of `ms` gives (`oss[m]` for record `m`),
/// in order, each keyed by its identifier.
pub open spec fn finalized_all(ms: Seq<(String, PersonEmoji)>, outs: Seq<(String, PersonEmoji)>, oss: Seq<Seq<PersonEmoji>>) -> bool {
    &&& oss.len() == ms.len()
    &&& forall|m: int| 0 <= m < ms.len() ==> crate::people::finalizes(ms[m].1, #[trigger] oss[m])
    &&& outs.map_values(|e: (String, PersonEmoji)| e.1) == flatten(oss)
    &&& forall|x: int| 0 <= x < outs.len() ==> (#[trigger] outs[x]).0@ == outs[x].1.identifier@
}

/// Subgroup `f` is what sorting `o` makes of it: the standalone emojis left after folding; the
/// records that finalizing the folded and merged records gives, each keyed by its identifier;
/// and the sorted list of all identifiers.
pub open spec fn sorted_to(o: Subgroup, f: Subgroup) -> bool {
    &&& f.name == o.name
    &&& f.wf()
    &&& f.emojis@ == left_after(o.emojis@, person_keys(o.person_emojis@), o.person_emojis@.len() as int)
    &&& exists|ms: Seq<(String, PersonEmoji)>, oss: Seq<Seq<PersonEmoji>>|
        rviews(ms) == merge_view(fold_view(o)) && #[trigger] finalized_all(ms, f.person_emojis@, oss)
    &&& person_keys(f.person_emojis@) == final_ids(merge_view(fold_view(o)))
    &&& forall|i: int| 0 <= i < f.person_emojis@.len() ==> (#[trigger] f.person_emojis@[i]).1.finalized()
    &&& strictly_sorted(f.constants@.map_values(|x: String| x@))
    &&& f.constants@.map_values(|x: String| x@).to_set() == f.all_ids()
}

/// `f` is `o` reordered by `perm`, each element sorted: `f[x]` is what sorting `o[perm[x]]` gives.
pub open spec fn sorted_perm(o: Seq<Subgroup>, f: Seq<Subgroup>, perm: Seq<int>) -> bool {
    &&& perm.len() == o.len()
    &&& f.len() == o.len()
    &&& perm.no_duplicates()
    &&& forall|x: int| 0 <= x < perm.len() ==> 0 <= #[trigger] perm[x] < o.len()
    &&& forall|x: int| 0 <= x < f.len() ==> sorted_to(o[perm[x]], #[trigger] f[x])
}

/// Group `f` is what sorting group `o` makes of it: its subgroups ordered by name, each sorted.
pub open spec fn group_sorted_to(o: Group, f: Group) -> bool {
    &&& f.name == o.name
    &&& names_sorted(f.subgroups@.map_values(|s: Subgroup| s.name@))
    &&& exists|perm: Seq<int>| #[trigger] sorted_perm(o.subgroups@, f.subgroups@, perm)
}

/// `f` is `o` reordered by `perm`, each group sorted: `f[x]` is what sorting `o[perm[x]]` gives.
pub open spec fn groups_sorted_perm(o: Seq<Group>, f: Seq<Group>, perm: Seq<int>) -> bool {
    &&& perm.len() == o.len()
    &&& f.len() == o.len()
    &&& perm.no_duplicates()
    &&& forall|x: int| 0 <= x < perm.len() ==> 0 <= #[trigger] perm[x] < o.len()
    &&& forall|x: int| 0 <= x < f.len() ==> group_sorted_to(o[perm[x]], #[trigger] f[x])
}

/// Sorting subgroup `s` succeeds: folding, merging and finalizing meet no duplicate.
pub open spec fn sort_succeeds(s: Subgroup) -> bool {
    &&& !fold_fails(s)
    &&& !merge_fails(fold_view(s))
    &&& final_ids(merge_view(fold_view(s))).no_duplicates()
}

} // verus!
