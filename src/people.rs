//! Person emojis: sets of semantically equal emojis that vary in skin tone, gender and hair.
use vstd::prelude::*;
use crate::attributes::Version;
use crate::groups::{PersonKind, PersonKindGroup, PersonKindSelector, group_depth, kind_code, lemma_kind_code_injective, in_scope, kind_pos, lemma_child_pins, lemma_child_scope, level_of, next_groups, pins, sel_pos, selects_spec};
use crate::qualifier::{abs, abs_qualify, abs_seq, children_abs, covers, dim_of, entries_wf, entry_wf, leaves_disjoint, sels_distinct, slot_of};
use crate::tree::{PersonQualified, PersonQualifiedLeaf, entry_kinds, leaves};

verus! {

/// One variant of a person emoji: its full name, grapheme and introduction version.
#[derive(Debug)]
pub struct PersonVariant {
    pub full_name: String,
    pub grapheme: String,
    pub since: Version,
}

impl View for PersonVariant {
    type V = (Seq<char>, Seq<char>, Version);

    open spec fn view(&self) -> Self::V {
        (self.full_name@, self.grapheme@, self.since)
    }
}

impl PersonVariant {
    /// A copy of this variant.
    pub fn duplicate(&self) -> (r: PersonVariant)
        ensures
            r@ == self@,
    {
        PersonVariant { full_name: self.full_name.clone(), grapheme: self.grapheme.clone(), since: self.since }
    }
}

/// The keys of a list of variants, in order.
pub open spec fn keys_of(v: Seq<(PersonKind, PersonVariant)>) -> Seq<PersonKind> {
    v.map_values(|e: (PersonKind, PersonVariant)| e.0)
}

/// Whether a list of variants holds key `k` with a variant that reads as `v`.
pub open spec fn has_variant(s: Seq<(PersonKind, PersonVariant)>, k: PersonKind, v: (Seq<char>, Seq<char>, Version)) -> bool {
    exists|j: int| 0 <= j < s.len() && s[j].0 == k && (#[trigger] s[j]).1@ == v
}

/// A set of emojis that differ only in attributes, mapping each attribute key to its variant.
#[derive(Debug)]
pub struct PersonEmoji {
    pub identifier: String,
    pub fancy_name: String,
    pub grouping: Option<PersonQualified>,
    pub variants: Vec<(PersonKind, PersonVariant)>,
}

impl PersonEmoji {
    /// The keys of the variants are distinct.
    pub open spec fn wf(&self) -> bool {
        keys_of(self.variants@).no_duplicates()
    }

    /// The keys of the variants, as a set.
    pub open spec fn key_set(&self) -> Set<PersonKind> {
        keys_of(self.variants@).to_set()
    }

    /// A finalized record: its tree has distinct leaves, which are exactly its keys.
    pub open spec fn finalized(&self) -> bool {
        &&& self.wf()
        &&& self.grouping is Some
        &&& leaves(self.grouping->0).no_duplicates()
        &&& forall|k: PersonKind| keys_of(self.variants@).contains(k) <==> leaves(self.grouping->0).contains(k)
    }

    /// Whether the record has a variant for `k`.
    pub fn contains_key(&self, k: PersonKind) -> (r: bool)
        ensures
            r == keys_of(self.variants@).contains(k),
    {
        let mut i: usize = 0;
        while i < self.variants.len()
            invariant
                i <= self.variants@.len(),
                forall|j: int| 0 <= j < i ==> self.variants@[j].0 != k,
            decreases self.variants@.len() - i,
        {
            if self.variants[i].0 == k {
                assert(keys_of(self.variants@)[i as int] == k);
                return true;
            }
            i = i + 1;
        }
        proof {
            if keys_of(self.variants@).contains(k) {
                let j = choose|j: int| 0 <= j < keys_of(self.variants@).len() && keys_of(self.variants@)[j] == k;
                assert(self.variants@[j].0 == k);
            }
        }
        false
    }

    /// The variant of key `k`, if the record has one.
    pub fn get(&self, k: PersonKind) -> (r: Option<&PersonVariant>)
        ensures
            match r {
                Some(v) => exists|j: int| 0 <= j < self.variants@.len() && self.variants@[j].0 == k && self.variants@[j].1 == *v,
                None => !keys_of(self.variants@).contains(k),
            },
    {
        let mut i: usize = 0;
        while i < self.variants.len()
            invariant
                i <= self.variants@.len(),
                forall|j: int| 0 <= j < i ==> self.variants@[j].0 != k,
            decreases self.variants@.len() - i,
        {
            if self.variants[i].0 == k {
                return Some(&self.variants[i].1);
            }
            i = i + 1;
        }
        proof {
            if keys_of(self.variants@).contains(k) {
                let j = choose|j: int| 0 <= j < keys_of(self.variants@).len() && keys_of(self.variants@)[j] == k;
                assert(self.variants@[j].0 == k);
            }
        }
        None
    }

    /// Adds the variant of key `k`. A key that is already there is refused: the record is left
    /// as it was and the variant is handed back.
    pub fn insert(&mut self, k: PersonKind, v: PersonVariant) -> (r: Result<(), PersonVariant>)
        requires
            old(self).wf(),
        ensures
            final(self).wf(),
            final(self).identifier == old(self).identifier,
            final(self).fancy_name == old(self).fancy_name,
            final(self).grouping == old(self).grouping,
            match r {
                Ok(()) => !keys_of(old(self).variants@).contains(k)
                    && final(self).variants@ == old(self).variants@.push((k, v)),
                Err(w) => keys_of(old(self).variants@).contains(k) && w == v
                    && final(self).variants@ == old(self).variants@,
            },
    {
        if self.contains_key(k) {
            return Err(v);
        }
        let ghost before = self.variants@;
        self.variants.push((k, v));
        proof {
            assert(keys_of(self.variants@) =~= keys_of(before).push(k));
            assert forall|a: int, b: int| 0 <= a < keys_of(self.variants@).len() && 0 <= b < keys_of(self.variants@).len() && a != b
                implies keys_of(self.variants@)[a] != keys_of(self.variants@)[b] by {
                if a == before.len() as int {
                    assert(keys_of(before)[b] == keys_of(self.variants@)[b]);
                } else if b == before.len() as int {
                    assert(keys_of(before)[a] == keys_of(self.variants@)[a]);
                }
            }
        }
        Ok(())
    }
}

} // verus!

verus! {

impl PersonEmoji {
    /// Classifies the variants within `grp` into qualified groups, bottom-up: a consistent set of
    /// variants yields one group, an inconsistent one several.
    pub fn qualify(&self, grp: PersonKindGroup) -> (r: Vec<(PersonKindSelector, PersonQualified)>)
        ensures
            entries_wf(r@, self.key_set()),
            sels_distinct(r@),
            leaves_disjoint(r@),
            abs_seq(r@) == abs_qualify(self.key_set(), grp),
            forall|j: int| 0 <= j < r@.len() ==> pins(grp, (#[trigger] r@[j]).0),
            forall|k: PersonKind| self.key_set().contains(k) && in_scope(grp, k) ==> covers(r@, k),
        decreases group_depth(grp),
    {
        match grp.next_iter() {
            Ok(sub_grps) => {
                let mut subs: Vec<(PersonKindSelector, PersonQualified)> = Vec::new();
                let mut i: usize = 0;
                assert(abs_seq(subs@) =~= children_abs(self.key_set(), grp, 0));
                while i < sub_grps.len()
                    invariant
                        i <= sub_grps@.len(),
                        !(grp is Tone),
                        next_groups(grp) is Ok,
                        sub_grps@ == next_groups(grp)->Ok_0,
                        entries_wf(subs@, self.key_set()),
                        sels_distinct(subs@),
                        leaves_disjoint(subs@),
                        forall|j: int, k: PersonKind| #![trigger leaves(subs@[j].1).contains(k)] 0 <= j < subs@.len() && leaves(subs@[j].1).contains(k)
                            ==> kind_pos(grp, k) < i,
                        forall|j: int| 0 <= j < subs@.len() ==> pins(grp, (#[trigger] subs@[j]).0)
                            && slot_of(subs@[j].0, dim_of(grp)) is Some && sel_pos(grp, subs@[j].0) < i,
                        forall|k: PersonKind| self.key_set().contains(k) && in_scope(grp, k) && kind_pos(grp, k) < i
                            ==> covers(subs@, k),
                        abs_seq(subs@) == children_abs(self.key_set(), grp, i as nat),
                    decreases sub_grps@.len() - i,
                {
                    proof {
                        assert(group_depth(sub_grps@[i as int]) < group_depth(grp));
                    }
                    let mut part = self.qualify(sub_grps[i]);
                    let ghost before = subs@;
                    let ghost pv = part@;
                    subs.append(&mut part);
                    proof {
                        assert(subs@ == before + pv);
                        assert(abs_seq(subs@) =~= abs_seq(before) + abs_seq(pv));
                        assert(children_abs(self.key_set(), grp, (i + 1) as nat)
                            == children_abs(self.key_set(), grp, i as nat) + abs_qualify(self.key_set(), sub_grps@[i as int]));
                        assert forall|j: int| 0 <= j < pv.len() implies pins(grp, (#[trigger] pv[j]).0)
                            && slot_of(pv[j].0, dim_of(grp)) is Some && sel_pos(grp, pv[j].0) == i by {
                            lemma_child_pins(grp, i as int, pv[j].0);
                        }
                        assert forall|j: int, k: PersonKind| #![trigger leaves(pv[j].1).contains(k)] 0 <= j < pv.len() && leaves(pv[j].1).contains(k)
                            implies kind_pos(grp, k) == i by {
                            lemma_child_pins(grp, i as int, pv[j].0);
                            assert(entry_wf(pv[j], self.key_set()));
                            let y = choose|y: int| 0 <= y < leaves(pv[j].1).len() && leaves(pv[j].1)[y] == k;
                            assert(selects_spec(pv[j].0, leaves(pv[j].1)[y]));
                        }
                        assert forall|j: int, k: PersonKind| #![trigger leaves(subs@[j].1).contains(k)] 0 <= j < subs@.len() && leaves(subs@[j].1).contains(k)
                            implies kind_pos(grp, k) < i + 1 by {
                            if j < before.len() {
                                assert(subs@[j] == before[j]);
                            } else {
                                assert(subs@[j] == pv[j - before.len()]);
                            }
                        }
                        assert forall|a: int, b: int, k: PersonKind| #![trigger leaves(subs@[a].1).contains(k), leaves(subs@[b].1).contains(k)]
                            0 <= a < subs@.len() && 0 <= b < subs@.len() && a != b && leaves(subs@[a].1).contains(k) implies !leaves(subs@[b].1).contains(k) by {
                            if a < before.len() && b < before.len() {
                                assert(subs@[a] == before[a] && subs@[b] == before[b]);
                            } else if a >= before.len() && b >= before.len() {
                                assert(subs@[a] == pv[a - before.len()] && subs@[b] == pv[b - before.len()]);
                            } else if a < before.len() {
                                assert(subs@[a] == before[a] && subs@[b] == pv[b - before.len()]);
                                assert(kind_pos(grp, k) < i);
                            } else {
                                assert(subs@[b] == before[b] && subs@[a] == pv[a - before.len()]);
                                assert(kind_pos(grp, k) == i);
                                if leaves(subs@[b].1).contains(k) {
                                    assert(kind_pos(grp, k) < i);
                                }
                            }
                        }
                        assert forall|j: int| 0 <= j < subs@.len() implies entry_wf(#[trigger] subs@[j], self.key_set())
                            && pins(grp, subs@[j].0) && slot_of(subs@[j].0, dim_of(grp)) is Some && sel_pos(grp, subs@[j].0) < i + 1 by {
                            if j < before.len() {
                                assert(subs@[j] == before[j]);
                            } else {
                                assert(subs@[j] == pv[j - before.len()]);
                            }
                        }
                        assert forall|a: int, b: int| 0 <= a < subs@.len() && 0 <= b < subs@.len() && a != b implies subs@[a].0 != subs@[b].0 by {
                            if a < before.len() && b < before.len() {
                                assert(subs@[a] == before[a] && subs@[b] == before[b]);
                            } else if a >= before.len() && b >= before.len() {
                                assert(subs@[a] == pv[a - before.len()] && subs@[b] == pv[b - before.len()]);
                            } else if a < before.len() {
                                assert(subs@[a] == before[a] && subs@[b] == pv[b - before.len()]);
                                assert(sel_pos(grp, subs@[a].0) < i);
                            } else {
                                assert(subs@[b] == before[b] && subs@[a] == pv[a - before.len()]);
                                assert(sel_pos(grp, subs@[b].0) < i);
                            }
                        }
                        assert forall|k: PersonKind| self.key_set().contains(k) && in_scope(grp, k) && kind_pos(grp, k) < i + 1
                            implies covers(subs@, k) by {
                            if kind_pos(grp, k) < i {
                                let x = choose|x: int| 0 <= x < before.len() && (#[trigger] leaves(before[x].1)).contains(k);
                                assert(subs@[x] == before[x]);
                            } else {
                                lemma_child_scope(grp, k);
                                let x = choose|x: int| 0 <= x < pv.len() && (#[trigger] leaves(pv[x].1)).contains(k);
                                assert(subs@[before.len() + x] == pv[x]);
                            }
                        }
                    }
                    i = i + 1;
                }
                proof {
                    assert forall|k: PersonKind| self.key_set().contains(k) && in_scope(grp, k) implies covers(subs@, k) by {
                        lemma_child_scope(grp, k);
                    }
                }
                grp.qualify(subs, Ghost(self.key_set()))
            },
            Err(k) => {
                if self.contains_key(k) {
                    let r = vec![(PersonKindSelector::exact(k), PersonQualified::Leaf(PersonQualifiedLeaf { leaf: k }))];
                    proof {
                        let l = leaves(r@[0].1);
                        assert(l == seq![k]);
                        assert forall|x: PersonKind| l.to_set().contains(x) <==> set![k].contains(x) by {
                            if x == k {
                                assert(l[0] == k);
                            }
                        }
                        assert(l.to_set() =~= set![k]);
                        assert(abs_seq(r@) =~= seq![(crate::groups::exact_selector(k), set![k])]);
                        assert(selects_spec(r@[0].0, k));
                        assert(entry_wf(r@[0], self.key_set()));
                        assert(l[0] == k);
                    }
                    r
                } else {
                    let r: Vec<(PersonKindSelector, PersonQualified)> = Vec::new();
                    assert(abs_seq(r@) =~= Seq::<(PersonKindSelector, Set<PersonKind>)>::empty());
                    r
                }
            },
        }
    }

    /// The variants whose key is a leaf of `tree`, copied, in the order of the record.
    fn variants_in(&self, tree: &PersonQualified) -> (r: Vec<(PersonKind, PersonVariant)>)
        requires
            self.wf(),
            forall|i: int| 0 <= i < leaves(*tree).len() ==> self.key_set().contains(#[trigger] leaves(*tree)[i]),
        ensures
            keys_of(r@).no_duplicates(),
            forall|k: PersonKind| keys_of(r@).contains(k) <==> leaves(*tree).contains(k),
            forall|a: int| 0 <= a < r@.len() ==> has_variant(self.variants@, #[trigger] r@[a].0, r@[a].1@),
    {
        let entries = tree.to_accessor_n_kind("");
        let ghost lv = leaves(*tree);
        let ghost mut idx: Seq<int> = Seq::empty();
        let mut out: Vec<(PersonKind, PersonVariant)> = Vec::new();
        let mut i: usize = 0;
        while i < self.variants.len()
            invariant
                i <= self.variants@.len(),
                self.wf(),
                entry_kinds(entries@) == lv,
                idx.len() == out@.len(),
                forall|a: int| 0 <= a < out@.len() ==> 0 <= #[trigger] idx[a] < i
                    && self.variants@[idx[a]].0 == out@[a].0 && self.variants@[idx[a]].1@ == out@[a].1@,
                forall|a: int| 0 <= a < out@.len() ==> lv.contains(#[trigger] out@[a].0),
                forall|j: int| 0 <= j < i && lv.contains(#[trigger] self.variants@[j].0) ==> keys_of(out@).contains(self.variants@[j].0),
                keys_of(out@).no_duplicates(),
            decreases self.variants@.len() - i,
        {
            let k = self.variants[i].0;
            let mut found = false;
            let mut e: usize = 0;
            while e < entries.len()
                invariant
                    e <= entries@.len(),
                    entry_kinds(entries@) == lv,
                    found == exists|x: int| 0 <= x < e && entries@[x].2 == k,
                decreases entries@.len() - e,
            {
                if entries[e].2 == k {
                    found = true;
                }
                e = e + 1;
            }
            proof {
                if found {
                    let x = choose|x: int| 0 <= x < e && entries@[x].2 == k;
                    assert(lv[x] == k);
                } else if lv.contains(k) {
                    let x = choose|x: int| 0 <= x < lv.len() && lv[x] == k;
                    assert(entries@[x].2 == k);
                }
            }
            if found {
                let ghost before = out@;
                let v = self.variants[i].1.duplicate();
                proof {
                    assert forall|a: int| 0 <= a < before.len() implies before[a].0 != k by {
                        let j = idx[a];
                        if before[a].0 == k {
                            assert(keys_of(self.variants@)[j] == keys_of(self.variants@)[i as int]);
                        }
                    }
                }
                out.push((k, v));
                proof {
                    idx = idx.push(i as int);
                    assert(keys_of(out@) =~= keys_of(before).push(k));
                    assert forall|a: int, b: int| 0 <= a < keys_of(out@).len() && 0 <= b < keys_of(out@).len() && a != b
                        implies keys_of(out@)[a] != keys_of(out@)[b] by {
                        if a == before.len() as int {
                            assert(before[b].0 != k);
                        } else if b == before.len() as int {
                            assert(before[a].0 != k);
                        } else {
                            assert(keys_of(before)[a] == keys_of(out@)[a]);
                            assert(keys_of(before)[b] == keys_of(out@)[b]);
                        }
                    }
                    assert forall|a: int| 0 <= a < out@.len() implies 0 <= #[trigger] idx[a] < i + 1
                        && self.variants@[idx[a]].0 == out@[a].0 && self.variants@[idx[a]].1@ == out@[a].1@ by {
                        if a < before.len() {
                            assert(out@[a] == before[a]);
                        }
                    }
                    assert forall|j: int| 0 <= j < i + 1 && lv.contains(#[trigger] self.variants@[j].0)
                        implies keys_of(out@).contains(self.variants@[j].0) by {
                        if j < i {
                            let a = choose|a: int| 0 <= a < keys_of(before).len() && keys_of(before)[a] == self.variants@[j].0;
                            assert(keys_of(out@)[a] == self.variants@[j].0);
                        } else {
                            assert(keys_of(out@)[before.len() as int] == k);
                        }
                    }
                }
            }
            i = i + 1;
        }
        proof {
            assert forall|a: int| 0 <= a < out@.len() implies has_variant(self.variants@, #[trigger] out@[a].0, out@[a].1@) by {
                let j = idx[a];
                assert(0 <= j < self.variants@.len());
                assert(self.variants@[j].0 == out@[a].0 && self.variants@[j].1@ == out@[a].1@);
            }
            assert forall|k: PersonKind| keys_of(out@).contains(k) <==> lv.contains(k) by {
                if keys_of(out@).contains(k) {
                    let a = choose|a: int| 0 <= a < keys_of(out@).len() && keys_of(out@)[a] == k;
                    assert(lv.contains(out@[a].0));
                }
                if lv.contains(k) {
                    let x = choose|x: int| 0 <= x < lv.len() && lv[x] == k;
                    assert(self.key_set().contains(lv[x]));
                    let j = choose|j: int| 0 <= j < keys_of(self.variants@).len() && keys_of(self.variants@)[j] == k;
                    assert(self.variants@[j].0 == k);
                }
            }
        }
        out
    }
}

} // verus!

verus! {

/// `r` is the most generic selection of the variants `v`: the variants of highest level, each
/// copied, in the order of `v`, and at least one if `v` has any.
pub open spec fn default_selection(v: Seq<(PersonKind, PersonVariant)>, r: Seq<(PersonKind, PersonVariant)>) -> bool {
    &&& forall|a: int| 0 <= a < r.len() ==> has_variant(v, #[trigger] r[a].0, r[a].1@)
    &&& forall|a: int, j: int| 0 <= a < r.len() && 0 <= j < v.len() ==> level_of((#[trigger] r[a]).0) >= level_of((#[trigger] v[j]).0)
    &&& forall|j: int| 0 <= j < v.len() && r.len() > 0 && level_of((#[trigger] v[j]).0) == level_of(r[0].0) ==> keys_of(r).contains(v[j].0)
    &&& v.len() > 0 ==> r.len() > 0
    &&& forall|a: int, b: int| 0 <= a < b < r.len() ==> kind_code(r[a].0) < kind_code(r[b].0)
}

/// The graphemes of a list of variants, joined.
pub open spec fn graphemes_joined(d: Seq<(PersonKind, PersonVariant)>) -> Seq<char>
    decreases d.len(),
{
    if d.len() == 0 {
        Seq::empty()
    } else {
        graphemes_joined(d.drop_last()) + d.last().1.grapheme@
    }
}

/// Some record of `outs` has a variant of key `k`.
pub open spec fn kept(outs: Seq<PersonEmoji>, k: PersonKind) -> bool {
    exists|i: int| 0 <= i < outs.len() && keys_of((#[trigger] outs[i]).variants@).contains(k)
}

/// `outs` are what finalizing `e` gives: finalized records drawn from `e` that together keep
/// every key of `e`.
pub open spec fn finalizes(e: PersonEmoji, outs: Seq<PersonEmoji>) -> bool {
    &&& finalized_from(e, outs)
    &&& forall|k: PersonKind| keys_of(e.variants@).contains(k) ==> kept(outs, k)
    &&& keys_apart(outs)
    &&& shaped(e.key_set(), outs)
}

/// The records `outs` hold, in order, the key sets that qualification makes of `keys`: the
/// outcome of finalizing depends on the keys alone.
pub open spec fn shaped(keys: Set<PersonKind>, outs: Seq<PersonEmoji>) -> bool {
    let g = abs_qualify(keys, PersonKindGroup::All);
    &&& outs.len() == g.len()
    &&& forall|i: int| 0 <= i < outs.len() ==> (#[trigger] outs[i]).key_set() == g[i].1
}

/// No key has a variant in two records of `outs`.
pub open spec fn keys_apart(outs: Seq<PersonEmoji>) -> bool {
    forall|i: int, j: int, k: PersonKind| #![trigger keys_of(outs[i].variants@).contains(k), keys_of(outs[j].variants@).contains(k)]
        0 <= i < outs.len() && 0 <= j < outs.len() && i != j && keys_of(outs[i].variants@).contains(k)
        ==> !keys_of(outs[j].variants@).contains(k)
}

/// `outs` are finalized records drawn from `e`: each keeps the name of `e` and holds only
/// variants of `e`, with their payloads.
pub open spec fn finalized_from(e: PersonEmoji, outs: Seq<PersonEmoji>) -> bool {
    forall|i: int| 0 <= i < outs.len() ==> (#[trigger] outs[i]).finalized()
        && outs[i].fancy_name@ == e.fancy_name@
        && forall|a: int| 0 <= a < outs[i].variants@.len() ==> has_variant(e.variants@, #[trigger] outs[i].variants@[a].0, outs[i].variants@[a].1@)
}

/// Puts `(kind, v)` into a list ordered by key code, unless its key is there already.
fn insert_by_code(out: &mut Vec<(PersonKind, PersonVariant)>, kind: PersonKind, v: PersonVariant)
    requires
        forall|a: int, b: int| 0 <= a < b < old(out)@.len() ==> kind_code(old(out)@[a].0) < kind_code(old(out)@[b].0),
    ensures
        forall|a: int, b: int| 0 <= a < b < final(out)@.len() ==> kind_code(final(out)@[a].0) < kind_code(final(out)@[b].0),
        keys_of(final(out)@).contains(kind),
        forall|a: int| 0 <= a < final(out)@.len() ==> final(out)@[a] == (kind, v) || old(out)@.contains(#[trigger] final(out)@[a]),
        forall|b: int| 0 <= b < old(out)@.len() ==> final(out)@.contains(#[trigger] old(out)@[b]),
{
    let c = kind.order_code();
    let mut pos: usize = out.len();
    while pos > 0 && out[pos - 1].0.order_code() > c
        invariant
            pos <= out@.len(),
            c == kind_code(kind),
            forall|j: int| pos <= j < out@.len() ==> kind_code((#[trigger] out@[j]).0) > c,
        decreases pos,
    {
        pos = pos - 1;
    }
    if pos > 0 && out[pos - 1].0.order_code() == c {
        proof {
            lemma_kind_code_injective(out@[pos - 1].0, kind);
            assert(keys_of(out@)[pos - 1] == kind);
            assert forall|b: int| 0 <= b < out@.len() implies out@.contains(#[trigger] out@[b]) by {}
        }
        return;
    }
    let ghost before = out@;
    out.insert(pos, (kind, v));
    proof {
        assert(out@ == before.insert(pos as int, (kind, v)));
        assert forall|a: int, b: int| 0 <= a < b < out@.len() implies kind_code(out@[a].0) < kind_code(out@[b].0) by {
            if b < pos {
                assert(out@[a] == before[a] && out@[b] == before[b]);
            } else if b == pos {
                assert(out@[a] == before[a]);
                if a < pos - 1 {
                    assert(kind_code(before[a].0) < kind_code(before[pos - 1].0));
                }
            } else if a < pos {
                assert(out@[a] == before[a] && out@[b] == before[b - 1]);
            } else if a == pos {
                assert(out@[b] == before[b - 1]);
            } else {
                assert(out@[a] == before[a - 1] && out@[b] == before[b - 1]);
            }
        }
        assert(keys_of(out@)[pos as int] == kind);
        assert forall|a: int| 0 <= a < out@.len() implies out@[a] == (kind, v) || before.contains(#[trigger] out@[a]) by {
            if a < pos {
                assert(out@[a] == before[a]);
            } else if a > pos {
                assert(out@[a] == before[a - 1]);
            }
        }
        assert forall|b: int| 0 <= b < before.len() implies out@.contains(#[trigger] before[b]) by {
            if b < pos {
                assert(out@[b] == before[b]);
            } else {
                assert(out@[b + 1] == before[b]);
            }
        }
    }
}

impl PersonEmoji {
    /// A record without variants, named after `fancy_name`.
    pub fn new(fancy_name: String) -> (r: Self)
        ensures
            r.wf(),
            r.fancy_name@ == fancy_name@,
            r.identifier@ == crate::strutil::constant_name(fancy_name@),
            r.grouping is None,
            r.variants@.len() == 0,
    {
        let identifier = crate::strutil::generate_constant(fancy_name.as_str());
        let r = PersonEmoji { identifier, fancy_name, grouping: None, variants: Vec::new() };
        assert(keys_of(r.variants@) =~= Seq::<PersonKind>::empty());
        r
    }

    /// The most generic variants: those whose keys have the highest level, each key once, in
    /// the order of the keys. None for a record without variants: it has no default.
    pub fn default_variants(&self) -> (r: Option<Vec<(PersonKind, PersonVariant)>>)
        ensures
            r is None <==> self.variants@.len() == 0,
            r matches Some(d) ==> default_selection(self.variants@, d@),
    {
        let n = self.variants.len();
        if n == 0 {
            return None;
        }
        let mut best: usize = 0;
        let mut i: usize = 0;
        while i < n
            invariant
                n == self.variants@.len(),
                i <= n,
                forall|j: int| 0 <= j < i ==> level_of((#[trigger] self.variants@[j]).0) <= best,
                i > 0 ==> exists|j: int| 0 <= j < i && level_of((#[trigger] self.variants@[j]).0) == best,
            decreases n - i,
        {
            let l = self.variants[i].0.default_level();
            if l > best || i == 0 {
                proof {
                    if i > 0 {
                        let j0 = choose|j: int| 0 <= j < i && level_of((#[trigger] self.variants@[j]).0) == best;
                    }
                }
                best = l;
            }
            i = i + 1;
        }
        let mut out: Vec<(PersonKind, PersonVariant)> = Vec::new();
        let mut k: usize = 0;
        while k < n
            invariant
                n == self.variants@.len(),
                k <= n,
                forall|j: int| 0 <= j < n ==> level_of((#[trigger] self.variants@[j]).0) <= best,
                n > 0 ==> exists|j: int| 0 <= j < n && level_of((#[trigger] self.variants@[j]).0) == best,
                forall|a: int| 0 <= a < out@.len() ==> has_variant(self.variants@, #[trigger] out@[a].0, out@[a].1@)
                    && level_of(out@[a].0) == best,
                forall|j: int| 0 <= j < k && level_of((#[trigger] self.variants@[j]).0) == best ==> keys_of(out@).contains(self.variants@[j].0),
                n > 0 && k > 0 && out@.len() == 0 ==> forall|j: int| 0 <= j < k ==> level_of((#[trigger] self.variants@[j]).0) != best,
                forall|a: int, b: int| 0 <= a < b < out@.len() ==> kind_code(out@[a].0) < kind_code(out@[b].0),
            decreases n - k,
        {
            let kind = self.variants[k].0;
            if kind.default_level() == best {
                let v = self.variants[k].1.duplicate();
                let ghost before = out@;
                proof {
                    assert(has_variant(self.variants@, kind, v@)) by {
                        assert(self.variants@[k as int].0 == kind);
                    }
                }
                insert_by_code(&mut out, kind, v);
                proof {
                    assert forall|a: int| 0 <= a < out@.len() implies has_variant(self.variants@, #[trigger] out@[a].0, out@[a].1@)
                        && level_of(out@[a].0) == best by {
                        if out@[a] != (kind, v) {
                            let b = choose|b: int| 0 <= b < before.len() && before[b] == out@[a];
                        }
                    }
                    assert forall|j: int| 0 <= j < k + 1 && level_of((#[trigger] self.variants@[j]).0) == best
                        implies keys_of(out@).contains(self.variants@[j].0) by {
                        if j < k {
                            let a = choose|a: int| 0 <= a < keys_of(before).len() && keys_of(before)[a] == self.variants@[j].0;
                            assert(out@.contains(before[a]));
                            let x = choose|x: int| 0 <= x < out@.len() && out@[x] == before[a];
                            assert(keys_of(out@)[x] == self.variants@[j].0);
                        }
                    }
                }
            }
            k = k + 1;
        }
        proof {
            if n > 0 {
                let j0 = choose|j: int| 0 <= j < n && level_of((#[trigger] self.variants@[j]).0) == best;
                assert(out@.len() > 0);
            }
        }
        Some(out)
    }

    /// The graphemes of the most generic variants, joined in the order of their keys; none for a
    /// record without variants.
    pub fn default_graphemes(&self) -> (r: Option<String>)
        ensures
            r is None <==> self.variants@.len() == 0,
            r matches Some(g) ==> exists|d: Seq<(PersonKind, PersonVariant)>| default_selection(self.variants@, d)
                && g@ == graphemes_joined(d),
    {
        match self.default_variants() {
            None => None,
            Some(defaults) => {
                let mut out = String::new();
                let mut i: usize = 0;
                assert(defaults@.take(0) =~= Seq::<(PersonKind, PersonVariant)>::empty());
                while i < defaults.len()
                    invariant
                        i <= defaults@.len(),
                        out@ == graphemes_joined(defaults@.take(i as int)),
                    decreases defaults@.len() - i,
                {
                    proof {
                        assert(defaults@.take(i + 1).drop_last() =~= defaults@.take(i as int));
                    }
                    out = crate::strs::cat(out.as_str(), defaults[i].1.grapheme.as_str());
                    i = i + 1;
                }
                assert(defaults@.take(i as int) =~= defaults@);
                Some(out)
            },
        }
    }

    /// The grapheme of the most generic variant, where there is exactly one.
    pub fn unique_default_grapheme(&self) -> (r: Option<String>)
        ensures
            r matches Some(g) ==> exists|d: Seq<(PersonKind, PersonVariant)>| default_selection(self.variants@, d)
                && d.len() == 1 && g@ == d[0].1.grapheme@,
            r is None ==> self.variants@.len() == 0 || exists|d: Seq<(PersonKind, PersonVariant)>|
                default_selection(self.variants@, d) && d.len() != 1,
    {
        match self.default_variants() {
            None => None,
            Some(defaults) => {
                if defaults.len() == 1 {
                    Some(defaults[0].1.grapheme.clone())
                } else {
                    None
                }
            },
        }
    }

    /// Checks the consistency of this record and splits it where it is inconsistent: each
    /// output record holds one qualified tree and exactly the variants at its leaves.
    pub fn scrub(self) -> (r: Vec<PersonEmoji>)
        requires
            self.wf(),
        ensures
            finalizes(self, r@),
            forall|i: int| 0 <= i < r@.len() ==> (#[trigger] r@[i]).identifier@ == crate::strutil::constant_name(
                crate::groups::adapted(abs_qualify(self.key_set(), PersonKindGroup::All)[i].0, self.identifier@)),
    {
        let mut groups = self.qualify(PersonKindGroup::All);
        let mut out: Vec<PersonEmoji> = Vec::new();
        let ghost gq = abs_qualify(self.key_set(), PersonKindGroup::All);
        assert(gq.skip(0) =~= gq);
        proof {
            assert forall|k: PersonKind| keys_of(self.variants@).contains(k) implies covers(groups@, k) || kept(out@, k) by {
                assert(self.key_set().contains(k));
                assert(in_scope(PersonKindGroup::All, k));
            }
        }
        while groups.len() > 0
            invariant
                self.wf(),
                entries_wf(groups@, self.key_set()),
                forall|k: PersonKind| keys_of(self.variants@).contains(k) ==> covers(groups@, k) || kept(out@, k),
                leaves_disjoint(groups@),
                keys_apart(out@),
                forall|o: int, j: int, k: PersonKind| #![trigger keys_of(out@[o].variants@).contains(k), leaves(groups@[j].1).contains(k)]
                    0 <= o < out@.len() && 0 <= j < groups@.len() && keys_of(out@[o].variants@).contains(k) ==> !leaves(groups@[j].1).contains(k),
                gq == abs_qualify(self.key_set(), PersonKindGroup::All),
                out@.len() + groups@.len() == gq.len(),
                abs_seq(groups@) == gq.skip(out@.len() as int),
                forall|i: int| 0 <= i < out@.len() ==> (#[trigger] out@[i]).key_set() == gq[i].1,
                forall|i: int| 0 <= i < out@.len() ==> (#[trigger] out@[i]).identifier@ == crate::strutil::constant_name(
                    crate::groups::adapted(gq[i].0, self.identifier@)),
                forall|i: int| 0 <= i < out@.len() ==> (#[trigger] out@[i]).finalized()
                    && out@[i].fancy_name@ == self.fancy_name@
                    && forall|a: int| 0 <= a < out@[i].variants@.len() ==> has_variant(self.variants@, #[trigger] out@[i].variants@[a].0, out@[i].variants@[a].1@),
            decreases groups@.len(),
        {
            let ghost before_groups = groups@;
            let ghost before_out = out@;
            let (sel, tree) = groups.remove(0);
            proof {
                assert(entry_wf(before_groups[0], self.key_set()));
                assert forall|j: int| 0 <= j < groups@.len() implies entry_wf(#[trigger] groups@[j], self.key_set()) by {
                    assert(groups@[j] == before_groups[j + 1]);
                }
            }
            let variants = self.variants_in(&tree);
            let name = sel.adapt_identifier(self.identifier.as_str());
            let identifier = crate::strutil::generate_constant(name.as_str());
            let e = PersonEmoji { identifier, fancy_name: self.fancy_name.clone(), grouping: Some(tree), variants };
            let ghost before = out@;
            out.push(e);
            proof {
                let t = before.len() as int;
                assert(abs_seq(before_groups)[0] == gq.skip(t)[0]);
                assert(abs(before_groups[0]) == gq[t]);
                assert(abs_seq(groups@) =~= gq.skip(t + 1)) by {
                    assert forall|x: int| 0 <= x < groups@.len() implies abs_seq(groups@)[x] == gq.skip(t + 1)[x] by {
                        assert(groups@[x] == before_groups[x + 1]);
                        assert(abs_seq(before_groups)[x + 1] == gq.skip(t)[x + 1]);
                    }
                }
                assert(out@[t].key_set() =~= gq[t].1) by {
                    assert forall|k: PersonKind| out@[t].key_set().contains(k) <==> gq[t].1.contains(k) by {
                        assert(gq[t].1 == leaves(tree).to_set());
                    }
                }
                assert forall|i: int| 0 <= i < out@.len() implies (#[trigger] out@[i]).key_set() == gq[i].1 by {
                    if i < t {
                        assert(out@[i] == before[i]);
                    }
                }
                assert forall|a: int, b: int, k: PersonKind| #![trigger leaves(groups@[a].1).contains(k), leaves(groups@[b].1).contains(k)]
                    0 <= a < groups@.len() && 0 <= b < groups@.len() && a != b && leaves(groups@[a].1).contains(k) implies !leaves(groups@[b].1).contains(k) by {
                    assert(groups@[a] == before_groups[a + 1] && groups@[b] == before_groups[b + 1]);
                }
                assert forall|o: int, j: int, k: PersonKind| #![trigger keys_of(out@[o].variants@).contains(k), leaves(groups@[j].1).contains(k)]
                    0 <= o < out@.len() && 0 <= j < groups@.len() && keys_of(out@[o].variants@).contains(k) implies !leaves(groups@[j].1).contains(k) by {
                    assert(groups@[j] == before_groups[j + 1]);
                    if o < before.len() {
                        assert(out@[o] == before[o]);
                    } else {
                        assert(leaves(before_groups[0].1).contains(k));
                    }
                }
                assert forall|a: int, b: int, k: PersonKind| #![trigger keys_of(out@[a].variants@).contains(k), keys_of(out@[b].variants@).contains(k)]
                    0 <= a < out@.len() && 0 <= b < out@.len() && a != b && keys_of(out@[a].variants@).contains(k) implies !keys_of(out@[b].variants@).contains(k) by {
                    if a < before.len() && b < before.len() {
                        assert(out@[a] == before[a] && out@[b] == before[b]);
                    } else if a < before.len() {
                        assert(out@[a] == before[a]);
                        assert(!leaves(before_groups[0].1).contains(k));
                    } else {
                        assert(out@[b] == before[b]);
                        assert(leaves(before_groups[0].1).contains(k));
                        if keys_of(before[b].variants@).contains(k) {
                            assert(!leaves(before_groups[0].1).contains(k));
                        }
                    }
                }
                assert forall|k: PersonKind| keys_of(self.variants@).contains(k) implies covers(groups@, k) || kept(out@, k) by {
                    if kept(before, k) {
                        let x = choose|x: int| 0 <= x < before.len() && keys_of((#[trigger] before[x]).variants@).contains(k);
                        assert(out@[x] == before[x]);
                    } else if covers(before_groups, k) {
                        let x = choose|x: int| 0 <= x < before_groups.len() && (#[trigger] leaves(before_groups[x].1)).contains(k);
                        if x == 0 {
                            assert(leaves(tree).contains(k));
                            assert(keys_of(out@[before.len() as int].variants@).contains(k));
                        } else {
                            assert(groups@[x - 1] == before_groups[x]);
                        }
                    }
                }
                assert(out@[before.len() as int].identifier@ == crate::strutil::constant_name(crate::groups::adapted(sel, self.identifier@)));
                assert(sel == gq[t].0);
                assert forall|i: int| 0 <= i < out@.len() implies (#[trigger] out@[i]).identifier@ == crate::strutil::constant_name(
                    crate::groups::adapted(gq[i].0, self.identifier@)) by {
                    if i < before.len() {
                        assert(out@[i] == before[i]);
                    } else {
                        assert(out@[i].identifier@ == crate::strutil::constant_name(crate::groups::adapted(sel, self.identifier@)));
                    }
                }
                assert(out@[before.len() as int].finalized());
                assert forall|i: int| 0 <= i < out@.len() implies (#[trigger] out@[i]).finalized()
                    && out@[i].fancy_name@ == self.fancy_name@
                    && forall|a: int| 0 <= a < out@[i].variants@.len() ==> has_variant(self.variants@, #[trigger] out@[i].variants@[a].0, out@[i].variants@[a].1@) by {
                    if i < before.len() {
                        assert(out@[i] == before[i]);
                    }
                }
            }
        }
        out
    }
}

/// Each variant of a finalized record is enumerated exactly once: the enumeration of its tree
/// holds one entry, and only one, whose key is the variant's key.
pub proof fn lemma_enumeration_once(e: PersonEmoji, entries: Seq<(String, String, PersonKind)>, k: PersonKind)
    requires
        e.finalized(),
        entry_kinds(entries) == leaves(e.grouping->0),
        keys_of(e.variants@).contains(k),
    ensures
        exists|i: int| 0 <= i < entries.len() && (#[trigger] entries[i]).2 == k,
        forall|i: int, j: int| 0 <= i < entries.len() && 0 <= j < entries.len() && (#[trigger] entries[i]).2 == k
            && (#[trigger] entries[j]).2 == k ==> i == j,
{
    let l = leaves(e.grouping->0);
    assert(l.contains(k));
    let x = choose|x: int| 0 <= x < l.len() && l[x] == k;
    assert(entries[x].2 == l[x]);
    assert forall|i: int, j: int| 0 <= i < entries.len() && 0 <= j < entries.len() && (#[trigger] entries[i]).2 == k
        && (#[trigger] entries[j]).2 == k implies i == j by {
        assert(l[i] == entries[i].2 && l[j] == entries[j].2);
    }
}

/// Where finalizing a record gives a single record, that record has exactly the keys of the
/// original one, each with its payload.
pub proof fn lemma_single_output_keeps_keys(e: PersonEmoji, outs: Seq<PersonEmoji>)
    requires
        finalizes(e, outs),
        outs.len() == 1,
    ensures
        forall|k: PersonKind| keys_of(outs[0].variants@).contains(k) <==> keys_of(e.variants@).contains(k),
        forall|a: int| 0 <= a < outs[0].variants@.len() ==> has_variant(e.variants@, #[trigger] outs[0].variants@[a].0, outs[0].variants@[a].1@),
{
    assert forall|k: PersonKind| keys_of(outs[0].variants@).contains(k) <==> keys_of(e.variants@).contains(k) by {
        if keys_of(outs[0].variants@).contains(k) {
            let a = choose|a: int| 0 <= a < keys_of(outs[0].variants@).len() && keys_of(outs[0].variants@)[a] == k;
            assert(outs[0].variants@[a].0 == k);
            assert(has_variant(e.variants@, outs[0].variants@[a].0, outs[0].variants@[a].1@));
            let j = choose|j: int| 0 <= j < e.variants@.len() && e.variants@[j].0 == k && (#[trigger] e.variants@[j]).1@ == outs[0].variants@[a].1@;
            assert(keys_of(e.variants@)[j] == k);
        }
        if keys_of(e.variants@).contains(k) {
            assert(kept(outs, k));
        }
    }
}

/// Finalizing is idempotent: where finalizing a record gives a single record, finalizing a
/// record with the same keys (that single record, say) again gives a single record, with the
/// same keys.
pub proof fn lemma_refinalize_single(e: PersonEmoji, outs: Seq<PersonEmoji>, e2: PersonEmoji, outs2: Seq<PersonEmoji>)
    requires
        finalizes(e, outs),
        outs.len() == 1,
        e2.key_set() == outs[0].key_set(),
        finalizes(e2, outs2),
    ensures
        outs2.len() == 1,
        outs2[0].key_set() == outs[0].key_set(),
{
    lemma_single_output_keeps_keys(e, outs);
    assert(e2.key_set() =~= e.key_set()) by {
        assert forall|k: PersonKind| e2.key_set().contains(k) <==> e.key_set().contains(k) by {
            assert(outs[0].key_set().contains(k) <==> keys_of(outs[0].variants@).contains(k));
        }
    }
}

/// The most generic selection never mixes levels: where key `k1` is more generic than key `k2`
/// and both are present, the selection leaves out `k2`, and each selected key is at least as
/// generic as `k1`.
pub proof fn lemma_most_generic_wins(
    v: Seq<(PersonKind, PersonVariant)>,
    r: Seq<(PersonKind, PersonVariant)>,
    k1: PersonKind,
    k2: PersonKind,
)
    requires
        default_selection(v, r),
        keys_of(v).contains(k1),
        keys_of(v).contains(k2),
        level_of(k1) > level_of(k2),
    ensures
        !keys_of(r).contains(k2),
        forall|a: int| 0 <= a < r.len() ==> level_of((#[trigger] r[a]).0) >= level_of(k1),
{
    let j1 = choose|j: int| 0 <= j < keys_of(v).len() && keys_of(v)[j] == k1;
    assert(v[j1].0 == k1);
    assert forall|a: int| 0 <= a < r.len() implies level_of((#[trigger] r[a]).0) >= level_of(k1) by {
        assert(level_of(r[a].0) >= level_of(v[j1].0));
    }
    if keys_of(r).contains(k2) {
        let a = choose|a: int| 0 <= a < keys_of(r).len() && keys_of(r)[a] == k2;
        assert(level_of(r[a].0) >= level_of(k1));
    }
}

} // verus!
