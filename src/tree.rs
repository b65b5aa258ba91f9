//! The qualified tree of a person emoji, and what can be read off it.
use vstd::prelude::*;
use crate::groups::PersonKind;

verus! {

/// A qualified set of emoji variants: a node that selects over one attribute, or one variant.
#[derive(Debug)]
pub enum PersonQualified {
    Node(PersonQualifiedNode),
    Leaf(PersonQualifiedLeaf),
}

/// One branch of a node: the accessor used in constants, the public accessor, and the subtree.
#[derive(Debug)]
pub struct SubTree {
    pub const_accessor: String,
    pub pub_accessor: String,
    pub tree: PersonQualified,
}

/// A node over one attribute: an optional default branch, and one branch per value.
#[derive(Debug)]
pub struct PersonQualifiedNode {
    pub def: Option<Box<PersonQualified>>,
    pub subs: Vec<SubTree>,
    pub kind_name: String,
}

/// A fully specified variant.
#[derive(Debug)]
pub struct PersonQualifiedLeaf {
    pub leaf: PersonKind,
}

/// The keys at the leaves of a tree, default branch first, then the branches in order.
pub open spec fn leaves(t: PersonQualified) -> Seq<PersonKind>
    decreases t,
{
    match t {
        PersonQualified::Leaf(l) => seq![l.leaf],
        PersonQualified::Node(n) => {
            def_leaves(n) + subs_leaves(n.subs@)
        },
    }
}

/// The keys at the leaves of the default branch of a node, if it has one.
pub open spec fn def_leaves(n: PersonQualifiedNode) -> Seq<PersonKind>
    decreases n,
{
    match n.def {
        Some(b) => leaves(*b),
        None => Seq::empty(),
    }
}

/// The keys at the leaves of a list of branches, in order.
pub open spec fn subs_leaves(s: Seq<SubTree>) -> Seq<PersonKind>
    decreases s,
{
    if s.len() == 0 {
        Seq::empty()
    } else {
        subs_leaves(s.drop_last()) + leaves(s.last().tree)
    }
}

} // verus!

verus! {

/// The keys of a list of enumeration entries, in order.
pub open spec fn entry_kinds(s: Seq<(String, String, PersonKind)>) -> Seq<PersonKind> {
    s.map_values(|e: (String, String, PersonKind)| e.2)
}

/// Every variant reachable from a tree: its accessor path in constants, rooted at `c`, its
/// public accessor path, rooted at `p`, and its key. The default branch is reached through
/// `.default` in constants and directly in public.
pub open spec fn enumerate(t: PersonQualified, c: Seq<char>, p: Seq<char>) -> Seq<(Seq<char>, Seq<char>, PersonKind)>
    decreases t,
{
    match t {
        PersonQualified::Leaf(l) => seq![(c, p, l.leaf)],
        PersonQualified::Node(n) => enumerate_def(n, c, p) + enumerate_subs(n.subs@, c, p),
    }
}

/// The enumeration of the default branch of a node, if it has one.
pub open spec fn enumerate_def(n: PersonQualifiedNode, c: Seq<char>, p: Seq<char>) -> Seq<(Seq<char>, Seq<char>, PersonKind)>
    decreases n,
{
    match n.def {
        Some(b) => enumerate(*b, c + ".default"@, p),
        None => Seq::empty(),
    }
}

/// The enumeration of a list of branches, in order.
pub open spec fn enumerate_subs(s: Seq<SubTree>, c: Seq<char>, p: Seq<char>) -> Seq<(Seq<char>, Seq<char>, PersonKind)>
    decreases s,
{
    if s.len() == 0 {
        Seq::empty()
    } else {
        enumerate_subs(s.drop_last(), c, p) + enumerate(
            s.last().tree,
            c + "."@ + s.last().const_accessor@,
            p + "."@ + s.last().pub_accessor@,
        )
    }
}

/// The paths and keys of a list of enumeration entries.
pub open spec fn entries_view(s: Seq<(String, String, PersonKind)>) -> Seq<(Seq<char>, Seq<char>, PersonKind)> {
    s.map_values(|e: (String, String, PersonKind)| (e.0@, e.1@, e.2))
}

proof fn lemma_subs_leaves_step(s: Seq<SubTree>, i: int)
    requires
        0 <= i < s.len(),
    ensures
        subs_leaves(s.take(i + 1)) == subs_leaves(s.take(i)) + leaves(s[i].tree),
{
    assert(s.take(i + 1).drop_last() =~= s.take(i));
}

proof fn lemma_entry_kinds_add(a: Seq<(String, String, PersonKind)>, b: Seq<(String, String, PersonKind)>)
    ensures
        entry_kinds(a + b) == entry_kinds(a) + entry_kinds(b),
{
    assert(entry_kinds(a + b) =~= entry_kinds(a) + entry_kinds(b));
}

impl PersonQualified {
    /// Every variant reachable from the tree, with its accessor path in constants, its public
    /// accessor path, and its key; `identifier` is the root of both paths.
    pub fn to_accessor_n_kind(&self, identifier: &str) -> (r: Vec<(String, String, PersonKind)>)
        ensures
            entry_kinds(r@) == leaves(*self),
            entries_view(r@) == enumerate(*self, identifier@, identifier@),
    {
        self.to_accessor_n_kind_internal(identifier, identifier)
    }

    fn to_accessor_n_kind_internal(&self, const_accessor: &str, pub_accessor: &str) -> (r: Vec<(String, String, PersonKind)>)
        ensures
            entry_kinds(r@) == leaves(*self),
            entries_view(r@) == enumerate(*self, const_accessor@, pub_accessor@),
        decreases self,
    {
        match self {
            PersonQualified::Node(n) => n.to_accessor_n_kind(const_accessor, pub_accessor),
            PersonQualified::Leaf(l) => l.to_accessor_n_kind(const_accessor, pub_accessor),
        }
    }
}

impl PersonQualifiedNode {
    /// Enumeration below this node; see [`PersonQualified::to_accessor_n_kind`].
    pub fn to_accessor_n_kind(&self, const_accessor: &str, pub_accessor: &str) -> (r: Vec<(String, String, PersonKind)>)
        ensures
            entry_kinds(r@) == leaves(PersonQualified::Node(*self)),
            entries_view(r@) == enumerate(PersonQualified::Node(*self), const_accessor@, pub_accessor@),
        decreases self,
    {
        let mut list: Vec<(String, String, PersonKind)> = Vec::new();
        let ghost c = const_accessor@;
        let ghost p = pub_accessor@;
        let ghost d = def_leaves(*self);
        match &self.def {
            Some(def) => {
                let sub_const = crate::strs::cat(const_accessor, ".default");
                assert(decreases_to!(*self => self.def));
                let mut inner = def.to_accessor_n_kind_internal(sub_const.as_str(), pub_accessor);
                proof { lemma_entry_kinds_add(list@, inner@); }
                let ghost l0 = list@;
                let ghost i0 = inner@;
                list.append(&mut inner);
                proof {
                    assert(entries_view(list@) =~= entries_view(l0) + entries_view(i0));
                }
            },
            None => {},
        }
        assert(entry_kinds(list@) =~= d);
        assert(entries_view(list@) =~= enumerate_def(*self, c, p));
        let mut i: usize = 0;
        assert(enumerate_subs(self.subs@.take(0), c, p) =~= Seq::<(Seq<char>, Seq<char>, PersonKind)>::empty());
        while i < self.subs.len()
            invariant
                i <= self.subs@.len(),
                c == const_accessor@,
                p == pub_accessor@,
                entry_kinds(list@) == d + subs_leaves(self.subs@.take(i as int)),
                entries_view(list@) == enumerate_def(*self, c, p) + enumerate_subs(self.subs@.take(i as int), c, p),
            decreases self.subs@.len() - i,
        {
            let sub = &self.subs[i];
            let c1 = crate::strs::cat(const_accessor, ".");
            let c2 = crate::strs::cat(c1.as_str(), sub.const_accessor.as_str());
            let p1 = crate::strs::cat(pub_accessor, ".");
            let p2 = crate::strs::cat(p1.as_str(), sub.pub_accessor.as_str());
            proof {
                vstd::std_specs::vec::axiom_vec_decreases_to_view(self.subs);
                assert(decreases_to!(*self => self.subs));
                assert(decreases_to!(self.subs@ => self.subs@[i as int]));
                assert(decreases_to!(self.subs@[i as int] => self.subs@[i as int].tree));
            }
            let mut inner = sub.tree.to_accessor_n_kind_internal(c2.as_str(), p2.as_str());
            proof {
                lemma_entry_kinds_add(list@, inner@);
                lemma_subs_leaves_step(self.subs@, i as int);
                assert(self.subs@.take(i + 1).drop_last() =~= self.subs@.take(i as int));
                assert(self.subs@.take(i + 1).last() == *sub);
            }
            let ghost l0 = list@;
            let ghost i0 = inner@;
            list.append(&mut inner);
            proof {
                assert(entries_view(list@) =~= entries_view(l0) + entries_view(i0));
            }
            i = i + 1;
        }
        assert(self.subs@.take(self.subs@.len() as int) =~= self.subs@);
        list
    }
}

impl PersonQualifiedLeaf {
    /// The single entry of a leaf.
    pub fn to_accessor_n_kind(&self, const_accessor: &str, pub_accessor: &str) -> (r: Vec<(String, String, PersonKind)>)
        ensures
            entry_kinds(r@) == seq![self.leaf],
            entries_view(r@) == seq![(const_accessor@, pub_accessor@, self.leaf)],
    {
        let v = vec![(const_accessor.to_string(), pub_accessor.to_string(), self.leaf)];
        assert(entry_kinds(v@) =~= seq![self.leaf]);
        assert(entries_view(v@) =~= seq![(const_accessor@, pub_accessor@, self.leaf)]);
        v
    }
}

} // verus!

verus! {

/// The type of the generated value of a tree: `Emoji` at a leaf; at a node `With` (or
/// `WithNoDef` without default) over the node's attribute and the type of its branches.
pub open spec fn type_of(t: PersonQualified) -> Seq<char>
    decreases t,
{
    match t {
        PersonQualified::Leaf(_) => "Emoji"@,
        PersonQualified::Node(n) => (if n.def is Some { "With"@ } else { "WithNoDef"@ }) + "<"@ + n.kind_name@ + ","@
            + inner_type(n) + ">"@,
    }
}

/// The type of the first branch of a node, the default one if there is one.
pub open spec fn inner_type(n: PersonQualifiedNode) -> Seq<char>
    decreases n,
{
    match n.def {
        Some(b) => type_of(*b),
        None => if n.subs@.len() > 0 {
            type_of(n.subs@[0].tree)
        } else {
            Seq::empty()
        },
    }
}

/// Whether a tree can be generated: each node has a branch, all branches of a node have the
/// same type, and each leaf has a variant among `keys`.
pub open spec fn renderable(t: PersonQualified, keys: Seq<PersonKind>) -> bool
    decreases t,
{
    match t {
        PersonQualified::Leaf(l) => keys.contains(l.leaf),
        PersonQualified::Node(n) => {
            &&& (n.def is Some || n.subs@.len() > 0)
            &&& def_renderable(n, keys)
            &&& subs_renderable(n.subs@, keys, inner_type(n))
        },
    }
}

/// The default branch of a node, if any, can be generated.
pub open spec fn def_renderable(n: PersonQualifiedNode, keys: Seq<PersonKind>) -> bool
    decreases n,
{
    match n.def {
        Some(b) => renderable(*b, keys),
        None => true,
    }
}

/// Each branch of a list can be generated and has type `ty`.
pub open spec fn subs_renderable(s: Seq<SubTree>, keys: Seq<PersonKind>, ty: Seq<char>) -> bool
    decreases s,
{
    if s.len() == 0 {
        true
    } else {
        subs_renderable(s.drop_last(), keys, ty) && renderable(s.last().tree, keys) && type_of(s.last().tree) == ty
    }
}

/// The position of the first variant of key `k`, from position `i` on.
pub open spec fn first_variant(v: Seq<(PersonKind, crate::people::PersonVariant)>, k: PersonKind, i: int) -> Option<int>
    decreases v.len() - i,
{
    if i < 0 || i >= v.len() {
        None
    } else if v[i].0 == k {
        Some(i)
    } else {
        first_variant(v, k, i + 1)
    }
}

/// The constructor expression and documentation of the leaf of key `k` reached through `acc`.
pub open spec fn leaf_texts(v: Seq<(PersonKind, crate::people::PersonVariant)>, k: PersonKind, acc: Seq<char>) -> (Seq<char>, Seq<char>) {
    match first_variant(v, k, 0) {
        Some(i) => {
            let x = v[i].1;
            (
                "Emoji::new(\""@ + crate::strs::escaped_text(x.full_name@) + "\", Version("@ + crate::strs::decimal(x.since.0 as nat) + ", "@
                    + crate::strs::decimal(x.since.1 as nat) + "),\""@ + x.grapheme@ + "\")"@,
                crate::render::single_example(acc, x.grapheme@),
            )
        },
        None => (Seq::empty(), Seq::empty()),
    }
}

/// The constructor expression and documentation of a tree reached through `acc`.
pub open spec fn texts_of(t: PersonQualified, acc: Seq<char>, v: Seq<(PersonKind, crate::people::PersonVariant)>) -> (Seq<char>, Seq<char>)
    decreases t,
{
    match t {
        PersonQualified::Leaf(l) => leaf_texts(v, l.leaf, acc),
        PersonQualified::Node(n) => {
            let d = def_texts(n, acc, v);
            let head = if n.def is Some {
                "With"@ + "::new("@ + d.0 + ", \n\t&[\n\t\t"@
            } else {
                "WithNoDef"@ + "::new(\n\t&[\n\t\t"@
            };
            let b = subs_texts(n.subs@, acc, v);
            (head + b.0 + "])"@, d.1 + b.1)
        },
    }
}

/// The texts of the default branch of a node, if any.
pub open spec fn def_texts(n: PersonQualifiedNode, acc: Seq<char>, v: Seq<(PersonKind, crate::people::PersonVariant)>) -> (Seq<char>, Seq<char>)
    decreases n,
{
    match n.def {
        Some(b) => texts_of(*b, acc, v),
        None => (Seq::empty(), Seq::empty()),
    }
}

/// The texts of a list of branches: each constructor followed by a separator, and the
/// documentation of each, in order.
pub open spec fn subs_texts(s: Seq<SubTree>, acc: Seq<char>, v: Seq<(PersonKind, crate::people::PersonVariant)>) -> (Seq<char>, Seq<char>)
    decreases s,
{
    if s.len() == 0 {
        (Seq::empty(), Seq::empty())
    } else {
        let a = subs_texts(s.drop_last(), acc, v);
        let c = texts_of(s.last().tree, acc + "."@ + s.last().pub_accessor@, v);
        (a.0 + c.0 + ",\n\t"@, a.1 + c.1)
    }
}

proof fn lemma_first_variant_range(v: Seq<(PersonKind, crate::people::PersonVariant)>, k: PersonKind, i: int)
    requires
        0 <= i,
    ensures
        first_variant(v, k, i) matches Some(j) ==> i <= j < v.len() && v[j].0 == k,
    decreases v.len() - i,
{
    if i < v.len() && v[i].0 != k {
        lemma_first_variant_range(v, k, i + 1);
    }
}

fn variant_of_kind(variants: &Vec<(PersonKind, crate::people::PersonVariant)>, k: PersonKind) -> (r: Option<usize>)
    ensures
        match r {
            Some(i) => i < variants@.len() && variants@[i as int].0 == k,
            None => !crate::people::keys_of(variants@).contains(k),
        },
        match first_variant(variants@, k, 0) {
            Some(i) => r == Some(i as usize),
            None => r is None,
        },
{
    let mut i: usize = 0;
    while i < variants.len()
        invariant
            i <= variants@.len(),
            first_variant(variants@, k, 0) == first_variant(variants@, k, i as int),
            forall|j: int| 0 <= j < i ==> variants@[j].0 != k,
        decreases variants@.len() - i,
    {
        if variants[i].0 == k {
            return Some(i);
        }
        i = i + 1;
    }
    proof {
        if crate::people::keys_of(variants@).contains(k) {
            let j = choose|j: int| 0 <= j < crate::people::keys_of(variants@).len() && crate::people::keys_of(variants@)[j] == k;
            assert(variants@[j].0 == k);
        }
    }
    None
}

proof fn lemma_subs_renderable_prefix(s: Seq<SubTree>, keys: Seq<PersonKind>, ty: Seq<char>, i: int)
    requires
        0 <= i <= s.len(),
        subs_renderable(s, keys, ty),
    ensures
        subs_renderable(s.take(i), keys, ty),
    decreases s.len() - i,
{
    if i < s.len() {
        lemma_subs_renderable_prefix(s, keys, ty, i + 1);
        assert(s.take(i + 1).drop_last() =~= s.take(i));
    } else {
        assert(s.take(i) =~= s);
    }
}

proof fn lemma_subs_renderable_step(s: Seq<SubTree>, keys: Seq<PersonKind>, ty: Seq<char>, i: int)
    requires
        0 <= i < s.len(),
    ensures
        subs_renderable(s.take(i + 1), keys, ty) == (subs_renderable(s.take(i), keys, ty) && renderable(s[i].tree, keys)
            && type_of(s[i].tree) == ty),
{
    assert(s.take(i + 1).drop_last() =~= s.take(i));
}

impl PersonQualified {
    /// The type, the constructor expression and the documentation of the generated value of
    /// this tree, whose root is reached through `accessor`; `None` where the tree cannot be
    /// generated.
    pub fn to_type_n_value(&self, accessor: &str, variants: &Vec<(PersonKind, crate::people::PersonVariant)>) -> (r: Option<(String, String, String)>)
        ensures
            r is Some <==> renderable(*self, crate::people::keys_of(variants@)),
            r is Some ==> r.unwrap().0@ == type_of(*self),
            r matches Some(x) ==> (x.1@, x.2@) == texts_of(*self, accessor@, variants@),
        decreases self,
    {
        match self {
            PersonQualified::Node(n) => n.to_type_n_value(accessor, variants),
            PersonQualified::Leaf(l) => l.to_type_n_value(accessor, variants),
        }
    }
}

impl PersonQualifiedLeaf {
    /// The generated value of a single variant.
    pub fn to_type_n_value(&self, accessor: &str, variants: &Vec<(PersonKind, crate::people::PersonVariant)>) -> (r: Option<(String, String, String)>)
        ensures
            r is Some <==> crate::people::keys_of(variants@).contains(self.leaf),
            r is Some ==> r.unwrap().0@ == "Emoji"@,
            r matches Some(x) ==> (x.1@, x.2@) == leaf_texts(variants@, self.leaf, accessor@),
    {
        let count = variants.len();
        match variant_of_kind(variants, self.leaf) {
            None => None,
            Some(i) => {
                proof { assert(crate::people::keys_of(variants@)[i as int] == self.leaf); }
                proof {
                    lemma_first_variant_range(variants@, self.leaf, 0);
                }
                let v = &variants[i].1;
                let major = crate::strs::decimal_string(v.since.0);
                let minor = crate::strs::decimal_string(v.since.1);
                let name = crate::strs::escape_text(v.full_name.as_str());
                let a = crate::strs::cat("Emoji::new(\"", name.as_str());
                let b = crate::strs::cat(a.as_str(), "\", Version(");
                let c = crate::strs::cat(b.as_str(), major.as_str());
                let d = crate::strs::cat(c.as_str(), ", ");
                let e = crate::strs::cat(d.as_str(), minor.as_str());
                let f = crate::strs::cat(e.as_str(), "),\"");
                let g = crate::strs::cat(f.as_str(), v.grapheme.as_str());
                let value = crate::strs::cat(g.as_str(), "\")");
                let docs = crate::render::emoji_render_single_example(accessor, v.grapheme.as_str());
                proof {
                    let fv = first_variant(variants@, self.leaf, 0);
                    assert(fv is Some);
                    assert(fv->0 < count);
                    assert(fv == Some(i as int));
                    assert(value@ =~= leaf_texts(variants@, self.leaf, accessor@).0);
                }
                Some(("Emoji".to_string(), value, docs))
            },
        }
    }
}

impl PersonQualifiedNode {
    /// The generated value of a node: a `With` (or `WithNoDef`) over its branches.
    pub fn to_type_n_value(&self, accessor: &str, variants: &Vec<(PersonKind, crate::people::PersonVariant)>) -> (r: Option<(String, String, String)>)
        ensures
            r is Some <==> renderable(PersonQualified::Node(*self), crate::people::keys_of(variants@)),
            r is Some ==> r.unwrap().0@ == type_of(PersonQualified::Node(*self)),
            r matches Some(x) ==> (x.1@, x.2@) == texts_of(PersonQualified::Node(*self), accessor@, variants@),
        decreases self,
    {
        let ghost keys = crate::people::keys_of(variants@);
        let ghost vv = variants@;
        let ghost acc = accessor@;
        let ghost dt = def_texts(*self, acc, vv);
        let ghost head = if self.def is Some {
            "With"@ + "::new("@ + dt.0 + ", \n\t&[\n\t\t"@
        } else {
            "WithNoDef"@ + "::new(\n\t&[\n\t\t"@
        };
        let ty_name = if self.def.is_some() { "With" } else { "WithNoDef" };
        let mut value = String::new();
        let mut docs = String::new();
        let mut first: Option<String> = None;
        let mut ok = true;
        match &self.def {
            Some(def) => {
                proof { assert(decreases_to!(*self => self.def)); }
                match def.to_type_n_value(accessor, variants) {
                    Some((t, v, d)) => {
                        docs = d;
                        let a = crate::strs::cat(ty_name, "::new(");
                        let b = crate::strs::cat(a.as_str(), v.as_str());
                        value = crate::strs::cat(b.as_str(), ", \n\t&[\n\t\t");
                        first = Some(t);
                    },
                    None => {
                        ok = false;
                    },
                }
            },
            None => {
                value = crate::strs::cat(ty_name, "::new(\n\t&[\n\t\t");
            },
        }
        if !ok {
            return None;
        }
        proof {
            assert(def_renderable(*self, keys));
            assert(self.def is Some ==> first is Some && first->0@ == inner_type(*self));
            assert(value@ =~= head + subs_texts(self.subs@.take(0), acc, vv).0);
            assert(docs@ =~= dt.1 + subs_texts(self.subs@.take(0), acc, vv).1);
        }
        let mut i: usize = 0;
        assert(self.subs@.take(0) =~= Seq::<SubTree>::empty());
        while i < self.subs.len()
            invariant
                i <= self.subs@.len(),
                keys == crate::people::keys_of(variants@),
                def_renderable(*self, keys),
                first is Some <==> (self.def is Some || i > 0),
                first is Some ==> first->0@ == inner_type(*self),
                subs_renderable(self.subs@.take(i as int), keys, inner_type(*self)),
                vv == variants@,
                acc == accessor@,
                value@ == head + subs_texts(self.subs@.take(i as int), acc, vv).0,
                docs@ == dt.1 + subs_texts(self.subs@.take(i as int), acc, vv).1,
            decreases self.subs@.len() - i,
        {
            let sub = &self.subs[i];
            let sa = crate::strs::cat(accessor, ".");
            let sub_accessor = crate::strs::cat(sa.as_str(), sub.pub_accessor.as_str());
            proof {
                vstd::std_specs::vec::axiom_vec_decreases_to_view(self.subs);
                assert(decreases_to!(*self => self.subs));
                assert(decreases_to!(self.subs@ => self.subs@[i as int]));
                assert(decreases_to!(self.subs@[i as int] => self.subs@[i as int].tree));
                lemma_subs_renderable_step(self.subs@, keys, inner_type(*self), i as int);
                if self.def is None && i == 0 {
                    assert(inner_type(*self) == type_of(self.subs@[0].tree));
                }
            }
            match sub.tree.to_type_n_value(sub_accessor.as_str(), variants) {
                None => {
                    proof {
                        if subs_renderable(self.subs@, keys, inner_type(*self)) {
                            lemma_subs_renderable_prefix(self.subs@, keys, inner_type(*self), i + 1);
                        }
                    }
                    return None;
                },
                Some((t, v, d)) => {
                    let same = match &first {
                        Some(f) => crate::strs::str_eq(f.as_str(), t.as_str()),
                        None => true,
                    };
                    if !same {
                        proof {
                            if subs_renderable(self.subs@, keys, inner_type(*self)) {
                                lemma_subs_renderable_prefix(self.subs@, keys, inner_type(*self), i + 1);
                            }
                        }
                        return None;
                    }
                    proof {
                        assert(self.subs@.take(i + 1).drop_last() =~= self.subs@.take(i as int));
                        assert(self.subs@.take(i + 1).last() == *sub);
                    }
                    let ghost d0 = docs@;
                    let ghost v0 = value@;
                    docs = crate::strs::cat(docs.as_str(), d.as_str());
                    let a = crate::strs::cat(value.as_str(), v.as_str());
                    value = crate::strs::cat(a.as_str(), ",\n\t");
                    proof {
                        assert(value@ =~= head + subs_texts(self.subs@.take(i + 1), acc, vv).0);
                        assert(docs@ =~= dt.1 + subs_texts(self.subs@.take(i + 1), acc, vv).1);
                    }
                    if first.is_none() {
                        first = Some(t);
                    }
                },
            }
            i = i + 1;
        }
        assert(self.subs@.take(self.subs@.len() as int) =~= self.subs@);
        match first {
            None => None,
            Some(f) => {
                value = crate::strs::cat(value.as_str(), "])");
                let a = crate::strs::cat(ty_name, "<");
                let b = crate::strs::cat(a.as_str(), self.kind_name.as_str());
                let c = crate::strs::cat(b.as_str(), ",");
                let e = crate::strs::cat(c.as_str(), f.as_str());
                let ty = crate::strs::cat(e.as_str(), ">");
                proof {
                    reveal_strlit("With");
                    reveal_strlit("WithNoDef");
                }
                Some((ty, value, docs))
            },
        }
    }
}

} // verus!
