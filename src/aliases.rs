//! The alias tables of the generated crate: each constant under its snake-case name, and the
//! GitHub short names of emojis that the feed has.
use vstd::prelude::*;
use crate::emoji::{EmojiRef, Emojis, ToSourceCode, insert_sorted, strictly_sorted};
use crate::emoji::Subgroup;
use crate::strs::{cat, str_eq};

verus! {

/// Names the snake-case form that inflections gives for `s`.
pub uninterp spec fn snake_case_of(s: Seq<char>) -> Seq<char>;

/// Relies on inflections::case::to_snake_case: separators become `_`, camel case is broken
/// up, and letters are lower-cased; the result depends on `s` alone.
#[verifier::external_body]
fn snake_case(s: &str) -> (r: String)
    ensures
        r@ == snake_case_of(s@),
{
    inflections::case::to_snake_case(s)
}

/// A map from strings to strings, in insertion order, with distinct keys.
pub struct StrMap {
    pub entries: Vec<(String, String)>,
}

/// The keys of a list of string pairs.
pub open spec fn pair_keys(v: Seq<(String, String)>) -> Seq<Seq<char>> {
    v.map_values(|e: (String, String)| e.0@)
}

impl StrMap {
    /// An empty map.
    pub fn new() -> (r: StrMap)
        ensures
            r.entries@.len() == 0,
    {
        StrMap { entries: Vec::new() }
    }

    /// The position of `key`.
    pub fn find(&self, key: &str) -> (r: Option<usize>)
        ensures
            match r {
                Some(i) => i < self.entries@.len() && self.entries@[i as int].0@ == key@,
                None => !pair_keys(self.entries@).contains(key@),
            },
    {
        let mut i: usize = 0;
        while i < self.entries.len()
            invariant
                i <= self.entries@.len(),
                forall|j: int| 0 <= j < i ==> self.entries@[j].0@ != key@,
            decreases self.entries@.len() - i,
        {
            if str_eq(self.entries[i].0.as_str(), key) {
                return Some(i);
            }
            i = i + 1;
        }
        proof {
            if pair_keys(self.entries@).contains(key@) {
                let j = choose|j: int| 0 <= j < pair_keys(self.entries@).len() && pair_keys(self.entries@)[j] == key@;
                assert(self.entries@[j].0@ == key@);
            }
        }
        None
    }

    /// The value of `key`, if any.
    pub fn get(&self, key: &str) -> (r: Option<&String>)
        ensures
            match r {
                Some(v) => exists|i: int| 0 <= i < self.entries@.len() && self.entries@[i].0@ == key@ && self.entries@[i].1 == *v,
                None => !pair_keys(self.entries@).contains(key@),
            },
    {
        match self.find(key) {
            Some(i) => Some(&self.entries[i].1),
            None => None,
        }
    }

    /// Sets the value of `key`, replacing an earlier one.
    pub fn insert(&mut self, key: String, value: String)
        ensures
            exists|i: int| 0 <= i < final(self).entries@.len() && final(self).entries@[i].0@ == key@ && final(self).entries@[i].1 == value,
    {
        let ghost k = key@;
        let ghost v = value;
        match self.find(key.as_str()) {
            Some(i) => {
                self.entries.set(i, (key, value));
                assert(self.entries@[i as int].0@ == k && self.entries@[i as int].1 == v);
            },
            None => {
                self.entries.push((key, value));
                assert(self.entries@[self.entries@.len() - 1].1 == value);
            },
        }
    }
}

/// `a` is the snake-case name of an emoji of subgroup `sub`, standalone or person.
pub open spec fn named_in(sub: Subgroup, a: Seq<char>) -> bool {
    (exists|j: int| 0 <= j < sub.emojis@.len() && a == snake_case_of((#[trigger] sub.emojis@[j]).identifier@))
        || (exists|j: int| 0 <= j < sub.person_emojis@.len() && a == snake_case_of((#[trigger] sub.person_emojis@[j]).1.identifier@))
}

/// Where an alias comes from: the snake-case name of an emoji of the feed, or a GitHub short
/// name of `gemojis`.
pub open spec fn alias_from(e: Emojis, gemojis: Seq<(String, String)>, a: Seq<char>) -> bool {
    (exists|i: int| 0 <= i < gemojis.len() && (#[trigger] gemojis[i]).0@ == a)
        || (exists|g: int, s: int| 0 <= g < e.groups@.len() && 0 <= s < e.groups@[g].subgroups@.len()
            && #[trigger] named_in(e.groups@[g].subgroups@[s], a))
}

/// The aliases of all constants and GitHub names, and the lines of the tables that find them.
pub struct AliasTables {
    /// The sorted aliases.
    pub aliases: Vec<String>,
    /// One line per alias: the alias and the accessor of its emoji.
    pub map_lines: String,
    /// Match arms for the aliases of one character.
    pub single: String,
    /// Nested match arms over the first two characters of the longer aliases.
    pub two: String,
}

/// `(":alias:" , &crate::flat::ACCESSOR as &crate::Emoji),` and a line break.
fn map_line(alias: &str, accessor: &str) -> (r: String) {
    let a = cat("(\"", alias);
    let b = cat(a.as_str(), "\" , &crate::flat::");
    let c = cat(b.as_str(), accessor);
    cat(c.as_str(), " as &crate::Emoji),\n")
}

fn emoji_arm(accessor: &str) -> (r: String) {
    let a = cat("Some(&crate::flat::", accessor);
    cat(a.as_str(), " as &crate::Emoji),\n")
}

/// Collects every alias of the emojis: the snake-case name of each constant with a unique
/// default grapheme, then each GitHub short name of `gemojis` (alias, grapheme) whose grapheme
/// some variant has and that is not taken yet; and writes the lookup tables.
pub fn generate_aliases(emoji: &Emojis, gemojis: &Vec<(String, String)>) -> (r: AliasTables)
    ensures
        strictly_sorted(r.aliases@.map_values(|x: String| x@)),
        forall|a: Seq<char>| r.aliases@.map_values(|x: String| x@).to_set().contains(a) ==> alias_from(*emoji, gemojis@, a),
{
    let mut aliases: Vec<String> = Vec::new();
    let mut emoji_map = StrMap::new();
    let mut by_grapheme = StrMap::new();
    let mut g: usize = 0;
    while g < emoji.groups.len()
        invariant
            g <= emoji.groups@.len(),
            strictly_sorted(aliases@.map_values(|x: String| x@)),
    forall|a: Seq<char>| aliases@.map_values(|x: String| x@).to_set().contains(a) ==> alias_from(*emoji, gemojis@, a),

        decreases emoji.groups@.len() - g,
    {
        let grp = &emoji.groups[g];
        let mut s: usize = 0;
        while s < grp.subgroups.len()
            invariant
                s <= grp.subgroups@.len(),
                g < emoji.groups@.len(),
                *grp == emoji.groups@[g as int],
                strictly_sorted(aliases@.map_values(|x: String| x@)),
                forall|a: Seq<char>| aliases@.map_values(|x: String| x@).to_set().contains(a) ==> alias_from(*emoji, gemojis@, a),
            decreases grp.subgroups@.len() - s,
        {
            let sub = &grp.subgroups[s];
            let mut c: usize = 0;
            while c < sub.constants.len()
                invariant
                    c <= sub.constants@.len(),
                    g < emoji.groups@.len(),
                    s < grp.subgroups@.len(),
                    *grp == emoji.groups@[g as int],
                    *sub == grp.subgroups@[s as int],
                    strictly_sorted(aliases@.map_values(|x: String| x@)),
                    forall|a: Seq<char>| aliases@.map_values(|x: String| x@).to_set().contains(a) ==> alias_from(*emoji, gemojis@, a),
                decreases sub.constants@.len() - c,
            {
                match sub.get_emoji(sub.constants[c].as_str()) {
                    None => {},
                    Some(em) => {
                        let (ident, list, def) = match em {
                            EmojiRef::Plain(e) => (e.identifier.as_str(), e.full_emoji_list(), e.default_grapheme()),
                            EmojiRef::Person(p) => (p.identifier.as_str(), p.full_emoji_list(), p.default_grapheme()),
                        };
                        let snake = snake_case(ident);
                        let alias = crate::gemoji::make_alias(snake.as_str());
                        proof {
                            match em {
                                EmojiRef::Plain(e) => {
                                    let j = choose|j: int| 0 <= j < sub.emojis@.len() && sub.emojis@[j] == *e;
                                    assert(alias@ == snake_case_of(sub.emojis@[j].identifier@));
                                },
                                EmojiRef::Person(p) => {
                                    let j = choose|j: int| 0 <= j < sub.person_emojis@.len() && sub.constants@[c as int]@ == sub.person_emojis@[j].0@
                                        && sub.person_emojis@[j].1 == *p;
                                    assert(alias@ == snake_case_of(sub.person_emojis@[j].1.identifier@));
                                },
                            }
                            assert(named_in(*sub, alias@));
                            assert(alias_from(*emoji, gemojis@, alias@));
                        }
                        let mut k: usize = 0;
                        while k < list.len()
                            invariant
                                k <= list@.len(),
                            decreases list@.len() - k,
                        {
                            by_grapheme.insert(list[k].1.clone(), list[k].0.clone());
                            k = k + 1;
                        }
                        match def {
                            Some(d) => match by_grapheme.get(d.as_str()) {
                                Some(acc) => {
                                    let acc = acc.clone();
                                    let ghost a0 = aliases@.map_values(|x: String| x@).to_set();
                                    insert_sorted(&mut aliases, alias.clone());
                                    proof {
                                        assert forall|a: Seq<char>| aliases@.map_values(|x: String| x@).to_set().contains(a) implies alias_from(*emoji, gemojis@, a) by {
                                            assert(a0.insert(alias@).contains(a));
                                        }
                                    }
                                    emoji_map.insert(alias, acc);
                                },
                                None => {},
                            },
                            None => {},
                        }
                    },
                }
                c = c + 1;
            }
            s = s + 1;
        }
        g = g + 1;
    }
    let mut i: usize = 0;
    while i < gemojis.len()
        invariant
            i <= gemojis@.len(),
            strictly_sorted(aliases@.map_values(|x: String| x@)),
                    forall|a: Seq<char>| aliases@.map_values(|x: String| x@).to_set().contains(a) ==> alias_from(*emoji, gemojis@, a),
        decreases gemojis@.len() - i,
    {
        let key = gemojis[i].0.as_str();
        if emoji_map.find(key).is_none() {
            match by_grapheme.get(gemojis[i].1.as_str()) {
                Some(acc) => {
                    let acc = acc.clone();
                    emoji_map.insert(key.to_string(), acc);
                    let ghost a0 = aliases@.map_values(|x: String| x@).to_set();
                    proof {
                        assert(alias_from(*emoji, gemojis@, key@)) by {
                            assert(gemojis@[i as int].0@ == key@);
                        }
                    }
                    insert_sorted(&mut aliases, key.to_string());
                    proof {
                        assert forall|a: Seq<char>| aliases@.map_values(|x: String| x@).to_set().contains(a) implies alias_from(*emoji, gemojis@, a) by {
                            assert(a0.insert(key@).contains(a));
                        }
                    }
                },
                None => {},
            }
        }
        i = i + 1;
    }
    let mut map_lines = String::new();
    let mut single = String::new();
    let mut two = String::new();
    let mut open_first: Option<char> = None;
    let mut open_second: Option<char> = None;
    let mut a: usize = 0;
    while a < aliases.len()
        invariant
            a <= aliases@.len(),
        decreases aliases@.len() - a,
    {
        let al = aliases[a].as_str();
        match emoji_map.get(al) {
            None => {},
            Some(acc) => {
                let line = map_line(al, acc.as_str());
                map_lines = cat(map_lines.as_str(), line.as_str());
                let n = al.unicode_len();
                if n == 1 {
                    let first = al.substring_char(0, 1);
                    let x = cat("\t\t\tb'", first);
                    let y = cat(x.as_str(), "' => ");
                    let arm = emoji_arm(acc.as_str());
                    let z = cat(y.as_str(), arm.as_str());
                    single = cat(single.as_str(), z.as_str());
                } else if n >= 2 {
                    let f = al.get_char(0);
                    let sc = al.get_char(1);
                    let same_first = match open_first {
                        Some(o) => o == f,
                        None => false,
                    };
                    let same_second = same_first && match open_second {
                        Some(o) => o == sc,
                        None => false,
                    };
                    if !same_second && open_second.is_some() {
                        two = cat(two.as_str(), "\t\t\t\t\t_ => None,\n\t\t\t\t},\n");
                        open_second = None;
                    }
                    if !same_first && open_first.is_some() {
                        two = cat(two.as_str(), "\t\t\t\t_ => None,\n\t\t\t},\n");
                        open_first = None;
                    }
                    if !same_first {
                        let x = cat("\t\t\tb'", al.substring_char(0, 1));
                        let y = cat(x.as_str(), "' => match sec {\n");
                        two = cat(two.as_str(), y.as_str());
                        open_first = Some(f);
                    }
                    if !same_second {
                        let x = cat("\t\t\t\tb'", al.substring_char(1, 2));
                        let y = cat(x.as_str(), "' => match rest {\n");
                        two = cat(two.as_str(), y.as_str());
                        open_second = Some(sc);
                    }
                    let x = cat("\t\t\t\t\t\"", al.substring_char(2, n));
                    let y = cat(x.as_str(), "\" => ");
                    let arm = emoji_arm(acc.as_str());
                    let z = cat(y.as_str(), arm.as_str());
                    two = cat(two.as_str(), z.as_str());
                }
            },
        }
        a = a + 1;
    }
    if open_second.is_some() {
        two = cat(two.as_str(), "\t\t\t\t\t_ => None,\n\t\t\t\t},\n");
    }
    if open_first.is_some() {
        two = cat(two.as_str(), "\t\t\t\t_ => None,\n\t\t\t},\n");
    }
    AliasTables { aliases, map_lines, single, two }
}

} // verus!
