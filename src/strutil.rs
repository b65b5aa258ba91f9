//! String helpers that turn descriptive names into identifiers.
use vstd::prelude::*;
use crate::strs::{cat, char_from_u32, push_char, replace_all, replaced};

verus! {

/// Names the text that `regex` gives when every match of `pattern` in `s` is replaced by `by`.
pub uninterp spec fn regex_replaced(pattern: Seq<char>, s: Seq<char>, by: Seq<char>) -> Seq<char>;

/// Names whether `regex` accepts `pattern`.
pub uninterp spec fn regex_accepts(pattern: Seq<char>) -> bool;

/// Relies on regex::Regex::new, which accepts or refuses a pattern by the pattern alone, and
/// Regex::replace_all, whose result depends on the pattern, the text and the replacement alone.
#[verifier::external_body]
fn regex_replace_all(pattern: &str, s: &str, by: &str) -> (r: Option<String>)
    ensures
        r is Some == regex_accepts(pattern@),
        r matches Some(x) ==> x@ == regex_replaced(pattern@, s@, by@),
{
    match regex::Regex::new(pattern) {
        Ok(re) => Some(re.replace_all(s, by).into_owned()),
        Err(_) => None,
    }
}

/// Symbols, ordinals and accented letters, each with its plain spelling.
pub open spec fn transliteration_table() -> Seq<(Seq<char>, Seq<char>)> {
    seq![
        ("*"@, "asterisk"@),
        ("#"@, "hash"@),
        ("1st"@, "first"@),
        ("2nd"@, "second"@),
        ("3rd"@, "third"@),
        ("&"@, "and"@),
        ("U.S."@, "US"@),
        ("\u{160}"@, "S"@),
        ("\u{161}"@, "s"@),
        ("\u{110}"@, "Dj"@),
        ("\u{111}"@, "dj"@),
        ("\u{17d}"@, "Z"@),
        ("\u{17e}"@, "z"@),
        ("\u{10c}"@, "C"@),
        ("\u{10d}"@, "c"@),
        ("\u{106}"@, "C"@),
        ("\u{107}"@, "c"@),
        ("\u{c0}"@, "A"@),
        ("\u{c1}"@, "A"@),
        ("\u{c2}"@, "A"@),
        ("\u{c3}"@, "A"@),
        ("\u{c4}"@, "A"@),
        ("\u{c5}"@, "A"@),
        ("\u{c6}"@, "A"@),
        ("\u{c7}"@, "C"@),
        ("\u{c8}"@, "E"@),
        ("\u{c9}"@, "E"@),
        ("\u{ca}"@, "E"@),
        ("\u{cb}"@, "E"@),
        ("\u{cc}"@, "I"@),
        ("\u{cd}"@, "I"@),
        ("\u{ce}"@, "I"@),
        ("\u{cf}"@, "I"@),
        ("\u{d1}"@, "N"@),
        ("\u{d2}"@, "O"@),
        ("\u{d3}"@, "O"@),
        ("\u{d4}"@, "O"@),
        ("\u{d5}"@, "O"@),
        ("\u{d6}"@, "O"@),
        ("\u{d8}"@, "O"@),
        ("\u{d9}"@, "U"@),
        ("\u{da}"@, "U"@),
        ("\u{db}"@, "U"@),
        ("\u{dc}"@, "U"@),
        ("\u{dd}"@, "Y"@),
        ("\u{de}"@, "B"@),
        ("\u{df}"@, "Ss"@),
        ("\u{e0}"@, "a"@),
        ("\u{e1}"@, "a"@),
        ("\u{e2}"@, "a"@),
        ("\u{e3}"@, "a"@),
        ("\u{e4}"@, "a"@),
        ("\u{e5}"@, "a"@),
        ("\u{e6}"@, "a"@),
        ("\u{e7}"@, "c"@),
        ("\u{e8}"@, "e"@),
        ("\u{e9}"@, "e"@),
        ("\u{ea}"@, "e"@),
        ("\u{eb}"@, "e"@),
        ("\u{ec}"@, "i"@),
        ("\u{ed}"@, "i"@),
        ("\u{ee}"@, "i"@),
        ("\u{ef}"@, "i"@),
        ("\u{f0}"@, "o"@),
        ("\u{f1}"@, "n"@),
        ("\u{f2}"@, "o"@),
        ("\u{f3}"@, "o"@),
        ("\u{f4}"@, "o"@),
        ("\u{f5}"@, "o"@),
        ("\u{f6}"@, "o"@),
        ("\u{f8}"@, "o"@),
        ("\u{f9}"@, "u"@),
        ("\u{fa}"@, "u"@),
        ("\u{fb}"@, "u"@),
        ("\u{fd}"@, "y"@),
        ("\u{fe}"@, "b"@),
        ("\u{ff}"@, "y"@),
        ("\u{154}"@, "R"@),
        ("\u{155}"@, "r"@)
    ]
}

/// The plain spellings of symbols, ordinals and accented letters.
pub fn transliterations() -> (r: Vec<(&'static str, &'static str)>)
    ensures
        r@.map_values(|p: (&'static str, &'static str)| (p.0@, p.1@)) == transliteration_table(),
{
    let r = vec![
        ("*", "asterisk"),
        ("#", "hash"),
        ("1st", "first"),
        ("2nd", "second"),
        ("3rd", "third"),
        ("&", "and"),
        ("U.S.", "US"),
        ("\u{160}", "S"),
        ("\u{161}", "s"),
        ("\u{110}", "Dj"),
        ("\u{111}", "dj"),
        ("\u{17d}", "Z"),
        ("\u{17e}", "z"),
        ("\u{10c}", "C"),
        ("\u{10d}", "c"),
        ("\u{106}", "C"),
        ("\u{107}", "c"),
        ("\u{c0}", "A"),
        ("\u{c1}", "A"),
        ("\u{c2}", "A"),
        ("\u{c3}", "A"),
        ("\u{c4}", "A"),
        ("\u{c5}", "A"),
        ("\u{c6}", "A"),
        ("\u{c7}", "C"),
        ("\u{c8}", "E"),
        ("\u{c9}", "E"),
        ("\u{ca}", "E"),
        ("\u{cb}", "E"),
        ("\u{cc}", "I"),
        ("\u{cd}", "I"),
        ("\u{ce}", "I"),
        ("\u{cf}", "I"),
        ("\u{d1}", "N"),
        ("\u{d2}", "O"),
        ("\u{d3}", "O"),
        ("\u{d4}", "O"),
        ("\u{d5}", "O"),
        ("\u{d6}", "O"),
        ("\u{d8}", "O"),
        ("\u{d9}", "U"),
        ("\u{da}", "U"),
        ("\u{db}", "U"),
        ("\u{dc}", "U"),
        ("\u{dd}", "Y"),
        ("\u{de}", "B"),
        ("\u{df}", "Ss"),
        ("\u{e0}", "a"),
        ("\u{e1}", "a"),
        ("\u{e2}", "a"),
        ("\u{e3}", "a"),
        ("\u{e4}", "a"),
        ("\u{e5}", "a"),
        ("\u{e6}", "a"),
        ("\u{e7}", "c"),
        ("\u{e8}", "e"),
        ("\u{e9}", "e"),
        ("\u{ea}", "e"),
        ("\u{eb}", "e"),
        ("\u{ec}", "i"),
        ("\u{ed}", "i"),
        ("\u{ee}", "i"),
        ("\u{ef}", "i"),
        ("\u{f0}", "o"),
        ("\u{f1}", "n"),
        ("\u{f2}", "o"),
        ("\u{f3}", "o"),
        ("\u{f4}", "o"),
        ("\u{f5}", "o"),
        ("\u{f6}", "o"),
        ("\u{f8}", "o"),
        ("\u{f9}", "u"),
        ("\u{fa}", "u"),
        ("\u{fb}", "u"),
        ("\u{fd}", "y"),
        ("\u{fe}", "b"),
        ("\u{ff}", "y"),
        ("\u{154}", "R"),
        ("\u{155}", "r")
    ];
    assert(r@.map_values(|p: (&'static str, &'static str)| (p.0@, p.1@)) =~= transliteration_table());
    r
}

} // verus!

verus! {

/// `s` with each entry of `table`, from position `i` on, replaced in turn.
pub open spec fn transliterated(s: Seq<char>, table: Seq<(Seq<char>, Seq<char>)>, i: int) -> Seq<char>
    decreases table.len() - i,
{
    if i < 0 || i >= table.len() {
        s
    } else {
        transliterated(replaced(s, table[i].0, table[i].1), table, i + 1)
    }
}

/// A name with symbols and accented letters spelled plainly, then each run of characters that
/// are neither word characters nor digits replaced by one space.
pub open spec fn cleaned(s: Seq<char>) -> Seq<char> {
    let t = transliterated(s, transliteration_table(), 0);
    if regex_accepts("[^\\w\\d]+"@) {
        regex_replaced("[^\\w\\d]+"@, t, " "@)
    } else {
        t
    }
}

/// Replaces symbols and accented letters by plain spellings, then each run of characters that
/// are neither word characters nor digits by one space.
pub fn clean(inp: String) -> (r: String)
    ensures
        r@ == cleaned(inp@),
{
    let table = transliterations();
    let ghost tv = transliteration_table();
    let mut s = inp;
    let mut i: usize = 0;
    while i < table.len()
        invariant
            i <= table@.len(),
            table@.map_values(|p: (&'static str, &'static str)| (p.0@, p.1@)) == tv,
            transliterated(s@, tv, i as int) == transliterated(inp@, tv, 0),
        decreases table@.len() - i,
    {
        let (from, to) = table[i];
        proof {
            assert(tv[i as int] == (from@, to@));
        }
        s = replace_all(s.as_str(), from, to);
        i = i + 1;
    }
    match regex_replace_all("[^\\w\\d]+", s.as_str(), " ") {
        Some(x) => x,
        None => s,
    }
}

/// Removes every run of white space.
pub fn remove_spaces(inp: String) -> (r: String)
    ensures
        regex_accepts("\\s+"@) ==> r@ == regex_replaced("\\s+"@, inp@, ""@),
        !regex_accepts("\\s+"@) ==> r@ == inp@,
{
    match regex_replace_all("\\s+", inp.as_str(), "") {
        Some(x) => x,
        None => inp,
    }
}

/// Encloses a name in colons, as an alias is written in text.
pub fn make_alias(inp: String) -> (r: String)
    ensures
        r@ == seq![':'] + inp@ + seq![':'],
{
    let a = cat(":", inp.as_str());
    let r = cat(a.as_str(), ":");
    proof { reveal_strlit(":"); }
    r
}

/// A string without its leading and trailing spaces.
pub open spec fn trim_spaces(s: Seq<char>) -> Seq<char>
    decreases s.len(),
{
    if s.len() > 0 && s[0] == ' ' {
        trim_spaces(s.skip(1))
    } else if s.len() > 0 && s.last() == ' ' {
        trim_spaces(s.drop_last())
    } else {
        s
    }
}

/// A character of an identifier: a space as `_`, ASCII letters in upper (or lower) case.
pub open spec fn ident_char(c: char, upper: bool) -> char {
    if c == ' ' {
        '_'
    } else if upper && 'a' <= c && c <= 'z' {
        ((c as u32) - 32) as char
    } else if !upper && 'A' <= c && c <= 'Z' {
        ((c as u32) + 32) as char
    } else {
        c
    }
}

/// Space-separated words as an identifier.
pub open spec fn words_joined(s: Seq<char>, upper: bool) -> Seq<char> {
    trim_spaces(s).map_values(|c: char| ident_char(c, upper))
}

/// The constant name of a descriptive name.
pub open spec fn constant_name(s: Seq<char>) -> Seq<char> {
    words_joined(cleaned(s), true)
}

/// The module name of a descriptive name.
pub open spec fn module_name(s: Seq<char>) -> Seq<char> {
    words_joined(cleaned(s), false)
}

proof fn lemma_trim(s: Seq<char>, a: int, b: int)
    requires
        0 <= a <= b <= s.len(),
        forall|i: int| 0 <= i < a ==> s[i] == ' ',
        forall|i: int| b <= i < s.len() ==> s[i] == ' ',
        a < b ==> s[a] != ' ' && s[b - 1] != ' ',
    ensures
        trim_spaces(s) == s.subrange(a, b),
    decreases s.len(),
{
    if s.len() > 0 && s[0] == ' ' {
        if a == 0 {
            assert(b == 0);
        }
        let t = s.skip(1);
        let (a2, b2) = if a > 0 { (a - 1, b - 1) } else { (0, 0) };
        assert forall|i: int| 0 <= i < a2 implies t[i] == ' ' by {
            assert(t[i] == s[i + 1]);
        }
        assert forall|i: int| b2 <= i < t.len() implies t[i] == ' ' by {
            assert(t[i] == s[i + 1]);
        }
        lemma_trim(t, a2, b2);
        if a > 0 {
            assert(t.subrange(a2, b2) =~= s.subrange(a, b));
        } else {
            assert(t.subrange(a2, b2) =~= s.subrange(a, b));
        }
    } else if s.len() > 0 && s.last() == ' ' {
        assert(a == 0);
        assert(b < s.len());
        let t = s.drop_last();
        lemma_trim(t, a, b);
        assert(t.subrange(a, b) =~= s.subrange(a, b));
    } else {
        if s.len() > 0 {
            assert(a == 0);
            assert(b == s.len());
        }
        assert(s.subrange(a, b) =~= s);
    }
}

/// Turns space-separated words into an identifier: outer spaces dropped, inner spaces as `_`,
/// ASCII letters upper-case (or lower-case).
fn join_words(s: &str, upper: bool) -> (r: String)
    ensures
        r@ == words_joined(s@, upper),
{
    let n = s.unicode_len();
    let mut a: usize = 0;
    while a < n && s.get_char(a) == ' '
        invariant
            n == s@.len(),
            a <= n,
            forall|i: int| 0 <= i < a ==> s@[i] == ' ',
        decreases n - a,
    {
        a = a + 1;
    }
    let mut b: usize = n;
    while b > a && s.get_char(b - 1) == ' '
        invariant
            n == s@.len(),
            a <= b <= n,
            forall|i: int| b <= i < n ==> s@[i] == ' ',
        decreases b,
    {
        b = b - 1;
    }
    proof {
        lemma_trim(s@, a as int, b as int);
    }
    let mut out = String::new();
    let mut i: usize = a;
    while i < b
        invariant
            n == s@.len(),
            a <= i <= b <= n,
            out@ == s@.subrange(a as int, i as int).map_values(|c: char| ident_char(c, upper)),
        decreases b - i,
    {
        let c = s.get_char(i);
        let v: u32 = if c == ' ' {
            '_' as u32
        } else if upper && 'a' <= c && c <= 'z' {
            c as u32 - 32
        } else if !upper && 'A' <= c && c <= 'Z' {
            c as u32 + 32
        } else {
            c as u32
        };
        proof {
            vstd::utf8::char_u32_cast(c, c as u32);
            vstd::utf8::char_u32_cast('_', '_' as u32);
        }
        match char_from_u32(v) {
            Some(x) => {
                proof {
                    vstd::utf8::char_u32_cast(x, x as u32);
                    assert(x == ident_char(c, upper));
                }
                push_char(&mut out, x);
            },
            None => {
                proof {
                    vstd::utf8::char_is_scalar(c);
                    vstd::utf8::char_is_scalar('_');
                }
                push_char(&mut out, c);
            },
        }
        proof {
            assert(s@.subrange(a as int, i + 1).map_values(|c: char| ident_char(c, upper))
                =~= s@.subrange(a as int, i as int).map_values(|c: char| ident_char(c, upper)).push(ident_char(c, upper)));
        }
        i = i + 1;
    }
    out
}

/// The constant name for a descriptive name: cleaned, words joined by `_`, in upper case.
pub fn generate_constant(name: &str) -> (r: String)
    ensures
        r@ == constant_name(name@),
{
    let c = clean(name.to_string());
    join_words(c.as_str(), true)
}

/// The module name for a descriptive name: cleaned, words joined by `_`, in lower case.
pub fn generate_module(name: &str) -> (r: String)
    ensures
        r@ == module_name(name@),
{
    let c = clean(name.to_string());
    join_words(c.as_str(), false)
}

} // verus!
