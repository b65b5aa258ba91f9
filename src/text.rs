//! Emoji aliases (`:crab:`) and their replacement in text.
use vstd::prelude::*;
use crate::attributes::Version;
use crate::emojis::Emoji;
use crate::flags::ascii_alnum;
use crate::strs::str_eq;

verus! {

/// Aliases and the graphemes they name.
pub open spec fn alias_table() -> Seq<(Seq<char>, Seq<char>)> {
    seq![
        ("+1"@, "\u{1f44d}"@),
        ("-1"@, "\u{1f44e}"@),
        ("100"@, "\u{1f4af}"@),
        ("alien_monster"@, "\u{1f47e}"@),
        ("art"@, "\u{1f3a8}"@),
        ("artist_palette"@, "\u{1f3a8}"@),
        ("cat"@, "\u{1f408}"@),
        ("crab"@, "\u{1f980}"@),
        ("eyes"@, "\u{1f440}"@),
        ("fire"@, "\u{1f525}"@),
        ("flag_ecuador"@, "\u{1f1ea}\u{1f1e8}"@),
        ("flag_england"@, "\u{1f3f4}\u{e0067}\u{e0062}\u{e0065}\u{e006e}\u{e0067}\u{e007f}"@),
        ("flag_germany"@, "\u{1f1e9}\u{1f1ea}"@),
        ("grinning"@, "\u{1f600}"@),
        ("grinning_face"@, "\u{1f600}"@),
        ("heart"@, "\u{2764}\u{fe0f}"@),
        ("hundred_points"@, "\u{1f4af}"@),
        ("party_popper"@, "\u{1f389}"@),
        ("red_heart"@, "\u{2764}\u{fe0f}"@),
        ("rocket"@, "\u{1f680}"@),
        ("space_invader"@, "\u{1f47e}"@),
        ("sparkles"@, "\u{2728}"@),
        ("tada"@, "\u{1f389}"@),
        ("technologist"@, "\u{1f9d1}\u{200d}\u{1f4bb}"@),
        ("thumbs_down"@, "\u{1f44e}"@),
        ("thumbs_up"@, "\u{1f44d}"@),
        ("thumbsdown"@, "\u{1f44e}"@),
        ("thumbsup"@, "\u{1f44d}"@),
        ("wave"@, "\u{1f44b}"@),
        ("waving_hand"@, "\u{1f44b}"@)
    ]
}

/// The alias names and graphemes of a table of aliases.
pub open spec fn table_view(t: Seq<(&'static str, Emoji)>) -> Seq<(Seq<char>, Seq<char>)> {
    t.map_values(|e: (&'static str, Emoji)| (e.0@, e.1.grapheme@))
}

/// The built-in aliases: GitHub-style short names and the constant names in lower case.
pub fn aliases() -> (r: Vec<(&'static str, Emoji)>)
    ensures
        table_view(r@) == alias_table(),
{
    let r = vec![
        ("+1", Emoji { name: "thumbs up", since: Version(0, 6), grapheme: "\u{1f44d}" }),
        ("-1", Emoji { name: "thumbs down", since: Version(0, 6), grapheme: "\u{1f44e}" }),
        ("100", Emoji { name: "hundred points", since: Version(0, 6), grapheme: "\u{1f4af}" }),
        ("alien_monster", Emoji { name: "alien monster", since: Version(0, 6), grapheme: "\u{1f47e}" }),
        ("art", Emoji { name: "artist palette", since: Version(0, 6), grapheme: "\u{1f3a8}" }),
        ("artist_palette", Emoji { name: "artist palette", since: Version(0, 6), grapheme: "\u{1f3a8}" }),
        ("cat", Emoji { name: "cat", since: Version(0, 7), grapheme: "\u{1f408}" }),
        ("crab", Emoji { name: "crab", since: Version(1, 0), grapheme: "\u{1f980}" }),
        ("eyes", Emoji { name: "eyes", since: Version(0, 6), grapheme: "\u{1f440}" }),
        ("fire", Emoji { name: "fire", since: Version(0, 6), grapheme: "\u{1f525}" }),
        ("flag_ecuador", Emoji { name: "flag: Ecuador", since: Version(2, 0), grapheme: "\u{1f1ea}\u{1f1e8}" }),
        ("flag_england", Emoji { name: "flag: England", since: Version(5, 0), grapheme: "\u{1f3f4}\u{e0067}\u{e0062}\u{e0065}\u{e006e}\u{e0067}\u{e007f}" }),
        ("flag_germany", Emoji { name: "flag: Germany", since: Version(2, 0), grapheme: "\u{1f1e9}\u{1f1ea}" }),
        ("grinning", Emoji { name: "grinning face", since: Version(1, 0), grapheme: "\u{1f600}" }),
        ("grinning_face", Emoji { name: "grinning face", since: Version(1, 0), grapheme: "\u{1f600}" }),
        ("heart", Emoji { name: "red heart", since: Version(0, 6), grapheme: "\u{2764}\u{fe0f}" }),
        ("hundred_points", Emoji { name: "hundred points", since: Version(0, 6), grapheme: "\u{1f4af}" }),
        ("party_popper", Emoji { name: "party popper", since: Version(0, 6), grapheme: "\u{1f389}" }),
        ("red_heart", Emoji { name: "red heart", since: Version(0, 6), grapheme: "\u{2764}\u{fe0f}" }),
        ("rocket", Emoji { name: "rocket", since: Version(0, 6), grapheme: "\u{1f680}" }),
        ("space_invader", Emoji { name: "alien monster", since: Version(0, 6), grapheme: "\u{1f47e}" }),
        ("sparkles", Emoji { name: "sparkles", since: Version(0, 6), grapheme: "\u{2728}" }),
        ("tada", Emoji { name: "party popper", since: Version(0, 6), grapheme: "\u{1f389}" }),
        ("technologist", Emoji { name: "technologist", since: Version(12, 1), grapheme: "\u{1f9d1}\u{200d}\u{1f4bb}" }),
        ("thumbs_down", Emoji { name: "thumbs down", since: Version(0, 6), grapheme: "\u{1f44e}" }),
        ("thumbs_up", Emoji { name: "thumbs up", since: Version(0, 6), grapheme: "\u{1f44d}" }),
        ("thumbsdown", Emoji { name: "thumbs down", since: Version(0, 6), grapheme: "\u{1f44e}" }),
        ("thumbsup", Emoji { name: "thumbs up", since: Version(0, 6), grapheme: "\u{1f44d}" }),
        ("wave", Emoji { name: "waving hand", since: Version(0, 6), grapheme: "\u{1f44b}" }),
        ("waving_hand", Emoji { name: "waving hand", since: Version(0, 6), grapheme: "\u{1f44b}" })
    ];
    assert(table_view(r@) =~= alias_table());
    r
}

} // verus!

verus! {

/// Whether a character may stand in an alias.
pub open spec fn alias_char(c: char) -> bool {
    ascii_alnum(c) || c == '_' || c == '+' || c == '-'
}

/// The grapheme of the first entry of `t` named `name`.
pub open spec fn lookup(t: Seq<(Seq<char>, Seq<char>)>, name: Seq<char>) -> Option<Seq<char>>
    decreases t.len(),
{
    if t.len() == 0 {
        None
    } else if t[0].0 == name {
        Some(t[0].1)
    } else {
        lookup(t.skip(1), name)
    }
}

/// The first position from `i` on that holds a colon or a character that no alias has, or the
/// length of `s`.
pub open spec fn scan_end(s: Seq<char>, i: int) -> int
    decreases s.len() - i,
{
    if i < 0 || i >= s.len() {
        s.len() as int
    } else if s[i] == ':' || !alias_char(s[i]) {
        i
    } else {
        scan_end(s, i + 1)
    }
}

/// The first position from `i` on that holds a colon, or the length of `s`.
pub open spec fn colon_from(s: Seq<char>, i: int) -> int
    decreases s.len() - i,
{
    if i < 0 || i >= s.len() {
        s.len() as int
    } else if s[i] == ':' {
        i
    } else {
        colon_from(s, i + 1)
    }
}

/// The text from `start` to the next colon at or after `from`, and where to go on.
pub open spec fn until_colon(s: Seq<char>, start: int, from: int) -> (Option<Seq<char>>, int, bool) {
    let c = colon_from(s, from);
    if c < s.len() {
        (Some(s.subrange(start, c)), c + 1, true)
    } else {
        (Some(s.subrange(start, s.len() as int)), s.len() as int, false)
    }
}

/// One step of the scan of `s` at position `pos`: the next fragment (plain text or the grapheme
/// of an alias), the next position, and whether a colon that may open an alias precedes it.
pub open spec fn step(s: Seq<char>, pos: int, frag: bool, t: Seq<(Seq<char>, Seq<char>)>) -> (Option<Seq<char>>, int, bool) {
    if frag {
        let start = pos - 1;
        let k = scan_end(s, pos);
        if k >= s.len() {
            (Some(s.subrange(start, s.len() as int)), s.len() as int, false)
        } else if s[k] == ':' {
            match (if k > pos { lookup(t, s.subrange(pos, k)) } else { None }) {
                Some(g) => (Some(g), k + 1, false),
                None => (Some(s.subrange(start, k)), k + 1, true),
            }
        } else {
            until_colon(s, start, pos)
        }
    } else if pos < s.len() {
        until_colon(s, pos, pos)
    } else {
        (None, pos, frag)
    }
}

/// The text that the scan gives from a state on, within `fuel` steps.
pub open spec fn render_from(s: Seq<char>, pos: int, frag: bool, t: Seq<(Seq<char>, Seq<char>)>, fuel: nat) -> Seq<char>
    decreases fuel,
{
    if fuel == 0 {
        Seq::empty()
    } else {
        let (o, p, f) = step(s, pos, frag, t);
        match o {
            None => Seq::empty(),
            Some(x) => x + render_from(s, p, f, t, (fuel - 1) as nat),
        }
    }
}

/// How much work is left to the scan.
pub open spec fn measure(s: Seq<char>, pos: int, frag: bool) -> nat {
    ((s.len() - pos) * 2 + if frag { 1int } else { 0 }) as nat
}

/// The text with each alias of `t` replaced by its grapheme.
pub open spec fn rendered(s: Seq<char>, t: Seq<(Seq<char>, Seq<char>)>) -> Seq<char> {
    render_from(s, 0, false, t, (measure(s, 0, false) + 1) as nat)
}

proof fn lemma_scan_end(s: Seq<char>, i: int)
    requires
        0 <= i <= s.len(),
    ensures
        i <= scan_end(s, i) <= s.len(),
        forall|j: int| i <= j < scan_end(s, i) ==> s[j] != ':' && alias_char(s[j]),
        scan_end(s, i) < s.len() ==> (s[scan_end(s, i)] == ':' || !alias_char(s[scan_end(s, i)])),
    decreases s.len() - i,
{
    if i < s.len() && !(s[i] == ':' || !alias_char(s[i])) {
        lemma_scan_end(s, i + 1);
    }
}

proof fn lemma_colon_from(s: Seq<char>, i: int)
    requires
        0 <= i <= s.len(),
    ensures
        i <= colon_from(s, i) <= s.len(),
        forall|j: int| i <= j < colon_from(s, i) ==> s[j] != ':',
        colon_from(s, i) < s.len() ==> s[colon_from(s, i)] == ':',
    decreases s.len() - i,
{
    if i < s.len() && s[i] != ':' {
        lemma_colon_from(s, i + 1);
    }
}

/// The scan makes progress: each fragment leaves less work.
proof fn lemma_step_progress(s: Seq<char>, pos: int, frag: bool, t: Seq<(Seq<char>, Seq<char>)>)
    requires
        0 <= pos <= s.len(),
        frag ==> pos > 0,
        step(s, pos, frag, t).0 is Some,
    ensures
        0 <= step(s, pos, frag, t).1 <= s.len(),
        step(s, pos, frag, t).2 ==> step(s, pos, frag, t).1 > 0,
        measure(s, step(s, pos, frag, t).1, step(s, pos, frag, t).2) < measure(s, pos, frag),
{
    lemma_scan_end(s, pos);
    lemma_colon_from(s, pos);
}

fn lookup_alias(t: &Vec<(&'static str, Emoji)>, name: &str) -> (r: Option<usize>)
    ensures
        match r {
            Some(i) => i < t@.len() && lookup(table_view(t@), name@) == Some(t@[i as int].1.grapheme@),
            None => lookup(table_view(t@), name@) is None,
        },
{
    let mut i: usize = 0;
    assert(table_view(t@).skip(0) =~= table_view(t@));
    while i < t.len()
        invariant
            i <= t@.len(),
            lookup(table_view(t@), name@) == lookup(table_view(t@).skip(i as int), name@),
        decreases t@.len() - i,
    {
        let ghost rest = table_view(t@).skip(i as int);
        assert(rest[0] == (t@[i as int].0@, t@[i as int].1.grapheme@));
        if str_eq(t[i].0, name) {
            return Some(i);
        }
        assert(rest.skip(1) =~= table_view(t@).skip(i + 1));
        i = i + 1;
    }
    None
}

/// Parses a colon-fenced alias (`:crab:`) into its emoji.
pub fn parse_alias(inp: &str) -> (r: Option<Emoji>)
    ensures
        ({
            let s = inp@;
            let ok = s.len() > 2 && s[0] == ':' && s[s.len() - 1] == ':' && forall|i: int| 0 <= i < s.len() ==> (#[trigger] s[i] as u32) < 128;
            match r {
                Some(e) => ok && lookup(alias_table(), s.subrange(1, s.len() - 1)) == Some(e.grapheme@),
                None => !ok || lookup(alias_table(), s.subrange(1, s.len() - 1)) is None,
            }
        }),
{
    let n = inp.unicode_len();
    if n <= 2 || inp.get_char(0) != ':' || inp.get_char(n - 1) != ':' {
        return None;
    }
    let mut i: usize = 0;
    while i < n
        invariant
            n == inp@.len(),
            i <= n,
            forall|j: int| 0 <= j < i ==> (#[trigger] inp@[j] as u32) < 128,
        decreases n - i,
    {
        if inp.get_char(i) as u32 >= 128 {
            return None;
        }
        i = i + 1;
    }
    let table = aliases();
    let name = inp.substring_char(1, n - 1);
    match lookup_alias(&table, name) {
        Some(k) => Some(table[k].1),
        None => None,
    }
}

/// Splits a text into fragments: plain text, and the graphemes of the aliases it holds.
pub struct EmojiTextParser<'a> {
    input: &'a str,
    next_pos: usize,
    emoji_fragment_start: bool,
    table: Vec<(&'static str, Emoji)>,
}

impl<'a> EmojiTextParser<'a> {
    /// The text being parsed.
    pub closed spec fn text(&self) -> Seq<char> {
        self.input@
    }

    /// The position of the next fragment.
    pub closed spec fn pos(&self) -> int {
        self.next_pos as int
    }

    /// Whether a colon that may open an alias precedes the next fragment.
    pub closed spec fn in_fragment(&self) -> bool {
        self.emoji_fragment_start
    }

    /// The aliases looked up.
    pub closed spec fn aliases(&self) -> Seq<(Seq<char>, Seq<char>)> {
        table_view(self.table@)
    }

    /// The state is one that the scan reaches.
    pub closed spec fn wf(&self) -> bool {
        &&& self.next_pos <= self.input@.len()
        &&& self.emoji_fragment_start ==> self.next_pos > 0
    }

    /// A parser at the start of `input`, with the built-in aliases.
    pub fn new(input: &'a str) -> (r: Self)
        ensures
            r.wf(),
            r.text() == input@,
            r.pos() == 0,
            !r.in_fragment(),
            r.aliases() == alias_table(),
    {
        EmojiTextParser { input, next_pos: 0, emoji_fragment_start: false, table: aliases() }
    }

    /// The next fragment, or none at the end of the text.
    pub fn next(&mut self) -> (r: Option<&'a str>)
        requires
            old(self).wf(),
        ensures
            final(self).wf(),
            final(self).text() == old(self).text(),
            final(self).aliases() == old(self).aliases(),
            ({
                let (o, p, f) = step(old(self).text(), old(self).pos(), old(self).in_fragment(), old(self).aliases());
                &&& final(self).pos() == p
                &&& final(self).in_fragment() == f
                &&& match (r, o) {
                    (Some(x), Some(y)) => x@ == y,
                    (None, None) => true,
                    _ => false,
                }
            }),
    {
        let ghost s = self.input@;
        let n = self.input.unicode_len();
        let pos = self.next_pos;
        proof {
            lemma_scan_end(s, pos as int);
            lemma_colon_from(s, pos as int);
        }
        if self.emoji_fragment_start {
            let start = pos - 1;
            let mut k: usize = pos;
            while k < n && self.input.get_char(k) != ':' && alias_char_exec(self.input.get_char(k))
                invariant
                    n == s.len(),
                    s == self.input@,
                    pos <= k <= n,
                    scan_end(s, pos as int) == scan_end(s, k as int),
                decreases n - k,
            {
                k = k + 1;
            }
            if k >= n {
                self.emoji_fragment_start = false;
                self.next_pos = n;
                return Some(self.input.substring_char(start, n));
            }
            if self.input.get_char(k) == ':' {
                if k > pos {
                    let name = self.input.substring_char(pos, k);
                    match lookup_alias(&self.table, name) {
                        Some(i) => {
                            self.emoji_fragment_start = false;
                            self.next_pos = k + 1;
                            return Some(self.table[i].1.grapheme);
                        },
                        None => {},
                    }
                }
                self.emoji_fragment_start = true;
                self.next_pos = k + 1;
                return Some(self.input.substring_char(start, k));
            }
            self.text_until_next_colon(start, pos)
        } else if pos < n {
            self.text_until_next_colon(pos, pos)
        } else {
            None
        }
    }

    fn text_until_next_colon(&mut self, start: usize, from: usize) -> (r: Option<&'a str>)
        requires
            start <= from <= old(self).input@.len(),
        ensures
            final(self).input == old(self).input,
            final(self).table == old(self).table,
            ({
                let (o, p, f) = until_colon(old(self).input@, start as int, from as int);
                &&& final(self).next_pos as int == p
                &&& final(self).emoji_fragment_start == f
                &&& match (r, o) {
                    (Some(x), Some(y)) => x@ == y,
                    _ => false,
                }
            }),
    {
        let ghost s = self.input@;
        let n = self.input.unicode_len();
        proof { lemma_colon_from(s, from as int); }
        let mut c: usize = from;
        while c < n && self.input.get_char(c) != ':'
            invariant
                n == s.len(),
                s == self.input@,
                from <= c <= n,
                colon_from(s, from as int) == colon_from(s, c as int),
            decreases n - c,
        {
            c = c + 1;
        }
        if c < n {
            self.emoji_fragment_start = true;
            self.next_pos = c + 1;
            Some(self.input.substring_char(start, c))
        } else {
            self.emoji_fragment_start = false;
            self.next_pos = n;
            Some(self.input.substring_char(start, n))
        }
    }

    /// Whether a character may stand in an alias.
    pub fn is_valid_emoji_char(c: char) -> (r: bool)
        ensures
            r == alias_char(c),
    {
        alias_char_exec(c)
    }
}

fn alias_char_exec(c: char) -> (r: bool)
    ensures
        r == alias_char(c),
{
    ('a' <= c && c <= 'z') || ('A' <= c && c <= 'Z') || ('0' <= c && c <= '9') || c == '_' || c == '+' || c == '-'
}

/// Replaces each alias (`:crab:`) in `text` by its grapheme; what is no alias stays as it is.
pub fn parse_text(text: &str) -> (r: String)
    ensures
        r@ == rendered(text@, alias_table()),
{
    let mut parser = EmojiTextParser::new(text);
    let ghost s = text@;
    let ghost t = alias_table();
    let mut out = String::new();
    let ghost mut fuel: nat = (measure(s, 0, false) + 1) as nat;
    loop
        invariant
            s == text@,
            t == alias_table(),
            parser.wf(),
            parser.text() == s,
            parser.aliases() == t,
            0 <= parser.pos() <= s.len(),
            fuel > measure(s, parser.pos(), parser.in_fragment()),
            out@ + render_from(s, parser.pos(), parser.in_fragment(), t, fuel) == rendered(s, t),
        decreases measure(s, parser.pos(), parser.in_fragment()),
    {
        let ghost p0 = parser.pos();
        let ghost f0 = parser.in_fragment();
        match parser.next() {
            None => {
                assert(render_from(s, p0, f0, t, fuel) =~= Seq::<char>::empty());
                assert(out@ + Seq::<char>::empty() =~= out@);
                return out;
            },
            Some(x) => {
                proof {
                    lemma_step_progress(s, p0, f0, t);
                    assert(out@ + x@ + render_from(s, parser.pos(), parser.in_fragment(), t, (fuel - 1) as nat)
                        =~= out@ + render_from(s, p0, f0, t, fuel));
                    fuel = (fuel - 1) as nat;
                }
                out.append(x);
            },
        }
    }
}

} // verus!
