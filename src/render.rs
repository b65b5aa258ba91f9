//! Documentation snippets for the generated constants.
use vstd::prelude::*;
use crate::strs::{cat, hex, hex_string};

verus! {

/// `U+XXXX` for each character of `s`, separated by spaces.
pub open spec fn code_points(s: Seq<char>) -> Seq<char>
    decreases s.len(),
{
    if s.len() == 0 {
        Seq::empty()
    } else if s.len() == 1 {
        "U+"@ + hex(s[0] as u32 as nat, 4)
    } else {
        "U+"@ + hex(s[0] as u32 as nat, 4) + " "@ + code_points(s.skip(1))
    }
}

fn code_points_of(s: &str) -> (r: String)
    ensures
        r@ == code_points(s@),
{
    let n = s.unicode_len();
    if n == 0 {
        return String::new();
    }
    let mut i: usize = n;
    let mut acc = String::new();
    let mut first = true;
    while i > 0
        invariant
            n == s@.len(),
            n > 0,
            i <= n,
            first == (i == n),
            !first ==> acc@ == code_points(s@.skip(i as int)),
        decreases i,
    {
        let c = s.get_char(i - 1);
        let h = hex_string(c as u64, 4);
        let one = cat("U+", h.as_str());
        proof {
            let t = s@.skip(i - 1);
            assert(t.skip(1) =~= s@.skip(i as int));
            assert(t[0] == c);
        }
        if first {
            acc = one;
            proof {
                assert(s@.skip(i - 1).len() == 1);
            }
        } else {
            let a = cat(one.as_str(), " ");
            acc = cat(a.as_str(), acc.as_str());
        }
        first = false;
        i = i - 1;
    }
    assert(s@.skip(0) =~= s@);
    acc
}

/// A grapheme followed by its code points, as in `👋 (`U+1F44B`)`.
pub open spec fn render_text(g: Seq<char>) -> Seq<char> {
    g + " (`"@ + code_points(g) + "`)"@
}

/// A grapheme followed by its code points.
pub fn emoji_render_text(grapheme: &str) -> (r: String)
    ensures
        r@ == render_text(grapheme@),
{
    let codes = code_points_of(grapheme);
    let a = cat(grapheme, " (`");
    let b = cat(a.as_str(), codes.as_str());
    cat(b.as_str(), "`)")
}

/// The documentation of an example section around `content`, importing `identifier`.
pub open spec fn example_section(content: Seq<char>, identifier: Seq<char>) -> Seq<char> {
    "#[doc=\"# Examples\"] #[doc=\"```\"]\n#[doc=\"use emojic::flat::"@ + identifier
        + ";\"]#[doc=\"use emojic::Tone;\"]#[doc=\"use emojic::Gender;\"]#[doc=\"use emojic::Hair;\"]#[doc=\"use emojic::Pair;\"] #[doc=\"\"]\n"@
        + content + "\n#[doc=\"```\"]"@
}

/// The documentation of an example section around `content`, importing `identifier`.
pub fn emoji_render_example_section(content: &str, identifier: &str) -> (r: String)
    ensures
        r@ == example_section(content@, identifier@),
{
    let a = cat("#[doc=\"# Examples\"] #[doc=\"```\"]\n#[doc=\"use emojic::flat::", identifier);
    let b = cat(a.as_str(), ";\"]#[doc=\"use emojic::Tone;\"]#[doc=\"use emojic::Gender;\"]#[doc=\"use emojic::Hair;\"]#[doc=\"use emojic::Pair;\"] #[doc=\"\"]\n");
    let c = cat(b.as_str(), content);
    cat(c.as_str(), "\n#[doc=\"```\"]")
}

/// The documentation lines that print the emoji at `accessor` and check it is `grapheme`.
pub open spec fn single_example(accessor: Seq<char>, grapheme: Seq<char>) -> Seq<char> {
    "#[doc=\"println!(\\\"{}\\\", "@ + accessor + "); // "@ + render_text(grapheme)
        + "\"] #[doc=\"# assert_eq!("@ + accessor + ".to_string().as_str(), \\\""@ + grapheme + "\\\");\"]"@
}

/// The documentation lines that print the emoji at `accessor` and check it is `grapheme`.
pub fn emoji_render_single_example(accessor: &str, grapheme: &str) -> (r: String)
    ensures
        r@ == single_example(accessor@, grapheme@),
{
    let text = emoji_render_text(grapheme);
    let a = cat("#[doc=\"println!(\\\"{}\\\", ", accessor);
    let b = cat(a.as_str(), "); // ");
    let c = cat(b.as_str(), text.as_str());
    let d = cat(c.as_str(), "\"] #[doc=\"# assert_eq!(");
    let e = cat(d.as_str(), accessor);
    let f = cat(e.as_str(), ".to_string().as_str(), \\\"");
    let g = cat(f.as_str(), grapheme);
    cat(g.as_str(), "\\\");\"]")
}

} // verus!
