//! Flags built from country and region codes.
use vstd::prelude::*;
use crate::strs::{char_from_u32, push_char, scalar};

verus! {

/// Whether a character is an ASCII letter.
pub open spec fn ascii_letter(c: char) -> bool {
    ('a' <= c && c <= 'z') || ('A' <= c && c <= 'Z')
}

/// Whether a character is an ASCII letter or digit.
pub open spec fn ascii_alnum(c: char) -> bool {
    ascii_letter(c) || ('0' <= c && c <= '9')
}

/// The code of the upper-case form of an ASCII letter.
pub open spec fn upper_code(c: char) -> u32 {
    if 'a' <= c && c <= 'z' { (c as u32 - 32) as u32 } else { c as u32 }
}

/// The code of the lower-case form of an ASCII letter or digit.
pub open spec fn lower_code(c: char) -> u32 {
    if 'A' <= c && c <= 'Z' { (c as u32 + 32) as u32 } else { c as u32 }
}

/// The regional indicator code of an ASCII letter.
pub open spec fn indicator_code(c: char) -> u32 {
    (upper_code(c) - 0x41 + 0x1F1E6) as u32
}

/// The tag code of an ASCII letter or digit.
pub open spec fn tag_code(c: char) -> u32 {
    (lower_code(c) + 0xE0000) as u32
}

/// Builds the flag of a two-letter country code: each letter, in either case, as its regional
/// indicator symbol.
pub fn country_flag(country_code: &str) -> (r: String)
    requires
        country_code@.len() == 2,
        forall|i: int| 0 <= i < country_code@.len() ==> ascii_letter(#[trigger] country_code@[i]),
    ensures
        r@.len() == 2,
        forall|i: int| 0 <= i < 2 ==> (#[trigger] r@[i]) as u32 == indicator_code(country_code@[i]),
{
    let mut out = String::new();
    let mut i: usize = 0;
    while i < 2
        invariant
            i <= 2,
            country_code@.len() == 2,
            forall|k: int| 0 <= k < 2 ==> ascii_letter(#[trigger] country_code@[k]),
            out@.len() == i,
            forall|k: int| 0 <= k < i ==> (#[trigger] out@[k]) as u32 == indicator_code(country_code@[k]),
        decreases 2 - i,
    {
        let c = country_code.get_char(i);
        let up: u32 = if 'a' <= c && c <= 'z' { c as u32 - 32 } else { c as u32 };
        let code: u32 = up - 0x41 + 0x1F1E6;
        assert(scalar(code));
        match char_from_u32(code) {
            Some(f) => push_char(&mut out, f),
            None => {},
        }
        i = i + 1;
    }
    out
}

/// Builds the flag of a two-letter country code; see [`country_flag`].
pub fn contry_flag(country_code: &str) -> (r: String)
    requires
        country_code@.len() == 2,
        forall|i: int| 0 <= i < country_code@.len() ==> ascii_letter(#[trigger] country_code@[i]),
    ensures
        r@.len() == 2,
        forall|i: int| 0 <= i < 2 ==> (#[trigger] r@[i]) as u32 == indicator_code(country_code@[i]),
{
    country_flag(country_code)
}

/// The characters of a regional code that stand in its flag: its letters and digits.
pub open spec fn code_chars(s: Seq<char>) -> Seq<char> {
    s.filter(|c: char| ascii_alnum(c))
}

/// Builds the flag of a region code such as `GB-ENG`: a black flag, each letter (in lower case)
/// and digit as a tag character, and the cancel tag; dashes are left out.
pub fn regional_flag(regional_code: &str) -> (r: String)
    requires
        forall|i: int| 0 <= i < regional_code@.len() ==> ascii_alnum(#[trigger] regional_code@[i]) || regional_code@[i] == '-',
    ensures
        r@.len() == code_chars(regional_code@).len() + 2,
        r@[0] as u32 == 0x1F3F4,
        r@[r@.len() - 1] as u32 == 0xE007F,
        forall|i: int| 0 <= i < code_chars(regional_code@).len() ==> (#[trigger] r@[i + 1]) as u32 == tag_code(code_chars(regional_code@)[i]),
{
    let n = regional_code.unicode_len();
    let mut out = String::new();
    match char_from_u32(0x1F3F4) {
        Some(f) => push_char(&mut out, f),
        None => {},
    }
    let ghost s = regional_code@;
    let mut i: usize = 0;
    proof {
        reveal(Seq::filter);
        assert(s.take(0).filter(|c: char| ascii_alnum(c)) =~= Seq::<char>::empty());
    }
    while i < n
        invariant
            n == s.len(),
            s == regional_code@,
            i <= n,
            out@.len() == code_chars(s.take(i as int)).len() + 1,
            out@[0] as u32 == 0x1F3F4,
            forall|k: int| 0 <= k < code_chars(s.take(i as int)).len() ==> (#[trigger] out@[k + 1]) as u32 == tag_code(code_chars(s.take(i as int))[k]),
        decreases n - i,
    {
        let c = regional_code.get_char(i);
        proof {
            assert(s.take(i + 1) =~= s.take(i as int).push(c));
            reveal(Seq::filter);
            assert(s.take(i + 1).drop_last() =~= s.take(i as int));
            assert(s.take(i + 1).last() == c);
        }
        if ('a' <= c && c <= 'z') || ('A' <= c && c <= 'Z') || ('0' <= c && c <= '9') {
            let low: u32 = if 'A' <= c && c <= 'Z' { c as u32 + 32 } else { c as u32 };
            let code: u32 = low + 0xE0000;
            assert(scalar(code));
            match char_from_u32(code) {
                Some(t) => push_char(&mut out, t),
                None => {},
            }
        }
        i = i + 1;
    }
    assert(s.take(n as int) =~= s);
    match char_from_u32(0xE007F) {
        Some(f) => push_char(&mut out, f),
        None => {},
    }
    out
}

} // verus!
