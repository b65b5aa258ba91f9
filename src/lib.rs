//! Emoji data, and the generator of customizable emoji constants.
//!
//! The core is the qualification of person emojis: variants that differ in hair, people and
//! skin tone are grouped by attribute keys, checked against recognised complete sets of
//! values one dimension at a time, and collapsed into trees of accessors. A set of variants
//! that no recognised set fits is split into several records instead. Around that: reading
//! the attribute words of feed names, merging related records of a subgroup, the generated
//! source text, alias tables, and at run time attribute composers, flags and the replacement
//! of `:alias:` names in text.
use vstd::prelude::*;

pub mod strs;
pub mod attributes;
pub mod groups;
pub mod tree;
pub mod qualifier;
pub mod people;
pub mod strutil;
pub mod parsing;
pub mod emoji;
pub mod render;
pub mod emojis;
pub mod flags;
pub mod text;
pub mod parser;
pub mod gemoji;
pub mod aliases;
