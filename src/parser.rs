//! The text parser, under its older path.
pub use crate::text::EmojiTextParser;
