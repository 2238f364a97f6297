//! Decoding of terminal key input and matching against key specifications.
//!
//! `parse_key` names raw input; `matches_key` decides whether raw input
//! meets a key specification such as `ctrl+alt+delete`. Both accept every
//! input, and both are pure functions of their arguments.

pub mod codes;
pub mod digits;
pub mod keyspec;
pub mod kitty;
pub mod laws;
pub mod legacy;
pub mod matcher;
pub mod modify_other_keys;
pub mod names;
pub mod parse;

pub use self::kitty::{
    matches_kitty_sequence, parse_kitty_sequence, parse_kitty_sequence_napi, ParsedKittyResult,
    ParsedKittySequence,
};
pub use self::legacy::matches_legacy_sequence;
pub use self::matcher::{matches_key, matches_key_inner};
pub use self::parse::{parse_key, parse_key_inner};
