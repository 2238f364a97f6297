//! Native helpers for a terminal application.
//!
//! The `keys` module turns raw terminal input into canonical key names and
//! decides whether input meets a key specification. Terminals report one
//! keypress in several incompatible encodings: single control bytes, legacy
//! escape sequences, xterm's modifyOtherKeys form and the Kitty keyboard
//! protocol. Every decoder has a mathematical model over `Seq<u8>` and is
//! proved to agree with it on all inputs; none of them panics, whatever the
//! bytes.
//!
//! The `work` module keeps the profile of the regions of work that a
//! program runs: a stack of open regions, a ring of finished samples, and
//! their totals in the folded format of flame graphs.
//!
//! The `shell` module holds the rules of a shell session that can be
//! stated without a shell, and `text` the handling of characters that the
//! others share.

pub mod keys;
pub mod shell;
pub mod text;
pub mod work;
