//! Strings, atoms and character sets that the parser stages share.

pub mod atom;
pub mod maybe_owned;
pub mod namespace;
pub mod smallcharset;
pub mod str;
