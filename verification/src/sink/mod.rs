//! Trees that a tree builder can build.

pub mod common;
pub mod owned_dom;
