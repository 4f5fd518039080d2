//! A tokenizer for HTML5, with what a tree builder and a C program need around it.
//!
//! What the tokenizer does is stated over an abstract machine: `tokenizer::machine` says
//! what it remembers, `tokenizer::rules` what each character does, `tokenizer::config` how
//! it reads its input, and `tokenizer::run` what becomes of whole inputs. Every operation
//! is proved to do what the machine does.

pub mod capi;
pub mod serialize;
pub mod sink;
pub mod tokenizer;
pub mod tree_builder;
pub mod util;
