//! Core of an extensible CommonMark-family Markdown parser: the inline
//! scanning engine and the link/label resolver that sit on top of a block
//! tokenizer.
//!
//! The engine works on bytes of an already-normalized source slice; every
//! position is a byte offset into that slice.  Parsing is total: any input
//! produces a tree, and a rule that does not match simply yields no token.
//!
//! Named character references resolve through a small built-in core table
//! (a full entity database is out of scope); an unknown name stays
//! literal text.

pub mod node;
pub mod text_norm;
pub mod util;
pub mod links_util;
pub mod full_link;
pub mod refmap;
pub mod ruler;
pub mod state;
pub mod newline;
pub mod entity;
pub mod autolink;
pub mod html_inline;
pub mod engine;
pub mod inline_parser;
pub mod heading;
pub mod lheading;
pub mod srcmap;
pub mod laws;

pub use node::{Node, NodeValue, Srcmap, Text, TextSpecial};
pub use ruler::MarkdownIt;
