//! A compiler for static sites, verified with Verus.
//!
//! Documents are written in a light markup. `markdown::lexer` splits a document into
//! tokens and `markdown::html` renders the tokens to HTML in one pass, as
//! `markdown::render` says and `markdown::laws` proves well-behaved; `compiler` renders
//! the syntax tree of a document instead. `placeholder` puts a rendered document into
//! the template of its page, `cache` decides from the hashes of its inputs whether a page
//! has to be made again, and `layout` decides what becomes of each file of the source
//! tree. `bindings` holds what is taken on trust from other crates.

pub mod bindings;
pub mod cache;
pub mod compiler;
pub mod layout;
pub mod markdown;
pub mod placeholder;
pub mod scan;
pub mod text;
