//! styloria — a CSS3 tokenizer, parser and serializer (CSS Syntax Level 3),
//! with a validation layer that knows the CSS property and descriptor
//! vocabularies.
//!
//! What each function does is stated in its contract and proved by Verus.
//! The proofs rest on two functions of std that vstd gives no contract,
//! `String::push` (see [`text`]) and `char::from_u32` (see [`tokenizer`]),
//! whose contracts restate their documentation.
//!
//! - [`scan`] states the tokenization algorithm; [`tokenizer`] computes it.
//! - [`grammar`] states the core grammar; [`spanned`] builds the tree it
//!   describes, with spans, and [`parser`] the same tree without them.
//! - [`serialize`] writes trees back as CSS text; [`roundtrip`] proves what
//!   reading that text back gives, with [`locality`]: reading never looks
//!   back. [`tree_round_trip`] proves that a written stylesheet or
//!   declaration list parses back to the tree it was written from.
//! - [`validate`], [`known_properties`] and [`descriptors`] know the CSS
//!   vocabulary; [`selector`] checks selector syntax.
//! - [`parse_laws`] holds what the parsers promise as a whole.

pub mod descriptors;
pub mod grammar;
pub mod known_properties;
pub mod locality;
pub mod parse_laws;
pub mod parser;
pub mod roundtrip;
pub mod scan;
pub mod selector;
pub mod serialize;
pub mod span;
pub mod spanned;
pub mod text;
pub mod token;
pub mod tokenizer;
pub mod tree_round_trip;
pub mod validate;

pub use parser::{
    AtRule, BlockKind, ComponentValue, Declaration, DeclarationListItem, Parser, QualifiedRule,
    Rule, SimpleBlock, Stylesheet,
};
pub use serialize::{serialize_declaration_list, serialize_stylesheet};
pub use span::{Span, Spanned};
pub use spanned::{SyntaxError, SyntaxErrorKind};
pub use token::{NumericType, Token};
pub use tokenizer::Tokenizer;
pub use validate::{validate_declaration_list, validate_stylesheet, Diagnostic, DiagnosticKind};
