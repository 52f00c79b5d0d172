//! Localization content model and its translation-list text codec.
//!
//! The model holds translatable content in an order-stable form: project,
//! category, locale, unit. The codec turns that form into the text of a
//! translation list and back: a serializer that renders a syntax tree under
//! fixed layout rules, and a bridge that writes units out as source text,
//! hands it to the grammar parser of `fluent-syntax`, and reads units back
//! from a tree.

pub mod by_locale;
pub mod error;
pub mod escape_laws;
pub mod export;
pub mod flt;
pub mod format;
pub mod ident;
pub mod ir;
pub mod keyed;
pub mod layout;
pub mod layout_laws;
pub mod load;
pub mod locale;
pub mod order;
pub mod ordered;
pub mod parser;
pub mod path_node;
pub mod select_laws;
pub mod serializer;
pub mod text;
pub mod translate;
pub mod translate_laws;
pub mod tree;
pub mod writer;

pub use keyed::{BTreeKeyedSet, Keyed};
pub use path_node::PathNode;
