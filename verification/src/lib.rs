//! Expression resolution and type checking for a declarative UI language.
//!
//! A parsed document arrives with every property binding still holding a raw,
//! unresolved syntax tree.  The pass in [`resolving`] walks each component's
//! element tree, resolves identifiers against the lexical scope stack, infers
//! and coerces types, lowers the builtin macros, and replaces every binding
//! in place with a fully typed expression — or with an explicit invalid
//! marker after recording a diagnostic.

pub mod coercion;
pub mod css_colors;
pub mod diagnostics;
pub mod expression_tree;
pub mod ident;
pub mod langtype;
pub mod laws;
pub mod literals;
pub mod object_tree;
pub mod resolving;
pub mod syntax;

