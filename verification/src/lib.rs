//! A structured-value text-rendering engine.
//!
//! A template string holding literal text and placeholders is parsed into a
//! reusable [`directive::Directive`]; each placeholder binds an argument
//! (implicitly, by position, or by name) and carries a specifier controlling
//! fill, alignment, sign, radix, width and precision.  Rendering a directive
//! against a list of [`value::Value`] arguments produces the assembled text,
//! or the first failure.  Every value has a mechanically derived diagnostic
//! representation; a value may in addition carry an author-chosen display
//! representation.

pub mod directive;
pub mod laws;
pub mod numeric;
pub mod parse;
pub mod render;
pub mod text;
pub mod value;
