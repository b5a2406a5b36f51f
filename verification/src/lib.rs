//! Renders a parsed note tree to print-ready markup — recognizing callout
//! blockquotes and front-matter metadata, and gathering footnote definitions
//! into a trailing section — and, independently, mines a stylesheet's
//! embedded settings schemas, resolves them against a persisted value store,
//! and synthesizes custom-property declarations and body classes.

pub mod ast;
pub mod callout;
pub mod color;
pub mod escape;
pub mod meta;
pub mod render;
pub mod store;
pub mod strutil;
pub mod style_settings;
pub mod vault;
