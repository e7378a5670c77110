//! Generates TypeScript declaration text and zod schema modules from
//! line-oriented environment-file documents and from YAML value trees.
//!
//! The core is an annotation mini-language (`# @type ...` comments), a
//! per-document variable extractor, a cross-document merge with conflict
//! detection, and pure-text renderers.

pub mod dotenv;
pub mod env;
pub mod laws;
pub mod pm;
pub mod strutil;
pub mod yaml;
