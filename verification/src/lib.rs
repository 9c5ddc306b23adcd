//! Module-specifier resolution core for a language-server companion to a
//! TypeScript/JavaScript runtime.
//!
//! Given a reference that appears in source code (an HTTP URL, a registry
//! short-name, a package-manager dependency name, a relative path), the
//! resolver decides which concrete artifact the reference denotes, which
//! media-type it has, and how queries are scoped within a workspace.

pub mod cjs;
pub mod config;
pub mod graph;
pub mod jsr;
pub mod lsp;
pub mod media;
pub mod node;
pub mod package_ref;
pub mod pkg_json;
pub mod redirect;
pub mod scope;
pub mod semver;
pub mod sloppy;
pub mod url_bytes;
pub mod url_parse;

use vstd::prelude::*;

verus! {

/// A specifier held in its serialized byte form. Comparisons are byte-exact
/// on this form; values are freely cloned and never mutated in place.
pub type UrlBytes = Vec<u8>;

} // verus!
