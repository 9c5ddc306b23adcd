//! The media type of a module, as the resolver routes on it.

use vstd::prelude::*;

verus! {

/// What kind of artifact a resolved URL denotes.
#[derive(Debug, Clone, Copy, PartialEq, Eq, Structural)]
pub enum MediaType {
    TypeScript,
    Mts,
    Cts,
    Dts,
    Dmts,
    Dcts,
    Tsx,
    JavaScript,
    Mjs,
    Cjs,
    Jsx,
    Json,
    Wasm,
    SourceMap,
    Unknown,
}

} // verus!
