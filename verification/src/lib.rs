//! Parsing, serialization and linting for a line-oriented game-server
//! admin/whitelist configuration format: named permission groups and
//! player entries that reference those groups by name.

pub mod lint;
pub mod model;
pub mod parse;
pub mod perms;
pub mod render;
pub mod roundtrip;
pub mod text;

use vstd::prelude::*;

verus! {

/// A half-open byte range `[start, end)` into the original source text,
/// attached to parsed entities for diagnostics.
#[derive(Clone, Copy, Debug, PartialEq, Eq, Structural)]
pub struct Span {
    pub start: usize,
    pub end: usize,
}

impl Span {
    /// The span of an entity built programmatically rather than parsed.
    pub fn zero() -> (s: Span)
        ensures
            s.start == 0 && s.end == 0,
    {
        Span { start: 0, end: 0 }
    }
}

} // verus!
