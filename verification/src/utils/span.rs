//! Places in the source text.

use vstd::prelude::*;

verus! {

/// A half-open range `[start, end)` of byte offsets into the source text.
///
/// Spans are carried by tokens and syntax nodes for diagnostics only; no rule
/// of the language depends on them.
#[derive(Debug, Clone, Copy, PartialEq, Eq, Structural)]
pub struct Span {
    pub start: usize,
    pub end: usize,
}

} // verus!
