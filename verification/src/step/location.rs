//! Where a step definition stands in its source file.

use vstd::prelude::*;

verus! {

/// Line and column of a step definition.
#[derive(Clone, Copy, Debug, PartialEq, Eq, Hash, PartialOrd, Ord)]
pub struct Location {
    /// Line number, counted from 1.
    pub line: u32,
    /// Column number, counted from 1.
    pub column: u32,
}

/// Strict order on optional locations: an absent location comes first, then
/// locations by line, then by column.
pub open spec fn location_lt(a: Option<Location>, b: Option<Location>) -> bool {
    match (a, b) {
        (None, None) => false,
        (None, Some(_)) => true,
        (Some(_), None) => false,
        (Some(x), Some(y)) => x.line < y.line || (x.line == y.line && x.column < y.column),
    }
}

/// Decides `location_lt`.
pub fn location_before(a: Option<Location>, b: Option<Location>) -> (r: bool)
    ensures
        r == location_lt(a, b),
{
    match (a, b) {
        (None, None) => false,
        (None, Some(_)) => true,
        (Some(_), None) => false,
        (Some(x), Some(y)) => x.line < y.line || (x.line == y.line && x.column < y.column),
    }
}

/// Decides whether two optional locations are the same.
pub fn location_same(a: Option<Location>, b: Option<Location>) -> (r: bool)
    ensures
        r == (a == b),
{
    match (a, b) {
        (None, None) => true,
        (Some(x), Some(y)) => x.line == y.line && x.column == y.column,
        _ => false,
    }
}

} // verus!
