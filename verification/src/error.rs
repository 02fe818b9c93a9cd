//! The ways a formatting call can fail.
//!
//! Two failure modes that surround a formatting call live with the caller
//! rather than here: projecting arbitrary data into a [`crate::Value`] tree
//! happens before this library is entered, and the output is written into an
//! in-memory `String`, which cannot fail.

use vstd::prelude::*;

verus! {

/// A terminal error of a single formatting call; no partial output is kept.
#[derive(Clone, Copy, Debug, PartialEq, Eq, Structural)]
pub enum Error {
    /// The input held three or more levels of array nesting, which is
    /// unsupported by design.
    TripleNestedArray,
    /// A non-empty object survived flattening and reached the formatter:
    /// an internal contract violation, never expected in correct operation.
    ObjectReached,
}

} // verus!
