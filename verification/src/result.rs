//! The failure kinds of this crate.

use vstd::prelude::*;

verus! {

#[derive(Debug, Clone, Copy, PartialEq, Eq, Structural)]
/// ErrorKind, the reasons a geometric value can fail to be constructed.
pub enum ErrorKind {
    /// Some axis has equal minimum and maximum, so the box would be flat.
    MinMaxEqual,
    /// Some axis has its minimum above its maximum.
    MinMaxSwapped,
    /// A bounding volume was requested for fewer than two points.
    TooFewPoints,
}

} // verus!
