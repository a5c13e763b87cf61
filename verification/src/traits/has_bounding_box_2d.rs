//! HasBoundingBox2D, the capability an item needs to be stored in a 2D
//! spatial index: it must expose its own axis aligned bounding box.

use vstd::prelude::*;
use crate::bounding_box_2d::BoundingBox2D;

verus! {

/// The capability of having an axis aligned bounding box in 2D.
///
/// An implementation fixes, as the spec function `bb_spec`, which box a
/// value owns, and promises that `bounding_box` returns exactly that box.
pub trait HasBoundingBox2D: Sized {
    /// The bounding box of this item, as an abstract value.
    spec fn bb_spec(&self) -> BoundingBox2D;

    /// Returns the current bounding box of this item.
    fn bounding_box(&self) -> (r: BoundingBox2D)
        ensures
            r == self.bb_spec(),
    ;
}

} // verus!
