//! Rectangles, as arrays of four numbers.

use vstd::prelude::*;

use crate::types::copy::copy_numeric;
use crate::types::numeric::{Numeric, NumericModel};

verus! {

/// A rectangle as the file writes it: the numbers `[x1 y1 x2 y2]` of two
/// opposite corners, in the order given. Putting the corners in order
/// (left, bottom, right, top) is left to whoever turns the numbers into
/// floating-point values.
#[derive(Debug, PartialEq, Clone)]
pub struct Rectangle {
    pub x1: Numeric,
    pub y1: Numeric,
    pub x2: Numeric,
    pub y2: Numeric,
}

impl View for Rectangle {
    type V = (NumericModel, NumericModel, NumericModel, NumericModel);

    open spec fn view(&self) -> (NumericModel, NumericModel, NumericModel, NumericModel) {
        (self.x1@, self.y1@, self.x2@, self.y2@)
    }
}

impl Rectangle {
    /// A copy of the rectangle.
    pub fn copy(&self) -> (r: Rectangle)
        ensures
            r@ == self@,
    {
        Rectangle {
            x1: copy_numeric(&self.x1),
            y1: copy_numeric(&self.y1),
            x2: copy_numeric(&self.x2),
            y2: copy_numeric(&self.y2),
        }
    }
}

} // verus!
