use vstd::prelude::*;

verus! {

/// A generic two-field coordinate pair.
///
/// A reusable primitive kept alongside the codec; the codec itself makes no
/// use of it.
#[derive(Debug, Clone, PartialEq)]
pub struct Point<T> {
    pub x: T,
    pub y: T,
}

impl<T> Point<T> {
    /// Builds the pair holding exactly the two given components.
    pub fn new(x: T, y: T) -> (r: Self)
        ensures
            r.x == x,
            r.y == y,
    {
        Point { x, y }
    }
}

} // verus!
