use vstd::prelude::*;

verus! {

/// A size in physical pixels.
#[derive(Debug, PartialEq, Eq)]
pub struct PhysicalSize<P> {
    pub width: P,
    pub height: P,
}

impl<P> PhysicalSize<P> {
    pub fn new(width: P, height: P) -> (size: Self)
        ensures
            size.width == width,
            size.height == height,
    {
        PhysicalSize { width, height }
    }
}

} // verus!
