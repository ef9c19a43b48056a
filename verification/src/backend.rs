use vstd::prelude::*;
use crate::computer::groups_needed;
use crate::general::PhysicalSize;

verus! {

/// An unsigned number that fits `u32`.
pub trait Unsigned32: Copy {
    /// The number as a `u32`.
    spec fn spec_u32(self) -> u32;

    fn to_u32(self) -> (wide: u32)
        ensures
            wide == self.spec_u32(),
    ;
}

impl Unsigned32 for u8 {
    open spec fn spec_u32(self) -> u32 {
        self as u32
    }

    fn to_u32(self) -> (wide: u32) {
        self as u32
    }
}

impl Unsigned32 for u16 {
    open spec fn spec_u32(self) -> u32 {
        self as u32
    }

    fn to_u32(self) -> (wide: u32) {
        self as u32
    }
}

impl Unsigned32 for u32 {
    open spec fn spec_u32(self) -> u32 {
        self
    }

    fn to_u32(self) -> (wide: u32) {
        self
    }
}

/// Specify 2D size (width, height)
#[derive(Debug)]
pub struct Size<T> {
    pub width: T,
    pub height: T,
}

impl<T: Unsigned32> Size<T> {
    pub fn new(width: T, height: T) -> (size: Self)
        ensures
            size.width == width,
            size.height == height,
    {
        Size { width, height }
    }

    pub fn from_physical(size: PhysicalSize<T>) -> (own: Self)
        ensures
            own.width == size.width,
            own.height == size.height,
    {
        Size { width: size.width, height: size.height }
    }

    pub fn from_tuple(tuple: (T, T)) -> (size: Self)
        ensures
            size.width == tuple.0,
            size.height == tuple.1,
    {
        Size { width: tuple.0, height: tuple.1 }
    }

    pub fn into_tuple(&self) -> (pair: (T, T))
        ensures
            pair == (self.width, self.height),
    {
        (self.width, self.height)
    }

    pub fn into_u32_tuple(&self) -> (pair: (u32, u32))
        ensures
            pair == (self.width.spec_u32(), self.height.spec_u32()),
    {
        (self.width.to_u32(), self.height.to_u32())
    }

    /// Compute how many times will the other fit into this size
    /// ceiled to nearest integer
    pub fn fit_other(&self, other: Size<u32>) -> (count: Size<u32>)
        requires
            other.width > 0,
            other.height > 0,
            self.width.spec_u32() + other.width <= u32::MAX,
            self.height.spec_u32() + other.height <= u32::MAX,
        ensures
            count.width == groups_needed(self.width.spec_u32() as int, other.width as int),
            count.height == groups_needed(self.height.spec_u32() as int, other.height as int),
    {
        let this = self.into_u32_tuple();
        let other = other.into_u32_tuple();

        let width: u32 = (this.0 + other.0 - 1) / other.0;
        let height: u32 = (this.1 + other.1 - 1) / other.1;

        Size { width, height }
    }
}

} // verus!
