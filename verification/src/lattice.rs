//! Arithmetic and comparison of grid indices, done by `glam`'s integer
//! vectors. None of the contracts in this file is proved: each says what the
//! `glam` function it names computes.

use vstd::prelude::*;
use crate::fluids::particle::Cell;

verus! {

/// `glam::IVec3`'s `+`, which adds axis by axis with the plain `+` of `i32`.
/// The sum of each axis must fit `i32`; the result is then the three sums.
#[verifier::external_body]
pub(crate) fn cell_sum(a: Cell, b: Cell) -> (sum: Cell)
    requires
        i32::MIN <= a.x + b.x <= i32::MAX,
        i32::MIN <= a.y + b.y <= i32::MAX,
        i32::MIN <= a.z + b.z <= i32::MAX,
    ensures
        sum.x == a.x + b.x,
        sum.y == a.y + b.y,
        sum.z == a.z + b.z,
{
    let sum = glam::IVec3::new(a.x, a.y, a.z) + glam::IVec3::new(b.x, b.y, b.z);
    Cell { x: sum.x, y: sum.y, z: sum.z }
}

/// `glam::IVec3::cmpge`: for each axis, whether `a` is at least `b` there.
#[verifier::external_body]
pub(crate) fn at_least(a: Cell, b: Cell) -> (mask: (bool, bool, bool))
    ensures
        mask == (a.x >= b.x, a.y >= b.y, a.z >= b.z),
{
    let mask = glam::IVec3::new(a.x, a.y, a.z).cmpge(glam::IVec3::new(b.x, b.y, b.z));
    (mask.x, mask.y, mask.z)
}

/// `glam::IVec3::cmplt`: for each axis, whether `a` is less than `b` there.
#[verifier::external_body]
pub(crate) fn less_than(a: Cell, b: Cell) -> (mask: (bool, bool, bool))
    ensures
        mask == (a.x < b.x, a.y < b.y, a.z < b.z),
{
    let mask = glam::IVec3::new(a.x, a.y, a.z).cmplt(glam::IVec3::new(b.x, b.y, b.z));
    (mask.x, mask.y, mask.z)
}

/// `glam::BVec3::all`: whether the mask is set on all three axes.
#[verifier::external_body]
pub(crate) fn all_set(mask: (bool, bool, bool)) -> (all: bool)
    ensures
        all == (mask.0 && mask.1 && mask.2),
{
    glam::BVec3::new(mask.0, mask.1, mask.2).all()
}

} // verus!
