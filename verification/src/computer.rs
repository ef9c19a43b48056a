use vstd::prelude::*;
use crate::general::PhysicalSize;

verus! {

/// The least `n` with `n * group >= extent`: how many work groups of `group`
/// items cover `extent` items.
pub open spec fn groups_needed(extent: int, group: int) -> int
    recommends
        group > 0,
{
    (extent + group - 1) / group
}

/// `groups_needed` is the ceiling of `extent / group`.
pub proof fn lemma_groups_needed_is_ceiling(extent: int, group: int)
    requires
        extent >= 0,
        group > 0,
    ensures
        groups_needed(extent, group) >= 0,
        groups_needed(extent, group) * group >= extent,
        (groups_needed(extent, group) - 1) * group < extent,
{
    let n = groups_needed(extent, group);
    let t = extent + group - 1;
    assert(t == group * (t / group) + t % group && 0 <= t % group < group) by {
        vstd::arithmetic::div_mod::lemma_fundamental_div_mod(t, group);
        vstd::arithmetic::div_mod::lemma_mod_bound(t, group);
    }
    assert(n * group == group * n) by (nonlinear_arith);
    assert((n - 1) * group == n * group - group) by (nonlinear_arith);
    assert(n >= 0) by (nonlinear_arith)
        requires
            n * group >= extent,
            extent >= 0,
            group > 0,
    ;
}

/// Number of work groups per axis that cover a `width` x `height` grid with
/// groups of `workgroup_width` x `workgroup_height`.
pub fn compute_work_group_count(
    size: (u32, u32),
    workgroup_size: (u32, u32),
) -> (count: (u32, u32))
    requires
        workgroup_size.0 > 0,
        workgroup_size.1 > 0,
        size.0 + workgroup_size.0 <= u32::MAX,
        size.1 + workgroup_size.1 <= u32::MAX,
    ensures
        count.0 == groups_needed(size.0 as int, workgroup_size.0 as int),
        count.1 == groups_needed(size.1 as int, workgroup_size.1 as int),
{
    let (width, height) = size;
    let (workgroup_width, workgroup_height) = workgroup_size;
    let x: u32 = (width + workgroup_width - 1) / workgroup_width;
    let y: u32 = (height + workgroup_height - 1) / workgroup_height;

    (x, y)
}

/// Extent of a two-dimensional dispatch.
pub struct Dimensions {
    pub width: u32,
    pub height: u32,
}

impl Dimensions {
    pub fn new(width: u32, height: u32) -> (dimensions: Self)
        ensures
            dimensions.width == width,
            dimensions.height == height,
    {
        Self { width, height }
    }

    pub fn from_size(size: PhysicalSize<u32>) -> (dimensions: Self)
        ensures
            dimensions.width == size.width,
            dimensions.height == size.height,
    {
        Dimensions { width: size.width, height: size.height }
    }

    pub fn as_tuple(&self) -> (pair: (u32, u32))
        ensures
            pair == (self.width, self.height),
    {
        (self.width, self.height)
    }
}

} // verus!
