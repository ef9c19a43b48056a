use vstd::prelude::*;

verus! {

/// A cell of the uniform grid whose edge is the smoothing length: the floor of
/// a position divided by the cell size, axis by axis.
#[derive(Debug, Clone, Copy, PartialEq, Eq, Structural)]
pub struct Cell {
    pub x: i32,
    pub y: i32,
    pub z: i32,
}

impl Cell {
    pub fn new(x: i32, y: i32, z: i32) -> (cell: Self)
        ensures
            cell == (Cell { x, y, z }),
    {
        Cell { x, y, z }
    }

    /// The cell `dx`, `dy`, `dz` steps away, each axis wrapping round at the
    /// ends of `i32`.
    pub open spec fn spec_offset(self, dx: i32, dy: i32, dz: i32) -> Cell {
        Cell {
            x: self.x.wrapping_add(dx),
            y: self.y.wrapping_add(dy),
            z: self.z.wrapping_add(dz),
        }
    }

    #[verifier::when_used_as_spec(spec_offset)]
    pub fn offset(self, dx: i32, dy: i32, dz: i32) -> (cell: Cell)
        ensures
            cell == self.spec_offset(dx, dy, dz),
    {
        Cell {
            x: self.x.wrapping_add(dx),
            y: self.y.wrapping_add(dy),
            z: self.z.wrapping_add(dz),
        }
    }

    /// Whether `other` lies in the 3 x 3 block of cells around `self` in the
    /// plane of `self`.
    pub open spec fn adjacent_2d(self, other: Cell) -> bool {
        exists|dx: i32, dy: i32|
            -1 <= dx <= 1 && -1 <= dy <= 1 && other == #[trigger] self.spec_offset(dx, dy, 0)
    }
}

/// What the neighbour search knows of a particle: its identity, which is also
/// its slot in the particle array, and the grid cell that its position falls
/// in.
#[derive(Debug, Clone, Copy, PartialEq, Eq, Structural)]
pub struct SmoothedParticle {
    pub id: u32,
    pub cell: Cell,
}

impl SmoothedParticle {
    pub fn new(id: u32, cell: Cell) -> (particle: Self)
        ensures
            particle.id == id,
            particle.cell == cell,
    {
        SmoothedParticle { id, cell }
    }
}

} // verus!
