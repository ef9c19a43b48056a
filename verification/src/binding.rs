use vstd::prelude::*;

verus! {

/// How a shader may access a storage resource.
#[derive(Copy, Clone)]
pub enum Access {
    Write,
    Read,
    Both,
}

impl Access {
    /// Whether the access is read-only.
    pub fn to_bool_read(&self) -> (read_only: bool)
        ensures
            read_only == (*self is Read),
    {
        match *self {
            Access::Read => true,
            _ => false,
        }
    }
}

/// In how many dimensions an array is laid out.
#[derive(Copy, Clone)]
pub enum Dimension {
    D1,
    D2,
    D3,
}

/// Which shader stage can reach a resource.
#[derive(Copy, Clone)]
pub enum Visibility {
    VERTEX,
    FRAGMENT,
    COMPUTE,
}

} // verus!
