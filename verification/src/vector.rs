use vstd::prelude::*;

verus! {

/// A three-component vector with public coordinates.
#[derive(Debug, Clone, Copy, PartialEq, Eq, Hash)]
pub struct Vector3<T> {
    pub x: T,
    pub y: T,
    pub z: T,
}

} // verus!
