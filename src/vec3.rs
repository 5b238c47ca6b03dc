//! A 3-component vector.

use vstd::prelude::*;

verus! {

/// A 3-component vector. Components are zero-indexed.
#[derive(Clone, Copy, Debug, PartialEq, Eq, Structural)]
pub struct Vec3<N>(pub N, pub N, pub N);

impl<N> Vec3<N> {
    /// Constructs a new 3-component vector.
    pub fn new(_0: N, _1: N, _2: N) -> (r: Self)
        ensures
            r.0 == _0,
            r.1 == _1,
            r.2 == _2,
    {
        Vec3(_0, _1, _2)
    }

    /// Gets the first component of the vector.
    pub fn _0(&self) -> (r: &N)
        ensures
            *r == self.0,
    {
        &self.0
    }

    /// Gets the second component of the vector.
    pub fn _1(&self) -> (r: &N)
        ensures
            *r == self.1,
    {
        &self.1
    }

    /// Gets the third component of the vector.
    pub fn _2(&self) -> (r: &N)
        ensures
            *r == self.2,
    {
        &self.2
    }
}

impl<N> From<(N, N, N)> for Vec3<N> {
    fn from(t: (N, N, N)) -> (r: Self) {
        Vec3(t.0, t.1, t.2)
    }
}

impl<N> vstd::std_specs::convert::FromSpecImpl<(N, N, N)> for Vec3<N> {
    open spec fn obeys_from_spec() -> bool {
        true
    }

    open spec fn from_spec(t: (N, N, N)) -> Self {
        Vec3(t.0, t.1, t.2)
    }
}

} // verus!
