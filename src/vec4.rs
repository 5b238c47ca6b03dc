//! A 4-component vector.

use vstd::prelude::*;

verus! {

/// A 4-component vector. Components are zero-indexed.
#[derive(Clone, Copy, Debug, PartialEq, Eq, Structural)]
pub struct Vec4<N>(pub N, pub N, pub N, pub N);

impl<N> Vec4<N> {
    /// Constructs a new 4-component vector.
    pub fn new(_0: N, _1: N, _2: N, _3: N) -> (r: Self)
        ensures
            r == Vec4(_0, _1, _2, _3),
    {
        Vec4(_0, _1, _2, _3)
    }

    /// Gets the first component of the vector.
    pub fn _0(&self) -> (r: &N)
        ensures
            *r == self.0,
    {
        &self.0
    }

    /// Gets the second component of the vector.
    pub fn _1(&self) -> (r: &N)
        ensures
            *r == self.1,
    {
        &self.1
    }

    /// Gets the third component of the vector.
    pub fn _2(&self) -> (r: &N)
        ensures
            *r == self.2,
    {
        &self.2
    }

    /// Gets the fourth component of the vector.
    pub fn _3(&self) -> (r: &N)
        ensures
            *r == self.3,
    {
        &self.3
    }

    /// Applies `f` to each component, in order.
    pub fn map<M, F: Fn(N) -> M>(self, f: F) -> (r: Vec4<M>)
        requires
            forall|x: N| f.requires((x,)),
        ensures
            f.ensures((self.0,), r.0),
            f.ensures((self.1,), r.1),
            f.ensures((self.2,), r.2),
            f.ensures((self.3,), r.3),
    {
        let Vec4(a, b, c, d) = self;
        Vec4(f(a), f(b), f(c), f(d))
    }
}

impl<N> From<(N, N, N, N)> for Vec4<N> {
    fn from(t: (N, N, N, N)) -> (r: Self) {
        Vec4(t.0, t.1, t.2, t.3)
    }
}

impl<N> vstd::std_specs::convert::FromSpecImpl<(N, N, N, N)> for Vec4<N> {
    open spec fn obeys_from_spec() -> bool {
        true
    }

    open spec fn from_spec(t: (N, N, N, N)) -> Self {
        Vec4(t.0, t.1, t.2, t.3)
    }
}

impl<'a, N: Copy> From<&'a (N, N, N, N)> for Vec4<N> {
    fn from(t: &'a (N, N, N, N)) -> (r: Self) {
        Vec4(t.0, t.1, t.2, t.3)
    }
}

impl<'a, N: Copy> vstd::std_specs::convert::FromSpecImpl<&'a (N, N, N, N)> for Vec4<N> {
    open spec fn obeys_from_spec() -> bool {
        true
    }

    open spec fn from_spec(t: &'a (N, N, N, N)) -> Self {
        Vec4(t.0, t.1, t.2, t.3)
    }
}

} // verus!
