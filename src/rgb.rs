//! RGB colour type.

use vstd::prelude::*;
use crate::vec3::Vec3;

verus! {

/// RGB colour (red, green, blue).
#[derive(Clone, Copy, Debug, PartialEq, Eq, Structural)]
pub struct Rgb {
    inner: Vec3<u8>,
}

impl View for Rgb {
    type V = (u8, u8, u8);

    /// The three components, in the order red, green, blue.
    closed spec fn view(&self) -> (u8, u8, u8) {
        (self.inner.0, self.inner.1, self.inner.2)
    }
}

impl Rgb {
    /// Constructs a new RGB colour with three components, red, green and blue, in that order.
    pub fn new(red: u8, green: u8, blue: u8) -> (r: Self)
        ensures
            r@ == (red, green, blue),
    {
        Rgb { inner: Vec3::new(red, green, blue) }
    }

    /// Gets the red component of the colour.
    pub fn red(&self) -> (r: u8)
        ensures
            r == self@.0,
    {
        *self.inner._0()
    }

    /// Gets the green component of the colour.
    pub fn green(&self) -> (r: u8)
        ensures
            r == self@.1,
    {
        *self.inner._1()
    }

    /// Gets the blue component of the colour.
    pub fn blue(&self) -> (r: u8)
        ensures
            r == self@.2,
    {
        *self.inner._2()
    }
}

/// Converts `(n0, n1, n2)` into `(red: n0, green: n1, blue: n2)`; the order is significant.
impl From<(u8, u8, u8)> for Rgb {
    fn from(t: (u8, u8, u8)) -> (r: Self) {
        Self::new(t.0, t.1, t.2)
    }
}

impl vstd::std_specs::convert::FromSpecImpl<(u8, u8, u8)> for Rgb {
    open spec fn obeys_from_spec() -> bool {
        true
    }

    closed spec fn from_spec(t: (u8, u8, u8)) -> Self {
        Rgb { inner: Vec3(t.0, t.1, t.2) }
    }
}

/// Converts `&(n0, n1, n2)` into `(red: n0, green: n1, blue: n2)`; the order is significant.
impl<'a> From<&'a (u8, u8, u8)> for Rgb {
    fn from(t: &'a (u8, u8, u8)) -> (r: Self) {
        Self::new(t.0, t.1, t.2)
    }
}

impl<'a> vstd::std_specs::convert::FromSpecImpl<&'a (u8, u8, u8)> for Rgb {
    open spec fn obeys_from_spec() -> bool {
        true
    }

    closed spec fn from_spec(t: &'a (u8, u8, u8)) -> Self {
        Rgb { inner: Vec3(t.0, t.1, t.2) }
    }
}

/// Converts a vector `(c0, c1, c2)` into `(red: c0, green: c1, blue: c2)`.
impl From<Vec3<u8>> for Rgb {
    fn from(v: Vec3<u8>) -> (r: Self) {
        Rgb { inner: v }
    }
}

impl vstd::std_specs::convert::FromSpecImpl<Vec3<u8>> for Rgb {
    open spec fn obeys_from_spec() -> bool {
        true
    }

    closed spec fn from_spec(v: Vec3<u8>) -> Self {
        Rgb { inner: v }
    }
}

/// Converts a colour into the vector `(red, green, blue)`.
impl From<Rgb> for Vec3<u8> {
    fn from(c: Rgb) -> (r: Self) {
        Vec3::new(c.red(), c.green(), c.blue())
    }
}

impl vstd::std_specs::convert::FromSpecImpl<Rgb> for Vec3<u8> {
    open spec fn obeys_from_spec() -> bool {
        true
    }

    open spec fn from_spec(c: Rgb) -> Self {
        Vec3(c@.0, c@.1, c@.2)
    }
}

} // verus!
