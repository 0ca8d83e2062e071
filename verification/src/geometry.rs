use vstd::prelude::*;

verus! {

/// Truncating division (round toward zero), the rounding that the
/// executable `/` on signed machine integers performs.  For `a >= 0`
/// and `d > 0` it agrees with Euclidean division.
pub open spec fn tdiv(a: int, d: int) -> int {
    if a >= 0 {
        a / d
    } else {
        -((-a) / d)
    }
}

/// One whole unit in fixed-point representation: values carry three
/// decimal digits of fraction.
pub const FX_UNIT: i64 = 1000;

/// A fixed-point number: the represented value is `raw / 1000`.
///
/// Model-space coordinates, scale factors and screen offsets are all
/// `Fx` values, so the whole transform pipeline is exact integer
/// arithmetic.  Products round toward zero, a documented choice that
/// can move a screen coordinate by at most one pixel against an
/// implementation that rounds otherwise.
#[derive(Clone, Copy, Debug, PartialEq, Eq, Structural)]
pub struct Fx {
    pub raw: i64,
}

impl Fx {
    /// The fixed-point representation of a whole number of units.
    pub fn from_units(u: i64) -> (r: Fx)
        requires
            -9_000_000_000_000_000 <= u <= 9_000_000_000_000_000,
        ensures
            r.raw == u * 1000,
    {
        Fx { raw: u * 1000 }
    }

    /// The fixed-point number with the given raw (thousandths) value.
    pub fn from_milli(raw: i64) -> (r: Fx)
        ensures
            r.raw == raw,
    {
        Fx { raw }
    }

    pub fn plus(self, o: Fx) -> (r: Fx)
        requires
            i64::MIN <= self.raw + o.raw <= i64::MAX,
        ensures
            r.raw == self.raw + o.raw,
    {
        Fx { raw: self.raw + o.raw }
    }

    pub fn minus(self, o: Fx) -> (r: Fx)
        requires
            i64::MIN <= self.raw - o.raw <= i64::MAX,
        ensures
            r.raw == self.raw - o.raw,
    {
        Fx { raw: self.raw - o.raw }
    }

    pub fn neg(self) -> (r: Fx)
        requires
            self.raw != i64::MIN,
        ensures
            r.raw == -self.raw,
    {
        Fx { raw: -self.raw }
    }

    /// Fixed-point product, rounded toward zero.
    pub fn times(self, o: Fx) -> (r: Fx)
        requires
            i64::MIN <= self.raw * o.raw <= i64::MAX,
        ensures
            r.raw == tdiv(self.raw * o.raw, 1000),
    {
        Fx { raw: (self.raw * o.raw) / 1000 }
    }

    /// The value halfway between `self` and `o`, rounded toward zero.
    pub fn midpoint(self, o: Fx) -> (r: Fx)
        requires
            i64::MIN <= self.raw + o.raw <= i64::MAX,
        ensures
            r.raw == tdiv(self.raw + o.raw, 2),
    {
        Fx { raw: (self.raw + o.raw) / 2 }
    }

    pub fn min_of(self, o: Fx) -> (r: Fx)
        ensures
            r.raw == if self.raw <= o.raw { self.raw } else { o.raw },
    {
        if self.raw <= o.raw {
            self
        } else {
            o
        }
    }

    pub fn max_of(self, o: Fx) -> (r: Fx)
        ensures
            r.raw == if self.raw >= o.raw { self.raw } else { o.raw },
    {
        if self.raw >= o.raw {
            self
        } else {
            o
        }
    }
}

/// An integer screen coordinate, produced by the projection stage and
/// consumed by the rasterizer.
#[derive(Clone, Copy, Debug, PartialEq, Eq, Structural)]
pub struct Point2 {
    pub x: i32,
    pub y: i32,
}

impl Point2 {
    pub fn new(x: i32, y: i32) -> (p: Point2)
        ensures
            p == (Point2 { x, y }),
    {
        Point2 { x, y }
    }
}

/// A model-space position with fixed-point components.
#[derive(Clone, Copy, Debug, PartialEq, Eq, Structural)]
pub struct Vertex3 {
    pub x: Fx,
    pub y: Fx,
    pub z: Fx,
}

impl Vertex3 {
    pub fn new(x: Fx, y: Fx, z: Fx) -> (v: Vertex3)
        ensures
            v == (Vertex3 { x, y, z }),
    {
        Vertex3 { x, y, z }
    }
}

} // verus!
