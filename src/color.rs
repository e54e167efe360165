//! Colors: red, green and blue intensities, unclamped.
use vstd::prelude::*;
use crate::scalar::{mul_raw, Scalar, SCALE};
use crate::tuple::{add3, fits3, scale3, sub3, Triple};

verus! {

/// Component-wise product, each rounded as scalars round it.
pub open spec fn hadamard3(a: Triple, b: Triple) -> Triple {
    (mul_raw(a.0, b.0), mul_raw(a.1, b.1), mul_raw(a.2, b.2))
}

#[derive(Clone, Copy, Debug, PartialEq, Eq, Structural)]
pub struct Color {
    pub r: Scalar,
    pub g: Scalar,
    pub b: Scalar,
}

impl View for Color {
    type V = Triple;

    open spec fn view(&self) -> Triple {
        (self.r@, self.g@, self.b@)
    }
}

impl Color {
    pub fn new(r: Scalar, g: Scalar, b: Scalar) -> (c: Color)
        ensures
            c@ == (r@, g@, b@),
    {
        Color { r, g, b }
    }

    /// The color whose channels are each 0 or 1 as `r`, `g` and `b` say.
    fn primary(r: bool, g: bool, b: bool) -> (c: Color)
        ensures
            c@ == (
                if r {
                    SCALE as int
                } else {
                    0
                },
                if g {
                    SCALE as int
                } else {
                    0
                },
                if b {
                    SCALE as int
                } else {
                    0
                },
            ),
    {
        let on = Scalar::one();
        let off = Scalar::zero();
        Color {
            r: if r {
                on
            } else {
                off
            },
            g: if g {
                on
            } else {
                off
            },
            b: if b {
                on
            } else {
                off
            },
        }
    }

    pub fn black() -> (c: Color)
        ensures
            c@ == (0int, 0int, 0int),
    {
        Color::primary(false, false, false)
    }

    pub fn gray() -> (c: Color)
        ensures
            c@ == (SCALE / 2, SCALE / 2, SCALE / 2),
    {
        let h = Scalar::from_raw(SCALE / 2);
        Color { r: h, g: h, b: h }
    }

    pub fn white() -> (c: Color)
        ensures
            c@ == (SCALE as int, SCALE as int, SCALE as int),
    {
        Color::primary(true, true, true)
    }

    pub fn red() -> (c: Color)
        ensures
            c@ == (SCALE as int, 0int, 0int),
    {
        Color::primary(true, false, false)
    }

    pub fn green() -> (c: Color)
        ensures
            c@ == (0int, SCALE as int, 0int),
    {
        Color::primary(false, true, false)
    }

    pub fn blue() -> (c: Color)
        ensures
            c@ == (0int, 0int, SCALE as int),
    {
        Color::primary(false, false, true)
    }

    pub fn cyan() -> (c: Color)
        ensures
            c@ == (0int, SCALE as int, SCALE as int),
    {
        Color::primary(false, true, true)
    }

    pub fn magenta() -> (c: Color)
        ensures
            c@ == (SCALE as int, 0int, SCALE as int),
    {
        Color::primary(true, false, true)
    }

    pub fn yellow() -> (c: Color)
        ensures
            c@ == (SCALE as int, SCALE as int, 0int),
    {
        Color::primary(true, true, false)
    }

    /// The sum, or `None` when a channel is out of range.
    pub fn try_add(self, rhs: Color) -> (c: Option<Color>)
        ensures
            c is Some <==> fits3(add3(self@, rhs@)),
            c matches Some(c) ==> c@ == add3(self@, rhs@),
    {
        match (self.r.checked_add(rhs.r), self.g.checked_add(rhs.g), self.b.checked_add(rhs.b)) {
            (Some(r), Some(g), Some(b)) => Some(Color { r, g, b }),
            _ => None,
        }
    }

    /// The channel-by-channel product, or `None` when a channel is out of
    /// range.
    pub fn try_mul(self, rhs: Color) -> (c: Option<Color>)
        ensures
            c is Some <==> fits3(hadamard3(self@, rhs@)),
            c matches Some(c) ==> c@ == hadamard3(self@, rhs@),
    {
        match (self.r.checked_mul(rhs.r), self.g.checked_mul(rhs.g), self.b.checked_mul(rhs.b)) {
            (Some(r), Some(g), Some(b)) => Some(Color { r, g, b }),
            _ => None,
        }
    }

    /// Each channel multiplied by `s`, or `None` when a channel is out of
    /// range.
    pub fn try_scale(self, s: Scalar) -> (c: Option<Color>)
        ensures
            c is Some <==> fits3(scale3(self@, s@)),
            c matches Some(c) ==> c@ == scale3(self@, s@),
    {
        match (self.r.checked_mul(s), self.g.checked_mul(s), self.b.checked_mul(s)) {
            (Some(r), Some(g), Some(b)) => Some(Color { r, g, b }),
            _ => None,
        }
    }

    pub fn add(self, rhs: Color) -> (c: Color)
        requires
            fits3(add3(self@, rhs@)),
        ensures
            c@ == add3(self@, rhs@),
    {
        Color { r: self.r.add(rhs.r), g: self.g.add(rhs.g), b: self.b.add(rhs.b) }
    }

    pub fn sub(self, rhs: Color) -> (c: Color)
        requires
            fits3(sub3(self@, rhs@)),
        ensures
            c@ == sub3(self@, rhs@),
    {
        Color { r: self.r.sub(rhs.r), g: self.g.sub(rhs.g), b: self.b.sub(rhs.b) }
    }

    /// Channel-by-channel product.
    pub fn mul(self, rhs: Color) -> (c: Color)
        requires
            fits3(hadamard3(self@, rhs@)),
        ensures
            c@ == hadamard3(self@, rhs@),
    {
        Color { r: self.r.mul(rhs.r), g: self.g.mul(rhs.g), b: self.b.mul(rhs.b) }
    }

    /// Each channel multiplied by `s`.
    pub fn scale(self, s: Scalar) -> (c: Color)
        requires
            fits3(scale3(self@, s@)),
        ensures
            c@ == scale3(self@, s@),
    {
        Color { r: self.r.mul(s), g: self.g.mul(s), b: self.b.mul(s) }
    }
}

} // verus!
