//! Points and vectors: three fixed-point coordinates, with an implicit
//! homogeneous `w` of 1 for a point and 0 for a vector.
use vstd::prelude::*;
use vstd::string::StringExecFns;
use crate::matrix::Matrix;
use crate::scalar::{
    abs, approx_eq_spec, div_raw, fits, is_isqrt, isqrt, isqrt_u128, mul_raw,
    scalar_text,
    scalar_text_places, wide_mul, Scalar, DEFAULT_ATOL, DEFAULT_RTOL, RAW_MAX, SCALE,
};

verus! {

/// Three raw coordinates.
pub type Triple = (int, int, int);

pub open spec fn fits3(t: Triple) -> bool {
    fits(t.0) && fits(t.1) && fits(t.2)
}

pub open spec fn add3(a: Triple, b: Triple) -> Triple {
    (a.0 + b.0, a.1 + b.1, a.2 + b.2)
}

pub open spec fn sub3(a: Triple, b: Triple) -> Triple {
    (a.0 - b.0, a.1 - b.1, a.2 - b.2)
}

pub open spec fn neg3(a: Triple) -> Triple {
    (-a.0, -a.1, -a.2)
}

/// Each coordinate multiplied by the raw scalar `s`.
pub open spec fn scale3(a: Triple, s: int) -> Triple {
    (mul_raw(a.0, s), mul_raw(a.1, s), mul_raw(a.2, s))
}

/// Each coordinate divided by the non-zero raw scalar `s`.
pub open spec fn div3(a: Triple, s: int) -> Triple {
    (div_raw(a.0, s), div_raw(a.1, s), div_raw(a.2, s))
}

pub open spec fn dot3(a: Triple, b: Triple) -> int {
    mul_raw(a.0, b.0) + mul_raw(a.1, b.1) + mul_raw(a.2, b.2)
}

pub open spec fn cross3(a: Triple, b: Triple) -> Triple {
    (
        mul_raw(a.1, b.2) - mul_raw(a.2, b.1),
        mul_raw(a.2, b.0) - mul_raw(a.0, b.2),
        mul_raw(a.0, b.1) - mul_raw(a.1, b.0),
    )
}

/// `a` mirrored about `n`: `a - n * (2 * (a . n))`.
pub open spec fn reflect3(a: Triple, n: Triple) -> Triple {
    sub3(a, scale3(n, 2 * dot3(a, n)))
}

/// Every value computed on the way to `reflect3(a, n)` is in range.
pub open spec fn reflect_in_range(a: Triple, n: Triple) -> bool {
    &&& fits(dot3(a, n))
    &&& fits(2 * dot3(a, n))
    &&& fits3(scale3(n, 2 * dot3(a, n)))
    &&& fits3(reflect3(a, n))
}

/// The exact sum of the squares of the raw coordinates (in units of
/// `1 / SCALE^2`).
pub open spec fn sumsq3(a: Triple) -> int {
    a.0 * a.0 + a.1 * a.1 + a.2 * a.2
}

/// Raw length of a vector: the integer square root of the exact sum of the
/// squares of its raw coordinates, so rounded down by less than one raw unit.
pub open spec fn length3(a: Triple) -> int {
    isqrt(sumsq3(a))
}

/// The 4 by 1 column of homogeneous coordinates (`t`, `w`).
pub open spec fn column(t: Triple, w: int) -> Seq<Seq<int>> {
    seq![seq![t.0], seq![t.1], seq![t.2], seq![w]]
}

/// A 4 by 1 matrix whose `w` is not the one a point (1) or a vector (0)
/// must have; it carries the offending coordinates.
#[derive(Clone, Copy, Debug, PartialEq, Eq, Structural)]
pub struct ConversionError {
    pub x: Scalar,
    pub y: Scalar,
    pub z: Scalar,
    pub w: Scalar,
}

/// The column of a 4 by 1 matrix as coordinates, and its `w`.
fn column_parts(m: &Matrix<4, 1>) -> (r: (Scalar, Scalar, Scalar, Scalar))
    ensures
        m.rows() == column((r.0@, r.1@, r.2@), r.3@),
{
    let r = (m.get(0, 0), m.get(1, 0), m.get(2, 0), m.get(3, 0));
    assert(m.rows() =~~= column((r.0@, r.1@, r.2@), r.3@));
    r
}

/// The 4 by 1 matrix (`x`, `y`, `z`, `w`).
fn column_matrix(x: Scalar, y: Scalar, z: Scalar, w: Scalar) -> (r: Matrix<4, 1>)
    ensures
        r.rows() == column((x@, y@, z@), w@),
{
    let r = Matrix::new([[x], [y], [z], [w]]);
    assert(r.rows() =~~= column((x@, y@, z@), w@));
    r
}

impl Matrix<4, 1> {
    /// The homogeneous column of the point (`x`, `y`, `z`).
    pub fn point(x: Scalar, y: Scalar, z: Scalar) -> (r: Matrix<4, 1>)
        ensures
            r.rows() == column((x@, y@, z@), SCALE as int),
    {
        column_matrix(x, y, z, Scalar::one())
    }

    /// The homogeneous column of the vector (`x`, `y`, `z`).
    pub fn vector(x: Scalar, y: Scalar, z: Scalar) -> (r: Matrix<4, 1>)
        ensures
            r.rows() == column((x@, y@, z@), 0),
    {
        column_matrix(x, y, z, Scalar::zero())
    }

    pub fn from_point(p: Point) -> (r: Matrix<4, 1>)
        ensures
            r.rows() == column(p@, SCALE as int),
    {
        Matrix::<4, 1>::point(p.x, p.y, p.z)
    }

    pub fn from_vector(v: Vector) -> (r: Matrix<4, 1>)
        ensures
            r.rows() == column(v@, 0),
    {
        Matrix::<4, 1>::vector(v.x, v.y, v.z)
    }
}

/// `name [x, y, z]`, each coordinate as `scalar_text` writes it.
pub open spec fn tuple_text(name: Seq<char>, t: Triple) -> Seq<char> {
    name + " ["@ + scalar_text(t.0) + ", "@ + scalar_text(t.1) + ", "@ + scalar_text(t.2) + "]"@
}

/// `name [x, y, z]`, each coordinate as `scalar_text_places` writes it.
pub open spec fn tuple_text_places(name: Seq<char>, t: Triple, places: nat, plus: bool) -> Seq<
    char,
> {
    name + " ["@ + scalar_text_places(t.0, places, plus) + ", "@ + scalar_text_places(
        t.1,
        places,
        plus,
    ) + ", "@ + scalar_text_places(t.2, places, plus) + "]"@
}

/// Writes `name [x, y, z]`; with `places`, each coordinate rounded to that
/// many decimals, signed when `plus`.
fn write_tuple(name: &str, x: Scalar, y: Scalar, z: Scalar, places: Option<u32>, plus: bool) -> (r:
    String)
    requires
        places matches Some(p) ==> p <= 9,
    ensures
        places is None ==> r@ == tuple_text(name@, (x@, y@, z@)),
        places matches Some(p) ==> r@ == tuple_text_places(name@, (x@, y@, z@), p as nat, plus),
{
    proof {
        reveal_strlit(" [");
        reveal_strlit(", ");
        reveal_strlit("]");
    }
    let mut s = String::from_str(name);
    s.append(" [");
    let ghost start = s@;
    match places {
        Some(p) => {
            x.push_text_places(&mut s, p, plus);
            s.append(", ");
            y.push_text_places(&mut s, p, plus);
            s.append(", ");
            z.push_text_places(&mut s, p, plus);
        },
        None => {
            x.push_text(&mut s);
            s.append(", ");
            y.push_text(&mut s);
            s.append(", ");
            z.push_text(&mut s);
        },
    }
    s.append("]");
    proof {
        match places {
            Some(p) => {
                assert(s@ =~= tuple_text_places(name@, (x@, y@, z@), p as nat, plus));
            },
            None => {
                assert(s@ =~= tuple_text(name@, (x@, y@, z@)));
            },
        }
    }
    s
}

/// A location in space.
#[derive(Clone, Copy, Debug, PartialEq, Eq, Structural)]
pub struct Point {
    pub x: Scalar,
    pub y: Scalar,
    pub z: Scalar,
}

/// A direction in space.
#[derive(Clone, Copy, Debug, PartialEq, Eq, Structural)]
pub struct Vector {
    pub x: Scalar,
    pub y: Scalar,
    pub z: Scalar,
}

impl View for Point {
    type V = Triple;

    open spec fn view(&self) -> Triple {
        (self.x@, self.y@, self.z@)
    }
}

impl View for Vector {
    type V = Triple;

    open spec fn view(&self) -> Triple {
        (self.x@, self.y@, self.z@)
    }
}

/// `x` divided by the raw length `len` of a vector with coordinate `x`.
fn div_by_length(x: Scalar, len: u128) -> (r: Scalar)
    requires
        0 < len < 0x1_0000_0000_0000_0000,
        abs(x@) <= len,
    ensures
        r@ == div_raw(x@, len as int),
        abs(r@) <= SCALE,
{
    let l = len as i128;
    let n: i128 = (x.raw as i128) * (SCALE as i128);
    proof {
        let s = SCALE as int;
        assert(abs(n as int) <= len * s) by (nonlinear_arith)
            requires
                abs(x@) <= len,
                n == x@ * s,
                s > 0,
        ;
        assert(abs(n as int) / (len as int) <= s) by (nonlinear_arith)
            requires
                abs(n as int) <= len * s,
                len > 0,
        ;
    }
    assert(l > 0);
    let q: i128 = if n >= 0 {
        n / l
    } else {
        -((-n) / l)
    };
    assert(abs(q as int) <= SCALE);
    Scalar::from_raw(q as i64)
}

/// A non-zero vector has a positive length, at least as large as each
/// coordinate.
pub proof fn lemma_length_bounds(v: Triple)
    ensures
        sumsq3(v) >= 0,
        is_isqrt(sumsq3(v), length3(v)),
        abs(v.0) <= length3(v),
        abs(v.1) <= length3(v),
        abs(v.2) <= length3(v),
        v != (0int, 0int, 0int) ==> length3(v) > 0,
{
    assert(v.0 * v.0 >= 0 && v.1 * v.1 >= 0 && v.2 * v.2 >= 0) by (nonlinear_arith);
    crate::scalar::lemma_isqrt_exists(sumsq3(v));
    let l = length3(v);
    assert(abs(v.0) <= l && abs(v.1) <= l && abs(v.2) <= l) by (nonlinear_arith)
        requires
            sumsq3(v) < (l + 1) * (l + 1),
            sumsq3(v) == v.0 * v.0 + v.1 * v.1 + v.2 * v.2,
            v.0 * v.0 >= 0,
            v.1 * v.1 >= 0,
            v.2 * v.2 >= 0,
            l >= 0,
    ;
    if v != (0int, 0int, 0int) {
        assert(sumsq3(v) >= 1) by (nonlinear_arith)
            requires
                v.0 != 0 || v.1 != 0 || v.2 != 0,
                sumsq3(v) == v.0 * v.0 + v.1 * v.1 + v.2 * v.2,
                v.0 * v.0 >= 0,
                v.1 * v.1 >= 0,
                v.2 * v.2 >= 0,
        ;
    }
}

/// The raw `i128` value cast back to a scalar.
fn narrow(v: i128) -> (r: Scalar)
    requires
        fits(v as int),
    ensures
        r@ == v,
{
    Scalar::from_raw(v as i64)
}

impl Point {
    pub fn new(x: Scalar, y: Scalar, z: Scalar) -> (r: Point)
        ensures
            r@ == (x@, y@, z@),
    {
        Point { x, y, z }
    }

    pub fn origin() -> (r: Point)
        ensures
            r@ == (0int, 0int, 0int),
    {
        Point { x: Scalar::zero(), y: Scalar::zero(), z: Scalar::zero() }
    }

    /// `Point [x, y, z]`, e.g. `Point [4.3, -4.2, 3.1]`.
    pub fn to_string(&self) -> (r: String)
        ensures
            r@ == tuple_text("Point"@, self@),
    {
        write_tuple("Point", self.x, self.y, self.z, None, false)
    }

    /// `Point [x, y, z]` with each coordinate rounded to `places` decimals,
    /// signed when `plus`, e.g. `Point [+4.30, -4.20, +3.10]`.
    pub fn to_string_places(&self, places: u32, plus: bool) -> (r: String)
        requires
            places <= 9,
        ensures
            r@ == tuple_text_places("Point"@, self@, places as nat, plus),
    {
        write_tuple("Point", self.x, self.y, self.z, Some(places), plus)
    }

    /// The point held by a homogeneous column, whose `w` must be exactly 1.
    pub fn try_from_matrix(m: &Matrix<4, 1>) -> (r: Result<Point, ConversionError>)
        ensures
            r is Ok <==> m.rows()[3][0] == SCALE,
            r matches Ok(p) ==> m.rows() == column(p@, SCALE as int),
            r matches Err(e) ==> m.rows() == column((e.x@, e.y@, e.z@), e.w@),
    {
        let (x, y, z, w) = column_parts(m);
        if w.raw == SCALE {
            Ok(Point { x, y, z })
        } else {
            Err(ConversionError { x, y, z, w })
        }
    }

    /// The point moved by `v`.
    pub fn add_vector(self, v: Vector) -> (r: Point)
        requires
            fits3(add3(self@, v@)),
        ensures
            r@ == add3(self@, v@),
    {
        Point { x: self.x.add(v.x), y: self.y.add(v.y), z: self.z.add(v.z) }
    }

    /// The vector from `rhs` to `self`.
    pub fn sub_point(self, rhs: Point) -> (r: Vector)
        requires
            fits3(sub3(self@, rhs@)),
        ensures
            r@ == sub3(self@, rhs@),
    {
        Vector { x: self.x.sub(rhs.x), y: self.y.sub(rhs.y), z: self.z.sub(rhs.z) }
    }

    /// The vector from `rhs` to `self`, or `None` when a coordinate is out of
    /// range.
    pub fn try_sub_point(self, rhs: Point) -> (r: Option<Vector>)
        ensures
            r is Some <==> fits3(sub3(self@, rhs@)),
            r matches Some(v) ==> v@ == sub3(self@, rhs@),
    {
        match (self.x.checked_sub(rhs.x), self.y.checked_sub(rhs.y), self.z.checked_sub(rhs.z)) {
            (Some(x), Some(y), Some(z)) => Some(Vector { x, y, z }),
            _ => None,
        }
    }

    /// The point moved by `-v`.
    pub fn sub_vector(self, v: Vector) -> (r: Point)
        requires
            fits3(sub3(self@, v@)),
        ensures
            r@ == sub3(self@, v@),
    {
        Point { x: self.x.sub(v.x), y: self.y.sub(v.y), z: self.z.sub(v.z) }
    }
}

impl Vector {
    pub fn new(x: Scalar, y: Scalar, z: Scalar) -> (r: Vector)
        ensures
            r@ == (x@, y@, z@),
    {
        Vector { x, y, z }
    }

    /// `Vector [x, y, z]`, e.g. `Vector [4.3, -4.2, 3.1]`.
    pub fn to_string(&self) -> (r: String)
        ensures
            r@ == tuple_text("Vector"@, self@),
    {
        write_tuple("Vector", self.x, self.y, self.z, None, false)
    }

    /// `Vector [x, y, z]` with each coordinate rounded to `places` decimals,
    /// signed when `plus`.
    pub fn to_string_places(&self, places: u32, plus: bool) -> (r: String)
        requires
            places <= 9,
        ensures
            r@ == tuple_text_places("Vector"@, self@, places as nat, plus),
    {
        write_tuple("Vector", self.x, self.y, self.z, Some(places), plus)
    }

    /// The vector held by a homogeneous column, whose `w` must be exactly 0.
    pub fn try_from_matrix(m: &Matrix<4, 1>) -> (r: Result<Vector, ConversionError>)
        ensures
            r is Ok <==> m.rows()[3][0] == 0,
            r matches Ok(v) ==> m.rows() == column(v@, 0),
            r matches Err(e) ==> m.rows() == column((e.x@, e.y@, e.z@), e.w@),
    {
        let (x, y, z, w) = column_parts(m);
        if w.raw == 0 {
            Ok(Vector { x, y, z })
        } else {
            Err(ConversionError { x, y, z, w })
        }
    }

    pub fn add(self, rhs: Vector) -> (r: Vector)
        requires
            fits3(add3(self@, rhs@)),
        ensures
            r@ == add3(self@, rhs@),
    {
        Vector { x: self.x.add(rhs.x), y: self.y.add(rhs.y), z: self.z.add(rhs.z) }
    }

    /// The point `p` moved by `self`.
    pub fn add_point(self, p: Point) -> (r: Point)
        requires
            fits3(add3(self@, p@)),
        ensures
            r@ == add3(self@, p@),
    {
        Point { x: self.x.add(p.x), y: self.y.add(p.y), z: self.z.add(p.z) }
    }

    pub fn sub(self, rhs: Vector) -> (r: Vector)
        requires
            fits3(sub3(self@, rhs@)),
        ensures
            r@ == sub3(self@, rhs@),
    {
        Vector { x: self.x.sub(rhs.x), y: self.y.sub(rhs.y), z: self.z.sub(rhs.z) }
    }

    pub fn neg(self) -> (r: Vector)
        requires
            fits3(self@),
        ensures
            r@ == neg3(self@),
    {
        Vector { x: self.x.neg(), y: self.y.neg(), z: self.z.neg() }
    }

    /// Each coordinate multiplied by `s`.
    pub fn mul(self, s: Scalar) -> (r: Vector)
        requires
            fits3(scale3(self@, s@)),
        ensures
            r@ == scale3(self@, s@),
    {
        Vector { x: self.x.mul(s), y: self.y.mul(s), z: self.z.mul(s) }
    }

    /// Each coordinate divided by `s`.
    pub fn div(self, s: Scalar) -> (r: Vector)
        requires
            s@ != 0,
            fits3(div3(self@, s@)),
        ensures
            r@ == div3(self@, s@),
    {
        Vector { x: self.x.div(s), y: self.y.div(s), z: self.z.div(s) }
    }

    /// The dot product, or `None` when it is out of range.
    pub fn try_dot(&self, rhs: Vector) -> (r: Option<Scalar>)
        ensures
            r is Some <==> fits(dot3(self@, rhs@)),
            r matches Some(v) ==> v@ == dot3(self@, rhs@),
    {
        let s: i128 = wide_mul(self.x, rhs.x) + wide_mul(self.y, rhs.y) + wide_mul(self.z, rhs.z);
        if -(RAW_MAX as i128) <= s && s <= RAW_MAX as i128 {
            Some(narrow(s))
        } else {
            None
        }
    }

    pub fn dot(&self, rhs: Vector) -> (r: Scalar)
        requires
            fits(dot3(self@, rhs@)),
        ensures
            r@ == dot3(self@, rhs@),
    {
        match self.try_dot(rhs) {
            Some(v) => v,
            None => Scalar::zero(),
        }
    }

    pub fn squared_length(&self) -> (r: Scalar)
        requires
            fits(dot3(self@, self@)),
        ensures
            r@ == dot3(self@, self@),
            r@ >= 0,
    {
        proof {
            lemma_square_raw_nonneg(self.x@);
            lemma_square_raw_nonneg(self.y@);
            lemma_square_raw_nonneg(self.z@);
        }
        self.dot(*self)
    }

    /// The exact raw length, held wide.
    pub(crate) fn wide_length(&self) -> (r: u128)
        ensures
            r == length3(self@),
            r < 0x1_0000_0000_0000_0000,
            is_isqrt(sumsq3(self@), r as int),
    {
        let (x, y, z) = (self.x.raw as i128, self.y.raw as i128, self.z.raw as i128);
        proof {
            assert(0 <= x * x <= 0x4000_0000_0000_0000_0000_0000_0000_0000) by (nonlinear_arith)
                requires
                    -0x8000_0000_0000_0000 <= x < 0x8000_0000_0000_0000,
            ;
            assert(0 <= y * y <= 0x4000_0000_0000_0000_0000_0000_0000_0000) by (nonlinear_arith)
                requires
                    -0x8000_0000_0000_0000 <= y < 0x8000_0000_0000_0000,
            ;
            assert(0 <= z * z <= 0x4000_0000_0000_0000_0000_0000_0000_0000) by (nonlinear_arith)
                requires
                    -0x8000_0000_0000_0000 <= z < 0x8000_0000_0000_0000,
            ;
        }
        let n: u128 = ((x * x) as u128) + ((y * y) as u128) + ((z * z) as u128);
        let r = isqrt_u128(n);
        proof {
            if r >= 0x1_0000_0000_0000_0000 {
                assert(r * r >= 0x1_0000_0000_0000_0000 * 0x1_0000_0000_0000_0000) by (nonlinear_arith)
                    requires
                        r >= 0x1_0000_0000_0000_0000,
                ;
            }
        }
        r
    }

    /// The length, or `None` when it is out of range.
    pub fn try_length(&self) -> (r: Option<Scalar>)
        ensures
            r is Some <==> fits(length3(self@)),
            r matches Some(l) ==> l@ == length3(self@),
    {
        let l = self.wide_length();
        if l <= RAW_MAX as u128 {
            Some(Scalar::from_raw(l as i64))
        } else {
            None
        }
    }

    /// The length: the square root of the exact sum of squares, rounded
    /// down to the raw unit.
    pub fn length(&self) -> (r: Scalar)
        requires
            fits(length3(self@)),
        ensures
            r@ == length3(self@),
    {
        match self.try_length() {
            Some(l) => l,
            None => Scalar::zero(),
        }
    }

    /// The vector scaled to unit length: each coordinate divided by the
    /// length. The zero vector has no direction to keep.
    pub fn normalize(&self) -> (r: Vector)
        requires
            self@ != (0int, 0int, 0int),
        ensures
            length3(self@) > 0,
            r@ == div3(self@, length3(self@)),
            abs(r@.0) <= SCALE && abs(r@.1) <= SCALE && abs(r@.2) <= SCALE,
            fits3(r@),
    {
        let len = self.wide_length();
        proof {
            lemma_length_bounds(self@);
        }
        Vector { x: div_by_length(self.x, len), y: div_by_length(self.y, len), z: div_by_length(self.z, len) }
    }

    /// The vector mirrored about `normal`, or `None` when a value on the way
    /// is out of range.
    pub fn try_reflect(&self, normal: Vector) -> (r: Option<Vector>)
        ensures
            r is Some <==> reflect_in_range(self@, normal@),
            r matches Some(v) ==> v@ == reflect3(self@, normal@),
    {
        let d = match self.try_dot(normal) {
            Some(d) => d,
            None => return None,
        };
        let twice = match d.checked_add(d) {
            Some(t) => t,
            None => return None,
        };
        let n = match (normal.x.checked_mul(twice), normal.y.checked_mul(twice), normal.z.checked_mul(twice)) {
            (Some(x), Some(y), Some(z)) => Vector { x, y, z },
            _ => return None,
        };
        match (self.x.checked_sub(n.x), self.y.checked_sub(n.y), self.z.checked_sub(n.z)) {
            (Some(x), Some(y), Some(z)) => Some(Vector { x, y, z }),
            _ => None,
        }
    }

    /// The vector mirrored about `normal`: `self - normal * (2 * (self . normal))`.
    pub fn reflect(&self, normal: Vector) -> (r: Vector)
        requires
            reflect_in_range(self@, normal@),
        ensures
            r@ == reflect3(self@, normal@),
    {
        match self.try_reflect(normal) {
            Some(v) => v,
            None => *self,
        }
    }

    pub fn cross(&self, rhs: Vector) -> (r: Vector)
        requires
            fits3(cross3(self@, rhs@)),
        ensures
            r@ == cross3(self@, rhs@),
    {
        let x: i128 = wide_mul(self.y, rhs.z) - wide_mul(self.z, rhs.y);
        let y: i128 = wide_mul(self.z, rhs.x) - wide_mul(self.x, rhs.z);
        let z: i128 = wide_mul(self.x, rhs.y) - wide_mul(self.y, rhs.x);
        Vector { x: narrow(x), y: narrow(y), z: narrow(z) }
    }
}

/// The cross product is anti-commutative: `a x b == -(b x a)`, exactly,
/// since each rounded product is the same whichever operand comes first.
pub proof fn lemma_cross_anticommutative(a: Vector, b: Vector)
    ensures
        cross3(a@, b@) == neg3(cross3(b@, a@)),
{
    assert(a.y@ * b.z@ == b.z@ * a.y@);
    assert(a.z@ * b.y@ == b.y@ * a.z@);
    assert(a.z@ * b.x@ == b.x@ * a.z@);
    assert(a.x@ * b.z@ == b.z@ * a.x@);
    assert(a.x@ * b.y@ == b.y@ * a.x@);
    assert(a.y@ * b.x@ == b.x@ * a.y@);
}

/// `|n| * len <= |x| * S < (|n| + 1) * len` for `n = div_raw(x, len)`.
proof fn lemma_quotient_bounds(x: int, len: int)
    requires
        len > 0,
    ensures
        abs(div_raw(x, len)) * len <= abs(x) * SCALE < (abs(div_raw(x, len)) + 1) * len,
{
    let s = SCALE as int;
    let ax = abs(x);
    let q = (ax * s) / len;
    assert(q * len <= ax * s < (q + 1) * len) by (nonlinear_arith)
        requires
            ax >= 0,
            len > 0,
            s > 0,
            q == (ax * s) / len,
    ;
    if x >= 0 {
        assert(x * s >= 0) by (nonlinear_arith)
            requires
                x >= 0,
                s > 0,
        ;
        assert(ax * s == x * s);
    } else {
        assert(x * s < 0) by (nonlinear_arith)
            requires
                x < 0,
                s > 0,
        ;
        assert(ax * s == -(x * s)) by (nonlinear_arith)
            requires
                ax == -x,
        ;
    }
    assert(q >= 0) by (nonlinear_arith)
        requires
            ax >= 0,
            len > 0,
            s > 0,
            q == (ax * s) / len,
    ;
}

/// `0 <= a * m <= b * k` gives `a^2 * m^2 <= b^2 * k^2`.
proof fn lemma_scaled_square_le(a: int, m: int, b: int, k: int)
    requires
        0 <= a,
        0 < m,
        a * m <= b * k,
    ensures
        a * a * (m * m) <= b * b * (k * k),
{
    assert(0 <= a * m) by (nonlinear_arith)
        requires
            0 <= a,
            0 < m,
    ;
    assert((a * m) * (a * m) <= (b * k) * (b * k)) by (nonlinear_arith)
        requires
            0 <= a * m <= b * k,
    ;
    assert(a * a * (m * m) == (a * m) * (a * m)) by (nonlinear_arith);
    assert(b * b * (k * k) == (b * k) * (b * k)) by (nonlinear_arith);
}

/// `0 <= b * k < a * m` gives `b^2 * k^2 < a^2 * m^2`.
proof fn lemma_scaled_square_lt(b: int, k: int, a: int, m: int)
    requires
        0 <= b,
        0 < k,
        b * k < a * m,
    ensures
        b * b * (k * k) < a * a * (m * m),
{
    assert(0 <= b * k) by (nonlinear_arith)
        requires
            0 <= b,
            0 < k,
    ;
    assert((b * k) * (b * k) < (a * m) * (a * m)) by (nonlinear_arith)
        requires
            0 <= b * k < a * m,
    ;
    assert(a * a * (m * m) == (a * m) * (a * m)) by (nonlinear_arith);
    assert(b * b * (k * k) == (b * k) * (b * k)) by (nonlinear_arith);
}

/// A non-zero vector, normalized, has coordinates of at most one and an
/// exact sum of squares above `SCALE^2 - 6 SCALE - 3`, so the rounded dot
/// product with itself is at least `SCALE - 9`.
pub proof fn lemma_normalized_sumsq_lower(v: Triple)
    requires
        v != (0int, 0int, 0int),
    ensures
        abs(div3(v, length3(v)).0) <= SCALE,
        abs(div3(v, length3(v)).1) <= SCALE,
        abs(div3(v, length3(v)).2) <= SCALE,
        sumsq3(div3(v, length3(v))) > SCALE * SCALE - 6 * SCALE - 3,
        dot3(div3(v, length3(v)), div3(v, length3(v))) >= SCALE - 9,
{
    let s = SCALE as int;
    let len = length3(v);
    lemma_length_bounds(v);
    let n = div3(v, len);
    let xx = sumsq3(v);
    let (x0, x1, x2) = (v.0, v.1, v.2);
    let (n0, n1, n2) = (n.0, n.1, n.2);
    lemma_quotient_bounds(x0, len);
    lemma_quotient_bounds(x1, len);
    lemma_quotient_bounds(x2, len);
    let (a0, a1, a2) = (abs(n0), abs(n1), abs(n2));
    let (b0, b1, b2) = (abs(x0), abs(x1), abs(x2));
    let nn = sumsq3(n);
    assert(nn == a0 * a0 + a1 * a1 + a2 * a2) by (nonlinear_arith)
        requires
            a0 == abs(n0),
            a1 == abs(n1),
            a2 == abs(n2),
            nn == n0 * n0 + n1 * n1 + n2 * n2,
    ;
    assert(xx == b0 * b0 + b1 * b1 + b2 * b2) by (nonlinear_arith)
        requires
            b0 == abs(x0),
            b1 == abs(x1),
            b2 == abs(x2),
            xx == x0 * x0 + x1 * x1 + x2 * x2,
    ;
    // Lower bound.
    lemma_scaled_square_lt(b0, s, a0 + 1, len);
    lemma_scaled_square_lt(b1, s, a1 + 1, len);
    lemma_scaled_square_lt(b2, s, a2 + 1, len);
    let mm = (a0 + 1) * (a0 + 1) + (a1 + 1) * (a1 + 1) + (a2 + 1) * (a2 + 1);
    assert(xx * (s * s) < mm * (len * len)) by (nonlinear_arith)
        requires
            b0 * b0 * (s * s) < (a0 + 1) * (a0 + 1) * (len * len),
            b1 * b1 * (s * s) < (a1 + 1) * (a1 + 1) * (len * len),
            b2 * b2 * (s * s) < (a2 + 1) * (a2 + 1) * (len * len),
            mm == (a0 + 1) * (a0 + 1) + (a1 + 1) * (a1 + 1) + (a2 + 1) * (a2 + 1),
            xx == b0 * b0 + b1 * b1 + b2 * b2,
    ;
    assert((len * len) * (s * s) <= xx * (s * s)) by (nonlinear_arith)
        requires
            len * len <= xx,
    ;
    assert(mm > s * s) by (nonlinear_arith)
        requires
            (len * len) * (s * s) < mm * (len * len),
            len > 0,
    ;
    assert(a0 <= s && a1 <= s && a2 <= s) by (nonlinear_arith)
        requires
            a0 * len <= b0 * s,
            a1 * len <= b1 * s,
            a2 * len <= b2 * s,
            b0 <= len,
            b1 <= len,
            b2 <= len,
            len > 0,
            s > 0,
    ;
    assert(nn > s * s - 6 * s - 3) by (nonlinear_arith)
        requires
            mm > s * s,
            mm == (a0 + 1) * (a0 + 1) + (a1 + 1) * (a1 + 1) + (a2 + 1) * (a2 + 1),
            nn == a0 * a0 + a1 * a1 + a2 * a2,
            0 <= a0 <= s,
            0 <= a1 <= s,
            0 <= a2 <= s,
    ;
    lemma_square_floor(n0);
    lemma_square_floor(n1);
    lemma_square_floor(n2);
    assert(dot3(n, n) >= s - 9) by (nonlinear_arith)
        requires
            s * mul_raw(n0, n0) > n0 * n0 - s,
            s * mul_raw(n1, n1) > n1 * n1 - s,
            s * mul_raw(n2, n2) > n2 * n2 - s,
            dot3(n, n) == mul_raw(n0, n0) + mul_raw(n1, n1) + mul_raw(n2, n2),
            nn == n0 * n0 + n1 * n1 + n2 * n2,
            nn > s * s - 6 * s - 3,
            s == 1_000_000_000,
    ;
}

/// A rounded product with a factor of at most one is at most the other
/// factor: `|u| <= SCALE` gives `|mul_raw(u, o)| <= |o|`.
pub proof fn lemma_mul_raw_by_unit(u: int, o: int)
    requires
        abs(u) <= SCALE,
    ensures
        abs(mul_raw(u, o)) <= abs(o),
{
    let s = SCALE as int;
    let p = u * o;
    assert(abs(p) <= s * abs(o)) by (nonlinear_arith)
        requires
            abs(u) <= s,
            p == u * o,
            s > 0,
    ;
    assert(abs(p) / s <= abs(o)) by (nonlinear_arith)
        requires
            abs(p) <= s * abs(o),
            s > 0,
    ;
}

/// `S * floor(x^2 / S) > x^2 - S`.
proof fn lemma_square_floor(x: int)
    ensures
        SCALE * mul_raw(x, x) > x * x - SCALE,
{
    let s = SCALE as int;
    assert(x * x >= 0) by (nonlinear_arith);
    assert(s * ((x * x) / s) > x * x - s) by (nonlinear_arith)
        requires
            x * x >= 0,
            s > 0,
    ;
}

/// A vector of length at least 1e-4, normalized, has length within 1e-5
/// of one (between one less four raw units and one plus 1e-5), so
/// `approx_eq` holds between that length and one.
#[verifier::spinoff_prover]
pub proof fn lemma_normalized_length(v: Triple)
    requires
        length3(v) >= 100_000,
    ensures
        SCALE - 4 <= length3(div3(v, length3(v))) <= SCALE + 10_000,
        approx_eq_spec(
            length3(div3(v, length3(v))),
            SCALE as int,
            DEFAULT_ATOL as int,
            DEFAULT_RTOL as int,
        ),
{
    let s = SCALE as int;
    let len = length3(v);
    lemma_length_bounds(v);
    let n = div3(v, len);
    lemma_length_bounds(n);
    let xx = sumsq3(v);
    let (x0, x1, x2) = (v.0, v.1, v.2);
    let (n0, n1, n2) = (n.0, n.1, n.2);
    lemma_quotient_bounds(x0, len);
    lemma_quotient_bounds(x1, len);
    lemma_quotient_bounds(x2, len);
    let (a0, a1, a2) = (abs(n0), abs(n1), abs(n2));
    let (b0, b1, b2) = (abs(x0), abs(x1), abs(x2));
    let nn = sumsq3(n);
    assert(nn == a0 * a0 + a1 * a1 + a2 * a2) by (nonlinear_arith)
        requires
            a0 == abs(n0),
            a1 == abs(n1),
            a2 == abs(n2),
            nn == n0 * n0 + n1 * n1 + n2 * n2,
    ;
    assert(xx == b0 * b0 + b1 * b1 + b2 * b2) by (nonlinear_arith)
        requires
            b0 == abs(x0),
            b1 == abs(x1),
            b2 == abs(x2),
            xx == x0 * x0 + x1 * x1 + x2 * x2,
    ;
    // Upper bound.
    lemma_scaled_square_le(a0, len, b0, s);
    lemma_scaled_square_le(a1, len, b1, s);
    lemma_scaled_square_le(a2, len, b2, s);
    assert(nn * (len * len) <= xx * (s * s)) by (nonlinear_arith)
        requires
            a0 * a0 * (len * len) <= b0 * b0 * (s * s),
            a1 * a1 * (len * len) <= b1 * b1 * (s * s),
            a2 * a2 * (len * len) <= b2 * b2 * (s * s),
            nn == a0 * a0 + a1 * a1 + a2 * a2,
            xx == b0 * b0 + b1 * b1 + b2 * b2,
    ;
    let ln = length3(n);
    assert((ln * len) * (ln * len) < (s * (len + 1)) * (s * (len + 1))) by (nonlinear_arith)
        requires
            ln * ln <= nn,
            nn * (len * len) <= xx * (s * s),
            xx < (len + 1) * (len + 1),
            len > 0,
            s > 0,
    ;
    assert(ln * len < s * (len + 1)) by (nonlinear_arith)
        requires
            (ln * len) * (ln * len) < (s * (len + 1)) * (s * (len + 1)),
            ln >= 0,
            len > 0,
            s > 0,
    ;
    assert(ln <= s + 10_000) by (nonlinear_arith)
        requires
            ln * len < s * len + s,
            len >= 100_000,
            s == 1_000_000_000,
    ;
    if v == (0int, 0int, 0int) {
        assert(len * len <= 0);
        assert(len * len >= 100_000 * 100_000) by (nonlinear_arith)
            requires
                len >= 100_000,
        ;
    }
    lemma_normalized_sumsq_lower(v);
    assert(s - 4 <= ln) by (nonlinear_arith)
        requires
            nn < (ln + 1) * (ln + 1),
            nn > s * s - 6 * s - 3,
            ln >= 0,
            s == 1_000_000_000,
    ;
}

/// The dot product of a vector with itself is never negative.
pub proof fn lemma_dot_self_nonneg(a: Triple)
    ensures
        dot3(a, a) >= 0,
{
    lemma_square_raw_nonneg(a.0);
    lemma_square_raw_nonneg(a.1);
    lemma_square_raw_nonneg(a.2);
}

/// The raw square of a value is never negative.
pub proof fn lemma_square_raw_nonneg(a: int)
    ensures
        mul_raw(a, a) >= 0,
{
    assert(a * a >= 0) by (nonlinear_arith);
}

} // verus!
