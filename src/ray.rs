//! Rays: an origin and a direction, moved along and through transforms.
use vstd::prelude::*;
use crate::intersection::Intersection;
use crate::matrix::{product_fits, product_prefix, Matrix};
use crate::scalar::{
    abs, div_raw, fits, is_isqrt, isqrt, isqrt_u128, mul_raw, wide_mul, Scalar, RAW_MAX, SCALE,
};
use crate::sphere::{inverse4, invertible4, Sphere};
use crate::tuple::{
    add3, column, div3, dot3, fits3, length3, lemma_length_bounds, lemma_mul_raw_by_unit,
    lemma_normalized_sumsq_lower, scale3, Point, Triple, Vector,
};

verus! {

/// Coordinates of the homogeneous column (`t`, `w`) multiplied by `m`.
pub open spec fn apply(m: Seq<Seq<int>>, t: Triple, w: int) -> Triple {
    (
        product_prefix(m, column(t, w), 0, 0, 4),
        product_prefix(m, column(t, w), 1, 0, 4),
        product_prefix(m, column(t, w), 2, 0, 4),
    )
}

/// The `w` of the homogeneous column (`t`, `w`) multiplied by `m`.
pub open spec fn apply_w(m: Seq<Seq<int>>, t: Triple, w: int) -> int {
    product_prefix(m, column(t, w), 3, 0, 4)
}

/// `m` maps the point `p` to a point and the vector `v` to a vector, with
/// every coordinate in range.
pub open spec fn maps_ray(m: Seq<Seq<int>>, p: Triple, v: Triple) -> bool {
    &&& product_fits(m, column(p, SCALE as int), 4, 4, 1)
    &&& product_fits(m, column(v, 0), 4, 4, 1)
    &&& apply_w(m, p, SCALE as int) == SCALE
    &&& apply_w(m, v, 0) == 0
}

/// Largest coordinate (2^61 raw units, about 2.3e9) of a ray origin in the
/// sphere's own space for which every value of the quadratic below fits in
/// 128 bits.
pub const ORIGIN_BOUND: i64 = 0x2000_0000_0000_0000;

pub open spec fn origin_bounded(o: Triple) -> bool {
    abs(o.0) <= ORIGIN_BOUND && abs(o.1) <= ORIGIN_BOUND && abs(o.2) <= ORIGIN_BOUND
}

/// The direction `d` normalized.
pub open spec fn unit_dir(d: Triple) -> Triple {
    div3(d, length3(d))
}

/// `a` of the quadratic `a t^2 + 2 b t + c` in the parameter `t` along the
/// unit direction, whose roots are where the ray (`o`, `d`) meets the unit
/// sphere at the origin: the squared length of the unit direction.
pub open spec fn quad_a(d: Triple) -> int {
    dot3(unit_dir(d), unit_dir(d))
}

/// `b` of that quadratic: the dot product of unit direction and origin.
pub open spec fn half_b(o: Triple, d: Triple) -> int {
    dot3(unit_dir(d), o)
}

/// `c` of that quadratic: the squared distance of the origin from the
/// center, less one.
pub open spec fn quad_c(o: Triple) -> int {
    dot3(o, o) - SCALE
}

/// `b^2 - a c`, exact (in units of `1 / SCALE^2`).
pub open spec fn discriminant(o: Triple, d: Triple) -> int {
    half_b(o, d) * half_b(o, d) - quad_a(d) * quad_c(o)
}

/// The smaller root, `(-b - sqrt(disc)) / a`, taken from the unit direction
/// back to `d` by dividing by the length of `d`.
pub open spec fn near_root(o: Triple, d: Triple) -> int {
    div_raw(div_raw(-half_b(o, d) - isqrt(discriminant(o, d)), quad_a(d)), length3(d))
}

/// The larger root, `(-b + sqrt(disc)) / a`, likewise.
pub open spec fn far_root(o: Triple, d: Triple) -> int {
    div_raw(div_raw(-half_b(o, d) + isqrt(discriminant(o, d)), quad_a(d)), length3(d))
}

/// Parameters at which the ray (`o`, `d`) meets the unit sphere at the
/// origin, smaller first; a tangent ray meets it twice at one parameter.
/// A non-zero direction from an origin within `ORIGIN_BOUND` with a
/// non-negative discriminant gives both roots whenever they are in range;
/// otherwise there are none.
pub open spec fn unit_sphere_hits(o: Triple, d: Triple) -> Seq<int> {
    if d != (0int, 0int, 0int) && origin_bounded(o) && discriminant(o, d) >= 0 && fits(
        near_root(o, d),
    ) && fits(far_root(o, d)) {
        seq![near_root(o, d), far_root(o, d)]
    } else {
        Seq::empty()
    }
}

/// Parameters at which the ray (`o`, `d`) meets `sphere`: those of the ray
/// carried into the sphere's own space by the inverse of its transform.
/// There are none when the transform has no inverse or the carried ray is
/// not representable.
pub open spec fn sphere_hits(o: Triple, d: Triple, sphere: Sphere) -> Seq<int> {
    let m = sphere.transform.rows();
    if invertible4(m) && maps_ray(inverse4(m), o, d) {
        unit_sphere_hits(apply(inverse4(m), o, SCALE as int), apply(inverse4(m), d, 0))
    } else {
        Seq::empty()
    }
}

/// The ray meets the unit sphere at two parameters, the smaller first; a
/// tangent ray (zero discriminant) meets it twice at one parameter.
pub proof fn lemma_unit_sphere_hits_ascending(o: Triple, d: Triple)
    ensures
        unit_sphere_hits(o, d).len() == 0 || unit_sphere_hits(o, d).len() == 2,
        unit_sphere_hits(o, d).len() == 2 ==> unit_sphere_hits(o, d)[0] <= unit_sphere_hits(o, d)[1],
        unit_sphere_hits(o, d).len() == 2 && discriminant(o, d) == 0 ==> unit_sphere_hits(o, d)[0]
            == unit_sphere_hits(o, d)[1],
{
    if unit_sphere_hits(o, d).len() == 2 {
        let disc = discriminant(o, d);
        let a = quad_a(d);
        lemma_normalized_sumsq_lower(d);
        lemma_length_bounds(d);
        crate::scalar::lemma_isqrt_exists(disc);
        let r = isqrt(disc);
        let b = half_b(o, d);
        let s = SCALE as int;
        assert((-b - r) * s <= (-b + r) * s) by (nonlinear_arith)
            requires
                r >= 0,
                s > 0,
        ;
        crate::scalar::lemma_tdiv_monotone((-b - r) * s, (-b + r) * s, a);
        let t1 = div_raw(-b - r, a);
        let t2 = div_raw(-b + r, a);
        assert(t1 * s <= t2 * s) by (nonlinear_arith)
            requires
                t1 <= t2,
                s > 0,
        ;
        crate::scalar::lemma_tdiv_monotone(t1 * s, t2 * s, length3(d));
        if disc == 0 {
            assert(r == 0) by (nonlinear_arith)
                requires
                    r * r <= 0,
                    r >= 0,
            ;
        }
    }
}

/// `x * SCALE / q` rounded toward zero, for a positive `q`.
fn scaled_quotient(x: i128, q: i128) -> (r: i128)
    requires
        abs(x as int) <= 0x1_0000_0000_0000_0000_0000_0000,
        0 < q,
    ensures
        r == div_raw(x as int, q as int),
        abs(r as int) * q <= abs(x as int) * SCALE,
{
    let ghost s = SCALE as int;
    proof {
        assert(abs(x * s) <= 0x1_0000_0000_0000_0000_0000_0000 * s) by (nonlinear_arith)
            requires
                abs(x as int) <= 0x1_0000_0000_0000_0000_0000_0000,
                s > 0,
        ;
    }
    let n: i128 = x * (SCALE as i128);
    proof {
        let m = abs(n as int);
        assert((m / (q as int)) * q <= m) by (nonlinear_arith)
            requires
                m >= 0,
                q > 0,
        ;
        assert(m == abs(x as int) * s) by (nonlinear_arith)
            requires
                m == abs(n as int),
                n == x * s,
                s > 0,
        ;
    }
    if n >= 0 {
        n / q
    } else {
        -((-n) / q)
    }
}

/// The square of an origin coordinate within `ORIGIN_BOUND`, rounded, is
/// below 2^93.
proof fn lemma_origin_square(x: int)
    requires
        abs(x) <= ORIGIN_BOUND,
    ensures
        0 <= mul_raw(x, x) <= 0x2000_0000_0000_0000_0000_0000,
{
    let s = SCALE as int;
    assert(0 <= x * x <= 0x400_0000_0000_0000_0000_0000_0000_0000) by (nonlinear_arith)
        requires
            abs(x) <= 0x2000_0000_0000_0000,
    ;
    assert((x * x) / s <= 0x2000_0000_0000_0000_0000_0000) by (nonlinear_arith)
        requires
            0 <= x * x <= 0x400_0000_0000_0000_0000_0000_0000_0000,
            s == 1_000_000_000,
    ;
}

/// Bounds that keep the quadratic's values within 128 bits.
proof fn lemma_quadratic_bounds(a: int, b: int, c: int)
    requires
        SCALE - 9 <= a <= 3 * SCALE,
        abs(b) <= 3 * ORIGIN_BOUND,
        -SCALE <= c <= 3 * 0x2000_0000_0000_0000_0000_0000,
    ensures
        0 <= b * b <= 0x4000_0000_0000_0000_0000_0000_0000_0000,
        -0x1_0000_0000_0000_0000 <= a * c <= 0x6000_0000_0000_0000_0000_0000_0000_0000,
        b * b - a * c <= 0x4000_0000_0000_0000_0000_0000_0000_0000 + 0x1_0000_0000_0000_0000,
        -0x6000_0000_0000_0000_0000_0000_0000_0000 <= b * b - a * c,
{
    assert(0 <= b * b <= 0x4000_0000_0000_0000_0000_0000_0000_0000) by (nonlinear_arith)
        requires
            abs(b) <= 3 * 0x2000_0000_0000_0000,
    ;
    if c >= 0 {
        assert(0 <= a * c <= 3_000_000_000 * c) by (nonlinear_arith)
            requires
                0 <= a <= 3_000_000_000,
                c >= 0,
        ;
    } else {
        assert(3_000_000_000 * c <= a * c <= 0) by (nonlinear_arith)
            requires
                0 <= a <= 3_000_000_000,
                c < 0,
        ;
    }
}

/// A root along the unit direction stays below 2^67.
proof fn lemma_root_quotient_bound(u: int, x: int, a: int)
    requires
        abs(u) * a <= abs(x) * SCALE,
        abs(x) <= 0x2_0000_0000_0000_0000,
        a >= SCALE - 9,
    ensures
        abs(u) <= 0x8_0000_0000_0000_0000,
{
    assert(abs(u) <= 0x8_0000_0000_0000_0000) by (nonlinear_arith)
        requires
            abs(u) * a <= abs(x) * 1_000_000_000,
            abs(x) <= 0x2_0000_0000_0000_0000,
            a >= 1_000_000_000 - 9,
            abs(u) >= 0,
    ;
}

/// The integer square root of a value below 2^126 + 2^64 is below 2^64.
proof fn lemma_isqrt_below(n: int, r: int)
    requires
        is_isqrt(n, r),
        n <= 0x4000_0000_0000_0000_0000_0000_0000_0000 + 0x1_0000_0000_0000_0000,
    ensures
        r < 0x1_0000_0000_0000_0000,
{
    if r >= 0x1_0000_0000_0000_0000 {
        assert(r * r >= 0x1_0000_0000_0000_0000 * 0x1_0000_0000_0000_0000) by (nonlinear_arith)
            requires
                r >= 0x1_0000_0000_0000_0000,
        ;
    }
}

/// Index of the hit among `xs`: the first of the smallest strictly positive
/// parameters.
pub open spec fn is_hit_index(xs: Seq<Intersection>, k: int) -> bool {
    &&& 0 <= k < xs.len()
    &&& xs[k].t@ > 0
    &&& forall|i: int| 0 <= i < xs.len() && xs[i].t@ > 0 ==> xs[k].t@ <= #[trigger] xs[i].t@
    &&& forall|i: int| 0 <= i < k && xs[i].t@ > 0 ==> xs[k].t@ < #[trigger] xs[i].t@
}

/// The hit among `xs`: the intersection with the smallest strictly positive
/// parameter, the first such on ties; `None` when no parameter is positive.
pub fn get_hit(xs: &[Intersection]) -> (r: Option<Intersection>)
    ensures
        r is None <==> forall|i: int| 0 <= i < xs@.len() ==> #[trigger] xs@[i].t@ <= 0,
        r matches Some(h) ==> exists|k: int| is_hit_index(xs@, k) && xs@[k] == h,
{
    let mut hit: Option<Intersection> = None;
    let ghost mut k: int = 0;
    let mut i: usize = 0;
    while i < xs.len()
        invariant
            0 <= i <= xs@.len(),
            hit is None <==> forall|j: int| 0 <= j < i ==> #[trigger] xs@[j].t@ <= 0,
            hit is Some ==> 0 <= k < i && xs@[k] == hit->0 && xs@[k].t@ > 0 && (forall|j: int|
                0 <= j < i && xs@[j].t@ > 0 ==> xs@[k].t@ <= #[trigger] xs@[j].t@) && (forall|j: int|
                0 <= j < k && xs@[j].t@ > 0 ==> xs@[k].t@ < #[trigger] xs@[j].t@),
        decreases xs@.len() - i,
    {
        let x = xs[i];
        if x.t.raw > 0 {
            let better = match hit {
                None => true,
                Some(h) => x.t.raw < h.t.raw,
            };
            if better {
                hit = Some(x);
                proof {
                    k = i as int;
                }
            }
        }
        i = i + 1;
    }
    hit
}

/// Where the ray from `org` along `dir` meets the unit sphere at the origin:
/// the two parameters of `unit_sphere_hits`, smaller first, or `None` when
/// it has none.
#[verifier::spinoff_prover]
#[verifier::rlimit(40)]
fn unit_sphere_roots(org: Point, dir: Vector) -> (r: Option<(Scalar, Scalar)>)
    ensures
        r is Some <==> unit_sphere_hits(org@, dir@).len() == 2,
        r matches Some(p) ==> p.0@ == unit_sphere_hits(org@, dir@)[0] && p.1@ == unit_sphere_hits(
            org@,
            dir@,
        )[1],
{
        let ghost o = org@;
        let ghost d = dir@;
        if dir.x.raw == 0 && dir.y.raw == 0 && dir.z.raw == 0 {
            return None;
        }
        let bound = ORIGIN_BOUND;
        if org.x.raw < -bound || org.x.raw > bound || org.y.raw < -bound || org.y.raw > bound
            || org.z.raw < -bound || org.z.raw > bound {
            return None;
        }
        let len = dir.wide_length();
        let u = dir.normalize();
        proof {
            lemma_normalized_sumsq_lower(d);
            lemma_length_bounds(d);
            lemma_mul_raw_by_unit(u.x@, o.0);
            lemma_mul_raw_by_unit(u.y@, o.1);
            lemma_mul_raw_by_unit(u.z@, o.2);
            lemma_mul_raw_by_unit(u.x@, u.x@);
            lemma_mul_raw_by_unit(u.y@, u.y@);
            lemma_mul_raw_by_unit(u.z@, u.z@);
            lemma_origin_square(o.0);
            lemma_origin_square(o.1);
            lemma_origin_square(o.2);
        }
        let a: i128 = wide_mul(u.x, u.x) + wide_mul(u.y, u.y) + wide_mul(u.z, u.z);
        let b: i128 = wide_mul(u.x, org.x) + wide_mul(u.y, org.y) + wide_mul(u.z, org.z);
        let c: i128 = wide_mul(org.x, org.x) + wide_mul(org.y, org.y) + wide_mul(org.z, org.z) - (
        SCALE as i128);
        proof {
            assert(a == quad_a(d) && b == half_b(o, d) && c == quad_c(o));
            lemma_quadratic_bounds(a as int, b as int, c as int);
        }
        let disc: i128 = b * b - a * c;
        if disc < 0 {
            return None;
        }
        let ru = isqrt_u128(disc as u128);
        proof {
            lemma_isqrt_below(disc as int, ru as int);
        }
        let r = ru as i128;
        let u1 = scaled_quotient(-b - r, a);
        let u2 = scaled_quotient(-b + r, a);
        proof {
            lemma_root_quotient_bound(u1 as int, (-b - r) as int, a as int);
            lemma_root_quotient_bound(u2 as int, (-b + r) as int, a as int);
        }
        let t1 = scaled_quotient(u1, len as i128);
        let t2 = scaled_quotient(u2, len as i128);
        if t1 < -(RAW_MAX as i128) || t1 > RAW_MAX as i128 || t2 < -(RAW_MAX as i128) || t2
            > RAW_MAX as i128 {
            return None;
        }
        Some((Scalar::from_raw(t1 as i64), Scalar::from_raw(t2 as i64)))
}

/// A half-line from `origin` along `direction`.
#[derive(Clone, Copy, Debug, PartialEq, Eq, Structural)]
pub struct Ray {
    pub origin: Point,
    pub direction: Vector,
}

/// `origin + t * direction`, each product rounded as scalars round it.
pub open spec fn position_of(origin: Triple, direction: Triple, t: int) -> Triple {
    add3(origin, scale3(direction, t))
}

impl Ray {
    pub fn new(origin: Point, direction: Vector) -> (r: Ray)
        ensures
            r.origin == origin,
            r.direction == direction,
    {
        Ray { origin, direction }
    }

    /// The point at parameter `t` along the ray.
    pub fn position(&self, t: Scalar) -> (r: Point)
        requires
            fits3(scale3(self.direction@, t@)),
            fits3(position_of(self.origin@, self.direction@, t@)),
        ensures
            r@ == position_of(self.origin@, self.direction@, t@),
    {
        self.origin.add_vector(self.direction.mul(t))
    }

    /// The point at parameter `t` along the ray, or `None` when a coordinate
    /// is out of range.
    pub fn try_position(&self, t: Scalar) -> (r: Option<Point>)
        ensures
            r is Some <==> fits3(scale3(self.direction@, t@)) && fits3(
                position_of(self.origin@, self.direction@, t@),
            ),
            r matches Some(p) ==> p@ == position_of(self.origin@, self.direction@, t@),
    {
        let d = self.direction;
        let step = match (d.x.checked_mul(t), d.y.checked_mul(t), d.z.checked_mul(t)) {
            (Some(x), Some(y), Some(z)) => Vector::new(x, y, z),
            _ => return None,
        };
        let o = self.origin;
        match (o.x.checked_add(step.x), o.y.checked_add(step.y), o.z.checked_add(step.z)) {
            (Some(x), Some(y), Some(z)) => Some(Point::new(x, y, z)),
            _ => None,
        }
    }

    /// The ray with origin and direction each multiplied by `m`, or `None`
    /// when `m` does not keep the origin a point and the direction a vector,
    /// or a coordinate is out of range.
    pub fn try_transform(&self, m: &Matrix<4, 4>) -> (r: Option<Ray>)
        ensures
            r is Some <==> maps_ray(m.rows(), self.origin@, self.direction@),
            r matches Some(r) ==> r.origin@ == apply(m.rows(), self.origin@, SCALE as int)
                && r.direction@ == apply(m.rows(), self.direction@, 0),
    {
        let o = match m.try_matmul(&Matrix::<4, 1>::from_point(self.origin)) {
            Some(o) => o,
            None => return None,
        };
        let d = match m.try_matmul(&Matrix::<4, 1>::from_vector(self.direction)) {
            Some(d) => d,
            None => return None,
        };
        assert(o.rows()[3][0] == o.entry(3, 0));
        assert(d.rows()[3][0] == d.entry(3, 0));
        let origin = match Point::try_from_matrix(&o) {
            Ok(p) => p,
            Err(_) => return None,
        };
        let direction = match Vector::try_from_matrix(&d) {
            Ok(v) => v,
            Err(_) => return None,
        };
        assert(o.rows()[0][0] == o.entry(0, 0) && o.rows()[1][0] == o.entry(1, 0) && o.rows()[2][0]
            == o.entry(2, 0));
        assert(d.rows()[0][0] == d.entry(0, 0) && d.rows()[1][0] == d.entry(1, 0) && d.rows()[2][0]
            == d.entry(2, 0));
        Some(Ray { origin, direction })
    }

    /// Where the ray meets `object`: two parameters, smaller first, or none
    /// (see `sphere_hits`).
    pub fn intersect(&self, object: Sphere) -> (r: Vec<Intersection>)
        ensures
            r@.len() == sphere_hits(self.origin@, self.direction@, object).len(),
            forall|i: int|
                0 <= i < r@.len() ==> #[trigger] r@[i].t@ == sphere_hits(
                    self.origin@,
                    self.direction@,
                    object,
                )[i] && r@[i].object == object,
    {
        let inv = match object.inverse_transform() {
            Some(inv) => inv,
            None => return Vec::new(),
        };
        let local = match self.try_transform(&inv) {
            Some(r) => r,
            None => return Vec::new(),
        };
        let ghost o = local.origin@;
        let ghost d = local.direction@;
        let (t1, t2) = match unit_sphere_roots(local.origin, local.direction) {
            Some(p) => p,
            None => return Vec::new(),
        };
        proof {
            lemma_unit_sphere_hits_ascending(o, d);
        }
        let mut r: Vec<Intersection> = Vec::new();
        r.push(Intersection { t: t1, object });
        r.push(Intersection { t: t2, object });
        r
    }

    /// The ray with origin and direction each multiplied by `m`.
    pub fn transform(&self, m: &Matrix<4, 4>) -> (r: Ray)
        requires
            maps_ray(m.rows(), self.origin@, self.direction@),
        ensures
            r.origin@ == apply(m.rows(), self.origin@, SCALE as int),
            r.direction@ == apply(m.rows(), self.direction@, 0),
    {
        match self.try_transform(m) {
            Some(r) => r,
            None => *self,
        }
    }
}

} // verus!
