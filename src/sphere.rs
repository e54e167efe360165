//! Spheres: the unit sphere at the origin, placed in the world by a transform.
use vstd::prelude::*;
use crate::material::Material;
use crate::matrix::{
    cofactor, cofactors_in_range, det4, det_in_range, identity_rows, product_fits, quotients_fit,
    Matrix,
};
use crate::ray::apply;
use crate::scalar::{div_raw, Scalar, SCALE};
use crate::tuple::{column, div3, length3, Point, Triple, Vector};

verus! {

/// The 4 by 4 matrix `m` has an inverse that `Matrix::inverse` can compute.
pub open spec fn invertible4(m: Seq<Seq<int>>) -> bool {
    &&& det_in_range(m, 4)
    &&& det4(m) != 0
    &&& cofactors_in_range(m, 4)
    &&& quotients_fit(m, 4)
}

/// The inverse of the 4 by 4 matrix `m` as `Matrix::inverse` computes it.
pub open spec fn inverse4(m: Seq<Seq<int>>) -> Seq<Seq<int>> {
    Seq::new(4, |i: int| Seq::new(4, |j: int| div_raw(cofactor(m, 4, j, i), det4(m))))
}

/// The transpose of the 4 by 4 matrix `m`.
pub open spec fn transpose4(m: Seq<Seq<int>>) -> Seq<Seq<int>> {
    Seq::new(4, |i: int| Seq::new(4, |j: int| m[j][i]))
}

/// The point `p` carried into object space by `inv`.
pub open spec fn object_point(inv: Seq<Seq<int>>, p: Triple) -> Triple {
    apply(inv, p, SCALE as int)
}

/// The object-space normal at `p` carried back to world space by the
/// transpose of `inv`, before normalizing.
pub open spec fn world_normal(inv: Seq<Seq<int>>, p: Triple) -> Triple {
    apply(transpose4(inv), object_point(inv, p), 0)
}

/// The normal at `p` of a sphere with transform `m` is defined: `m` has an
/// inverse, every value on the way is in range, and the world normal is not
/// zero.
pub open spec fn normal_defined(m: Seq<Seq<int>>, p: Triple) -> bool {
    let inv = inverse4(m);
    let w = world_normal(inv, p);
    &&& invertible4(m)
    &&& product_fits(inv, column(p, SCALE as int), 4, 4, 1)
    &&& product_fits(transpose4(inv), column(object_point(inv, p), 0), 4, 4, 1)
    &&& w != (0int, 0int, 0int)
}

/// The unit normal at `p` of a sphere with transform `m`.
pub open spec fn normal_of(m: Seq<Seq<int>>, p: Triple) -> Triple {
    let w = world_normal(inverse4(m), p);
    div3(w, length3(w))
}

#[derive(Clone, Copy, Debug, PartialEq)]
pub struct Sphere {
    pub transform: Matrix<4, 4>,
    pub material: Material,
}

impl Default for Sphere {
    fn default() -> (r: Sphere)
        ensures
            r.transform.rows() == identity_rows(4),
            r.material.is_default(),
    {
        Sphere { transform: Matrix::<4, 4>::identity(), material: Material::default() }
    }
}

impl Sphere {
    /// The unit surface normal at `world_point`, or `None` where it is not
    /// defined: the transform has no inverse, a value on the way is out of
    /// range, or the normal before normalizing is zero.
    pub fn try_normal_at(&self, world_point: Point) -> (r: Option<Vector>)
        ensures
            r is Some <==> normal_defined(self.transform.rows(), world_point@),
            r matches Some(n) ==> n@ == normal_of(self.transform.rows(), world_point@),
    {
        let ghost m = self.transform.rows();
        let inv = match self.inverse_transform() {
            Some(inv) => inv,
            None => return None,
        };
        let op = match inv.try_matmul(&Matrix::<4, 1>::from_point(world_point)) {
            Some(op) => op,
            None => return None,
        };
        let object_normal = Matrix::<4, 1>::vector(op.get(0, 0), op.get(1, 0), op.get(2, 0));
        let t = inv.transpose();
        assert(t.rows() =~~= transpose4(inv.rows()));
        let wm = match t.try_matmul(&object_normal) {
            Some(w) => w,
            None => return None,
        };
        let w = Vector::new(wm.get(0, 0), wm.get(1, 0), wm.get(2, 0));
        assert(w@ == world_normal(inv.rows(), world_point@));
        if w.x.raw == 0 && w.y.raw == 0 && w.z.raw == 0 {
            return None;
        }
        Some(w.normalize())
    }

    /// The unit surface normal at `world_point`.
    pub fn normal_at(&self, world_point: Point) -> (r: Vector)
        requires
            normal_defined(self.transform.rows(), world_point@),
        ensures
            r@ == normal_of(self.transform.rows(), world_point@),
    {
        match self.try_normal_at(world_point) {
            Some(n) => n,
            None => Vector::new(Scalar::zero(), Scalar::zero(), Scalar::zero()),
        }
    }

    /// The inverse of the transform, when it has one.
    pub fn inverse_transform(&self) -> (r: Option<Matrix<4, 4>>)
        ensures
            r is Some <==> invertible4(self.transform.rows()),
            r matches Some(inv) ==> inv.rows() == inverse4(self.transform.rows()),
    {
        let r = self.transform.inverse();
        match r {
            Some(inv) => {
                assert(inv.rows() =~~= inverse4(self.transform.rows()));
                Some(inv)
            },
            None => None,
        }
    }
}

} // verus!
