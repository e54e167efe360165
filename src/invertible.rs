//! The capability of square matrices to be inverted.
use vstd::prelude::*;
use crate::matrix::{cofactors_in_range, det_in_range, det_n, is_inverse_of, quotients_fit, Matrix};
use crate::scalar::Scalar;

verus! {

/// Square matrices with a determinant and, where it is in range and not
/// zero, an inverse.
pub trait Invertible: Sized {
    /// The side length.
    spec fn side() -> int;

    /// The entries, row by row.
    spec fn entries(&self) -> Seq<Seq<int>>;

    fn try_determinant(&self) -> (r: Option<Scalar>)
        ensures
            r is Some <==> det_in_range(self.entries(), Self::side()),
            r matches Some(d) ==> d@ == det_n(self.entries(), Self::side()),
    ;

    fn inverse(&self) -> (r: Option<Self>)
        ensures
            r is Some <==> det_in_range(self.entries(), Self::side()) && det_n(
                self.entries(),
                Self::side(),
            ) != 0 && cofactors_in_range(self.entries(), Self::side()) && quotients_fit(
                self.entries(),
                Self::side(),
            ),
            r matches Some(inv) ==> is_inverse_of(inv.entries(), self.entries(), Self::side()),
    ;
}

impl Invertible for Matrix<2, 2> {
    open spec fn side() -> int {
        2
    }

    open spec fn entries(&self) -> Seq<Seq<int>> {
        self.rows()
    }

    fn try_determinant(&self) -> (r: Option<Scalar>) {
        Matrix::<2, 2>::try_determinant(self)
    }

    fn inverse(&self) -> (r: Option<Self>) {
        Matrix::<2, 2>::inverse(self)
    }
}

impl Invertible for Matrix<3, 3> {
    open spec fn side() -> int {
        3
    }

    open spec fn entries(&self) -> Seq<Seq<int>> {
        self.rows()
    }

    fn try_determinant(&self) -> (r: Option<Scalar>) {
        Matrix::<3, 3>::try_determinant(self)
    }

    fn inverse(&self) -> (r: Option<Self>) {
        Matrix::<3, 3>::inverse(self)
    }
}

impl Invertible for Matrix<4, 4> {
    open spec fn side() -> int {
        4
    }

    open spec fn entries(&self) -> Seq<Seq<int>> {
        self.rows()
    }

    fn try_determinant(&self) -> (r: Option<Scalar>) {
        Matrix::<4, 4>::try_determinant(self)
    }

    fn inverse(&self) -> (r: Option<Self>) {
        Matrix::<4, 4>::inverse(self)
    }
}

} // verus!
