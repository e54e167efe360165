//! Candidate hits of a ray: a parameter along the ray and the object hit.
use vstd::prelude::*;
use crate::scalar::Scalar;
use crate::sphere::Sphere;

verus! {

#[derive(Clone, Copy, Debug, PartialEq)]
pub struct Intersection {
    pub t: Scalar,
    pub object: Sphere,
}

impl Intersection {
    pub fn new(t: Scalar, object: Sphere) -> (r: Intersection)
        ensures
            r.t == t,
            r.object == object,
    {
        Intersection { t, object }
    }
}

} // verus!
