use vstd::prelude::*;
use vstd::std_specs::convert::FromSpec;
use vstd::std_specs::ops::{AddSpec, MulSpec, NegSpec, SubSpec};
use core::ops::{Add, Mul, Neg, Sub};

verus! {

// Rotors and motors of three-dimensional projective geometric algebra, whose basis
// vectors square to zero (e0) and to one (e1, e2, e3), over a scalar type `S`. Each
// component of a product is written out as a sum of products of components, added
// left to right in a fixed order, and its specification follows the same order.

/// Whether the scalar's addition, subtraction and multiplication behave as their
/// specification functions say.
pub open spec fn ops_obey<S: Add<Output = S> + Sub<Output = S> + Mul<Output = S>>() -> bool {
    &&& S::obeys_add_spec()
    &&& S::obeys_sub_spec()
    &&& S::obeys_mul_spec()
}

/// Whether the scalar's addition, subtraction and multiplication are defined on every
/// pair of values, so that no product of scalars can fail.
pub open spec fn ops_total<S: Add<Output = S> + Sub<Output = S> + Mul<Output = S>>() -> bool {
    &&& forall|x: S, y: S| #[trigger] x.add_req(y)
    &&& forall|x: S, y: S| #[trigger] x.sub_req(y)
    &&& forall|x: S, y: S| #[trigger] x.mul_req(y)
}

/// A rotation: a scalar plus a bivector of the Euclidean basis vectors.
#[derive(Debug, Clone, Copy, PartialEq)]
pub struct Rotor<S> {
    pub s: S,
    pub e1e2: S,
    pub e1e3: S,
    pub e2e3: S,
}

/// A rigid motion: a scalar, the six bivectors and the pseudoscalar.
#[derive(Debug, Clone, Copy, PartialEq)]
pub struct Transform<S> {
    pub s: S,
    pub e0e1: S,
    pub e0e2: S,
    pub e0e3: S,
    pub e1e2: S,
    pub e1e3: S,
    pub e2e3: S,
    pub e0e1e2e3: S,
}

/// The geometric product `a * b` of two rotors, over the scalar's specification functions.
pub open spec fn rotor_product<S: Copy + Add<Output = S> + Sub<Output = S> + Mul<Output = S> + Neg<Output = S> + From<i8>>(a: Rotor<S>, b: Rotor<S>) -> Rotor<S> {
    Rotor {
        s: a.s.mul_spec(b.s).sub_spec(a.e1e2.mul_spec(b.e1e2)).sub_spec(a.e1e3.mul_spec(b.e1e3)).sub_spec(a.e2e3.mul_spec(b.e2e3)),
        e1e2: a.s.mul_spec(b.e1e2).add_spec(a.e1e2.mul_spec(b.s)).add_spec(a.e2e3.mul_spec(b.e1e3)).sub_spec(a.e1e3.mul_spec(b.e2e3)),
        e1e3: a.s.mul_spec(b.e1e3).add_spec(a.e1e2.mul_spec(b.e2e3)).add_spec(a.e1e3.mul_spec(b.s)).sub_spec(a.e2e3.mul_spec(b.e1e2)),
        e2e3: a.s.mul_spec(b.e2e3).add_spec(a.e1e3.mul_spec(b.e1e2)).add_spec(a.e2e3.mul_spec(b.s)).sub_spec(a.e1e2.mul_spec(b.e1e3)),
    }
}

/// Whether every operation of the product `a * b` of two rotors is within the scalar's domain.
pub open spec fn rotor_product_defined<S: Copy + Add<Output = S> + Sub<Output = S> + Mul<Output = S> + Neg<Output = S> + From<i8>>(a: Rotor<S>, b: Rotor<S>) -> bool {
    &&& a.s.mul_req(b.s)
    &&& a.e1e2.mul_req(b.e1e2)
    &&& a.s.mul_spec(b.s).sub_req(a.e1e2.mul_spec(b.e1e2))
    &&& a.e1e3.mul_req(b.e1e3)
    &&& a.s.mul_spec(b.s).sub_spec(a.e1e2.mul_spec(b.e1e2)).sub_req(a.e1e3.mul_spec(b.e1e3))
    &&& a.e2e3.mul_req(b.e2e3)
    &&& a.s.mul_spec(b.s).sub_spec(a.e1e2.mul_spec(b.e1e2)).sub_spec(a.e1e3.mul_spec(b.e1e3)).sub_req(a.e2e3.mul_spec(b.e2e3))
    &&& a.s.mul_req(b.e1e2)
    &&& a.e1e2.mul_req(b.s)
    &&& a.s.mul_spec(b.e1e2).add_req(a.e1e2.mul_spec(b.s))
    &&& a.e2e3.mul_req(b.e1e3)
    &&& a.s.mul_spec(b.e1e2).add_spec(a.e1e2.mul_spec(b.s)).add_req(a.e2e3.mul_spec(b.e1e3))
    &&& a.e1e3.mul_req(b.e2e3)
    &&& a.s.mul_spec(b.e1e2).add_spec(a.e1e2.mul_spec(b.s)).add_spec(a.e2e3.mul_spec(b.e1e3)).sub_req(a.e1e3.mul_spec(b.e2e3))
    &&& a.s.mul_req(b.e1e3)
    &&& a.e1e2.mul_req(b.e2e3)
    &&& a.s.mul_spec(b.e1e3).add_req(a.e1e2.mul_spec(b.e2e3))
    &&& a.e1e3.mul_req(b.s)
    &&& a.s.mul_spec(b.e1e3).add_spec(a.e1e2.mul_spec(b.e2e3)).add_req(a.e1e3.mul_spec(b.s))
    &&& a.e2e3.mul_req(b.e1e2)
    &&& a.s.mul_spec(b.e1e3).add_spec(a.e1e2.mul_spec(b.e2e3)).add_spec(a.e1e3.mul_spec(b.s)).sub_req(a.e2e3.mul_spec(b.e1e2))
    &&& a.s.mul_req(b.e2e3)
    &&& a.e1e3.mul_req(b.e1e2)
    &&& a.s.mul_spec(b.e2e3).add_req(a.e1e3.mul_spec(b.e1e2))
    &&& a.e2e3.mul_req(b.s)
    &&& a.s.mul_spec(b.e2e3).add_spec(a.e1e3.mul_spec(b.e1e2)).add_req(a.e2e3.mul_spec(b.s))
    &&& a.e1e2.mul_req(b.e1e3)
    &&& a.s.mul_spec(b.e2e3).add_spec(a.e1e3.mul_spec(b.e1e2)).add_spec(a.e2e3.mul_spec(b.s)).sub_req(a.e1e2.mul_spec(b.e1e3))
}

/// The geometric product `a * b` of two transforms, over the scalar's specification functions.
pub open spec fn transform_product<S: Copy + Add<Output = S> + Sub<Output = S> + Mul<Output = S> + Neg<Output = S> + From<i8>>(a: Transform<S>, b: Transform<S>) -> Transform<S> {
    Transform {
        s: a.s.mul_spec(b.s).sub_spec(a.e1e2.mul_spec(b.e1e2)).sub_spec(a.e1e3.mul_spec(b.e1e3)).sub_spec(a.e2e3.mul_spec(b.e2e3)),
        e0e1: a.s.mul_spec(b.e0e1).add_spec(a.e0e1.mul_spec(b.s)).add_spec(a.e1e2.mul_spec(b.e0e2)).add_spec(a.e1e3.mul_spec(b.e0e3)).sub_spec(a.e0e2.mul_spec(b.e1e2)).sub_spec(a.e0e3.mul_spec(b.e1e3)).sub_spec(a.e0e1e2e3.mul_spec(b.e2e3)).sub_spec(a.e2e3.mul_spec(b.e0e1e2e3)),
        e0e2: a.s.mul_spec(b.e0e2).add_spec(a.e0e1.mul_spec(b.e1e2)).add_spec(a.e2e3.mul_spec(b.e0e3)).add_spec(a.e0e1e2e3.mul_spec(b.e1e3)).add_spec(a.e1e3.mul_spec(b.e0e1e2e3)).add_spec(a.e0e2.mul_spec(b.s)).sub_spec(a.e0e3.mul_spec(b.e2e3)).sub_spec(a.e1e2.mul_spec(b.e0e1)),
        e0e3: a.s.mul_spec(b.e0e3).add_spec(a.e0e1.mul_spec(b.e1e3)).add_spec(a.e0e2.mul_spec(b.e2e3)).add_spec(a.e0e3.mul_spec(b.s)).sub_spec(a.e2e3.mul_spec(b.e0e2)).sub_spec(a.e0e1e2e3.mul_spec(b.e1e2)).sub_spec(a.e1e2.mul_spec(b.e0e1e2e3)).sub_spec(a.e1e3.mul_spec(b.e0e1)),
        e1e2: a.s.mul_spec(b.e1e2).add_spec(a.e2e3.mul_spec(b.e1e3)).add_spec(a.e1e2.mul_spec(b.s)).sub_spec(a.e1e3.mul_spec(b.e2e3)),
        e1e3: a.s.mul_spec(b.e1e3).add_spec(a.e1e2.mul_spec(b.e2e3)).add_spec(a.e1e3.mul_spec(b.s)).sub_spec(a.e2e3.mul_spec(b.e1e2)),
        e2e3: a.s.mul_spec(b.e2e3).add_spec(a.e1e3.mul_spec(b.e1e2)).add_spec(a.e2e3.mul_spec(b.s)).sub_spec(a.e1e2.mul_spec(b.e1e3)),
        e0e1e2e3: a.s.mul_spec(b.e0e1e2e3).add_spec(a.e0e1.mul_spec(b.e2e3)).add_spec(a.e1e2.mul_spec(b.e0e3)).add_spec(a.e0e3.mul_spec(b.e1e2)).add_spec(a.e2e3.mul_spec(b.e0e1)).add_spec(a.e0e1e2e3.mul_spec(b.s)).sub_spec(a.e1e3.mul_spec(b.e0e2)).sub_spec(a.e0e2.mul_spec(b.e1e3)),
    }
}

/// Whether every operation of the product `a * b` of two transforms is within the scalar's domain.
pub open spec fn transform_product_defined<S: Copy + Add<Output = S> + Sub<Output = S> + Mul<Output = S> + Neg<Output = S> + From<i8>>(a: Transform<S>, b: Transform<S>) -> bool {
    &&& a.s.mul_req(b.s)
    &&& a.e1e2.mul_req(b.e1e2)
    &&& a.s.mul_spec(b.s).sub_req(a.e1e2.mul_spec(b.e1e2))
    &&& a.e1e3.mul_req(b.e1e3)
    &&& a.s.mul_spec(b.s).sub_spec(a.e1e2.mul_spec(b.e1e2)).sub_req(a.e1e3.mul_spec(b.e1e3))
    &&& a.e2e3.mul_req(b.e2e3)
    &&& a.s.mul_spec(b.s).sub_spec(a.e1e2.mul_spec(b.e1e2)).sub_spec(a.e1e3.mul_spec(b.e1e3)).sub_req(a.e2e3.mul_spec(b.e2e3))
    &&& a.s.mul_req(b.e0e1)
    &&& a.e0e1.mul_req(b.s)
    &&& a.s.mul_spec(b.e0e1).add_req(a.e0e1.mul_spec(b.s))
    &&& a.e1e2.mul_req(b.e0e2)
    &&& a.s.mul_spec(b.e0e1).add_spec(a.e0e1.mul_spec(b.s)).add_req(a.e1e2.mul_spec(b.e0e2))
    &&& a.e1e3.mul_req(b.e0e3)
    &&& a.s.mul_spec(b.e0e1).add_spec(a.e0e1.mul_spec(b.s)).add_spec(a.e1e2.mul_spec(b.e0e2)).add_req(a.e1e3.mul_spec(b.e0e3))
    &&& a.e0e2.mul_req(b.e1e2)
    &&& a.s.mul_spec(b.e0e1).add_spec(a.e0e1.mul_spec(b.s)).add_spec(a.e1e2.mul_spec(b.e0e2)).add_spec(a.e1e3.mul_spec(b.e0e3)).sub_req(a.e0e2.mul_spec(b.e1e2))
    &&& a.e0e3.mul_req(b.e1e3)
    &&& a.s.mul_spec(b.e0e1).add_spec(a.e0e1.mul_spec(b.s)).add_spec(a.e1e2.mul_spec(b.e0e2)).add_spec(a.e1e3.mul_spec(b.e0e3)).sub_spec(a.e0e2.mul_spec(b.e1e2)).sub_req(a.e0e3.mul_spec(b.e1e3))
    &&& a.e0e1e2e3.mul_req(b.e2e3)
    &&& a.s.mul_spec(b.e0e1).add_spec(a.e0e1.mul_spec(b.s)).add_spec(a.e1e2.mul_spec(b.e0e2)).add_spec(a.e1e3.mul_spec(b.e0e3)).sub_spec(a.e0e2.mul_spec(b.e1e2)).sub_spec(a.e0e3.mul_spec(b.e1e3)).sub_req(a.e0e1e2e3.mul_spec(b.e2e3))
    &&& a.e2e3.mul_req(b.e0e1e2e3)
    &&& a.s.mul_spec(b.e0e1).add_spec(a.e0e1.mul_spec(b.s)).add_spec(a.e1e2.mul_spec(b.e0e2)).add_spec(a.e1e3.mul_spec(b.e0e3)).sub_spec(a.e0e2.mul_spec(b.e1e2)).sub_spec(a.e0e3.mul_spec(b.e1e3)).sub_spec(a.e0e1e2e3.mul_spec(b.e2e3)).sub_req(a.e2e3.mul_spec(b.e0e1e2e3))
    &&& a.s.mul_req(b.e0e2)
    &&& a.e0e1.mul_req(b.e1e2)
    &&& a.s.mul_spec(b.e0e2).add_req(a.e0e1.mul_spec(b.e1e2))
    &&& a.e2e3.mul_req(b.e0e3)
    &&& a.s.mul_spec(b.e0e2).add_spec(a.e0e1.mul_spec(b.e1e2)).add_req(a.e2e3.mul_spec(b.e0e3))
    &&& a.e0e1e2e3.mul_req(b.e1e3)
    &&& a.s.mul_spec(b.e0e2).add_spec(a.e0e1.mul_spec(b.e1e2)).add_spec(a.e2e3.mul_spec(b.e0e3)).add_req(a.e0e1e2e3.mul_spec(b.e1e3))
    &&& a.e1e3.mul_req(b.e0e1e2e3)
    &&& a.s.mul_spec(b.e0e2).add_spec(a.e0e1.mul_spec(b.e1e2)).add_spec(a.e2e3.mul_spec(b.e0e3)).add_spec(a.e0e1e2e3.mul_spec(b.e1e3)).add_req(a.e1e3.mul_spec(b.e0e1e2e3))
    &&& a.e0e2.mul_req(b.s)
    &&& a.s.mul_spec(b.e0e2).add_spec(a.e0e1.mul_spec(b.e1e2)).add_spec(a.e2e3.mul_spec(b.e0e3)).add_spec(a.e0e1e2e3.mul_spec(b.e1e3)).add_spec(a.e1e3.mul_spec(b.e0e1e2e3)).add_req(a.e0e2.mul_spec(b.s))
    &&& a.e0e3.mul_req(b.e2e3)
    &&& a.s.mul_spec(b.e0e2).add_spec(a.e0e1.mul_spec(b.e1e2)).add_spec(a.e2e3.mul_spec(b.e0e3)).add_spec(a.e0e1e2e3.mul_spec(b.e1e3)).add_spec(a.e1e3.mul_spec(b.e0e1e2e3)).add_spec(a.e0e2.mul_spec(b.s)).sub_req(a.e0e3.mul_spec(b.e2e3))
    &&& a.e1e2.mul_req(b.e0e1)
    &&& a.s.mul_spec(b.e0e2).add_spec(a.e0e1.mul_spec(b.e1e2)).add_spec(a.e2e3.mul_spec(b.e0e3)).add_spec(a.e0e1e2e3.mul_spec(b.e1e3)).add_spec(a.e1e3.mul_spec(b.e0e1e2e3)).add_spec(a.e0e2.mul_spec(b.s)).sub_spec(a.e0e3.mul_spec(b.e2e3)).sub_req(a.e1e2.mul_spec(b.e0e1))
    &&& a.s.mul_req(b.e0e3)
    &&& a.e0e1.mul_req(b.e1e3)
    &&& a.s.mul_spec(b.e0e3).add_req(a.e0e1.mul_spec(b.e1e3))
    &&& a.e0e2.mul_req(b.e2e3)
    &&& a.s.mul_spec(b.e0e3).add_spec(a.e0e1.mul_spec(b.e1e3)).add_req(a.e0e2.mul_spec(b.e2e3))
    &&& a.e0e3.mul_req(b.s)
    &&& a.s.mul_spec(b.e0e3).add_spec(a.e0e1.mul_spec(b.e1e3)).add_spec(a.e0e2.mul_spec(b.e2e3)).add_req(a.e0e3.mul_spec(b.s))
    &&& a.e2e3.mul_req(b.e0e2)
    &&& a.s.mul_spec(b.e0e3).add_spec(a.e0e1.mul_spec(b.e1e3)).add_spec(a.e0e2.mul_spec(b.e2e3)).add_spec(a.e0e3.mul_spec(b.s)).sub_req(a.e2e3.mul_spec(b.e0e2))
    &&& a.e0e1e2e3.mul_req(b.e1e2)
    &&& a.s.mul_spec(b.e0e3).add_spec(a.e0e1.mul_spec(b.e1e3)).add_spec(a.e0e2.mul_spec(b.e2e3)).add_spec(a.e0e3.mul_spec(b.s)).sub_spec(a.e2e3.mul_spec(b.e0e2)).sub_req(a.e0e1e2e3.mul_spec(b.e1e2))
    &&& a.e1e2.mul_req(b.e0e1e2e3)
    &&& a.s.mul_spec(b.e0e3).add_spec(a.e0e1.mul_spec(b.e1e3)).add_spec(a.e0e2.mul_spec(b.e2e3)).add_spec(a.e0e3.mul_spec(b.s)).sub_spec(a.e2e3.mul_spec(b.e0e2)).sub_spec(a.e0e1e2e3.mul_spec(b.e1e2)).sub_req(a.e1e2.mul_spec(b.e0e1e2e3))
    &&& a.e1e3.mul_req(b.e0e1)
    &&& a.s.mul_spec(b.e0e3).add_spec(a.e0e1.mul_spec(b.e1e3)).add_spec(a.e0e2.mul_spec(b.e2e3)).add_spec(a.e0e3.mul_spec(b.s)).sub_spec(a.e2e3.mul_spec(b.e0e2)).sub_spec(a.e0e1e2e3.mul_spec(b.e1e2)).sub_spec(a.e1e2.mul_spec(b.e0e1e2e3)).sub_req(a.e1e3.mul_spec(b.e0e1))
    &&& a.s.mul_req(b.e1e2)
    &&& a.e2e3.mul_req(b.e1e3)
    &&& a.s.mul_spec(b.e1e2).add_req(a.e2e3.mul_spec(b.e1e3))
    &&& a.e1e2.mul_req(b.s)
    &&& a.s.mul_spec(b.e1e2).add_spec(a.e2e3.mul_spec(b.e1e3)).add_req(a.e1e2.mul_spec(b.s))
    &&& a.e1e3.mul_req(b.e2e3)
    &&& a.s.mul_spec(b.e1e2).add_spec(a.e2e3.mul_spec(b.e1e3)).add_spec(a.e1e2.mul_spec(b.s)).sub_req(a.e1e3.mul_spec(b.e2e3))
    &&& a.s.mul_req(b.e1e3)
    &&& a.e1e2.mul_req(b.e2e3)
    &&& a.s.mul_spec(b.e1e3).add_req(a.e1e2.mul_spec(b.e2e3))
    &&& a.e1e3.mul_req(b.s)
    &&& a.s.mul_spec(b.e1e3).add_spec(a.e1e2.mul_spec(b.e2e3)).add_req(a.e1e3.mul_spec(b.s))
    &&& a.e2e3.mul_req(b.e1e2)
    &&& a.s.mul_spec(b.e1e3).add_spec(a.e1e2.mul_spec(b.e2e3)).add_spec(a.e1e3.mul_spec(b.s)).sub_req(a.e2e3.mul_spec(b.e1e2))
    &&& a.s.mul_req(b.e2e3)
    &&& a.e1e3.mul_req(b.e1e2)
    &&& a.s.mul_spec(b.e2e3).add_req(a.e1e3.mul_spec(b.e1e2))
    &&& a.e2e3.mul_req(b.s)
    &&& a.s.mul_spec(b.e2e3).add_spec(a.e1e3.mul_spec(b.e1e2)).add_req(a.e2e3.mul_spec(b.s))
    &&& a.e1e2.mul_req(b.e1e3)
    &&& a.s.mul_spec(b.e2e3).add_spec(a.e1e3.mul_spec(b.e1e2)).add_spec(a.e2e3.mul_spec(b.s)).sub_req(a.e1e2.mul_spec(b.e1e3))
    &&& a.s.mul_req(b.e0e1e2e3)
    &&& a.e0e1.mul_req(b.e2e3)
    &&& a.s.mul_spec(b.e0e1e2e3).add_req(a.e0e1.mul_spec(b.e2e3))
    &&& a.e1e2.mul_req(b.e0e3)
    &&& a.s.mul_spec(b.e0e1e2e3).add_spec(a.e0e1.mul_spec(b.e2e3)).add_req(a.e1e2.mul_spec(b.e0e3))
    &&& a.e0e3.mul_req(b.e1e2)
    &&& a.s.mul_spec(b.e0e1e2e3).add_spec(a.e0e1.mul_spec(b.e2e3)).add_spec(a.e1e2.mul_spec(b.e0e3)).add_req(a.e0e3.mul_spec(b.e1e2))
    &&& a.e2e3.mul_req(b.e0e1)
    &&& a.s.mul_spec(b.e0e1e2e3).add_spec(a.e0e1.mul_spec(b.e2e3)).add_spec(a.e1e2.mul_spec(b.e0e3)).add_spec(a.e0e3.mul_spec(b.e1e2)).add_req(a.e2e3.mul_spec(b.e0e1))
    &&& a.e0e1e2e3.mul_req(b.s)
    &&& a.s.mul_spec(b.e0e1e2e3).add_spec(a.e0e1.mul_spec(b.e2e3)).add_spec(a.e1e2.mul_spec(b.e0e3)).add_spec(a.e0e3.mul_spec(b.e1e2)).add_spec(a.e2e3.mul_spec(b.e0e1)).add_req(a.e0e1e2e3.mul_spec(b.s))
    &&& a.e1e3.mul_req(b.e0e2)
    &&& a.s.mul_spec(b.e0e1e2e3).add_spec(a.e0e1.mul_spec(b.e2e3)).add_spec(a.e1e2.mul_spec(b.e0e3)).add_spec(a.e0e3.mul_spec(b.e1e2)).add_spec(a.e2e3.mul_spec(b.e0e1)).add_spec(a.e0e1e2e3.mul_spec(b.s)).sub_req(a.e1e3.mul_spec(b.e0e2))
    &&& a.e0e2.mul_req(b.e1e3)
    &&& a.s.mul_spec(b.e0e1e2e3).add_spec(a.e0e1.mul_spec(b.e2e3)).add_spec(a.e1e2.mul_spec(b.e0e3)).add_spec(a.e0e3.mul_spec(b.e1e2)).add_spec(a.e2e3.mul_spec(b.e0e1)).add_spec(a.e0e1e2e3.mul_spec(b.s)).sub_spec(a.e1e3.mul_spec(b.e0e2)).sub_req(a.e0e2.mul_spec(b.e1e3))
}

/// The reverse of a rotor: its bivector part negated.
pub open spec fn rotor_reverse<S: Copy + Add<Output = S> + Sub<Output = S> + Mul<Output = S> + Neg<Output = S> + From<i8>>(r: Rotor<S>) -> Rotor<S> {
    Rotor { s: r.s, e1e2: r.e1e2.neg_spec(), e1e3: r.e1e3.neg_spec(), e2e3: r.e2e3.neg_spec() }
}

/// The reverse of a transform: its bivector part negated.
pub open spec fn transform_reverse<S: Copy + Add<Output = S> + Sub<Output = S> + Mul<Output = S> + Neg<Output = S> + From<i8>>(t: Transform<S>) -> Transform<S> {
    Transform {
        s: t.s,
        e0e1: t.e0e1.neg_spec(),
        e0e2: t.e0e2.neg_spec(),
        e0e3: t.e0e3.neg_spec(),
        e1e2: t.e1e2.neg_spec(),
        e1e3: t.e1e3.neg_spec(),
        e2e3: t.e2e3.neg_spec(),
        e0e1e2e3: t.e0e1e2e3,
    }
}

/// The transform that performs the rotation of `r`, with zero translation and pseudoscalar parts.
pub open spec fn transform_from_rotor<S: Copy + Add<Output = S> + Sub<Output = S> + Mul<Output = S> + Neg<Output = S> + From<i8>>(r: Rotor<S>) -> Transform<S> {
    Transform {
        s: r.s,
        e0e1: S::from_spec(0i8),
        e0e2: S::from_spec(0i8),
        e0e3: S::from_spec(0i8),
        e1e2: r.e1e2,
        e1e3: r.e1e3,
        e2e3: r.e2e3,
        e0e1e2e3: S::from_spec(0i8),
    }
}

/// The rotation part of a transform: its scalar and Euclidean bivector components.
pub open spec fn transform_rotor_part<S>(t: Transform<S>) -> Rotor<S> {
    Rotor { s: t.s, e1e2: t.e1e2, e1e3: t.e1e3, e2e3: t.e2e3 }
}

/// Taking the rotation part of the transform made from a rotor gives the rotor back.
pub proof fn lemma_rotor_part_of_from_rotor<S: Copy + Add<Output = S> + Sub<Output = S> + Mul<Output = S> + Neg<Output = S> + From<i8>>(r: Rotor<S>)
    ensures
        transform_rotor_part(transform_from_rotor(r)) == r,
{
}

/// Reversing a transform reverses its rotation part.
pub proof fn lemma_rotor_part_of_reverse<S: Copy + Add<Output = S> + Sub<Output = S> + Mul<Output = S> + Neg<Output = S> + From<i8>>(t: Transform<S>)
    ensures
        transform_rotor_part(transform_reverse(t)) == rotor_reverse(transform_rotor_part(t)),
{
}

/// The identity rotor over integers.
pub open spec fn integer_rotor_identity() -> Rotor<i64> {
    Rotor { s: 1, e1e2: 0, e1e3: 0, e2e3: 0 }
}

/// Over integers, composing with the identity rotor on either side changes nothing.
pub proof fn lemma_rotor_identity_neutral(r: Rotor<i64>)
    ensures
        rotor_product_defined(integer_rotor_identity(), r),
        rotor_product_defined(r, integer_rotor_identity()),
        rotor_product(integer_rotor_identity(), r) == r,
        rotor_product(r, integer_rotor_identity()) == r,
{
}

/// The identity transform over integers.
pub open spec fn integer_transform_identity() -> Transform<i64> {
    Transform { s: 1, e0e1: 0, e0e2: 0, e0e3: 0, e1e2: 0, e1e3: 0, e2e3: 0, e0e1e2e3: 0 }
}

/// Over integers, composing with the identity transform on either side changes nothing.
pub proof fn lemma_transform_identity_neutral(t: Transform<i64>)
    ensures
        transform_product_defined(integer_transform_identity(), t),
        transform_product_defined(t, integer_transform_identity()),
        transform_product(integer_transform_identity(), t) == t,
        transform_product(t, integer_transform_identity()) == t,
{
}

/// Over integers, composing the transforms made from two rotors gives the transform made
/// from the composed rotors: rotations compose alike as rotors and as transforms.
pub proof fn lemma_from_rotor_composes(a: Rotor<i64>, b: Rotor<i64>)
    requires
        rotor_product_defined(a, b),
        transform_product_defined(transform_from_rotor(a), transform_from_rotor(b)),
    ensures
        transform_product(transform_from_rotor(a), transform_from_rotor(b)) == transform_from_rotor(rotor_product(a, b)),
{
    let t = transform_product(transform_from_rotor(a), transform_from_rotor(b));
    let r = rotor_product(a, b);
    assert(<i64 as FromSpec<i8>>::from_spec(0i8) == 0);
    assert(t.s == r.s);
    assert(t.e1e2 == r.e1e2);
    assert(t.e1e3 == r.e1e3);
    assert(t.e2e3 == r.e2e3);
    assert forall|x: i64, y: i64| x == 0 || y == 0 implies #[trigger] x.mul_spec(y) == 0 by {
        assert(x * y == 0) by (nonlinear_arith)
            requires x == 0 || y == 0;
    }
    assert(t.e0e1 == 0);
    assert(t.e0e2 == 0);
    assert(t.e0e3 == 0);
    assert(t.e0e1e2e3 == 0);
}

/// Over integers, reversing a rotor twice gives it back.
pub proof fn lemma_rotor_reverse_involution(r: Rotor<i64>)
    requires
        r.e1e2.neg_req(),
        r.e1e3.neg_req(),
        r.e2e3.neg_req(),
    ensures
        rotor_reverse(rotor_reverse(r)) == r,
{
}

/// The squared norm of an integer rotor: the sum of the squares of its components.
pub open spec fn integer_rotor_norm_squared(r: Rotor<i64>) -> int {
    r.s * r.s + r.e1e2 * r.e1e2 + r.e1e3 * r.e1e3 + r.e2e3 * r.e2e3
}

/// Two integers whose squares sum to at most `bound` have a product of at most half
/// `bound` in magnitude, and their products commute and change sign with either factor.
proof fn lemma_pair_product(x: int, y: int, bound: int)
    requires
        x * x + y * y <= bound,
    ensures
        2 * (x * y) <= bound,
        -bound <= 2 * (x * y),
        y * x == x * y,
        x * (-y) == -(x * y),
        (-x) * y == -(x * y),
        y * (-x) == -(x * y),
        (-y) * x == -(x * y),
{
    assert((x - y) * (x - y) >= 0 && (x + y) * (x + y) >= 0) by (nonlinear_arith);
    assert((x - y) * (x - y) == x * x + y * y - 2 * (x * y)) by (nonlinear_arith);
    assert((x + y) * (x + y) == x * x + y * y + 2 * (x * y)) by (nonlinear_arith);
    assert(y * x == x * y && x * (-y) == -(x * y) && (-x) * y == -(x * y)) by (nonlinear_arith);
    assert(y * (-x) == -(x * y) && (-y) * x == -(x * y)) by (nonlinear_arith);
}

/// An integer whose square is at most the largest `i64` lies strictly above the
/// smallest `i64`, so that it can be negated, and its square is not negative.
proof fn lemma_small_square(x: int)
    requires
        x * x <= i64::MAX,
    ensures
        i64::MIN < x,
        0 <= x * x,
{
    assert(0 <= x * x) by (nonlinear_arith);
    assert(x <= -2 ==> x * x >= -2 * x) by (nonlinear_arith);
}

/// Over integers, a rotor times its reverse, in either order, is its squared norm: a
/// scalar, with a zero bivector part. So a rotor of norm one composed with its reverse
/// is the identity. The law holds wherever the squared norm fits in an `i64`, and
/// every step of both products then stays within range.
pub proof fn lemma_rotor_times_reverse(r: Rotor<i64>)
    requires
        integer_rotor_norm_squared(r) <= i64::MAX,
    ensures
        rotor_product_defined(r, rotor_reverse(r)),
        rotor_product_defined(rotor_reverse(r), r),
        rotor_product(r, rotor_reverse(r)) == (Rotor::<i64> { s: integer_rotor_norm_squared(r) as i64, e1e2: 0, e1e3: 0, e2e3: 0 }),
        rotor_product(rotor_reverse(r), r) == rotor_product(r, rotor_reverse(r)),
        integer_rotor_norm_squared(r) == 1 ==> rotor_product(r, rotor_reverse(r)) == integer_rotor_identity(),
{
    let (s, a, b, c) = (r.s as int, r.e1e2 as int, r.e1e3 as int, r.e2e3 as int);
    let m = i64::MAX as int;
    assert(0 <= s * s && 0 <= a * a && 0 <= b * b && 0 <= c * c) by (nonlinear_arith);
    lemma_small_square(s);
    lemma_small_square(a);
    lemma_small_square(b);
    lemma_small_square(c);
    lemma_pair_product(s, a, m);
    lemma_pair_product(s, b, m);
    lemma_pair_product(s, c, m);
    lemma_pair_product(a, b, m);
    lemma_pair_product(a, c, m);
    lemma_pair_product(b, c, m);
    lemma_pair_product(s, s, 2 * m);
    lemma_pair_product(a, a, 2 * m);
    lemma_pair_product(b, b, 2 * m);
    lemma_pair_product(c, c, 2 * m);
    assert(s * b + a * c <= m && -m <= s * b + a * c);
    assert(s * c + a * b <= m && -m <= s * c + a * b);
    assert(s * b - a * c <= m && -m <= s * b - a * c);
    assert(s * c - a * b <= m && -m <= s * c - a * b);
}

/// Over integers, reversing a transform twice gives it back.
pub proof fn lemma_transform_reverse_involution(t: Transform<i64>)
    requires
        t.e0e1.neg_req(),
        t.e0e2.neg_req(),
        t.e0e3.neg_req(),
        t.e1e2.neg_req(),
        t.e1e3.neg_req(),
        t.e2e3.neg_req(),
    ensures
        transform_reverse(transform_reverse(t)) == t,
{
}

/// Over integers, reversing the transform made from a rotor gives the transform made
/// from the reversed rotor.
pub proof fn lemma_reverse_from_rotor(r: Rotor<i64>)
    ensures
        transform_reverse(transform_from_rotor(r)) == transform_from_rotor(rotor_reverse(r)),
{
    assert(<i64 as FromSpec<i8>>::from_spec(0i8) == 0);
}

/// The translation over integers with translation components `x`, `y` and `z`: those of
/// a motion by the offset `(2x, 2y, 2z)`, with a scalar of one and every other component zero.
pub open spec fn integer_translation(x: i64, y: i64, z: i64) -> Transform<i64> {
    Transform { s: 1, e0e1: x, e0e2: y, e0e3: z, e1e2: 0, e1e3: 0, e2e3: 0, e0e1e2e3: 0 }
}

/// Over integers, translations compose by adding their components, in either order,
/// wherever the sums fit in an `i64`.
pub proof fn lemma_translations_compose(x1: i64, y1: i64, z1: i64, x2: i64, y2: i64, z2: i64)
    requires
        i64::MIN <= x1 + x2 <= i64::MAX,
        i64::MIN <= y1 + y2 <= i64::MAX,
        i64::MIN <= z1 + z2 <= i64::MAX,
    ensures
        transform_product_defined(integer_translation(x1, y1, z1), integer_translation(x2, y2, z2)),
        transform_product_defined(integer_translation(x2, y2, z2), integer_translation(x1, y1, z1)),
        transform_product(integer_translation(x1, y1, z1), integer_translation(x2, y2, z2))
            == integer_translation((x1 + x2) as i64, (y1 + y2) as i64, (z1 + z2) as i64),
        transform_product(integer_translation(x2, y2, z2), integer_translation(x1, y1, z1))
            == transform_product(integer_translation(x1, y1, z1), integer_translation(x2, y2, z2)),
{
}

/// Over integers, the reverse of a translation is the translation by the opposite offset.
pub proof fn lemma_translation_reverse(x: i64, y: i64, z: i64)
    requires
        x.neg_req(),
        y.neg_req(),
        z.neg_req(),
    ensures
        transform_reverse(integer_translation(x, y, z)) == integer_translation(-x as i64, -y as i64, -z as i64),
{
}

/// The components of an integer transform, numbered in field order: the scalar, the
/// three bivectors with `e0`, the three Euclidean bivectors and the pseudoscalar.
pub open spec fn component(t: Transform<i64>, k: int) -> int {
    if k == 0 { t.s as int }
    else if k == 1 { t.e0e1 as int }
    else if k == 2 { t.e0e2 as int }
    else if k == 3 { t.e0e3 as int }
    else if k == 4 { t.e1e2 as int }
    else if k == 5 { t.e1e3 as int }
    else if k == 6 { t.e2e3 as int }
    else { t.e0e1e2e3 as int }
}

/// The basis blade of component `i`, as the set of basis vectors `e0`, `e1`, `e2`, `e3`
/// it is the ordered product of.
pub open spec fn blade(i: int) -> (bool, bool, bool, bool) {
    if i == 0 { (false, false, false, false) }
    else if i == 1 { (true, true, false, false) }
    else if i == 2 { (true, false, true, false) }
    else if i == 3 { (true, false, false, true) }
    else if i == 4 { (false, true, true, false) }
    else if i == 5 { (false, true, false, true) }
    else if i == 6 { (false, false, true, true) }
    else { (true, true, true, true) }
}

/// The component whose basis blade is `b`.
pub open spec fn blade_index(b: (bool, bool, bool, bool)) -> int {
    if b == (false, false, false, false) { 0 }
    else if b == (true, true, false, false) { 1 }
    else if b == (true, false, true, false) { 2 }
    else if b == (true, false, false, true) { 3 }
    else if b == (false, true, true, false) { 4 }
    else if b == (false, true, false, true) { 5 }
    else if b == (false, false, true, true) { 6 }
    else { 7 }
}

/// One for a basis vector that is present, zero otherwise.
pub open spec fn count(x: bool) -> int {
    if x { 1 } else { 0 }
}

/// The sign of the product of the basis blades `a` and `b`: each basis vector of `b`
/// moves left past the basis vectors of `a` with a larger number, changing the sign each
/// time, and the basis vectors then meet their equal and square away.
pub open spec fn blade_sign(a: (bool, bool, bool, bool), b: (bool, bool, bool, bool)) -> int {
    let swaps = (if b.0 { count(a.1) + count(a.2) + count(a.3) } else { 0 })
        + (if b.1 { count(a.2) + count(a.3) } else { 0 })
        + (if b.2 { count(a.3) } else { 0 });
    if swaps % 2 == 0 { 1 } else { -1 }
}

/// The basis blade of the product of the basis blades `a` and `b`: the basis vectors
/// that occur in exactly one of them.
pub open spec fn blade_product(a: (bool, bool, bool, bool), b: (bool, bool, bool, bool)) -> (bool, bool, bool, bool) {
    (a.0 != b.0, a.1 != b.1, a.2 != b.2, a.3 != b.3)
}

/// Component `k` of the product of `c` times basis blade `i` with `b`, by the rules of the
/// algebra: the one component of `b` whose blade makes blade `k` with blade `i`, times
/// `c` and the sign of that blade product, or zero where `e0` would meet itself, since
/// it squares to zero.
pub open spec fn basis_times(i: int, c: i64, b: Transform<i64>, k: int) -> int {
    let j = blade_index(blade_product(blade(i), blade(k)));
    if blade(i).0 && blade(j).0 {
        0
    } else {
        if blade_sign(blade(i), blade(j)) == 1 { c * component(b, j) } else { -(c * component(b, j)) }
    }
}

/// The grade of a basis blade: how many basis vectors it is the product of.
pub open spec fn grade(b: (bool, bool, bool, bool)) -> int {
    count(b.0) + count(b.1) + count(b.2) + count(b.3)
}

/// Over integers, the reverse of a transform follows the rule of the algebra: writing
/// the basis vectors of each blade in the opposite order changes its sign exactly when
/// its grade is two or three more than a multiple of four, so the bivector components
/// are negated and the scalar and pseudoscalar kept.
pub proof fn lemma_transform_reverse_by_grade(t: Transform<i64>)
    requires
        t.e0e1.neg_req(),
        t.e0e2.neg_req(),
        t.e0e3.neg_req(),
        t.e1e2.neg_req(),
        t.e1e3.neg_req(),
        t.e2e3.neg_req(),
    ensures
        forall|k: int| 0 <= k < 8 ==> #[trigger] component(transform_reverse(t), k)
            == if grade(blade(k)) % 4 == 2 || grade(blade(k)) % 4 == 3 { -component(t, k) } else { component(t, k) },
{
    assert forall|k: int| 0 <= k < 8 implies #[trigger] component(transform_reverse(t), k)
        == if grade(blade(k)) % 4 == 2 || grade(blade(k)) % 4 == 3 { -component(t, k) } else { component(t, k) } by {
        if k == 0 {} else if k == 1 {} else if k == 2 {} else if k == 3 {}
        else if k == 4 {} else if k == 5 {} else if k == 6 {} else {}
    }
}

/// The transform that is `c` times basis blade `i`, every other component zero.
pub open spec fn unit_transform(i: int, c: i64) -> Transform<i64> {
    Transform { s: if i == 0 { c } else { 0 }, e0e1: if i == 1 { c } else { 0 }, e0e2: if i == 2 { c } else { 0 }, e0e3: if i == 3 { c } else { 0 }, e1e2: if i == 4 { c } else { 0 }, e1e3: if i == 5 { c } else { 0 }, e2e3: if i == 6 { c } else { 0 }, e0e1e2e3: if i == 7 { c } else { 0 } }
}

/// The row of the product for the basis blade of component 0.
proof fn lemma_basis_row_0(c: i64, b: Transform<i64>)
    requires
        transform_product_defined(unit_transform(0, c), b),
    ensures
        component(transform_product(unit_transform(0, c), b), 0) == basis_times(0, c, b, 0),
        component(transform_product(unit_transform(0, c), b), 1) == basis_times(0, c, b, 1),
        component(transform_product(unit_transform(0, c), b), 2) == basis_times(0, c, b, 2),
        component(transform_product(unit_transform(0, c), b), 3) == basis_times(0, c, b, 3),
        component(transform_product(unit_transform(0, c), b), 4) == basis_times(0, c, b, 4),
        component(transform_product(unit_transform(0, c), b), 5) == basis_times(0, c, b, 5),
        component(transform_product(unit_transform(0, c), b), 6) == basis_times(0, c, b, 6),
        component(transform_product(unit_transform(0, c), b), 7) == basis_times(0, c, b, 7),
{
}

/// The row of the product for the basis blade of component 1.
proof fn lemma_basis_row_1(c: i64, b: Transform<i64>)
    requires
        transform_product_defined(unit_transform(1, c), b),
    ensures
        component(transform_product(unit_transform(1, c), b), 0) == basis_times(1, c, b, 0),
        component(transform_product(unit_transform(1, c), b), 1) == basis_times(1, c, b, 1),
        component(transform_product(unit_transform(1, c), b), 2) == basis_times(1, c, b, 2),
        component(transform_product(unit_transform(1, c), b), 3) == basis_times(1, c, b, 3),
        component(transform_product(unit_transform(1, c), b), 4) == basis_times(1, c, b, 4),
        component(transform_product(unit_transform(1, c), b), 5) == basis_times(1, c, b, 5),
        component(transform_product(unit_transform(1, c), b), 6) == basis_times(1, c, b, 6),
        component(transform_product(unit_transform(1, c), b), 7) == basis_times(1, c, b, 7),
{
}

/// The row of the product for the basis blade of component 2.
proof fn lemma_basis_row_2(c: i64, b: Transform<i64>)
    requires
        transform_product_defined(unit_transform(2, c), b),
    ensures
        component(transform_product(unit_transform(2, c), b), 0) == basis_times(2, c, b, 0),
        component(transform_product(unit_transform(2, c), b), 1) == basis_times(2, c, b, 1),
        component(transform_product(unit_transform(2, c), b), 2) == basis_times(2, c, b, 2),
        component(transform_product(unit_transform(2, c), b), 3) == basis_times(2, c, b, 3),
        component(transform_product(unit_transform(2, c), b), 4) == basis_times(2, c, b, 4),
        component(transform_product(unit_transform(2, c), b), 5) == basis_times(2, c, b, 5),
        component(transform_product(unit_transform(2, c), b), 6) == basis_times(2, c, b, 6),
        component(transform_product(unit_transform(2, c), b), 7) == basis_times(2, c, b, 7),
{
}

/// The row of the product for the basis blade of component 3.
proof fn lemma_basis_row_3(c: i64, b: Transform<i64>)
    requires
        transform_product_defined(unit_transform(3, c), b),
    ensures
        component(transform_product(unit_transform(3, c), b), 0) == basis_times(3, c, b, 0),
        component(transform_product(unit_transform(3, c), b), 1) == basis_times(3, c, b, 1),
        component(transform_product(unit_transform(3, c), b), 2) == basis_times(3, c, b, 2),
        component(transform_product(unit_transform(3, c), b), 3) == basis_times(3, c, b, 3),
        component(transform_product(unit_transform(3, c), b), 4) == basis_times(3, c, b, 4),
        component(transform_product(unit_transform(3, c), b), 5) == basis_times(3, c, b, 5),
        component(transform_product(unit_transform(3, c), b), 6) == basis_times(3, c, b, 6),
        component(transform_product(unit_transform(3, c), b), 7) == basis_times(3, c, b, 7),
{
}

/// The row of the product for the basis blade of component 4.
proof fn lemma_basis_row_4(c: i64, b: Transform<i64>)
    requires
        transform_product_defined(unit_transform(4, c), b),
    ensures
        component(transform_product(unit_transform(4, c), b), 0) == basis_times(4, c, b, 0),
        component(transform_product(unit_transform(4, c), b), 1) == basis_times(4, c, b, 1),
        component(transform_product(unit_transform(4, c), b), 2) == basis_times(4, c, b, 2),
        component(transform_product(unit_transform(4, c), b), 3) == basis_times(4, c, b, 3),
        component(transform_product(unit_transform(4, c), b), 4) == basis_times(4, c, b, 4),
        component(transform_product(unit_transform(4, c), b), 5) == basis_times(4, c, b, 5),
        component(transform_product(unit_transform(4, c), b), 6) == basis_times(4, c, b, 6),
        component(transform_product(unit_transform(4, c), b), 7) == basis_times(4, c, b, 7),
{
}

/// The row of the product for the basis blade of component 5.
proof fn lemma_basis_row_5(c: i64, b: Transform<i64>)
    requires
        transform_product_defined(unit_transform(5, c), b),
    ensures
        component(transform_product(unit_transform(5, c), b), 0) == basis_times(5, c, b, 0),
        component(transform_product(unit_transform(5, c), b), 1) == basis_times(5, c, b, 1),
        component(transform_product(unit_transform(5, c), b), 2) == basis_times(5, c, b, 2),
        component(transform_product(unit_transform(5, c), b), 3) == basis_times(5, c, b, 3),
        component(transform_product(unit_transform(5, c), b), 4) == basis_times(5, c, b, 4),
        component(transform_product(unit_transform(5, c), b), 5) == basis_times(5, c, b, 5),
        component(transform_product(unit_transform(5, c), b), 6) == basis_times(5, c, b, 6),
        component(transform_product(unit_transform(5, c), b), 7) == basis_times(5, c, b, 7),
{
}

/// The row of the product for the basis blade of component 6.
proof fn lemma_basis_row_6(c: i64, b: Transform<i64>)
    requires
        transform_product_defined(unit_transform(6, c), b),
    ensures
        component(transform_product(unit_transform(6, c), b), 0) == basis_times(6, c, b, 0),
        component(transform_product(unit_transform(6, c), b), 1) == basis_times(6, c, b, 1),
        component(transform_product(unit_transform(6, c), b), 2) == basis_times(6, c, b, 2),
        component(transform_product(unit_transform(6, c), b), 3) == basis_times(6, c, b, 3),
        component(transform_product(unit_transform(6, c), b), 4) == basis_times(6, c, b, 4),
        component(transform_product(unit_transform(6, c), b), 5) == basis_times(6, c, b, 5),
        component(transform_product(unit_transform(6, c), b), 6) == basis_times(6, c, b, 6),
        component(transform_product(unit_transform(6, c), b), 7) == basis_times(6, c, b, 7),
{
}

/// The row of the product for the basis blade of component 7.
proof fn lemma_basis_row_7(c: i64, b: Transform<i64>)
    requires
        transform_product_defined(unit_transform(7, c), b),
    ensures
        component(transform_product(unit_transform(7, c), b), 0) == basis_times(7, c, b, 0),
        component(transform_product(unit_transform(7, c), b), 1) == basis_times(7, c, b, 1),
        component(transform_product(unit_transform(7, c), b), 2) == basis_times(7, c, b, 2),
        component(transform_product(unit_transform(7, c), b), 3) == basis_times(7, c, b, 3),
        component(transform_product(unit_transform(7, c), b), 4) == basis_times(7, c, b, 4),
        component(transform_product(unit_transform(7, c), b), 5) == basis_times(7, c, b, 5),
        component(transform_product(unit_transform(7, c), b), 6) == basis_times(7, c, b, 6),
        component(transform_product(unit_transform(7, c), b), 7) == basis_times(7, c, b, 7),
{
}

/// Over integers, the transform product follows the rules of the algebra: multiplying
/// `c` times any basis blade by any transform `b` gives, in each component, the one
/// component of `b` whose blade completes it, times `c` and the sign of the blade product,
/// and zero where `e0` would meet itself. Since the product is bilinear, this fixes every
/// term of it.
pub proof fn lemma_transform_product_basis(i: int, c: i64, b: Transform<i64>)
    requires
        0 <= i < 8,
        transform_product_defined(unit_transform(i, c), b),
    ensures
        forall|k: int| 0 <= k < 8 ==> #[trigger] component(transform_product(unit_transform(i, c), b), k)
            == basis_times(i, c, b, k),
{
    if i == 0 {
        lemma_basis_row_0(c, b);
    } else if i == 1 {
        lemma_basis_row_1(c, b);
    } else if i == 2 {
        lemma_basis_row_2(c, b);
    } else if i == 3 {
        lemma_basis_row_3(c, b);
    } else if i == 4 {
        lemma_basis_row_4(c, b);
    } else if i == 5 {
        lemma_basis_row_5(c, b);
    } else if i == 6 {
        lemma_basis_row_6(c, b);
    } else if i == 7 {
        lemma_basis_row_7(c, b);
    }
    assert forall|k: int| 0 <= k < 8 implies #[trigger] component(transform_product(unit_transform(i, c), b), k)
        == basis_times(i, c, b, k) by {
        if k == 0 {} else if k == 1 {} else if k == 2 {} else if k == 3 {}
        else if k == 4 {} else if k == 5 {} else if k == 6 {} else {}
    }
}

/// Over integers, a rotation followed by a translation keeps the rotation part, and its
/// translation part is the translation turned by the rotation: with the rotor
/// `(s, e12, e13, e23)` and the translation components `(x, y, z)`, the `e0` bivectors are
/// `s x + e12 y + e13 z`, `s y - e12 x + e23 z` and `s z - e13 x - e23 y`, and the
/// pseudoscalar is `e12 z - e13 y + e23 x`.
pub proof fn lemma_rotation_then_translation(r: Rotor<i64>, x: i64, y: i64, z: i64)
    requires
        transform_product_defined(transform_from_rotor(r), integer_translation(x, y, z)),
    ensures
        transform_rotor_part(transform_product(transform_from_rotor(r), integer_translation(x, y, z))) == r,
        transform_product(transform_from_rotor(r), integer_translation(x, y, z)).e0e1 == r.s * x + r.e1e2 * y + r.e1e3 * z,
        transform_product(transform_from_rotor(r), integer_translation(x, y, z)).e0e2 == r.s * y - r.e1e2 * x + r.e2e3 * z,
        transform_product(transform_from_rotor(r), integer_translation(x, y, z)).e0e3 == r.s * z - r.e1e3 * x - r.e2e3 * y,
        transform_product(transform_from_rotor(r), integer_translation(x, y, z)).e0e1e2e3
            == r.e1e2 * z - r.e1e3 * y + r.e2e3 * x,
{
    assert(<i64 as FromSpec<i8>>::from_spec(0i8) == 0);
    assert forall|p: i64, q: i64| (p == 0 || q == 0) implies #[trigger] p.mul_spec(q) == 0 by {
        assert(p * q == 0) by (nonlinear_arith)
            requires p == 0 || q == 0;
    }
    assert forall|p: i64, q: i64| q == 1 implies #[trigger] p.mul_spec(q) == p by {
        assert(p * q == p) by (nonlinear_arith)
            requires q == 1;
    }
    assert forall|p: i64, q: i64| p == 1 implies #[trigger] p.mul_spec(q) == q by {
        assert(p * q == q) by (nonlinear_arith)
            requires p == 1;
    }
}

impl<S: Copy + Add<Output = S> + Sub<Output = S> + Mul<Output = S> + Neg<Output = S> + From<i8>> Rotor<S> {
    /// The rotor that rotates nothing: one, with a zero bivector part.
    pub fn identity() -> (r: Self)
        ensures
            S::obeys_from_spec() ==> r == (Rotor { s: S::from_spec(1i8), e1e2: S::from_spec(0i8), e1e3: S::from_spec(0i8), e2e3: S::from_spec(0i8) }),
    {
        Rotor { s: S::from(1i8), e1e2: S::from(0i8), e1e3: S::from(0i8), e2e3: S::from(0i8) }
    }

    /// The reverse of the rotor, which undoes its rotation when it is normalised.
    pub fn reverse(self) -> (r: Self)
        requires
            self.e1e2.neg_req(),
            self.e1e3.neg_req(),
            self.e2e3.neg_req(),
        ensures
            r.s == self.s,
            S::obeys_neg_spec() ==> r == rotor_reverse(self),
    {
        Rotor { s: self.s, e1e2: self.e1e2.neg(), e1e3: self.e1e3.neg(), e2e3: self.e2e3.neg() }
    }

    /// The rotor that applies `self` and then `then`: the geometric product `self * then`.
    pub fn then(self, then: Self) -> (r: Self)
        requires
            ops_total::<S>() || (ops_obey::<S>() && rotor_product_defined(self, then)),
        ensures
            ops_obey::<S>() ==> r == rotor_product(self, then),
    {
        Rotor {
            s: self.s * then.s - self.e1e2 * then.e1e2 - self.e1e3 * then.e1e3 - self.e2e3 * then.e2e3,
            e1e2: self.s * then.e1e2 + self.e1e2 * then.s + self.e2e3 * then.e1e3 - self.e1e3 * then.e2e3,
            e1e3: self.s * then.e1e3 + self.e1e2 * then.e2e3 + self.e1e3 * then.s - self.e2e3 * then.e1e2,
            e2e3: self.s * then.e2e3 + self.e1e3 * then.e1e2 + self.e2e3 * then.s - self.e1e2 * then.e1e3,
        }
    }
}

impl<S: Copy + Add<Output = S> + Sub<Output = S> + Mul<Output = S> + Neg<Output = S> + From<i8>> Transform<S> {
    /// The transform that moves nothing: one, with every other component zero.
    pub fn identity() -> (r: Self)
        ensures
            S::obeys_from_spec() ==> r == (Transform {
                s: S::from_spec(1i8),
                e0e1: S::from_spec(0i8),
                e0e2: S::from_spec(0i8),
                e0e3: S::from_spec(0i8),
                e1e2: S::from_spec(0i8),
                e1e3: S::from_spec(0i8),
                e2e3: S::from_spec(0i8),
                e0e1e2e3: S::from_spec(0i8),
            }),
    {
        Transform {
            s: S::from(1i8),
            e0e1: S::from(0i8),
            e0e2: S::from(0i8),
            e0e3: S::from(0i8),
            e1e2: S::from(0i8),
            e1e3: S::from(0i8),
            e2e3: S::from(0i8),
            e0e1e2e3: S::from(0i8),
        }
    }

    /// The reverse of the transform, which undoes its motion when it is normalised.
    pub fn reverse(self) -> (r: Self)
        requires
            self.e0e1.neg_req(),
            self.e0e2.neg_req(),
            self.e0e3.neg_req(),
            self.e1e2.neg_req(),
            self.e1e3.neg_req(),
            self.e2e3.neg_req(),
        ensures
            r.s == self.s,
            r.e0e1e2e3 == self.e0e1e2e3,
            S::obeys_neg_spec() ==> r == transform_reverse(self),
    {
        Transform {
            s: self.s,
            e0e1: self.e0e1.neg(),
            e0e2: self.e0e2.neg(),
            e0e3: self.e0e3.neg(),
            e1e2: self.e1e2.neg(),
            e1e3: self.e1e3.neg(),
            e2e3: self.e2e3.neg(),
            e0e1e2e3: self.e0e1e2e3,
        }
    }

    /// The transform that applies `self` and then `then`: the geometric product `self * then`.
    pub fn then(self, then: Self) -> (r: Self)
        requires
            ops_total::<S>() || (ops_obey::<S>() && transform_product_defined(self, then)),
        ensures
            ops_obey::<S>() ==> r == transform_product(self, then),
    {
        Transform {
            s: self.s * then.s - self.e1e2 * then.e1e2 - self.e1e3 * then.e1e3 - self.e2e3 * then.e2e3,
            e0e1: self.s * then.e0e1 + self.e0e1 * then.s + self.e1e2 * then.e0e2 + self.e1e3 * then.e0e3 - self.e0e2 * then.e1e2 - self.e0e3 * then.e1e3 - self.e0e1e2e3 * then.e2e3 - self.e2e3 * then.e0e1e2e3,
            e0e2: self.s * then.e0e2 + self.e0e1 * then.e1e2 + self.e2e3 * then.e0e3 + self.e0e1e2e3 * then.e1e3 + self.e1e3 * then.e0e1e2e3 + self.e0e2 * then.s - self.e0e3 * then.e2e3 - self.e1e2 * then.e0e1,
            e0e3: self.s * then.e0e3 + self.e0e1 * then.e1e3 + self.e0e2 * then.e2e3 + self.e0e3 * then.s - self.e2e3 * then.e0e2 - self.e0e1e2e3 * then.e1e2 - self.e1e2 * then.e0e1e2e3 - self.e1e3 * then.e0e1,
            e1e2: self.s * then.e1e2 + self.e2e3 * then.e1e3 + self.e1e2 * then.s - self.e1e3 * then.e2e3,
            e1e3: self.s * then.e1e3 + self.e1e2 * then.e2e3 + self.e1e3 * then.s - self.e2e3 * then.e1e2,
            e2e3: self.s * then.e2e3 + self.e1e3 * then.e1e2 + self.e2e3 * then.s - self.e1e2 * then.e1e3,
            e0e1e2e3: self.s * then.e0e1e2e3 + self.e0e1 * then.e2e3 + self.e1e2 * then.e0e3 + self.e0e3 * then.e1e2 + self.e2e3 * then.e0e1 + self.e0e1e2e3 * then.s - self.e1e3 * then.e0e2 - self.e0e2 * then.e1e3,
        }
    }

    /// The transform that performs the rotation of `rotor`: its components, with a zero
    /// translation and pseudoscalar part.
    pub fn from_rotor(rotor: Rotor<S>) -> (r: Self)
        ensures
            r.s == rotor.s,
            r.e1e2 == rotor.e1e2,
            r.e1e3 == rotor.e1e3,
            r.e2e3 == rotor.e2e3,
            r.e0e1 == r.e0e2 && r.e0e2 == r.e0e3 && r.e0e3 == r.e0e1e2e3,
            S::obeys_from_spec() ==> r == transform_from_rotor(rotor),
    {
        let Rotor { s, e1e2, e1e3, e2e3 } = rotor;
        let zero = S::from(0i8);
        Self { s, e0e1: zero, e0e2: zero, e0e3: zero, e1e2, e1e3, e2e3, e0e1e2e3: zero }
    }

    /// The rotation part of the transform: its scalar and Euclidean bivector components.
    pub fn rotor_part(self) -> (r: Rotor<S>)
        ensures
            r == transform_rotor_part(self),
    {
        let Self { s, e0e1: _, e0e2: _, e0e3: _, e1e2, e1e3, e2e3, e0e1e2e3: _ } = self;
        Rotor { s, e1e2, e1e3, e2e3 }
    }
}

} // verus!
