//! Triples of scalars: positions, directions and colours.
use crate::scalar::{lemma_nearest_reduced, nearest_to, Scalar};
use std::ops::{Index, Neg};
use vstd::arithmetic::power2::*;
use vstd::prelude::*;
use vstd::std_specs::cmp::PartialEqSpecImpl;
use vstd::std_specs::ops::NegSpecImpl;

verus! {

/// The pattern of the double nearest to one hundred-millionth, below which a component
/// of a direction counts as vanished.
pub const NEAR_ZERO: u64 = 0x3E45_798E_E230_8C3A;

/// The pattern `NEAR_ZERO` denotes the double nearest to one hundred-millionth.
pub proof fn lemma_near_zero()
    ensures
        nearest_to(Scalar { bits: NEAR_ZERO }, 1, 100_000_000),
{
    let s = Scalar { bits: NEAR_ZERO };
    assert(s.exponent() == 996);
    assert(s.fraction() == 0x5_798E_E230_8C3A);
    lemma2_to64();
    lemma2_to64_rest();
    lemma_pow2_adds(64, 15);
    lemma_nearest_reduced(s, 1, 100_000_000);
}

/// Three scalars. Positions, directions and colours all take this form.
#[derive(Clone, Copy, Debug)]
pub struct Vec3 {
    pub v: [Scalar; 3],
}

/// A position in space.
pub type Point = Vec3;

/// A colour: red, green and blue, each conventionally between nought and one.
pub type Color = Vec3;

impl Vec3 {
    /// The first component.
    pub open spec fn spec_x(&self) -> Scalar {
        self.v[0]
    }

    /// The second component.
    pub open spec fn spec_y(&self) -> Scalar {
        self.v[1]
    }

    /// The third component.
    pub open spec fn spec_z(&self) -> Scalar {
        self.v[2]
    }

    /// The triple with the sign of every component reversed.
    pub open spec fn negated(self) -> Vec3 {
        Vec3 { v: [self.v[0].spec_neg(), self.v[1].spec_neg(), self.v[2].spec_neg()] }
    }

    /// Whether every component is strictly within `NEAR_ZERO` of zero.
    pub open spec fn spec_is_near_zero(&self) -> bool {
        let s = Scalar { bits: NEAR_ZERO };
        self.v[0].spec_abs().spec_lt(s) && self.v[1].spec_abs().spec_lt(s)
            && self.v[2].spec_abs().spec_lt(s)
    }

    /// Whether the two triples agree component by component, as numbers.
    pub open spec fn same(self, other: Vec3) -> bool {
        self.v[0].spec_same(other.v[0]) && self.v[1].spec_same(other.v[1])
            && self.v[2].spec_same(other.v[2])
    }

    /// The triple of three positive zeros.
    pub open spec fn origin() -> Vec3 {
        Vec3 { v: [Scalar { bits: 0 }, Scalar { bits: 0 }, Scalar { bits: 0 }] }
    }

    /// The triple of the three given components.
    pub fn new(x: Scalar, y: Scalar, z: Scalar) -> (r: Vec3)
        ensures
            r == (Vec3 { v: [x, y, z] }),
            r.v[0] == x,
            r.v[1] == y,
            r.v[2] == z,
    {
        Vec3 { v: [x, y, z] }
    }

    /// The first component.
    #[verifier::when_used_as_spec(spec_x)]
    pub fn x(&self) -> (r: Scalar)
        ensures
            r == self.v[0],
    {
        self.v[0]
    }

    /// The second component.
    #[verifier::when_used_as_spec(spec_y)]
    pub fn y(&self) -> (r: Scalar)
        ensures
            r == self.v[1],
    {
        self.v[1]
    }

    /// The third component.
    #[verifier::when_used_as_spec(spec_z)]
    pub fn z(&self) -> (r: Scalar)
        ensures
            r == self.v[2],
    {
        self.v[2]
    }

    /// Replaces the component at position 0, 1 or 2.
    pub fn set(&mut self, i: usize, value: Scalar)
        requires
            i < 3,
        ensures
            final(self).v@ == old(self).v@.update(i as int, value),
    {
        self.v[i] = value;
    }

    /// The vector turned into the hemisphere about a normal: the vector itself where
    /// `alignment`, its dot product with the normal, is above zero, and the reversed
    /// vector otherwise.
    pub fn on_hemisphere(self, alignment: Scalar) -> (r: Vec3)
        ensures
            r == if (Scalar { bits: 0 }).spec_lt(alignment) {
                self
            } else {
                self.negated()
            },
    {
        if Scalar::zero().lt(alignment) {
            self
        } else {
            self.neg()
        }
    }

    /// Whether the triple is too close to zero in every direction to serve as a
    /// direction.
    #[verifier::when_used_as_spec(spec_is_near_zero)]
    pub fn is_near_zero(&self) -> (r: bool)
        ensures
            r == self.spec_is_near_zero(),
    {
        let s = Scalar::from_bits(NEAR_ZERO);
        self.v[0].abs().lt(s) && self.v[1].abs().lt(s) && self.v[2].abs().lt(s)
    }
}

impl Default for Vec3 {
    /// The triple of three positive zeros.
    fn default() -> (r: Vec3)
        ensures
            r == Vec3::origin(),
    {
        Vec3 { v: [Scalar::zero(), Scalar::zero(), Scalar::zero()] }
    }
}

impl PartialEq for Vec3 {
    /// Numeric equality of all three components.
    fn eq(&self, other: &Vec3) -> (r: bool) {
        self.v[0].same(other.v[0]) && self.v[1].same(other.v[1]) && self.v[2].same(other.v[2])
    }
}

impl PartialEqSpecImpl for Vec3 {
    open spec fn obeys_eq_spec() -> bool {
        true
    }

    open spec fn eq_spec(&self, other: &Vec3) -> bool {
        self.same(*other)
    }
}

impl Neg for Vec3 {
    type Output = Vec3;

    /// The triple with the sign of every component reversed.
    fn neg(self) -> (r: Vec3) {
        Vec3 { v: [self.v[0].neg(), self.v[1].neg(), self.v[2].neg()] }
    }
}

impl NegSpecImpl for Vec3 {
    open spec fn obeys_neg_spec() -> bool {
        true
    }

    open spec fn neg_req(self) -> bool {
        true
    }

    open spec fn neg_spec(self) -> Vec3 {
        self.negated()
    }
}

impl Index<usize> for Vec3 {
    type Output = Scalar;

    /// The component at position 0, 1 or 2.
    fn index(&self, i: usize) -> (r: &Scalar)
        ensures
            *r == self.v[i as int],
    {
        &self.v[i]
    }
}

impl vstd::std_specs::core::IndexSpecImpl<usize> for Vec3 {
    open spec fn index_req(&self, index: &usize) -> bool {
        *index < 3
    }
}

} // verus!
