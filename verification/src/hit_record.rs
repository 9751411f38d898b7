//! The record of a ray striking a surface.
use crate::material::Material;
use crate::scalar::Scalar;
use crate::vec3::{Point, Vec3};
use std::ops::Neg;
use vstd::prelude::*;

verus! {

/// Where and how a ray struck a surface: the point, the unit normal there turned
/// against the ray, the ray parameter, whether the ray came from outside, and the
/// material of the surface.
#[derive(Clone, Copy, Debug)]
pub struct HitRecord<'a> {
    pub point: Point,
    pub normal: Vec3,
    pub t: Scalar,
    pub front_face: bool,
    pub material: &'a Material,
}

/// The alignment of the ray with the normal that a record stores, given its alignment
/// with the outward normal: the same where the ray runs against the outward normal, the
/// reverse where it does not.
pub open spec fn stored_alignment(alignment: Scalar) -> Scalar {
    if alignment.spec_lt(Scalar { bits: 0 }) {
        alignment
    } else {
        alignment.spec_neg()
    }
}

/// The stored normal never runs along the ray: whatever the alignment with the outward
/// normal, the alignment with the stored normal is not above zero, and it is below zero
/// unless the ray grazes the surface.
pub proof fn lemma_normal_opposes_ray(alignment: Scalar)
    requires
        !alignment.spec_is_nan(),
    ensures
        stored_alignment(alignment).spec_le(Scalar { bits: 0 }),
        alignment.value() != 0 ==> stored_alignment(alignment).spec_lt(Scalar { bits: 0 }),
{
}

impl<'a> HitRecord<'a> {
    /// The record with the given parts.
    pub fn new(point: Point, normal: Vec3, t: Scalar, front_face: bool, material: &'a Material) -> (r:
        Self)
        ensures
            r.point == point,
            r.normal == normal,
            r.t == t,
            r.front_face == front_face,
            r.material == material,
    {
        HitRecord { point, normal, t, front_face, material }
    }

    /// The record of a hit at `point` with ray parameter `t`, where `outward_normal` is
    /// the unit normal that points away from the surface and `alignment` is the dot
    /// product of the ray's direction with it. A ray that runs against the outward
    /// normal strikes the front face, and the outward normal is stored; any other ray
    /// strikes from inside, and the reversed normal is stored.
    pub fn facing(
        point: Point,
        outward_normal: Vec3,
        t: Scalar,
        alignment: Scalar,
        material: &'a Material,
    ) -> (r: Self)
        ensures
            r.point == point,
            r.t == t,
            r.material == material,
            r.front_face == alignment.spec_lt(Scalar { bits: 0 }),
            r.normal == if r.front_face {
                outward_normal
            } else {
                outward_normal.negated()
            },
    {
        let front_face = alignment.lt(Scalar::zero());
        let normal = if front_face {
            outward_normal
        } else {
            outward_normal.neg()
        };
        HitRecord { point, normal, t, front_face, material }
    }
}

} // verus!
