//! Spheres.
use crate::hit_record::HitRecord;
use crate::interval::Interval;
use crate::material::Material;
use crate::scalar::Scalar;
use crate::vec3::{Point, Vec3};
use vstd::prelude::*;

verus! {

/// A sphere about `centre`, of a radius that is taken to be positive, with the material
/// of its surface. Several spheres may share one material.
#[derive(Clone, Copy, Debug)]
pub struct Sphere<'a> {
    pub centre: Point,
    pub radius: Scalar,
    pub material: &'a Material,
}

impl<'a> Sphere<'a> {
    /// What a ray makes of the sphere once the arithmetic is done: a record if the ray
    /// parameter lies strictly inside the window, nothing otherwise.
    pub open spec fn struck(
        &self,
        ray_t: Interval,
        t: Scalar,
        point: Point,
        outward_normal: Vec3,
        alignment: Scalar,
    ) -> Option<HitRecord<'a>> {
        if ray_t.spec_surrounds(t) {
            let front_face = alignment.spec_lt(Scalar { bits: 0 });
            Some(
                HitRecord {
                    point,
                    normal: if front_face {
                        outward_normal
                    } else {
                        outward_normal.negated()
                    },
                    t,
                    front_face,
                    material: self.material,
                },
            )
        } else {
            None
        }
    }

    /// The sphere with the given parts.
    pub fn new(centre: Point, radius: Scalar, material: &'a Material) -> (r: Self)
        ensures
            r.centre == centre,
            r.radius == radius,
            r.material == material,
    {
        Sphere { centre, radius, material }
    }

    /// Whether a ray meets the sphere at all, given the discriminant of the quadratic
    /// in the ray parameter: it does unless the discriminant is below zero.
    pub fn has_root(discriminant: Scalar) -> (r: bool)
        ensures
            r == !discriminant.spec_lt(Scalar { bits: 0 }),
    {
        !discriminant.lt(Scalar::zero())
    }

    /// The record of a ray striking the sphere, if it does so inside the window.
    ///
    /// The caller has solved for the nearer point at which the ray meets the sphere:
    /// `t` is the ray parameter there, `point` the point itself, `outward_normal` the
    /// unit normal there that points away from the centre, and `alignment` the dot
    /// product of the ray's direction with that normal. The hit counts only if `t` lies
    /// strictly inside `ray_t`; the farther point is never looked at. The normal is
    /// stored so that it opposes the ray, and `front_face` tells whether the ray came
    /// from outside.
    pub fn hit(
        &self,
        ray_t: Interval,
        t: Scalar,
        point: Point,
        outward_normal: Vec3,
        alignment: Scalar,
    ) -> (r: Option<HitRecord<'a>>)
        ensures
            r == self.struck(ray_t, t, point, outward_normal, alignment),
    {
        if !ray_t.surrounds(t) {
            return None;
        }
        Some(HitRecord::facing(point, outward_normal, t, alignment, self.material))
    }
}

} // verus!
