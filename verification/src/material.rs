//! Surface materials and the rays they scatter.
use crate::hit_record::HitRecord;
use crate::interval::Interval;
use crate::ray::Ray;
use crate::scalar::{lemma_one, Scalar, ONE};
use crate::vec3::{Color, Vec3};
use vstd::prelude::*;

verus! {

/// An ideal diffuse surface, which reflects the share `albedo` of the light in every
/// direction.
#[derive(Clone, Copy, Debug)]
pub struct Lambertian {
    pub albedo: Color,
}

/// A mirror-like surface that reflects the share `albedo` of the light, blurred by
/// `fuzz`.
#[derive(Clone, Copy, Debug)]
pub struct Metal {
    pub albedo: Color,
    pub fuzz: Scalar,
}

/// The materials a surface can have.
#[derive(Clone, Copy, Debug)]
pub enum Material {
    Lambertian(Lambertian),
    Metal(Metal),
}

/// The range of meaningful blur: from zero to one.
pub open spec fn unit_range() -> Interval {
    Interval { min: Scalar { bits: 0 }, max: Scalar { bits: ONE } }
}

/// The direction in which a diffuse surface scatters, given the candidate direction
/// (the normal plus a random unit vector): the candidate, unless it has all but
/// vanished, in which case the normal itself.
pub open spec fn diffuse_direction(normal: Vec3, candidate: Vec3) -> Vec3 {
    if candidate.spec_is_near_zero() {
        normal
    } else {
        candidate
    }
}

impl Lambertian {
    /// The diffuse material of the given albedo.
    pub fn new(albedo: Color) -> (r: Lambertian)
        ensures
            r.albedo == albedo,
    {
        Lambertian { albedo }
    }

    /// The ray scattered at a hit and its attenuation. `candidate` is the sum of the
    /// hit normal and a random unit vector; where that sum has all but vanished the
    /// ray leaves along the normal instead.
    pub fn scatter(&self, hit: &HitRecord, candidate: Vec3) -> (r: (Ray, Color))
        ensures
            r.0.origin == hit.point,
            r.0.direction == diffuse_direction(hit.normal, candidate),
            r.1 == self.albedo,
    {
        let direction = if candidate.is_near_zero() {
            hit.normal
        } else {
            candidate
        };
        (Ray::new(hit.point, direction), self.albedo)
    }
}

impl Metal {
    /// Whether the blur is a number between zero and one, or not a number at all.
    pub open spec fn wf(&self) -> bool {
        self.fuzz.spec_is_nan() || unit_range().spec_contains(self.fuzz)
    }

    /// The metal of the given albedo, with `fuzz` clamped into the range from zero to
    /// one.
    pub fn new(albedo: Color, fuzz: Scalar) -> (r: Metal)
        ensures
            r.albedo == albedo,
            r.fuzz == unit_range().spec_clamp(fuzz),
            r.wf(),
    {
        proof {
            lemma_one();
        }
        let fuzz_norm = Interval::new(Scalar::zero(), Scalar::one()).clamp(fuzz);
        Metal { albedo, fuzz: fuzz_norm }
    }

    /// The ray scattered at a hit and its attenuation. `direction` is the unit
    /// reflection of the incident direction, moved by the blur times a random unit
    /// vector.
    pub fn scatter(&self, hit: &HitRecord, direction: Vec3) -> (r: (Ray, Color))
        ensures
            r.0.origin == hit.point,
            r.0.direction == direction,
            r.1 == self.albedo,
    {
        (Ray::new(hit.point, direction), self.albedo)
    }
}

impl Material {
    /// What the material makes of a direction offered to it at a hit.
    pub open spec fn scattered(&self, hit: HitRecord, direction: Vec3) -> (Ray, Color) {
        match *self {
            Material::Lambertian(m) => (
                Ray { origin: hit.point, direction: diffuse_direction(hit.normal, direction) },
                m.albedo,
            ),
            Material::Metal(m) => (Ray { origin: hit.point, direction }, m.albedo),
        }
    }

    /// The ray scattered at a hit and its attenuation, or `None` where the material
    /// takes the ray up. Neither material does: the result is always a ray.
    pub fn scatter(&self, hit: &HitRecord, direction: Vec3) -> (r: Option<(Ray, Color)>)
        ensures
            r == Some(self.scattered(*hit, direction)),
    {
        match self {
            Material::Lambertian(m) => Some(m.scatter(hit, direction)),
            Material::Metal(m) => Some(m.scatter(hit, direction)),
        }
    }
}

} // verus!
