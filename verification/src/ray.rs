//! Rays, and the policy by which the colour of a ray is settled.
use crate::interval::Interval;
use crate::scalar::{lemma_nearest_reduced, nearest_to, Scalar, INFINITE};
use crate::vec3::{Color, Point, Vec3};
use vstd::arithmetic::power2::*;
use vstd::prelude::*;

verus! {

/// The pattern of the double nearest to 0.001: hits nearer to a ray's origin than this
/// are ignored, so that a scattered ray does not strike the surface it leaves.
pub const NEAREST: u64 = 0x3F50_624D_D2F1_A9FC;

/// The pattern `NEAREST` denotes the double nearest to one thousandth.
pub proof fn lemma_nearest()
    ensures
        nearest_to(Scalar { bits: NEAREST }, 1, 1000),
{
    let s = Scalar { bits: NEAREST };
    assert(s.exponent() == 1013);
    assert(s.fraction() == 0x624D_D2F1_A9FC);
    lemma2_to64_rest();
    lemma_nearest_reduced(s, 1, 1000);
}

/// A half-line: the points `origin + t * direction`. The direction need not have unit
/// length.
#[derive(Clone, Copy, Debug)]
pub struct Ray {
    pub origin: Point,
    pub direction: Vec3,
}

/// What a scene does with a ray.
#[derive(Clone, Copy, Debug, PartialEq, Eq, Structural)]
pub enum Encounter {
    /// The ray strikes nothing inside the window.
    Miss,
    /// The ray strikes a surface whose material takes it up.
    Absorbed,
    /// The ray strikes a surface whose material sends a ray on.
    Scattered,
}

/// How the colour of a ray is obtained.
#[derive(Clone, Copy, Debug)]
pub enum Shade {
    /// The colour is the given one.
    Constant(Color),
    /// The colour is that of the background in the ray's direction.
    Background,
    /// The colour is that of the scattered ray, evaluated with `max_reflections`,
    /// times the attenuation of the material, component by component.
    Attenuated { max_reflections: i32 },
}

/// The colour that carries no light.
pub open spec fn black() -> Color {
    Vec3::origin()
}

/// The rule by which the colour of a ray is obtained when `max_reflections` further
/// reflections are allowed: none allowed gives black, whatever the scene; a miss gives
/// the background; an absorbed ray gives black; a scattered ray passes the question on
/// with one reflection fewer.
pub open spec fn shade_of(max_reflections: int, encounter: Encounter) -> Shade {
    if max_reflections <= 0 {
        Shade::Constant(black())
    } else {
        match encounter {
            Encounter::Miss => Shade::Background,
            Encounter::Absorbed => Shade::Constant(black()),
            Encounter::Scattered => Shade::Attenuated {
                max_reflections: (max_reflections - 1) as i32,
            },
        }
    }
}

/// The number of reflections that contribute to the colour of a ray when the scene
/// answers the successive rays of its path with `encounters`.
pub open spec fn reflections(max_reflections: int, encounters: Seq<Encounter>) -> nat
    decreases encounters.len(),
{
    if max_reflections <= 0 || encounters.len() == 0 {
        0
    } else if encounters[0] == Encounter::Scattered {
        1 + reflections(max_reflections - 1, encounters.skip(1))
    } else {
        0
    }
}

/// No path reflects more often than the budget it starts with allows, however the
/// scene answers.
pub proof fn lemma_reflections_bounded(max_reflections: int, encounters: Seq<Encounter>)
    ensures
        reflections(max_reflections, encounters) <= if max_reflections <= 0 {
            0
        } else {
            max_reflections
        },
    decreases encounters.len(),
{
    if max_reflections > 0 && encounters.len() > 0 && encounters[0] == Encounter::Scattered {
        lemma_reflections_bounded(max_reflections - 1, encounters.skip(1));
    }
}

impl Ray {
    /// The ray from `origin` along `direction`.
    pub fn new(origin: Point, direction: Vec3) -> (r: Ray)
        ensures
            r.origin == origin,
            r.direction == direction,
    {
        Ray { origin, direction }
    }

    /// The window of ray parameters in which a hit counts: strictly between `NEAREST`
    /// and positive infinity.
    pub fn window() -> (r: Interval)
        ensures
            r.min.bits == NEAREST,
            r.max.bits == INFINITE,
    {
        Interval::new(Scalar::from_bits(NEAREST), Scalar::infinity())
    }

    /// Whether no further reflection is allowed, so that the ray is black without
    /// being traced.
    pub fn spent(max_reflections: i32) -> (r: bool)
        ensures
            r == (max_reflections <= 0),
            r ==> forall|encounter: Encounter|
                shade_of(max_reflections as int, encounter) == Shade::Constant(black()),
    {
        max_reflections <= 0
    }

    /// How the colour of a ray is obtained, given what the scene does with it.
    pub fn color(max_reflections: i32, encounter: Encounter) -> (r: Shade)
        ensures
            r == shade_of(max_reflections as int, encounter),
            max_reflections <= 0 ==> r == Shade::Constant(black()),
    {
        if max_reflections <= 0 {
            return Shade::Constant(Vec3::default());
        }
        match encounter {
            Encounter::Miss => Shade::Background,
            Encounter::Absorbed => Shade::Constant(Vec3::default()),
            Encounter::Scattered => Shade::Attenuated { max_reflections: max_reflections - 1 },
        }
    }
}

} // verus!
