//! Ranges of scalars, used as windows on the ray parameter and as clamps on colour.
use crate::scalar::{lemma_magnitude_order, lemma_zero_magnitude, Scalar, INFINITE, SIGN};
use vstd::prelude::*;

verus! {

/// A range from `min` to `max`. Nothing requires `min <= max`: a range whose bounds are
/// the other way round simply holds no number.
#[derive(Clone, Copy, Debug)]
pub struct Interval {
    pub min: Scalar,
    pub max: Scalar,
}

impl Interval {
    /// Whether `min <= value <= max`.
    pub open spec fn spec_contains(self, value: Scalar) -> bool {
        self.min.spec_le(value) && value.spec_le(self.max)
    }

    /// Whether `min < value < max`.
    pub open spec fn spec_surrounds(self, value: Scalar) -> bool {
        self.min.spec_lt(value) && value.spec_lt(self.max)
    }

    /// `min` for a value below `min`, `max` for one above `max`, the value itself
    /// otherwise (so also for what is not a number).
    pub open spec fn spec_clamp(self, value: Scalar) -> Scalar {
        if value.spec_lt(self.min) {
            self.min
        } else if self.max.spec_lt(value) {
            self.max
        } else {
            value
        }
    }

    /// The range from `min` to `max`.
    pub fn new(min: Scalar, max: Scalar) -> (r: Interval)
        ensures
            r.min == min,
            r.max == max,
    {
        Interval { min, max }
    }

    /// The range from positive infinity down to negative infinity, which holds nothing.
    pub fn empty() -> (r: Interval)
        ensures
            r.min.bits == INFINITE,
            r.max.bits == SIGN + INFINITE,
            forall|value: Scalar| !r.spec_contains(value),
    {
        let r = Interval { min: Scalar::infinity(), max: Scalar::neg_infinity() };
        proof {
            assert forall|value: Scalar| !r.spec_contains(value) by {
                lemma_magnitude_order(r.min, value);
                lemma_magnitude_order(r.max, value);
                lemma_zero_magnitude(r.min);
            }
        }
        r
    }

    /// The range from negative infinity to positive infinity, which holds every number.
    pub fn universe() -> (r: Interval)
        ensures
            r.min.bits == SIGN + INFINITE,
            r.max.bits == INFINITE,
            forall|value: Scalar| r.spec_contains(value) <==> !value.spec_is_nan(),
            forall|value: Scalar| r.spec_surrounds(value) <==> value.is_finite(),
    {
        let r = Interval { min: Scalar::neg_infinity(), max: Scalar::infinity() };
        proof {
            assert forall|value: Scalar|
                (r.spec_contains(value) <==> !value.spec_is_nan()) && (r.spec_surrounds(value)
                    <==> value.is_finite()) by {
                lemma_magnitude_order(r.min, value);
                lemma_magnitude_order(r.max, value);
            }
        }
        r
    }

    /// Whether the value lies in the range, bounds included.
    #[verifier::when_used_as_spec(spec_contains)]
    pub fn contains(self, value: Scalar) -> (r: bool)
        ensures
            r == self.spec_contains(value),
    {
        self.min.le(value) && value.le(self.max)
    }

    /// Whether the value lies strictly inside the range.
    #[verifier::when_used_as_spec(spec_surrounds)]
    pub fn surrounds(self, value: Scalar) -> (r: bool)
        ensures
            r == self.spec_surrounds(value),
    {
        self.min.lt(value) && value.lt(self.max)
    }

    /// The value, moved to the nearer bound if it lies outside the range.
    #[verifier::when_used_as_spec(spec_clamp)]
    pub fn clamp(self, value: Scalar) -> (r: Scalar)
        ensures
            r == self.spec_clamp(value),
    {
        if value.lt(self.min) {
            return self.min;
        }
        if self.max.lt(value) {
            return self.max;
        }
        value
    }
}

/// Clamping a number into a range whose bounds are in order gives a number of the
/// range, and leaves a number of the range as it is.
pub proof fn lemma_clamp_contained(range: Interval, value: Scalar)
    requires
        range.min.spec_le(range.max),
        !value.spec_is_nan(),
    ensures
        range.spec_contains(range.spec_clamp(value)),
        range.spec_contains(value) ==> range.spec_clamp(value) == value,
{
}

/// What a range surrounds it also contains.
pub proof fn lemma_surrounds_contains(range: Interval, value: Scalar)
    requires
        range.spec_surrounds(value),
    ensures
        range.spec_contains(value),
{
}

} // verus!
