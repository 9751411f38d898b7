//! Double-precision numbers as bit patterns.
//!
//! A [`Scalar`] carries the sixty-four bits of an IEEE 754 binary64 number: one sign bit,
//! eleven exponent bits and fifty-two fraction bits. Nothing here performs rounding
//! arithmetic; the module decodes a pattern into the exact number it denotes and decides
//! order, equality and sign from the bits alone.
use vstd::arithmetic::power2::*;
use vstd::prelude::*;

verus! {

/// The sign bit, two to the sixty-third.
pub const SIGN: u64 = 0x8000_0000_0000_0000;

/// The weight of the implicit leading bit of a normal number, two to the fifty-second.
pub const HIDDEN: u64 = 0x0010_0000_0000_0000;

/// The pattern of positive infinity: every exponent bit set, no fraction bit set.
pub const INFINITE: u64 = 0x7FF0_0000_0000_0000;

/// The pattern of the number one.
pub const ONE: u64 = 0x3FF0_0000_0000_0000;

/// The number of binary places below the unit in which every finite pattern is a whole
/// number: the smallest positive pattern denotes two to the minus 1074.
pub open spec fn places() -> nat {
    1074
}

/// A double-precision number, held as its bit pattern.
#[derive(Clone, Copy, Debug)]
pub struct Scalar {
    pub bits: u64,
}

impl Scalar {
    /// Whether the sign bit is set.
    pub open spec fn negative(self) -> bool {
        self.bits >= SIGN
    }

    /// The pattern without its sign bit.
    pub open spec fn body(self) -> nat {
        (self.bits % SIGN) as nat
    }

    /// The biased exponent field, from 0 to 2047.
    pub open spec fn exponent(self) -> nat {
        self.body() / (HIDDEN as nat)
    }

    /// The fraction field, below two to the fifty-second.
    pub open spec fn fraction(self) -> nat {
        self.body() % (HIDDEN as nat)
    }

    /// Whether the pattern is not a number: exponent field full, fraction not zero.
    pub open spec fn spec_is_nan(self) -> bool {
        self.body() > INFINITE
    }

    /// Whether the pattern is one of the two infinities.
    pub open spec fn is_infinite(self) -> bool {
        self.body() == INFINITE
    }

    /// Whether the pattern denotes a finite number.
    pub open spec fn is_finite(self) -> bool {
        self.body() < INFINITE
    }

    /// The absolute value denoted, counted in units of two to the minus 1074.
    ///
    /// A subnormal pattern counts its fraction; a normal one counts its fraction with
    /// the implicit bit, doubled once for each step of the exponent above one. An
    /// infinity gets the count that the same rule gives it, two to the 2098, which
    /// lies above every finite count. For a pattern that is not a number the count
    /// has no meaning.
    pub open spec fn magnitude(self) -> nat {
        if self.exponent() == 0 {
            self.fraction()
        } else {
            (HIDDEN as nat + self.fraction()) * pow2((self.exponent() - 1) as nat)
        }
    }

    /// The fraction, with the implicit bit where the pattern has one. The magnitude is
    /// this number doubled `shift` times.
    pub open spec fn whole(self) -> nat {
        if self.exponent() == 0 {
            self.fraction()
        } else {
            HIDDEN as nat + self.fraction()
        }
    }

    /// The number of doublings that take `whole` to the magnitude.
    pub open spec fn shift(self) -> nat {
        if self.exponent() == 0 {
            0
        } else {
            (self.exponent() - 1) as nat
        }
    }

    /// The number denoted, counted in units of two to the minus 1074.
    pub open spec fn value(self) -> int {
        if self.negative() {
            -(self.magnitude() as int)
        } else {
            self.magnitude() as int
        }
    }

    /// Numeric `<`: false whenever either side is not a number.
    pub open spec fn spec_lt(self, other: Scalar) -> bool {
        !self.spec_is_nan() && !other.spec_is_nan() && self.value() < other.value()
    }

    /// Numeric `<=`: false whenever either side is not a number.
    pub open spec fn spec_le(self, other: Scalar) -> bool {
        !self.spec_is_nan() && !other.spec_is_nan() && self.value() <= other.value()
    }

    /// Numeric `==`: false whenever either side is not a number; the two zeros are equal.
    pub open spec fn spec_same(self, other: Scalar) -> bool {
        !self.spec_is_nan() && !other.spec_is_nan() && self.value() == other.value()
    }

    /// The pattern with its sign bit flipped.
    pub open spec fn spec_neg(self) -> Scalar {
        if self.bits >= SIGN {
            Scalar { bits: (self.bits - SIGN) as u64 }
        } else {
            Scalar { bits: (self.bits + SIGN) as u64 }
        }
    }

    /// The pattern with its sign bit cleared.
    pub open spec fn spec_abs(self) -> Scalar {
        Scalar { bits: (self.bits % SIGN) as u64 }
    }

    /// The number with the given bit pattern.
    pub fn from_bits(bits: u64) -> (r: Scalar)
        ensures
            r.bits == bits,
    {
        Scalar { bits }
    }

    /// The bit pattern of the number.
    pub fn to_bits(self) -> (r: u64)
        ensures
            r == self.bits,
    {
        self.bits
    }

    /// Positive zero.
    pub fn zero() -> (r: Scalar)
        ensures
            r.bits == 0,
            r.value() == 0,
            !r.spec_is_nan(),
    {
        Scalar { bits: 0 }
    }

    /// The number one.
    pub fn one() -> (r: Scalar)
        ensures
            r.bits == ONE,
            r.value() == pow2(places()),
            !r.spec_is_nan(),
    {
        proof {
            lemma_one();
        }
        Scalar { bits: ONE }
    }

    /// Positive infinity.
    pub fn infinity() -> (r: Scalar)
        ensures
            r.bits == INFINITE,
            r.is_infinite(),
            !r.negative(),
    {
        Scalar { bits: INFINITE }
    }

    /// Negative infinity.
    pub fn neg_infinity() -> (r: Scalar)
        ensures
            r.bits == SIGN + INFINITE,
            r.is_infinite(),
            r.negative(),
    {
        Scalar { bits: SIGN + INFINITE }
    }

    /// The two parts of the magnitude: `whole` and `shift`.
    pub fn parts(self) -> (r: (u64, u64))
        ensures
            r.0 == self.whole(),
            r.1 == self.shift(),
            r.0 < 2 * HIDDEN,
            r.1 <= 2046,
            self.magnitude() == r.0 * pow2(r.1 as nat),
            r.1 > 0 ==> r.0 >= HIDDEN,
    {
        proof {
            lemma_magnitude_parts(self);
        }
        let body: u64 = self.bits % SIGN;
        let e: u64 = body / HIDDEN;
        let f: u64 = body % HIDDEN;
        if e == 0 {
            (f, 0)
        } else {
            (HIDDEN + f, e - 1)
        }
    }

    /// Whether the pattern is not a number.
    #[verifier::when_used_as_spec(spec_is_nan)]
    pub fn is_nan(self) -> (r: bool)
        ensures
            r == self.spec_is_nan(),
    {
        self.bits % SIGN > INFINITE
    }

    /// Whether the sign bit is set.
    pub fn is_sign_negative(self) -> (r: bool)
        ensures
            r == self.negative(),
    {
        self.bits >= SIGN
    }

    /// Numeric `<`, as the hardware decides it: false whenever either side is not a
    /// number, and negative zero is not below positive zero.
    #[verifier::when_used_as_spec(spec_lt)]
    pub fn lt(self, other: Scalar) -> (r: bool)
        ensures
            r == self.spec_lt(other),
    {
        proof {
            lemma_magnitude_order(self, other);
            lemma_zero_magnitude(self);
            lemma_zero_magnitude(other);
        }
        if self.is_nan() || other.is_nan() {
            return false;
        }
        let a: u64 = self.bits % SIGN;
        let b: u64 = other.bits % SIGN;
        if self.bits >= SIGN {
            if other.bits >= SIGN {
                b < a
            } else {
                a != 0 || b != 0
            }
        } else {
            if other.bits >= SIGN {
                false
            } else {
                a < b
            }
        }
    }

    /// Numeric `<=`: false whenever either side is not a number.
    #[verifier::when_used_as_spec(spec_le)]
    pub fn le(self, other: Scalar) -> (r: bool)
        ensures
            r == self.spec_le(other),
    {
        proof {
            lemma_magnitude_order(self, other);
            lemma_zero_magnitude(self);
            lemma_zero_magnitude(other);
        }
        if self.is_nan() || other.is_nan() {
            return false;
        }
        let a: u64 = self.bits % SIGN;
        let b: u64 = other.bits % SIGN;
        if self.bits >= SIGN {
            if other.bits >= SIGN {
                b <= a
            } else {
                true
            }
        } else {
            if other.bits >= SIGN {
                a == 0 && b == 0
            } else {
                a <= b
            }
        }
    }

    /// Numeric `==`: false whenever either side is not a number; the two zeros are
    /// equal.
    #[verifier::when_used_as_spec(spec_same)]
    pub fn same(self, other: Scalar) -> (r: bool)
        ensures
            r == self.spec_same(other),
    {
        proof {
            lemma_magnitude_order(self, other);
            lemma_zero_magnitude(self);
            lemma_zero_magnitude(other);
        }
        if self.is_nan() || other.is_nan() {
            return false;
        }
        let a: u64 = self.bits % SIGN;
        let b: u64 = other.bits % SIGN;
        if (self.bits >= SIGN) == (other.bits >= SIGN) {
            a == b
        } else {
            a == 0 && b == 0
        }
    }

    /// The number with its sign reversed. What is not a number stays so.
    #[verifier::when_used_as_spec(spec_neg)]
    pub fn neg(self) -> (r: Scalar)
        ensures
            r == self.spec_neg(),
            r.value() == -self.value(),
            r.spec_is_nan() == self.spec_is_nan(),
    {
        if self.bits >= SIGN {
            Scalar { bits: self.bits - SIGN }
        } else {
            Scalar { bits: self.bits + SIGN }
        }
    }

    /// The absolute value. What is not a number stays so.
    #[verifier::when_used_as_spec(spec_abs)]
    pub fn abs(self) -> (r: Scalar)
        ensures
            r == self.spec_abs(),
            r.value() == self.magnitude(),
            r.spec_is_nan() == self.spec_is_nan(),
    {
        Scalar { bits: self.bits % SIGN }
    }
}

/// Among patterns that share a sign, the one with the smaller body denotes the
/// smaller magnitude.
pub proof fn lemma_body_orders_magnitude(a: Scalar, b: Scalar)
    requires
        a.body() < b.body(),
    ensures
        a.magnitude() < b.magnitude(),
{
    let ea = a.exponent();
    let eb = b.exponent();
    let fa = a.fraction();
    let fb = b.fraction();
    let h = HIDDEN as nat;
    assert(a.body() == ea * h + fa && fa < h);
    assert(b.body() == eb * h + fb && fb < h);
    assert(ea <= eb);
    if ea == eb {
        assert(fa < fb);
        if ea != 0 {
            let p = pow2((ea - 1) as nat);
            lemma_pow2_pos((ea - 1) as nat);
            assert((h + fa) * p < (h + fb) * p) by (nonlinear_arith)
                requires
                    fa < fb,
                    p > 0,
            ;
        }
    } else {
        let q = pow2((eb - 1) as nat);
        lemma_pow2_pos((eb - 1) as nat);
        assert(h * q <= (h + fb) * q) by (nonlinear_arith)
            requires
                q > 0,
        ;
        if ea == 0 {
            assert(h * 1 <= h * q) by (nonlinear_arith)
                requires
                    q >= 1,
            ;
        } else {
            let p = pow2((ea - 1) as nat);
            lemma_pow2_pos((ea - 1) as nat);
            lemma_pow2_unfold(ea);
            if ea < eb - 1 {
                lemma_pow2_strictly_increases(ea, (eb - 1) as nat);
            }
            assert(pow2(ea) <= q);
            assert((h + fa) * p < h * (2 * p)) by (nonlinear_arith)
                requires
                    fa < h,
                    p > 0,
            ;
            assert(h * pow2(ea) <= h * q) by (nonlinear_arith)
                requires
                    pow2(ea) <= q,
            ;
        }
    }
}

/// Two patterns denote the same magnitude exactly when their bodies agree, and the
/// order of the bodies is the order of the magnitudes.
pub proof fn lemma_magnitude_order(a: Scalar, b: Scalar)
    ensures
        a.body() < b.body() <==> a.magnitude() < b.magnitude(),
        a.body() == b.body() <==> a.magnitude() == b.magnitude(),
{
    if a.body() < b.body() {
        lemma_body_orders_magnitude(a, b);
    } else if b.body() < a.body() {
        lemma_body_orders_magnitude(b, a);
    }
}

/// Only the two zero patterns denote zero.
pub proof fn lemma_zero_magnitude(a: Scalar)
    ensures
        a.magnitude() == 0 <==> a.body() == 0,
{
    lemma_magnitude_order(a, Scalar { bits: 0 });
}

/// The magnitude is `whole` doubled `shift` times.
pub proof fn lemma_magnitude_parts(a: Scalar)
    ensures
        a.magnitude() == a.whole() * pow2(a.shift()),
        a.whole() < 2 * HIDDEN,
        a.shift() <= 2046,
        a.shift() > 0 ==> a.whole() >= HIDDEN,
{
    lemma2_to64();
    if a.exponent() == 0 {
        assert(a.fraction() * 1 == a.fraction());
    }
}

/// The pattern `ONE` denotes the number one: 2^1074 units of 2^-1074.
pub proof fn lemma_one()
    ensures
        (Scalar { bits: ONE }).value() == pow2(places()),
        !(Scalar { bits: ONE }).spec_is_nan(),
{
    let one = Scalar { bits: ONE };
    assert(one.exponent() == 1023);
    assert(one.fraction() == 0);
    lemma_pow2_adds(52, 1022);
    lemma2_to64_rest();
}

/// Whether a positive normal pattern denotes the double nearest to the fraction
/// `num / den`: the fraction lies no more than half a step of the last fraction bit away
/// from the number denoted.
pub open spec fn nearest_to(s: Scalar, num: int, den: int) -> bool {
    let step = pow2((s.exponent() - 1) as nat) as int;
    let gap = 2 * (s.value() * den - num * pow2(places()));
    &&& !s.negative()
    &&& 1 <= s.exponent() <= 2046
    &&& -(den * step) <= gap <= den * step
}

/// The comparison that `nearest_to` asks for, brought down to machine-sized numbers: for
/// a pattern below two with fraction and implicit bit `whole`, it is enough that
/// `whole * den` lies within half of `den` of `num * 2^(1075 - exponent)`.
pub proof fn lemma_nearest_reduced(s: Scalar, num: int, den: int)
    requires
        !s.negative(),
        1 <= s.exponent() <= 1023,
        den > 0,
        ({
            let whole = HIDDEN + s.fraction();
            let scale = pow2((1075 - s.exponent()) as nat);
            -den <= 2 * (whole * den - num * scale) <= den
        }),
    ensures
        nearest_to(s, num, den),
{
    let e = s.exponent();
    let whole = (HIDDEN + s.fraction()) as int;
    let step = pow2((e - 1) as nat) as int;
    let scale = pow2((1075 - e) as nat) as int;
    let unit = pow2(places()) as int;
    lemma_pow2_adds((e - 1) as nat, (1075 - e) as nat);
    lemma_pow2_pos((e - 1) as nat);
    let inner = 2 * (whole * den - num * scale);
    assert(2 * (s.value() * den - num * unit) == inner * step) by (nonlinear_arith)
        requires
            s.value() == whole * step,
            unit == step * scale,
            inner == 2 * (whole * den - num * scale),
    ;
    assert(-(den * step) <= inner * step <= den * step) by (nonlinear_arith)
        requires
            -den <= inner <= den,
            step > 0,
    ;
}

/// Two to the `e`.
pub fn power_of_two(e: u64) -> (r: u128)
    requires
        e <= 127,
    ensures
        r == pow2(e as nat),
{
    let mut r: u128 = 1;
    let mut i: u64 = 0;
    proof {
        lemma2_to64();
        lemma2_to64_rest();
        lemma_pow2_adds(64, 63);
    }
    while i < e
        invariant
            i <= e <= 127,
            r == pow2(i as nat),
            pow2(127) == 0x8000_0000_0000_0000_0000_0000_0000_0000,
        decreases e - i,
    {
        proof {
            lemma_pow2_unfold((i + 1) as nat);
            if i + 1 < 127 {
                lemma_pow2_strictly_increases((i + 1) as nat, 127);
            }
        }
        r = r * 2;
        i = i + 1;
    }
    r
}

} // verus!
