//! Encoding of linear colour into the bytes and the text of an image file.
use crate::interval::Interval;
use crate::scalar::{
    lemma_magnitude_order, lemma_magnitude_parts, lemma_nearest_reduced, nearest_to, places,
    power_of_two, Scalar, HIDDEN,
};
use crate::text::{decimal, push_decimal};
use crate::vec3::Color;
use vstd::arithmetic::div_mod::{
    lemma_basic_div, lemma_div_is_ordered, lemma_div_multiples_vanish_quotient,
    lemma_div_pos_is_pos,
};
use vstd::arithmetic::power2::*;
use vstd::prelude::*;
use vstd::string::*;

verus! {

/// The pattern of the double nearest to 0.999, the brightest intensity that is encoded
/// as it stands.
pub const CEILING: u64 = 0x3FEF_F7CE_D916_872B;

/// The whole part of the ceiling, with the implicit bit.
pub const CEILING_WHOLE: u64 = 0x1F_F7CE_D916_872B;

/// The range of intensities that are encoded as they stand: from zero to `CEILING`.
pub open spec fn intensity() -> Interval {
    Interval { min: Scalar { bits: 0 }, max: Scalar { bits: CEILING } }
}

/// The whole part of 256 times a number that is not negative; zero for what is not a
/// number.
pub open spec fn whole_of_256(s: Scalar) -> int {
    if s.spec_is_nan() {
        0
    } else {
        (256 * s.value()) / (pow2(places()) as int)
    }
}

/// The byte that encodes one colour component: the component is clamped into
/// `intensity()`, multiplied by 256, and cut down to its whole part.
pub open spec fn channel_of(x: Scalar) -> int {
    whole_of_256(intensity().spec_clamp(x))
}

/// The line of text for one pixel: the three channel bytes in decimal, separated by
/// single spaces and ended by a line feed.
pub open spec fn pixel_line(pixel: Color) -> Seq<char> {
    decimal(channel_of(pixel.v[0]) as nat) + seq![' '] + decimal(channel_of(pixel.v[1]) as nat)
        + seq![' '] + decimal(channel_of(pixel.v[2]) as nat) + seq!['\n']
}

/// The byte that encodes the mean of `samples` colour components whose total is
/// `total`: the mean is clamped into `intensity()`, multiplied by 256, and cut down to
/// its whole part. The mean is the exact quotient; nothing is rounded before the cut.
pub open spec fn mean_channel_of(total: Scalar, samples: int) -> int {
    if total.spec_is_nan() {
        0
    } else {
        let top = samples * (Scalar { bits: CEILING }).value();
        let clamped = if total.value() < 0 {
            0
        } else if total.value() > top {
            top
        } else {
            total.value()
        };
        (256 * clamped) / (samples * pow2(places()))
    }
}

/// The line of text for one pixel whose `samples` sampled colours add up to `total`:
/// the three bytes of the mean in decimal, separated by single spaces and ended by a
/// line feed.
pub open spec fn mean_line(total: Color, samples: int) -> Seq<char> {
    decimal(mean_channel_of(total.v[0], samples) as nat) + seq![' '] + decimal(
        mean_channel_of(total.v[1], samples) as nat,
    ) + seq![' '] + decimal(mean_channel_of(total.v[2], samples) as nat) + seq!['\n']
}

/// The pattern `CEILING` denotes the double nearest to 999 thousandths.
pub proof fn lemma_ceiling()
    ensures
        nearest_to(Scalar { bits: CEILING }, 999, 1000),
{
    let s = Scalar { bits: CEILING };
    assert(s.exponent() == 1022);
    assert(s.fraction() == 0xF_F7CE_D916_872B);
    lemma2_to64_rest();
    lemma_nearest_reduced(s, 999, 1000);
}

/// For a number between zero and `CEILING`, the whole part of 256 times the number is
/// read off the pattern: it is zero below two to the minus eight, and otherwise the
/// leading bits of the fraction, with the implicit bit, that stand above the binary
/// point once the number is multiplied by 256.
pub proof fn lemma_whole_of_256(s: Scalar)
    requires
        s.bits <= CEILING,
    ensures
        s.exponent() <= 1022,
        s.exponent() < 1015 ==> whole_of_256(s) == 0,
        s.exponent() >= 1015 ==> whole_of_256(s) == (HIDDEN + s.fraction()) as int / (pow2(
            (1067 - s.exponent()) as nat,
        ) as int),
{
    let e = s.exponent();
    let f = s.fraction();
    let m = (HIDDEN + f) as int;
    let unit = pow2(places()) as int;
    assert(s.body() == s.bits);
    assert(!s.negative());
    lemma2_to64();
    lemma2_to64_rest();
    if e == 0 {
        lemma_pow2_strictly_increases(60, 1074);
        lemma_basic_div(256 * (f as int), unit);
    } else {
        let low = pow2((e - 1) as nat) as int;
        let shifted = pow2(e + 7) as int;
        lemma_pow2_adds(8, (e - 1) as nat);
        assert(256 * s.value() == shifted * m) by (nonlinear_arith)
            requires
                s.value() == m * low,
                shifted == 256 * low,
        ;
        lemma_pow2_pos(e + 7);
        if e < 1015 {
            lemma_pow2_adds(53, e + 7);
            if e + 60 < 1074 {
                lemma_pow2_strictly_increases(e + 60, 1074);
            }
            assert(shifted * m < pow2(53) * shifted) by (nonlinear_arith)
                requires
                    m < pow2(53),
                    shifted > 0,
            ;
            assert(0 <= shifted * m) by (nonlinear_arith)
                requires
                    m >= 0,
                    shifted > 0,
            ;
            lemma_basic_div(shifted * m, unit);
        } else {
            let rest = pow2((1067 - e) as nat) as int;
            lemma_pow2_adds(e + 7, (1067 - e) as nat);
            lemma_pow2_pos((1067 - e) as nat);
            lemma_div_multiples_vanish_quotient(shifted, m, rest);
        }
    }
}

/// Zero is encoded as 0 and the ceiling as 255.
pub proof fn lemma_channel_ends()
    ensures
        channel_of(Scalar { bits: 0 }) == 0,
        channel_of(Scalar { bits: CEILING }) == 255,
{
    let zero = Scalar { bits: 0 };
    let top = Scalar { bits: CEILING };
    lemma_whole_of_256(zero);
    lemma_whole_of_256(top);
    lemma_magnitude_order(zero, top);
    lemma2_to64_rest();
    assert(top.exponent() == 1022);
    assert(top.fraction() == 0xF_F7CE_D916_872B);
    assert(intensity().spec_clamp(top) == top);
    assert(0x1F_F7CE_D916_872Bint / 0x2000_0000_0000int == 255);
}

/// Every component is encoded as a byte, and of two numbers the greater is never
/// encoded as the smaller byte.
pub proof fn lemma_channel_range(x: Scalar, y: Scalar)
    ensures
        0 <= channel_of(x) <= 255,
        x.spec_le(y) ==> channel_of(x) <= channel_of(y),
{
    let unit = pow2(places()) as int;
    let top = Scalar { bits: CEILING };
    let cx = intensity().spec_clamp(x);
    let cy = intensity().spec_clamp(y);
    lemma_pow2_pos(places());
    lemma_channel_ends();
    if !cx.spec_is_nan() {
        assert(0 <= cx.value() <= top.value());
        lemma_div_pos_is_pos(256 * cx.value(), unit);
        lemma_div_is_ordered(256 * cx.value(), 256 * top.value(), unit);
    }
    if x.spec_le(y) {
        assert(cx.value() <= cy.value());
        lemma_div_is_ordered(256 * cx.value(), 256 * cy.value(), unit);
    }
}

/// The mean of one sample is the sample.
pub proof fn lemma_mean_of_one(x: Scalar)
    ensures
        mean_channel_of(x, 1) == channel_of(x),
{
    let top = Scalar { bits: CEILING };
    lemma_magnitude_order(Scalar { bits: 0 }, top);
    assert(1 * top.value() == top.value());
    assert(1 * pow2(places()) == pow2(places()));
}

/// The line of a single sample is the line of its colour.
pub proof fn lemma_line_of_one(pixel: Color)
    ensures
        mean_line(pixel, 1) == pixel_line(pixel),
{
    lemma_mean_of_one(pixel.v[0]);
    lemma_mean_of_one(pixel.v[1]);
    lemma_mean_of_one(pixel.v[2]);
}

/// A total with its sign bit set, be it below zero or negative zero, is encoded as 0.
pub proof fn lemma_negative_mean(total: Scalar, samples: int)
    requires
        !total.spec_is_nan(),
        total.negative(),
        samples >= 1,
    ensures
        mean_channel_of(total, samples) == 0,
{
    lemma_pow2_pos(places());
    lemma_magnitude_order(Scalar { bits: 0 }, Scalar { bits: CEILING });
    assert(0 <= samples * (Scalar { bits: CEILING }).value()) by (nonlinear_arith)
        requires
            samples >= 1,
            (Scalar { bits: CEILING }).value() >= 0,
    ;
    assert(samples * pow2(places()) > 0) by (nonlinear_arith)
        requires
            samples >= 1,
            pow2(places()) > 0,
    ;
}

/// The comparison and the division that `mean_channel_of` asks for, brought down to
/// machine-sized numbers, for a total that is a number and not negative.
pub proof fn lemma_mean_reduced(total: Scalar, samples: int)
    requires
        !total.spec_is_nan(),
        !total.negative(),
        1 <= samples <= i32::MAX,
    ensures
        ({
            let whole = total.whole() as int;
            let shift = total.shift();
            let top = samples * (Scalar { bits: CEILING }).value();
            let result = mean_channel_of(total, samples);
            &&& shift >= 1053 ==> total.value() > top
            &&& 1021 <= shift < 1053 ==> (total.value() > top <==> whole * pow2(
                (shift - 1021) as nat,
            ) > samples * CEILING_WHOLE)
            &&& shift < 1021 ==> total.value() <= top
            &&& total.value() > top ==> result == 255
            &&& total.value() <= top ==> {
                &&& shift <= 1052
                &&& 0 <= result <= 255
                &&& shift <= 1013 ==> result == 0
                &&& shift > 1013 ==> result == whole / (samples * pow2((1066 - shift) as nat))
            }
        }),
{
    let whole = total.whole() as int;
    let shift = total.shift();
    let ceiling = Scalar { bits: CEILING };
    let c = CEILING_WHOLE as int;
    let top = samples * ceiling.value();
    let unit = pow2(places()) as int;
    let base = pow2(1021) as int;
    let low = pow2(shift) as int;
    let v = total.value();
    lemma2_to64();
    lemma2_to64_rest();
    lemma_magnitude_parts(total);
    lemma_magnitude_parts(ceiling);
    lemma_pow2_pos(shift);
    lemma_pow2_pos(1021);
    lemma_pow2_pos(places());
    assert(ceiling.whole() == c && ceiling.shift() == 1021);
    assert(v == whole * low);
    assert(top == (samples * c) * base) by (nonlinear_arith)
        requires
            top == samples * (c * base),
    ;
    assert(0 < samples * c < 0x1_0000_0000_0000_0000_0000_0int) by (nonlinear_arith)
        requires
            1 <= samples < 0x8000_0000,
            c == 0x1F_F7CE_D916_872B,
    ;
    if shift >= 1021 {
        let up = pow2((shift - 1021) as nat) as int;
        lemma_pow2_adds(1021, (shift - 1021) as nat);
        lemma_pow2_pos((shift - 1021) as nat);
        assert(v == (whole * up) * base) by (nonlinear_arith)
            requires
                v == whole * low,
                low == base * up,
        ;
        assert(v > top <==> whole * up > samples * c) by (nonlinear_arith)
            requires
                v == (whole * up) * base,
                top == (samples * c) * base,
                base > 0,
        ;
        if shift >= 1053 {
            if shift > 1053 {
                lemma_pow2_strictly_increases(32, (shift - 1021) as nat);
            }
            assert(whole * up >= 0x1_0000_0000_0000_0000_0000_0int) by (nonlinear_arith)
                requires
                    whole >= 0x10_0000_0000_0000,
                    up >= 0x1_0000_0000,
            ;
        }
    } else {
        let half = pow2(1020) as int;
        lemma_pow2_unfold(1021);
        if shift < 1020 {
            lemma_pow2_strictly_increases(shift, 1020);
        }
        assert(whole * low <= (samples * c) * base) by (nonlinear_arith)
            requires
                0 <= whole < 0x20_0000_0000_0000,
                0 < low <= half,
                base == 2 * half,
                samples * c >= 0x10_0000_0000_0000,
        ;
    }
    // the ceiling itself is encoded as 255
    lemma_channel_ends();
    assert(intensity().spec_clamp(ceiling) == ceiling) by {
        lemma_magnitude_order(Scalar { bits: 0 }, ceiling);
    }
    assert((256 * ceiling.value()) / unit == 255);
    assert((256 * top) / (samples * unit) == 255) by {
        assert(256 * top == samples * (256 * ceiling.value())) by (nonlinear_arith)
            requires
                top == samples * ceiling.value(),
        ;
        lemma_div_multiples_vanish_quotient(samples, 256 * ceiling.value(), unit);
    }
    assert(samples * unit > 0) by (nonlinear_arith)
        requires
            samples >= 1,
            unit > 0,
    ;
    if v <= top {
        assert(0 <= 256 * v) by (nonlinear_arith)
            requires
                v == whole * low,
                whole >= 0,
                low > 0,
        ;
        lemma_div_pos_is_pos(256 * v, samples * unit);
        lemma_div_is_ordered(256 * v, 256 * top, samples * unit);
        assert(shift <= 1052);
        let rest = pow2((1066 - shift) as nat) as int;
        let shifted = pow2(shift + 8) as int;
        lemma_pow2_adds(8, shift);
        lemma_pow2_adds(shift + 8, (1066 - shift) as nat);
        lemma_pow2_pos(shift + 8);
        lemma_pow2_pos((1066 - shift) as nat);
        assert(256 * v == shifted * whole) by (nonlinear_arith)
            requires
                v == whole * low,
                shifted == 256 * low,
        ;
        assert(samples * unit == shifted * (samples * rest)) by (nonlinear_arith)
            requires
                unit == shifted * rest,
        ;
        assert(samples * rest > 0) by (nonlinear_arith)
            requires
                samples >= 1,
                rest > 0,
        ;
        lemma_div_multiples_vanish_quotient(shifted, whole, samples * rest);
        if shift <= 1013 {
            if 1066 - shift > 53 {
                lemma_pow2_strictly_increases(53, (1066 - shift) as nat);
            }
            assert(whole < samples * rest) by (nonlinear_arith)
                requires
                    whole < 0x20_0000_0000_0000,
                    rest >= 0x20_0000_0000_0000,
                    samples >= 1,
            ;
            lemma_basic_div(whole, samples * rest);
        }
    }
}

/// The mean of any number of samples is encoded as a byte.
pub proof fn lemma_mean_channel_range(total: Scalar, samples: int)
    requires
        1 <= samples <= i32::MAX,
    ensures
        0 <= mean_channel_of(total, samples) <= 255,
{
    if !total.spec_is_nan() {
        if total.negative() {
            lemma_negative_mean(total, samples);
        } else {
            lemma_mean_reduced(total, samples);
        }
    }
}

/// The byte that encodes the mean of `samples` colour components whose total is
/// `total`.
pub fn mean_channel(total: Scalar, samples: i32) -> (r: u8)
    requires
        samples >= 1,
    ensures
        r as int == mean_channel_of(total, samples as int),
{
    if total.is_nan() {
        return 0;
    }
    if total.is_sign_negative() {
        proof {
            lemma_negative_mean(total, samples as int);
        }
        return 0;
    }
    proof {
        lemma_mean_reduced(total, samples as int);
        lemma2_to64();
        lemma2_to64_rest();
    }
    let (whole, shift) = total.parts();
    let n: u128 = samples as u128;
    if shift >= 1053 {
        return 255;
    }
    if shift >= 1021 {
        let up = power_of_two(shift - 1021);
        proof {
            if shift - 1021 < 31 {
                lemma_pow2_strictly_increases((shift - 1021) as nat, 31);
            }
        }
        assert(whole * up <= 0x20_0000_0000_0000 * 0x8000_0000) by (nonlinear_arith)
            requires
                0 <= whole <= 0x20_0000_0000_0000,
                0 <= up <= 0x8000_0000,
        ;
        assert(n * CEILING_WHOLE <= 0x8000_0000 * 0x20_0000_0000_0000) by (nonlinear_arith)
            requires
                0 <= n <= 0x8000_0000,
                CEILING_WHOLE <= 0x20_0000_0000_0000,
        ;
        if whole as u128 * up > n * CEILING_WHOLE as u128 {
            return 255;
        }
    }
    if shift <= 1013 {
        return 0;
    }
    let rest = power_of_two(1066 - shift);
    proof {
        lemma_pow2_strictly_increases((1066 - shift) as nat, 53);
        lemma_pow2_pos((1066 - shift) as nat);
    }
    assert(0 < n * rest <= 0x8000_0000 * 0x20_0000_0000_0000) by (nonlinear_arith)
        requires
            1 <= n <= 0x8000_0000,
            0 < rest <= 0x20_0000_0000_0000,
    ;
    (whole as u128 / (n * rest)) as u8
}

/// The byte that encodes one colour component. No input leaves the range of a byte:
/// what lies above the ceiling is encoded as the ceiling, what lies below zero as
/// zero, and what is not a number as zero.
pub fn channel(x: Scalar) -> (r: u8)
    ensures
        r as int == channel_of(x),
{
    proof {
        lemma_mean_of_one(x);
    }
    mean_channel(x, 1)
}

/// The line of text for one pixel whose `samples` sampled colours add up to `total`.
pub fn write_mean(total: &Color, samples: i32) -> (line: String)
    requires
        samples >= 1,
    ensures
        line@ == mean_line(*total, samples as int),
{
    let mut line = String::new();
    push_decimal(&mut line, mean_channel(total.x(), samples) as u32);
    line.append(" ");
    push_decimal(&mut line, mean_channel(total.y(), samples) as u32);
    line.append(" ");
    push_decimal(&mut line, mean_channel(total.z(), samples) as u32);
    line.append("\n");
    proof {
        reveal_strlit(" ");
        reveal_strlit("\n");
        assert(" "@ =~= seq![' ']);
        assert("\n"@ =~= seq!['\n']);
        assert(line@ =~= mean_line(*total, samples as int));
    }
    line
}

/// The line of text for one pixel.
pub fn write_color(pixel_color: &Color) -> (line: String)
    ensures
        line@ == pixel_line(*pixel_color),
{
    proof {
        lemma_line_of_one(*pixel_color);
    }
    write_mean(pixel_color, 1)
}

} // verus!
