//! The raster of the image, the text of the image file and the progress display.
use crate::color::{mean_line, write_mean};
use crate::scalar::{
    lemma_magnitude_parts, lemma_nearest_reduced, nearest_to, places, power_of_two, Scalar, HIDDEN,
};
use crate::text::{decimal, push_decimal, push_run, run};
use crate::vec3::Color;
use vstd::arithmetic::div_mod::{
    lemma_basic_div, lemma_div_is_ordered, lemma_div_multiples_vanish,
    lemma_div_multiples_vanish_quotient, lemma_div_pos_is_pos, lemma_fundamental_div_mod,
    lemma_fundamental_div_mod_converse,
};
use vstd::arithmetic::power2::*;
use vstd::prelude::*;
use vstd::string::*;

verus! {

/// The width of the progress bar in characters.
pub const BAR_WIDTH: u32 = 80;

/// How many of `scale` parts are done when `curr` of `of` steps are: the proportion,
/// rounded down. With no step to take, nothing counts as done.
pub open spec fn share(curr: int, of: int, scale: int) -> int {
    if of == 0 {
        0
    } else {
        (curr * scale) / of
    }
}

/// The percentage that the progress display shows: the whole part of one hundred
/// times the proportion done, where proportion and product are taken in double
/// precision. The product comes out at the exact value or so close to it that the whole
/// part is the same, save where the exact value is 29, 57 or 58: there the product falls
/// just short, and the display shows 28, 56 or 57.
pub open spec fn percent(curr: int, of: int) -> int {
    let exact = share(curr, of, 100);
    if of > 0 && (100 * curr == 29 * of || 100 * curr == 57 * of || 100 * curr == 58 * of) {
        exact - 1
    } else {
        exact
    }
}

/// The text of the progress display: an opening bracket, one `=` for each eightieth
/// that is done, blanks up to eighty characters, a closing bracket, a space, and the
/// percentage followed by `%`.
pub open spec fn progress_text(curr: int, of: int) -> Seq<char> {
    let fill = share(curr, of, BAR_WIDTH as int);
    seq!['['] + run('=', fill as nat) + run(' ', (BAR_WIDTH - fill) as nat) + seq![']', ' ']
        + decimal(percent(curr, of) as nat) + seq!['%']
}

/// A share of `scale` parts lies between nought and `scale`.
pub proof fn lemma_share_bounds(curr: int, of: int, scale: int)
    requires
        0 <= curr <= of,
        0 <= scale,
    ensures
        0 <= share(curr, of, scale) <= scale,
        curr == of && of > 0 ==> share(curr, of, scale) == scale,
{
    if of > 0 {
        assert(0 <= curr * scale <= of * scale) by (nonlinear_arith)
            requires
                0 <= curr <= of,
                0 <= scale,
        ;
        lemma_div_pos_is_pos(curr * scale, of);
        lemma_div_is_ordered(curr * scale, of * scale, of);
        lemma_div_multiples_vanish(scale, of);
        assert(of * scale == scale * of) by (nonlinear_arith);
    }
}

fn share_of(curr: i32, of: i32, scale: u32) -> (r: u32)
    requires
        0 <= curr <= of,
        scale <= 100,
    ensures
        r == share(curr as int, of as int, scale as int),
        r <= scale,
{
    proof {
        lemma_share_bounds(curr as int, of as int, scale as int);
    }
    if of == 0 {
        return 0;
    }
    assert(0 <= curr * scale <= 0x7fff_ffff * 100) by (nonlinear_arith)
        requires
            0 <= curr <= 0x7fff_ffff,
            0 <= scale <= 100,
    ;
    let done: u64 = curr as u64 * scale as u64;
    (done / of as u64) as u32
}

/// The progress display for `curr` of `of` rows.
pub fn progress_bar(curr: i32, of: i32) -> (bar: String)
    requires
        0 <= curr <= of,
    ensures
        bar@ == progress_text(curr as int, of as int),
{
    let fill = share_of(curr, of, BAR_WIDTH);
    let exact = share_of(curr, of, 100);
    proof {
        if of > 0 {
            let done = curr * 100;
            let whole = done / (of as int);
            lemma_fundamental_div_mod(done, of as int);
            assert(whole == 29 || whole == 57 || whole == 58 ==> of * whole == whole * of)
                by (nonlinear_arith);
            if done == 29 * of {
                lemma_fundamental_div_mod_converse(done, of as int, 29, 0);
            }
            if done == 57 * of {
                lemma_fundamental_div_mod_converse(done, of as int, 57, 0);
            }
            if done == 58 * of {
                lemma_fundamental_div_mod_converse(done, of as int, 58, 0);
            }
        }
    }
    let short = of > 0 && (exact == 29 || exact == 57 || exact == 58) && (curr as u64 * 100)
        % of as u64 == 0;
    let shown = if short {
        exact - 1
    } else {
        exact
    };
    assert(shown == percent(curr as int, of as int));
    proof {
        reveal_strlit("[");
        reveal_strlit("=");
        reveal_strlit(" ");
        reveal_strlit("] ");
        reveal_strlit("%");
    }
    let mut bar = String::new();
    bar.append("[");
    push_run(&mut bar, "=", fill);
    push_run(&mut bar, " ", BAR_WIDTH - fill);
    bar.append("] ");
    push_decimal(&mut bar, shown);
    bar.append("%");
    proof {
        assert("["@ =~= seq!['[']);
        assert("] "@ =~= seq![']', ' ']);
        assert("%"@ =~= seq!['%']);
        assert(bar@ =~= progress_text(curr as int, of as int));
    }
    bar
}

/// The pattern of the double nearest to 16/9, the aspect ratio of the default camera.
pub const WIDESCREEN: u64 = 0x3FFC_71C7_1C71_C71C;

/// The pattern `WIDESCREEN` denotes the double nearest to sixteen ninths.
pub proof fn lemma_widescreen()
    ensures
        nearest_to(Scalar { bits: WIDESCREEN }, 16, 9),
{
    let s = Scalar { bits: WIDESCREEN };
    assert(s.exponent() == 1023);
    assert(s.fraction() == 0xC_71C7_1C71_C71C);
    lemma2_to64_rest();
    lemma_nearest_reduced(s, 16, 9);
}

/// The whole number nearest to `num / den`, halves going up.
pub open spec fn nearest_whole(num: int, den: int) -> int {
    (2 * num + den) / (2 * den)
}

/// The number of rows of an image of the given width and aspect ratio: the width
/// divided by the ratio and rounded to the nearest whole number, but at least one row,
/// and no more than an `i32` holds.
pub open spec fn rows_for(width: int, aspect_ratio: Scalar) -> int {
    let rows = nearest_whole(width * pow2(places()), aspect_ratio.value());
    if rows < 1 {
        1
    } else if rows > i32::MAX {
        i32::MAX as int
    } else {
        rows
    }
}

/// The division that `rows_for` asks for, brought down to numbers that fit a machine
/// word: with the ratio in its two parts, `whole` doubled `shift` times, the quotient
/// is nought where the shift is 1075 or more, and otherwise that of
/// `width * 2^(1075 - shift) + whole` by twice `whole`.
pub proof fn lemma_rows_reduced(width: int, aspect_ratio: Scalar)
    requires
        1 <= width <= i32::MAX,
        !aspect_ratio.spec_is_nan(),
        aspect_ratio.value() > 0,
    ensures
        ({
            let whole = aspect_ratio.whole();
            let shift = aspect_ratio.shift();
            let rows = nearest_whole(width * pow2(places()), aspect_ratio.value());
            &&& whole > 0
            &&& shift >= 1075 ==> rows == 0
            &&& shift <= 1074 ==> rows == (width * pow2((1075 - shift) as nat) + whole) / (2
                * whole) as int
            &&& shift <= 988 ==> rows > i32::MAX
        }),
{
    let whole = aspect_ratio.whole();
    let shift = aspect_ratio.shift();
    let w = whole as int;
    let unit = pow2(places()) as int;
    let value = aspect_ratio.value();
    let low = pow2(shift) as int;
    lemma2_to64();
    lemma2_to64_rest();
    lemma_pow2_pos(shift);
    lemma_pow2_pos(places());
    lemma_magnitude_parts(aspect_ratio);
    assert(!aspect_ratio.negative());
    assert(value == w * low);
    assert(w > 0) by {
        if w <= 0 {
            assert(w * low <= 0) by (nonlinear_arith)
                requires
                    w <= 0,
                    low > 0,
            ;
        }
    }
    if shift >= 1075 {
        assert(w >= HIDDEN);
        if shift > 1075 {
            lemma_pow2_strictly_increases(1075, shift);
        }
        lemma_pow2_unfold(1075);
        assert(low >= 2 * unit);
        assert(2 * (width * unit) < w * low) by (nonlinear_arith)
            requires
                1 <= width < 0x8000_0000,
                w >= 0x10_0000_0000_0000,
                low >= 2 * unit,
                unit > 0,
        ;
        lemma_basic_div(2 * (width * unit) + value, 2 * value);
    } else {
        let up = pow2((1075 - shift) as nat) as int;
        let rest = pow2((1074 - shift) as nat) as int;
        lemma_pow2_adds(shift, (1074 - shift) as nat);
        lemma_pow2_unfold((1075 - shift) as nat);
        lemma_pow2_pos((1074 - shift) as nat);
        assert(2 * (width * unit) + value == low * (width * up + w)) by (nonlinear_arith)
            requires
                unit == low * rest,
                up == 2 * rest,
                value == w * low,
        ;
        assert(2 * value == low * (2 * w)) by (nonlinear_arith)
            requires
                value == w * low,
        ;
        lemma_div_multiples_vanish_quotient(low, width * up + w, 2 * w);
        if shift <= 988 {
            let big = 0x2_0000_0000int;
            lemma_pow2_adds(54, 33);
            if 1075 - shift > 87 {
                lemma_pow2_strictly_increases(87, (1075 - shift) as nat);
            }
            assert(pow2(87) == pow2(54) * big);
            assert((2 * w) * big <= width * up + w) by (nonlinear_arith)
                requires
                    0 < w < 0x20_0000_0000_0000,
                    up >= 0x40_0000_0000_0000 * big,
                    width >= 1,
                    big > 0,
            ;
            lemma_div_is_ordered((2 * w) * big, width * up + w, 2 * w);
            lemma_div_multiples_vanish(big, 2 * w);
            assert((2 * w) * big == big * (2 * w)) by (nonlinear_arith);
        }
    }
}

/// The number of rows of an image of the given width and aspect ratio.
pub fn image_height(image_width: i32, aspect_ratio: Scalar) -> (rows: i32)
    requires
        image_width >= 1,
        !aspect_ratio.spec_is_nan(),
        aspect_ratio.value() > 0,
    ensures
        rows == rows_for(image_width as int, aspect_ratio),
        rows >= 1,
{
    proof {
        lemma_rows_reduced(image_width as int, aspect_ratio);
    }
    let (whole, shift) = aspect_ratio.parts();
    if shift >= 1075 {
        return 1;
    }
    if shift <= 988 {
        return i32::MAX;
    }
    let up = power_of_two(1075 - shift);
    proof {
        lemma2_to64();
        lemma_pow2_adds(64, 22);
        if 1075 - shift < 86 {
            lemma_pow2_strictly_increases((1075 - shift) as nat, 86);
        }
    }
    assert(image_width * up <= 0x7fff_ffff * 0x40_0000_0000_0000_0000_0000) by (nonlinear_arith)
        requires
            1 <= image_width <= 0x7fff_ffff,
            0 <= up <= 0x40_0000_0000_0000_0000_0000,
    ;
    let rows: u128 = (image_width as u128 * up + whole as u128) / (2 * whole as u128);
    if rows < 1 {
        1
    } else if rows > 0x7fff_ffff {
        i32::MAX
    } else {
        rows as i32
    }
}

/// The raster that a camera renders: its size in pixels and the number of rays sampled
/// through each pixel.
#[derive(Clone, Copy, Debug)]
pub struct Camera {
    pub image_width: i32,
    pub image_height: i32,
    pub pixel_samples: i32,
}

/// The opening of the image file: the format, the size and the largest channel value.
pub open spec fn header(width: int, height: int) -> Seq<char> {
    seq!['P', '3', '\n'] + decimal(width as nat) + seq![' '] + decimal(height as nat) + seq![
        '\n',
        '2',
        '5',
        '5',
        '\n',
    ]
}

/// The lines of the pixels, one after the other, where each pixel is given by the
/// total of its `samples` sampled colours.
pub open spec fn lines(totals: Seq<Color>, samples: int) -> Seq<char>
    decreases totals.len(),
{
    if totals.len() == 0 {
        Seq::empty()
    } else {
        lines(totals.drop_last(), samples) + mean_line(totals.last(), samples)
    }
}

impl Camera {
    /// Whether the raster has at least one column, one row and one sample.
    pub open spec fn wf(&self) -> bool {
        self.image_width >= 1 && self.image_height >= 1 && self.pixel_samples >= 1
    }

    /// The number of pixels of the raster.
    pub open spec fn pixels(&self) -> int {
        self.image_width * self.image_height
    }

    /// The text of the image file: the header, then the line of each pixel, where each
    /// pixel is given by the total of its sampled colours.
    pub open spec fn image(&self, totals: Seq<Color>) -> Seq<char> {
        header(self.image_width as int, self.image_height as int) + lines(
            totals,
            self.pixel_samples as int,
        )
    }

    /// The camera for an image of the given width and aspect ratio, with the given
    /// number of samples for each pixel.
    pub fn new(image_width: i32, aspect_ratio: Scalar, pixel_samples: i32) -> (r: Camera)
        requires
            image_width >= 1,
            pixel_samples >= 1,
            !aspect_ratio.spec_is_nan(),
            aspect_ratio.value() > 0,
        ensures
            r.wf(),
            r.image_width == image_width,
            r.image_height == rows_for(image_width as int, aspect_ratio),
            r.pixel_samples == pixel_samples,
    {
        Camera { image_width, image_height: image_height(image_width, aspect_ratio), pixel_samples }
    }

    /// The column and the row of the pixel at `index`, counting the pixels row by row
    /// from the top, each row from the left.
    pub fn pixel_at(&self, index: u64) -> (r: (i32, i32))
        requires
            self.wf(),
            index < self.pixels(),
        ensures
            r.0 == index as int % self.image_width as int,
            r.1 == index as int / self.image_width as int,
            0 <= r.0 < self.image_width,
            0 <= r.1 < self.image_height,
            index == r.1 * self.image_width + r.0,
    {
        let width = self.image_width as u64;
        proof {
            let w = self.image_width as int;
            let h = self.image_height as int;
            lemma_fundamental_div_mod(index as int, w);
            lemma_div_pos_is_pos(index as int, w);
            if index as int / w >= h {
                assert(w * (index as int / w) >= w * h) by (nonlinear_arith)
                    requires
                        index as int / w >= h,
                        w > 0,
                ;
            }
        }
        ((index % width) as i32, (index / width) as i32)
    }

    /// The text of the image file. Each pixel is given by the total of the colours that
    /// its `pixel_samples` samples returned, and is written as their mean; the pixels
    /// are taken row by row from the top, each row from the left. `None` unless there
    /// is exactly one total for each pixel of the raster.
    pub fn render(&self, totals: &Vec<Color>) -> (r: Option<String>)
        requires
            self.wf(),
        ensures
            r is Some <==> totals.len() == self.pixels(),
            r matches Some(ppm) ==> ppm@ == self.image(totals@),
    {
        assert(0 < self.image_width * self.image_height <= 0x7fff_ffff * 0x7fff_ffff)
            by (nonlinear_arith)
            requires
                1 <= self.image_width <= 0x7fff_ffff,
                1 <= self.image_height <= 0x7fff_ffff,
        ;
        if totals.len() as u64 != self.image_width as u64 * self.image_height as u64 {
            return None;
        }
        proof {
            reveal_strlit("P3\n");
            reveal_strlit(" ");
            reveal_strlit("\n255\n");
        }
        let mut ppm = String::new();
        ppm.append("P3\n");
        push_decimal(&mut ppm, self.image_width as u32);
        ppm.append(" ");
        push_decimal(&mut ppm, self.image_height as u32);
        ppm.append("\n255\n");
        assert(ppm@ =~= header(self.image_width as int, self.image_height as int));
        let samples = self.pixel_samples;
        let mut i: usize = 0;
        while i < totals.len()
            invariant
                i <= totals.len(),
                samples == self.pixel_samples,
                samples >= 1,
                ppm@ == header(self.image_width as int, self.image_height as int) + lines(
                    totals@.take(i as int),
                    samples as int,
                ),
            decreases totals.len() - i,
        {
            let line = write_mean(&totals[i], samples);
            ppm.append(line.as_str());
            proof {
                let next = totals@.take(i + 1);
                assert(next.drop_last() =~= totals@.take(i as int));
                assert(next.last() == totals[i as int]);
                assert(ppm@ =~= header(self.image_width as int, self.image_height as int) + lines(
                    next,
                    samples as int,
                ));
            }
            i = i + 1;
        }
        assert(totals@.take(i as int) =~= totals@);
        Some(ppm)
    }
}

impl Default for Camera {
    /// The camera for a widescreen image 400 pixels wide, which has 225 rows, with 100
    /// samples for each pixel.
    fn default() -> (r: Camera)
        ensures
            r.wf(),
            r.image_width == 400,
            r.image_height == 225,
            r.pixel_samples == 100,
    {
        proof {
            let ratio = Scalar { bits: WIDESCREEN };
            assert(ratio.exponent() == 1023);
            assert(ratio.fraction() == 0xC_71C7_1C71_C71C);
            lemma_pow2_pos(1022);
            assert(ratio.value() > 0) by (nonlinear_arith)
                requires
                    ratio.value() == (HIDDEN + 0xC_71C7_1C71_C71C) * pow2(1022),
                    pow2(1022) > 0,
            ;
            lemma_rows_reduced(400, ratio);
            lemma2_to64_rest();
            assert(ratio.whole() == 0x1C_71C7_1C71_C71C && ratio.shift() == 1022);
            assert((400int * 0x20_0000_0000_0000 + 0x1C_71C7_1C71_C71C) / (2int
                * 0x1C_71C7_1C71_C71C) == 225);
            assert(nearest_whole(400int * pow2(places()), ratio.value()) == 225);
        }
        Camera::new(400, Scalar::from_bits(WIDESCREEN), 100)
    }
}

} // verus!
