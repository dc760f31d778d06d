//! Mathematical model of the three raster effects.
//!
//! A raster is modelled as a row-major sequence of bytes, four per pixel in
//! `R, G, B, A` order. Every stage is specified exactly, over `int`, so that
//! the executable code can be proved to compute precisely these values.
//!
//! All per-pixel arithmetic is exact. The vignette factor
//! `1 - 0.77 * (distance / max_distance)^2` squares the two square roots
//! again, so it is the rational number `1 - 77*num / (100*den)` where `num`
//! and `den` are integer sums of squares; truncating a channel scaled by that
//! factor is a single integer division. Film-grain noise is drawn from the
//! range `[-24.2, 24.2)` in steps of a tenth of a channel unit, so a draw is
//! an index `d` in `[0, 484)` standing for the value `(d - 242) / 10`.

use vstd::prelude::*;
use vstd::arithmetic::div_mod::{
    lemma_div_is_ordered, lemma_div_multiples_vanish, lemma_div_multiples_vanish_fancy,
    lemma_div_pos_is_pos, lemma_fundamental_div_mod,
};
use vstd::arithmetic::mul::{lemma_mul_inequality, lemma_mul_nonnegative};

verus! {

/// Number of tenth-of-a-unit steps in the noise range `[-24.2, 24.2)`.
pub const NOISE_STEPS: u32 = 484;

/// Clamps a channel value to the representable range of an 8-bit sample.
pub open spec fn clamp_channel(v: int) -> int {
    if v < 0 {
        0
    } else if v > 255 {
        255
    } else {
        v
    }
}

// ---------------------------------------------------------------------------
// Color filter stage
// ---------------------------------------------------------------------------

/// Red channel after the saturating reduction by 90.
pub open spec fn reduced_red(r: int) -> int {
    if r < 90 {
        0
    } else {
        r - 90
    }
}

/// The greyscale value of the color filter: the truncated mean of the
/// reduced red channel and the unchanged green and blue channels.
pub open spec fn grey_value(r: int, g: int, b: int) -> int {
    (reduced_red(r) + g + b) / 3
}

/// One byte of the raster after the color filter: alpha bytes are kept,
/// every color byte becomes the grey value of its own pixel.
pub open spec fn filter_byte(s: Seq<u8>, i: int) -> u8
    recommends
        0 <= i < s.len(),
        4 * (i / 4) + 3 < s.len(),
{
    if i % 4 == 3 {
        s[i]
    } else {
        let p = 4 * (i / 4);
        grey_value(s[p] as int, s[p + 1] as int, s[p + 2] as int) as u8
    }
}

/// The whole raster after the color filter.
pub open spec fn filtered_bytes(s: Seq<u8>) -> Seq<u8> {
    Seq::new(s.len(), |i: int| filter_byte(s, i))
}

// ---------------------------------------------------------------------------
// Film grain stage (noise pass)
// ---------------------------------------------------------------------------

/// Floor of the noise value `(d - 242) / 10` that the draw `d` stands for:
/// `(d + 8) / 10 - 25 == floor((d + 8 - 250) / 10)`.
pub open spec fn full_delta(d: int) -> int {
    (d + 8) / 10 - 25
}

/// Floor of half the noise value, `(d - 242) / 20`, used at channel
/// extremes: `(d + 18) / 20 - 13 == floor((d + 18 - 260) / 20)`.
pub open spec fn damped_delta(d: int) -> int {
    (d + 18) / 20 - 13
}

/// The noise delta applied to a channel whose current value is `c`: the
/// drawn noise, halved when the channel sits at an extreme (0 or 255).
pub open spec fn noise_delta(c: int, d: int) -> int {
    if c == 0 || c == 255 {
        damped_delta(d)
    } else {
        full_delta(d)
    }
}

/// A channel after the grain stage perturbed it with draw `d`.
pub open spec fn grain_channel(c: int, d: int) -> int {
    clamp_channel(c + noise_delta(c, d))
}

/// Byte `i` of a grained raster: alpha bytes are kept byte for byte, every
/// color byte is its old value perturbed by some draw from the noise range.
pub open spec fn grained_byte(pre: Seq<u8>, i: int, b: u8) -> bool
    recommends
        0 <= i < pre.len(),
{
    if i % 4 == 3 {
        b == pre[i]
    } else {
        exists|d: int| 0 <= d < 484 && b as int == grain_channel(pre[i] as int, d)
    }
}

/// Relates a raster before and after the grain stage's noise pass.
pub open spec fn is_grained(pre: Seq<u8>, post: Seq<u8>) -> bool {
    &&& post.len() == pre.len()
    &&& forall|i: int| 0 <= i < pre.len() ==> #[trigger] grained_byte(pre, i, post[i])
}

// ---------------------------------------------------------------------------
// Vignette stage
// ---------------------------------------------------------------------------

/// The square of an integer.
pub open spec fn sq(n: int) -> int {
    n * n
}

/// Numerator of the squared normalized distance of pixel `(x, y)` from the
/// image center `(w/2, h/2)`: four times the squared distance, so that no
/// halves appear. The matching denominator is `sq(w) + sq(h)`.
pub open spec fn dist_num(x: int, y: int, w: int, h: int) -> int {
    sq(2 * x - w) + sq(2 * y - h)
}

/// Numerator of the vignette factor `clamp(1 - 0.77 * num/den, 0, 1)`, over
/// the common denominator `100 * den`.
pub open spec fn vignette_scale(num: int, den: int) -> int {
    if 77 * num >= 100 * den {
        0
    } else {
        100 * den - 77 * num
    }
}

/// A channel scaled by the vignette factor and truncated.
pub open spec fn vignette_channel(c: int, num: int, den: int) -> int
    recommends
        den > 0,
{
    (c * vignette_scale(num, den)) / (100 * den)
}

/// Byte `i` of the raster after the vignette: alpha bytes are kept, every
/// color byte is scaled by its pixel's vignette factor.
pub open spec fn vignette_byte(s: Seq<u8>, i: int, w: int, h: int) -> u8
    recommends
        0 <= i < s.len(),
        w > 0,
        h > 0,
{
    if i % 4 == 3 {
        s[i]
    } else {
        let p = i / 4;
        vignette_channel(s[i] as int, dist_num(p % w, p / w, w, h), sq(w) + sq(h)) as u8
    }
}

/// The whole raster after the vignette.
pub open spec fn vignetted_bytes(s: Seq<u8>, w: int, h: int) -> Seq<u8> {
    Seq::new(s.len(), |i: int| vignette_byte(s, i, w, h))
}

// ---------------------------------------------------------------------------
// Laws of the stages
// ---------------------------------------------------------------------------

/// Clamping bounds of the grain stage: whatever draw the noise pass makes,
/// a perturbed channel stays an 8-bit sample.
pub proof fn lemma_grain_channel_in_range(c: int, d: int)
    ensures
        0 <= grain_channel(c, d) <= 255,
{
}

/// The noise delta is bounded by the floors of the range ends: within
/// [-25, 24] always, and within [-13, 12] at the damped extremes.
pub proof fn lemma_noise_delta_bounds(c: int, d: int)
    requires
        0 <= d < 484,
    ensures
        -25 <= noise_delta(c, d) <= 24,
        c == 0 || c == 255 ==> -13 <= noise_delta(c, d) <= 12,
{
    lemma_div_is_ordered(8, d + 8, 10);
    lemma_div_is_ordered(d + 8, 491, 10);
    lemma_div_is_ordered(18, d + 18, 20);
    lemma_div_is_ordered(d + 18, 501, 20);
}

/// Alpha preservation of the grain stage's noise pass: the alpha byte of
/// every pixel survives the perturbation byte for byte.
pub proof fn lemma_grain_keeps_alpha(pre: Seq<u8>, post: Seq<u8>, p: int)
    requires
        is_grained(pre, post),
        0 <= p,
        4 * p + 3 < pre.len(),
    ensures
        post[4 * p + 3] == pre[4 * p + 3],
{
    lemma_quad_index(p, 3);
    assert(grained_byte(pre, 4 * p + 3, post[4 * p + 3]));
}

/// A color byte after the grain stage's noise pass lies within the reach
/// of the noise range: no further than 25 below or 24 above its old value,
/// and clamped to the sample range.
pub proof fn lemma_grain_byte_bounds(pre: Seq<u8>, post: Seq<u8>, i: int)
    requires
        is_grained(pre, post),
        0 <= i < pre.len(),
        i % 4 != 3,
    ensures
        clamp_channel(pre[i] - 25) <= post[i] <= clamp_channel(pre[i] + 24),
{
    assert(grained_byte(pre, i, post[i]));
    let d = choose|d: int| 0 <= d < 484 && post[i] as int == grain_channel(pre[i] as int, d);
    lemma_noise_delta_bounds(pre[i] as int, d);
}

/// Alpha preservation across both finishing stages: the color filter and
/// the vignette together hand every pixel's alpha byte through unchanged.
pub proof fn lemma_finishing_keeps_alpha(s: Seq<u8>, p: int, w: int, h: int)
    requires
        0 <= p,
        4 * p + 3 < s.len(),
    ensures
        vignetted_bytes(filtered_bytes(s), w, h)[4 * p + 3] == s[4 * p + 3],
{
    lemma_filter_greyscale(s, p);
    lemma_vignette_keeps_alpha(filtered_bytes(s), p, w, h);
}

/// Saturating subtraction: a red channel of at most 90 is reduced to
/// exactly 0, never past it.
pub proof fn lemma_red_saturates(r: int)
    requires
        r <= 90,
    ensures
        reduced_red(r) == 0,
{
}

/// The grey value of 8-bit channels is itself an 8-bit sample.
pub proof fn lemma_grey_value_in_range(r: int, g: int, b: int)
    requires
        0 <= r <= 255,
        0 <= g <= 255,
        0 <= b <= 255,
    ensures
        0 <= grey_value(r, g, b) <= 255,
{
    lemma_div_pos_is_pos(reduced_red(r) + g + b, 3);
    lemma_div_is_ordered(reduced_red(r) + g + b, 675, 3);
}

/// Greyscale and alpha preservation of the color filter: in every pixel of
/// the filtered raster the three color bytes are equal, and the alpha byte
/// is the pixel's old alpha byte.
pub proof fn lemma_filter_greyscale(s: Seq<u8>, p: int)
    requires
        0 <= p,
        4 * p + 3 < s.len(),
    ensures
        filtered_bytes(s)[4 * p] == filtered_bytes(s)[4 * p + 1],
        filtered_bytes(s)[4 * p + 1] == filtered_bytes(s)[4 * p + 2],
        filtered_bytes(s)[4 * p + 3] == s[4 * p + 3],
{
    lemma_quad_index(p, 0);
    lemma_quad_index(p, 1);
    lemma_quad_index(p, 2);
    lemma_quad_index(p, 3);
}

/// Alpha preservation of the vignette: the alpha byte of every pixel of the
/// vignetted raster is the pixel's old alpha byte.
pub proof fn lemma_vignette_keeps_alpha(s: Seq<u8>, p: int, w: int, h: int)
    requires
        0 <= p,
        4 * p + 3 < s.len(),
    ensures
        vignetted_bytes(s, w, h)[4 * p + 3] == s[4 * p + 3],
{
    lemma_quad_index(p, 3);
}

/// The vignette scale lies between 0 and its denominator: the factor it
/// stands for is clamped to [0, 1].
pub proof fn lemma_vignette_scale_in_range(num: int, den: int)
    requires
        0 <= num,
        0 < den,
    ensures
        0 <= vignette_scale(num, den) <= 100 * den,
{
    lemma_mul_nonnegative(77, num);
}

/// Clamping bounds of the vignette: a scaled channel stays an 8-bit sample.
pub proof fn lemma_vignette_channel_in_range(c: int, num: int, den: int)
    requires
        0 <= c <= 255,
        0 <= num,
        0 < den,
    ensures
        0 <= vignette_channel(c, num, den) <= 255,
{
    let scale = vignette_scale(num, den);
    lemma_vignette_scale_in_range(num, den);
    lemma_mul_nonnegative(c, scale);
    lemma_div_pos_is_pos(c * scale, 100 * den);
    lemma_mul_inequality(c, 255, scale);
    lemma_mul_inequality(scale, 100 * den, 255);
    assert(255 * scale == scale * 255) by (nonlinear_arith);
    assert(255 * (100 * den) == (100 * den) * 255) by (nonlinear_arith);
    lemma_div_is_ordered(c * scale, (100 * den) * 255, 100 * den);
    lemma_div_multiples_vanish(255, 100 * den);
}

/// Center invariance: in an image of even, positive width and height the
/// exact center pixel is at distance 0 from the center, its vignette factor
/// is 1, and its channels come through the vignette unchanged.
pub proof fn lemma_center_pixel_unchanged(c: int, w: int, h: int)
    requires
        0 <= c <= 255,
        0 < w,
        0 < h,
        w % 2 == 0,
        h % 2 == 0,
    ensures
        dist_num(w / 2, h / 2, w, h) == 0,
        vignette_channel(c, dist_num(w / 2, h / 2, w, h), sq(w) + sq(h)) == c,
{
    lemma_fundamental_div_mod(w, 2);
    lemma_fundamental_div_mod(h, 2);
    assert(dist_num(w / 2, h / 2, w, h) == 0);
    let den = sq(w) + sq(h);
    lemma_mul_nonnegative(w, w);
    lemma_mul_nonnegative(h, h);
    assert(w * w >= 1 && h * h >= 1) by (nonlinear_arith)
        requires
            w >= 1,
            h >= 1,
    ;
    assert(vignette_scale(0, den) == 100 * den);
    lemma_div_multiples_vanish(c, 100 * den);
}

/// Corner darkening monotonicity: at a fixed denominator, a pixel no closer
/// to the center (a larger squared-distance numerator) gets a vignette
/// factor, and so a scaled channel, that is no larger.
pub proof fn lemma_vignette_monotone(c: int, num1: int, num2: int, den: int)
    requires
        0 <= c <= 255,
        0 <= num1 <= num2,
        0 < den,
    ensures
        vignette_scale(num2, den) <= vignette_scale(num1, den),
        vignette_channel(c, num2, den) <= vignette_channel(c, num1, den),
{
    lemma_mul_inequality(num1, num2, 77);
    assert(77 * num1 == num1 * 77 && 77 * num2 == num2 * 77) by (nonlinear_arith);
    lemma_vignette_scale_in_range(num1, den);
    lemma_vignette_scale_in_range(num2, den);
    lemma_mul_inequality(vignette_scale(num2, den), vignette_scale(num1, den), c);
    assert(c * vignette_scale(num2, den) == vignette_scale(num2, den) * c) by (nonlinear_arith);
    assert(c * vignette_scale(num1, den) == vignette_scale(num1, den) * c) by (nonlinear_arith);
    lemma_div_is_ordered(c * vignette_scale(num2, den), c * vignette_scale(num1, den), 100 * den);
}

// ---------------------------------------------------------------------------
// Small division facts used throughout
// ---------------------------------------------------------------------------

/// Byte `4*p + k` of a raster lies in pixel `p`, at channel `k`.
pub proof fn lemma_quad_index(p: int, k: int)
    requires
        0 <= k < 4,
        0 <= p,
    ensures
        (4 * p + k) / 4 == p,
        (4 * p + k) % 4 == k,
{
    lemma_div_multiples_vanish_fancy(p, k, 4);
    lemma_fundamental_div_mod(4 * p + k, 4);
}

} // verus!
