//! The raster and the three effect stages, each proved against the model.
//!
//! A `Raster` owns its samples as one row-major byte vector, four bytes per
//! pixel in `R, G, B, A` order. The stages mutate it in place and their
//! contracts pin every output byte to the model's value for it; only the
//! grain stage, whose perturbation is random, is pinned up to the draw.

use vstd::prelude::*;
use vstd::arithmetic::div_mod::{
    lemma_div_multiples_vanish, lemma_multiply_divide_lt,
};
use vstd::arithmetic::mul::{lemma_mul_inequality, lemma_mul_nonnegative};
use crate::model::{
    dist_num, filter_byte, filtered_bytes, grain_channel, grained_byte, grey_value, is_grained,
    lemma_grey_value_in_range, lemma_quad_index, lemma_vignette_channel_in_range, sq,
    vignette_byte, vignette_channel, vignette_scale, vignetted_bytes, NOISE_STEPS,
};
use crate::noise::{adjust_noise, draw_uniform, fresh_rng};

verus! {

/// One RGBA raster: `width * height` pixels, each four bytes, row-major.
pub struct Raster {
    width: u32,
    height: u32,
    data: Vec<u8>,
}

impl Raster {
    /// The raster's width in pixels.
    pub closed spec fn spec_width(&self) -> u32 {
        self.width
    }

    /// The raster's height in pixels.
    pub closed spec fn spec_height(&self) -> u32 {
        self.height
    }

    /// The raster's samples, four bytes per pixel.
    pub closed spec fn bytes(&self) -> Seq<u8> {
        self.data@
    }

    /// Well-formedness: the byte vector holds exactly the pixels the
    /// dimensions announce.
    pub open spec fn wf(&self) -> bool {
        self.bytes().len() == 4 * (self.spec_width() as int) * (self.spec_height() as int)
    }

    /// Wraps an RGBA byte buffer, whose length must match the dimensions.
    pub fn from_raw(width: u32, height: u32, data: Vec<u8>) -> (r: Raster)
        requires
            data@.len() == 4 * (width as int) * (height as int),
        ensures
            r.wf(),
            r.spec_width() == width,
            r.spec_height() == height,
            r.bytes() == data@,
    {
        Raster { width, height, data }
    }

    /// The width in pixels.
    pub fn width(&self) -> (w: u32)
        ensures
            w == self.spec_width(),
    {
        self.width
    }

    /// The height in pixels.
    pub fn height(&self) -> (h: u32)
        ensures
            h == self.spec_height(),
    {
        self.height
    }

    /// Hands the byte buffer back.
    pub fn into_raw(self) -> (d: Vec<u8>)
        ensures
            d@ == self.bytes(),
    {
        self.data
    }

    /// The four samples of the pixel at column `x`, row `y`.
    pub fn pixel(&self, x: u32, y: u32) -> (px: (u8, u8, u8, u8))
        requires
            self.wf(),
            x < self.spec_width(),
            y < self.spec_height(),
        ensures
            ({
                let p = (y as int) * (self.spec_width() as int) + x as int;
                &&& px.0 == self.bytes()[4 * p]
                &&& px.1 == self.bytes()[4 * p + 1]
                &&& px.2 == self.bytes()[4 * p + 2]
                &&& px.3 == self.bytes()[4 * p + 3]
            }),
    {
        let w = self.width;
        let n: usize = self.data.len();
        proof {
            let wi = self.width as int;
            let hi = self.height as int;
            lemma_mul_inequality(y as int, hi - 1, wi);
            assert((hi - 1) * wi == hi * wi - wi) by (nonlinear_arith);
            assert(wi * hi == hi * wi) by (nonlinear_arith);
            assert(4 * (wi * hi) == 4 * wi * hi) by (nonlinear_arith);
            lemma_mul_nonnegative(y as int, wi);
            lemma_mul_nonnegative(wi, hi);
        }
        let p: usize = (y as usize) * (w as usize) + (x as usize);
        (self.data[4 * p], self.data[4 * p + 1], self.data[4 * p + 2], self.data[4 * p + 3])
    }

    /// The number of pixels, and the fact that four times it is the byte
    /// count.
    fn pixel_count(&self) -> (np: usize)
        requires
            self.wf(),
        ensures
            np == (self.spec_width() as int) * (self.spec_height() as int),
            4 * (np as int) == self.bytes().len(),
    {
        proof {
            let wi = self.spec_width() as int;
            let hi = self.spec_height() as int;
            assert(4 * (wi * hi) == 4 * wi * hi) by (nonlinear_arith);
            lemma_div_multiples_vanish(wi * hi, 4);
        }
        self.data.len() / 4
    }

    /// The color filter: every pixel becomes its cyan-leaning grey value,
    /// alpha untouched. Each output byte is pinned exactly.
    pub fn apply_color_filter(&mut self)
        requires
            old(self).wf(),
        ensures
            final(self).wf(),
            final(self).spec_width() == old(self).spec_width(),
            final(self).spec_height() == old(self).spec_height(),
            final(self).bytes() == filtered_bytes(old(self).bytes()),
    {
        let ghost s = self.data@;
        let n = self.data.len();
        let np = self.pixel_count();
        let mut out: Vec<u8> = Vec::new();
        let mut p: usize = 0;
        while p < np
            invariant
                s == self.data@,
                n == s.len(),
                4 * (np as int) == n as int,
                p <= np,
                out@.len() == 4 * p as int,
                forall|j: int| 0 <= j < out@.len() ==> out@[j] == filter_byte(s, j),
            decreases np - p,
        {
            let i: usize = 4 * p;
            let r = self.data[i];
            let g = self.data[i + 1];
            let b = self.data[i + 2];
            let a = self.data[i + 3];
            let rr: u32 = if r >= 90 {
                (r - 90) as u32
            } else {
                0
            };
            let grey_wide: u32 = (rr + g as u32 + b as u32) / 3;
            proof {
                lemma_grey_value_in_range(r as int, g as int, b as int);
            }
            let grey: u8 = grey_wide as u8;
            proof {
                assert(grey as int == grey_value(r as int, g as int, b as int));
                lemma_quad_index(p as int, 0);
                lemma_quad_index(p as int, 1);
                lemma_quad_index(p as int, 2);
                lemma_quad_index(p as int, 3);
            }
            out.push(grey);
            out.push(grey);
            out.push(grey);
            out.push(a);
            p = p + 1;
        }
        proof {
            assert(out@ =~= filtered_bytes(s));
        }
        self.data = out;
    }

    /// The grain stage's noise pass: every color byte is perturbed by an
    /// independent draw from the noise range, damped at extremes and
    /// clamped; alpha untouched. The smoothing that completes the stage is
    /// the external blur primitive, which the caller applies to the result.
    pub fn add_film_grain(&mut self)
        requires
            old(self).wf(),
        ensures
            final(self).wf(),
            final(self).spec_width() == old(self).spec_width(),
            final(self).spec_height() == old(self).spec_height(),
            is_grained(old(self).bytes(), final(self).bytes()),
    {
        let ghost s = self.data@;
        let n = self.data.len();
        let np = self.pixel_count();
        let mut rng = fresh_rng();
        let mut out: Vec<u8> = Vec::new();
        let mut p: usize = 0;
        while p < np
            invariant
                s == self.data@,
                n == s.len(),
                4 * (np as int) == n as int,
                p <= np,
                out@.len() == 4 * p as int,
                forall|j: int| 0 <= j < out@.len() ==> grained_byte(s, j, #[trigger] out@[j]),
            decreases np - p,
        {
            let i: usize = 4 * p;
            let r = self.data[i];
            let g = self.data[i + 1];
            let b = self.data[i + 2];
            let a = self.data[i + 3];
            let nr = grain_one(r, &mut rng);
            let ng = grain_one(g, &mut rng);
            let nb = grain_one(b, &mut rng);
            proof {
                lemma_quad_index(p as int, 0);
                lemma_quad_index(p as int, 1);
                lemma_quad_index(p as int, 2);
                lemma_quad_index(p as int, 3);
                assert(grained_byte(s, i as int, nr));
                assert(grained_byte(s, i as int + 1, ng));
                assert(grained_byte(s, i as int + 2, nb));
                assert(grained_byte(s, i as int + 3, a));
            }
            out.push(nr);
            out.push(ng);
            out.push(nb);
            out.push(a);
            p = p + 1;
        }
        self.data = out;
    }

    /// The vignette: every color byte is scaled by its pixel's distance-
    /// based factor and truncated, alpha untouched. Each output byte is
    /// pinned exactly.
    pub fn apply_vignette(&mut self)
        requires
            old(self).wf(),
        ensures
            final(self).wf(),
            final(self).spec_width() == old(self).spec_width(),
            final(self).spec_height() == old(self).spec_height(),
            final(self).bytes() == vignetted_bytes(
                old(self).bytes(),
                old(self).spec_width() as int,
                old(self).spec_height() as int,
            ),
    {
        let ghost s = self.data@;
        let ghost wi = self.width as int;
        let ghost hi = self.height as int;
        if self.width == 0 || self.height == 0 {
            proof {
                assert(4 * wi * hi == 0) by (nonlinear_arith)
                    requires
                        wi == 0 || hi == 0,
                ;
                assert(s.len() == 0);
                assert(s =~= vignetted_bytes(s, wi, hi));
            }
            return;
        }
        let w = self.width;
        let h = self.height;
        proof {
            assert(1 <= (w as int) * (w as int) < 0x10000000000000000) by (nonlinear_arith)
                requires
                    1 <= w < 0x100000000,
            ;
            assert(1 <= (h as int) * (h as int) < 0x10000000000000000) by (nonlinear_arith)
                requires
                    1 <= h < 0x100000000,
            ;
        }
        let den: u128 = (w as u128) * (w as u128) + (h as u128) * (h as u128);
        let scaled: u128 = 100 * den;
        let n = self.data.len();
        let np = self.pixel_count();
        let mut out: Vec<u8> = Vec::new();
        let mut p: usize = 0;
        while p < np
            invariant
                s == self.data@,
                n == s.len(),
                4 * (np as int) == n as int,
                np == wi * hi,
                p <= np,
                w == self.spec_width(),
                h == self.spec_height(),
                wi == w as int,
                hi == h as int,
                1 <= wi,
                1 <= hi,
                den == sq(wi) + sq(hi),
                1 <= den < 0x20000000000000000,
                scaled == 100 * (sq(wi) + sq(hi)),
                scaled < 0x1000000000000000000,
                out@.len() == 4 * p as int,
                forall|j: int| 0 <= j < out@.len() ==> out@[j] == vignette_byte(s, j, wi, hi),
            decreases np - p,
        {
            let i: usize = 4 * p;
            let x: usize = p % (w as usize);
            let y: usize = p / (w as usize);
            proof {
                lemma_multiply_divide_lt(p as int, wi, hi);
            }
            let two_x: u64 = 2 * (x as u64);
            let two_y: u64 = 2 * (y as u64);
            let dx: u64 = if two_x >= w as u64 {
                two_x - w as u64
            } else {
                w as u64 - two_x
            };
            let dy: u64 = if two_y >= h as u64 {
                two_y - h as u64
            } else {
                h as u64 - two_y
            };
            proof {
                let xa = 2 * (x as int) - wi;
                let ya = 2 * (y as int) - hi;
                assert((dx as int) * (dx as int) == xa * xa) by (nonlinear_arith)
                    requires
                        dx as int == xa || dx as int == -xa,
                ;
                assert((dy as int) * (dy as int) == ya * ya) by (nonlinear_arith)
                    requires
                        dy as int == ya || dy as int == -ya,
                ;
                assert((dx as int) * (dx as int) < 0x400000000000000000) by (nonlinear_arith)
                    requires
                        0 <= dx < 0x200000000,
                ;
                assert((dy as int) * (dy as int) < 0x400000000000000000) by (nonlinear_arith)
                    requires
                        0 <= dy < 0x200000000,
                ;
            }
            let num: u128 = (dx as u128) * (dx as u128) + (dy as u128) * (dy as u128);
            let ghost numi = num as int;
            let ghost deni = den as int;
            proof {
                assert(numi == dist_num(p as int % wi, p as int / wi, wi, hi));
                lemma_mul_nonnegative(77, numi);
                lemma_mul_inequality(numi, 0x800000000000000000, 77);
                assert(numi * 77 == 77 * numi) by (nonlinear_arith);
            }
            let vnum: u128 = if 77 * num >= scaled {
                0
            } else {
                scaled - 77 * num
            };
            proof {
                assert(vnum == vignette_scale(numi, deni));
            }
            let nr = scale_one(self.data[i], vnum, scaled, Ghost(numi), Ghost(deni));
            let ng = scale_one(self.data[i + 1], vnum, scaled, Ghost(numi), Ghost(deni));
            let nb = scale_one(self.data[i + 2], vnum, scaled, Ghost(numi), Ghost(deni));
            let a = self.data[i + 3];
            proof {
                lemma_quad_index(p as int, 0);
                lemma_quad_index(p as int, 1);
                lemma_quad_index(p as int, 2);
                lemma_quad_index(p as int, 3);
            }
            out.push(nr);
            out.push(ng);
            out.push(nb);
            out.push(a);
            p = p + 1;
        }
        proof {
            assert(out@ =~= vignetted_bytes(s, wi, hi));
        }
        self.data = out;
    }

    /// The stages after the grain stage's smoothing, in the pipeline's
    /// fixed order: the color filter first, the vignette on its output.
    pub fn apply_finishing_stages(&mut self)
        requires
            old(self).wf(),
        ensures
            final(self).wf(),
            final(self).spec_width() == old(self).spec_width(),
            final(self).spec_height() == old(self).spec_height(),
            final(self).bytes() == vignetted_bytes(
                filtered_bytes(old(self).bytes()),
                old(self).spec_width() as int,
                old(self).spec_height() as int,
            ),
    {
        self.apply_color_filter();
        self.apply_vignette();
    }
}

/// One channel perturbed by one fresh draw, damped at extremes and clamped.
fn grain_one(c: u8, rng: &mut rand::rngs::ThreadRng) -> (r: u8)
    ensures
        exists|d: int| 0 <= d < 484 && r as int == grain_channel(c as int, d),
{
    let d = draw_uniform(rng, 0, NOISE_STEPS);
    let delta = adjust_noise(c, d);
    let v: i32 = c as i32 + delta;
    let clamped: u8 = if v < 0 {
        0
    } else if v > 255 {
        255
    } else {
        v as u8
    };
    proof {
        assert(clamped as int == grain_channel(c as int, d as int));
    }
    clamped
}

/// One channel scaled by the vignette factor `vnum / scaled` and truncated.
fn scale_one(c: u8, vnum: u128, scaled: u128, num: Ghost<int>, den: Ghost<int>) -> (r: u8)
    requires
        0 <= num@,
        0 < den@,
        scaled == 100 * den@,
        vnum == vignette_scale(num@, den@),
        scaled < 0x1000000000000000000,
    ensures
        r as int == vignette_channel(c as int, num@, den@),
{
    proof {
        lemma_vignette_channel_in_range(c as int, num@, den@);
        lemma_mul_inequality(c as int, 255, vnum as int);
        lemma_mul_inequality(vnum as int, scaled as int, 255);
        assert(255 * (vnum as int) == (vnum as int) * 255) by (nonlinear_arith);
        assert(255 * (scaled as int) == (scaled as int) * 255) by (nonlinear_arith);
    }
    ((c as u128 * vnum) / scaled) as u8
}

} // verus!
