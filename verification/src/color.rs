//! Colors as fixed-point vectors, and conversion of an accumulated sample
//! sum to one line of a plain-text image file.

use vstd::prelude::*;
use crate::fx::{ONE, mag, fmul, fdiv, fsqrt, fx_mul, fx_div, fx_sqrt};
use crate::vec::{Vector, V3};
use crate::util::{clamp, clamp_s};

verus! {

/// A color: red, green and blue fractions at fixed-point scale.
pub type Color = Vector;

/// Spec-level conversion of one accumulated channel to its displayable
/// 8-bit value: average over the samples, gamma-correct by square root,
/// clamp just below one, scale to the 8-bit range.
pub open spec fn pchan(c: int, spp: int) -> int {
    let avg = fdiv(c, spp * ONE);
    let root = fsqrt(avg);
    let cl = clamp_s(root, 0, 4290672328);
    fmul(cl, 256)
}

/// Decimal ASCII digits of a channel value in `[0, 255]`.
pub open spec fn dec_bytes(n: int) -> Seq<u8> {
    if n < 10 {
        seq![(48 + n) as u8]
    } else if n < 100 {
        seq![(48 + n / 10) as u8, (48 + n % 10) as u8]
    } else {
        seq![(48 + n / 100) as u8, (48 + (n / 10) % 10) as u8, (48 + n % 10) as u8]
    }
}

/// One image line: the three channel values separated by spaces.
pub open spec fn ppm_line(c: V3, spp: int) -> Seq<u8> {
    dec_bytes(pchan(c.x, spp)) + seq![32u8] + dec_bytes(pchan(c.y, spp)) + seq![32u8] + dec_bytes(
        pchan(c.z, spp),
    )
}

/// One channel of an accumulated color, averaged and gamma-corrected.
fn ppm_channel(c: i128, spp: i128) -> (r: u8)
    requires
        1 <= spp <= 1048576,
        0 <= c <= spp * (ONE as int),
    ensures
        r as int == pchan(c as int, spp as int),
        r <= 255,
{
    let denom: i128 = spp * ONE;
    proof {
        assert(denom <= 0x10000000000000) by (nonlinear_arith)
            requires
                1 <= spp <= 1048576 && denom == spp * (ONE as int),
        ;
        crate::fx::lemma_fdiv_bound(c as int, denom as int, denom as int, denom as int);
        vstd::arithmetic::div_mod::lemma_div_multiples_vanish(ONE as int, denom as int);
        assert(denom * (ONE as int) == (ONE as int) * denom) by (nonlinear_arith);
        assert(fdiv(c as int, denom as int) >= 0) by {
            assert((c as int) * (ONE as int) >= 0) by (nonlinear_arith)
                requires
                    c >= 0,
            ;
            vstd::arithmetic::div_mod::lemma_div_pos_is_pos(
                mag((c as int) * (ONE as int)),
                mag(denom as int),
            );
        }
    }
    let avg: i128 = fx_div(c, denom);
    let root: i128 = fx_sqrt(avg);
    proof {
        crate::fx::lemma_isqrt((avg as int) * (ONE as int));
        assert((avg as int) * (ONE as int) <= (ONE as int) * (ONE as int)) by (nonlinear_arith)
            requires
                0 <= avg <= ONE as int,
        ;
        assert(root <= ONE) by (nonlinear_arith)
            requires
                root >= 0 && (root as int) * (root as int) <= (ONE as int) * (ONE as int),
        ;
    }
    let cl: i128 = clamp(root, 0, 4290672328);
    proof {
        crate::fx::lemma_tq_bound((cl as int) * 256, ONE as int, 4290672328int * 256);
        assert((cl as int) * 256 <= 4290672328 * 256 && (cl as int) * 256 >= 0)
            by (nonlinear_arith)
            requires
                0 <= cl <= 4290672328,
        ;
        vstd::arithmetic::div_mod::lemma_div_pos_is_pos((cl as int) * 256, ONE as int);
    }
    let scaled: i128 = fx_mul(cl, 256);
    scaled as u8
}

/// The decimal ASCII digits of a channel value.
fn dec_bytes_of(n: u8) -> (r: Vec<u8>)
    ensures
        r@ == dec_bytes(n as int),
{
    let mut out: Vec<u8> = Vec::new();
    if n < 10 {
        out.push(48 + n);
    } else if n < 100 {
        out.push(48 + n / 10);
        out.push(48 + n % 10);
    } else {
        out.push(48 + n / 100);
        out.push(48 + (n / 10) % 10);
        out.push(48 + n % 10);
    }
    proof {
        assert(out@ =~= dec_bytes(n as int));
    }
    out
}

impl Vector {
    /// A color from its three channel fractions.
    pub fn new_color(r: i128, g: i128, b: i128) -> (c: Vector)
        ensures
            c@ == (V3 { x: r as int, y: g as int, z: b as int }),
    {
        Vector { x: r, y: g, z: b }
    }

    /// Red channel.
    pub fn r(&self) -> (c: i128)
        ensures
            c as int == self@.x,
    {
        self.x
    }

    /// Green channel.
    pub fn g(&self) -> (c: i128)
        ensures
            c as int == self@.y,
    {
        self.y
    }

    /// Blue channel.
    pub fn b(&self) -> (c: i128)
        ensures
            c as int == self@.z,
    {
        self.z
    }

    /// One image line for this accumulated color: averaged over `samples`
    /// estimates, gamma-corrected, clamped, and rendered as decimal ASCII.
    pub fn ppm_color(&self, samples: i128) -> (out: Vec<u8>)
        requires
            1 <= samples <= 1048576,
            0 <= self@.x <= samples * (ONE as int),
            0 <= self@.y <= samples * (ONE as int),
            0 <= self@.z <= samples * (ONE as int),
        ensures
            out@ == ppm_line(self@, samples as int),
    {
        let rc: u8 = ppm_channel(self.x, samples);
        let gc: u8 = ppm_channel(self.y, samples);
        let bc: u8 = ppm_channel(self.z, samples);
        let mut out: Vec<u8> = dec_bytes_of(rc);
        out.push(32);
        let mut gv: Vec<u8> = dec_bytes_of(gc);
        out.append(&mut gv);
        out.push(32);
        let mut bv: Vec<u8> = dec_bytes_of(bc);
        out.append(&mut bv);
        proof {
            assert(out@ =~= ppm_line(self@, samples as int));
        }
        out
    }
}

} // verus!
