//! The per-bounce radiance estimator.
//!
//! At a non-specular bounce, the integrator combines emitted radiance,
//! attenuation, the recursively estimated incoming radiance, the
//! material's own scattering density at the chosen direction and the
//! mixture density that produced it:
//! `emitted + attenuation * incoming * scattering_pdf / mixture_pdf`.
//! The combination arithmetic is exact; the densities themselves are
//! evaluated by the sampling code around the core.

use vstd::prelude::*;
use crate::num::{Frac, frac_eq, FRAC_BOUND};
use crate::vec3::FVec3;

verus! {

/// Bound on the parts of every operand of a radiance combination, so the
/// exact products stay within fraction range.
pub open spec fn radiance_frac_wf(f: Frac) -> bool {
    &&& 1 <= f.d <= 1000
    &&& -1000 <= f.n <= 1000
}

pub open spec fn radiance_wf(c: FVec3) -> bool {
    &&& radiance_frac_wf(c.x)
    &&& radiance_frac_wf(c.y)
    &&& radiance_frac_wf(c.z)
}

/// One channel of the estimator: `e + a * i * s / m`, exactly.
fn combine_channel(e: Frac, a: Frac, inc: Frac, spdf: Frac, mpdf: Frac) -> (r: Frac)
    requires
        radiance_frac_wf(e),
        radiance_frac_wf(a),
        radiance_frac_wf(inc),
        radiance_frac_wf(spdf),
        radiance_frac_wf(mpdf),
        mpdf.n > 0,
    ensures
        r.wf(),
        r.n == e.n * (a.d * inc.d * spdf.d * mpdf.n)
            + a.n * inc.n * spdf.n * mpdf.d * e.d,
        r.d == e.d * (a.d * inc.d * spdf.d * mpdf.n),
        r.d > 0,
{
    proof {
        crate::num::lemma_mul_bound(a.n as int, inc.n as int, 1000, 1000);
        crate::num::lemma_mul_bound(a.n * inc.n, spdf.n as int, 1_000_000, 1000);
        crate::num::lemma_mul_bound(a.n * inc.n * spdf.n, mpdf.d as int, 1_000_000_000, 1000);
        crate::num::lemma_mul_bound(a.d as int, inc.d as int, 1000, 1000);
        crate::num::lemma_mul_bound(a.d * inc.d, spdf.d as int, 1_000_000, 1000);
        crate::num::lemma_mul_bound(a.d * inc.d * spdf.d, mpdf.n as int, 1_000_000_000, 1000);
        crate::num::lemma_pos_mul(a.d as int, inc.d as int);
        crate::num::lemma_pos_mul(a.d * inc.d, spdf.d as int);
        crate::num::lemma_pos_mul(a.d * inc.d * spdf.d, mpdf.n as int);
        crate::num::lemma_mul_bound(e.n as int, a.d * inc.d * spdf.d * mpdf.n, 1000,
            1_000_000_000_000);
        crate::num::lemma_mul_bound(a.n * inc.n * spdf.n * mpdf.d, e.d as int,
            1_000_000_000_000, 1000);
        crate::num::lemma_mul_bound(e.d as int, a.d * inc.d * spdf.d * mpdf.n, 1000,
            1_000_000_000_000);
        crate::num::lemma_pos_mul(e.d as int, a.d * inc.d * spdf.d * mpdf.n);
    }
    let weight_num = a.n * inc.n * spdf.n * mpdf.d;
    let weight_den = a.d * inc.d * spdf.d * mpdf.n;
    Frac { n: e.n * weight_den + weight_num * e.d, d: e.d * weight_den }
}

/// The multiple-importance-sampling contribution of one non-specular
/// bounce: componentwise
/// `emitted + attenuation * incoming * scattering_pdf / mixture_pdf`.
pub fn mis_combine(emitted: &FVec3, attenuation: &FVec3, incoming: &FVec3, spdf: Frac,
    mpdf: Frac) -> (r: FVec3)
    requires
        radiance_wf(*emitted),
        radiance_wf(*attenuation),
        radiance_wf(*incoming),
        radiance_frac_wf(spdf),
        radiance_frac_wf(mpdf),
        mpdf.n > 0,
    ensures
        r.x.wf() && r.y.wf() && r.z.wf(),
        r.x.n == emitted.x.n * (attenuation.x.d * incoming.x.d * spdf.d * mpdf.n)
            + attenuation.x.n * incoming.x.n * spdf.n * mpdf.d * emitted.x.d,
        r.x.d == emitted.x.d * (attenuation.x.d * incoming.x.d * spdf.d * mpdf.n),
        r.y.n == emitted.y.n * (attenuation.y.d * incoming.y.d * spdf.d * mpdf.n)
            + attenuation.y.n * incoming.y.n * spdf.n * mpdf.d * emitted.y.d,
        r.y.d == emitted.y.d * (attenuation.y.d * incoming.y.d * spdf.d * mpdf.n),
        r.z.n == emitted.z.n * (attenuation.z.d * incoming.z.d * spdf.d * mpdf.n)
            + attenuation.z.n * incoming.z.n * spdf.n * mpdf.d * emitted.z.d,
        r.z.d == emitted.z.d * (attenuation.z.d * incoming.z.d * spdf.d * mpdf.n),
    {
    FVec3 {
        x: combine_channel(emitted.x, attenuation.x, incoming.x, spdf, mpdf),
        y: combine_channel(emitted.y, attenuation.y, incoming.y, spdf, mpdf),
        z: combine_channel(emitted.z, attenuation.z, incoming.z, spdf, mpdf),
    }
}

/// The contribution of a specular bounce: componentwise
/// `emitted + attenuation * incoming`, with no density weighting, since a
/// specular reflection's delta density cancels against itself.
pub fn specular_combine(emitted: &FVec3, attenuation: &FVec3, incoming: &FVec3) -> (r: FVec3)
    requires
        radiance_wf(*emitted),
        radiance_wf(*attenuation),
        radiance_wf(*incoming),
    ensures
        r.x.n == emitted.x.n * (attenuation.x.d * incoming.x.d)
            + attenuation.x.n * incoming.x.n * emitted.x.d,
        r.x.d == emitted.x.d * (attenuation.x.d * incoming.x.d),
        r.y.n == emitted.y.n * (attenuation.y.d * incoming.y.d)
            + attenuation.y.n * incoming.y.n * emitted.y.d,
        r.y.d == emitted.y.d * (attenuation.y.d * incoming.y.d),
        r.z.n == emitted.z.n * (attenuation.z.d * incoming.z.d)
            + attenuation.z.n * incoming.z.n * emitted.z.d,
        r.z.d == emitted.z.d * (attenuation.z.d * incoming.z.d),
        r.x.wf() && r.y.wf() && r.z.wf(),
{
    FVec3 {
        x: specular_channel(emitted.x, attenuation.x, incoming.x),
        y: specular_channel(emitted.y, attenuation.y, incoming.y),
        z: specular_channel(emitted.z, attenuation.z, incoming.z),
    }
}

/// One channel of the specular estimator: `e + a * i`, exactly.
fn specular_channel(e: Frac, a: Frac, inc: Frac) -> (r: Frac)
    requires
        radiance_frac_wf(e),
        radiance_frac_wf(a),
        radiance_frac_wf(inc),
    ensures
        r.n == e.n * (a.d * inc.d) + a.n * inc.n * e.d,
        r.d == e.d * (a.d * inc.d),
        r.wf(),
{
    proof {
        crate::num::lemma_mul_bound(a.n as int, inc.n as int, 1000, 1000);
        crate::num::lemma_mul_bound(a.d as int, inc.d as int, 1000, 1000);
        crate::num::lemma_pos_mul(a.d as int, inc.d as int);
        crate::num::lemma_mul_bound(e.n as int, a.d * inc.d, 1000, 1_000_000);
        crate::num::lemma_mul_bound(a.n * inc.n, e.d as int, 1_000_000, 1000);
        crate::num::lemma_mul_bound(e.d as int, a.d * inc.d, 1000, 1_000_000);
        crate::num::lemma_pos_mul(e.d as int, a.d * inc.d);
    }
    let weight_den = a.d * inc.d;
    Frac { n: e.n * weight_den + a.n * inc.n * e.d, d: e.d * weight_den }
}

/// No energy appears from nothing: a bounce at a black surface with no
/// emission contributes zero radiance, whatever the recursive estimate and
/// the density values were.
pub proof fn lemma_black_bounce_is_black(emitted: FVec3, attenuation: FVec3, incoming: FVec3,
    spdf: Frac, mpdf: Frac, r: FVec3)
    requires
        emitted.x.n == 0 && emitted.y.n == 0 && emitted.z.n == 0,
        attenuation.x.n == 0 && attenuation.y.n == 0 && attenuation.z.n == 0,
        emitted.x.d > 0 && emitted.y.d > 0 && emitted.z.d > 0,
        r.x.d > 0 && r.y.d > 0 && r.z.d > 0,
        // The estimator's exact result shape:
        r.x.n == emitted.x.n * (attenuation.x.d * incoming.x.d * spdf.d * mpdf.n)
            + attenuation.x.n * incoming.x.n * spdf.n * mpdf.d * emitted.x.d,
        r.y.n == emitted.y.n * (attenuation.y.d * incoming.y.d * spdf.d * mpdf.n)
            + attenuation.y.n * incoming.y.n * spdf.n * mpdf.d * emitted.y.d,
        r.z.n == emitted.z.n * (attenuation.z.d * incoming.z.d * spdf.d * mpdf.n)
            + attenuation.z.n * incoming.z.n * spdf.n * mpdf.d * emitted.z.d,
    ensures
        frac_eq(r.x, Frac { n: 0, d: 1 }),
        frac_eq(r.y, Frac { n: 0, d: 1 }),
        frac_eq(r.z, Frac { n: 0, d: 1 }),
{
    assert(r.x.n == 0 && r.y.n == 0 && r.z.n == 0) by (nonlinear_arith)
        requires
            emitted.x.n == 0 && emitted.y.n == 0 && emitted.z.n == 0,
            attenuation.x.n == 0 && attenuation.y.n == 0 && attenuation.z.n == 0,
            r.x.n == emitted.x.n * (attenuation.x.d * incoming.x.d * spdf.d * mpdf.n)
                + attenuation.x.n * incoming.x.n * spdf.n * mpdf.d * emitted.x.d,
            r.y.n == emitted.y.n * (attenuation.y.d * incoming.y.d * spdf.d * mpdf.n)
                + attenuation.y.n * incoming.y.n * spdf.n * mpdf.d * emitted.y.d,
            r.z.n == emitted.z.n * (attenuation.z.d * incoming.z.d * spdf.d * mpdf.n)
                + attenuation.z.n * incoming.z.n * spdf.n * mpdf.d * emitted.z.d;
}

} // verus!
