//! The scattering decision of a homogeneous participating medium.
//!
//! A constant-density volume finds the two crossings of its convex
//! boundary, clips them to the search interval, and scatters if a sampled
//! flight distance ends inside the clipped segment. Drawing the flight
//! distance takes a logarithm, so the draw happens outside the core and
//! arrives here, in parameter units along the ray, as an exact fraction;
//! the clipping and the decision are exact.

use vstd::prelude::*;
use crate::num::{Frac, frac_le, frac_lt, frac_eq};

verus! {

/// Bound on the parts of the interval endpoints and the flight parameter,
/// so that clipping and the final sum stay within fraction range.
pub open spec fn medium_frac_wf(f: Frac) -> bool {
    &&& 1 <= f.d <= 100_000_000
    &&& -100_000_000 <= f.n <= 100_000_000
}

/// The lower end of the clipped scattering segment: the boundary entry,
/// clipped to the search interval and to zero.
pub open spec fn medium_entry(t1: Frac, t_min: Frac) -> Frac {
    let lo = if frac_lt(t1, t_min) {
        t_min
    } else {
        t1
    };
    if lo.n < 0 {
        Frac { n: 0, d: 1 }
    } else {
        lo
    }
}

/// The upper end of the clipped scattering segment: the boundary exit,
/// clipped to the search interval.
pub open spec fn medium_exit(t2: Frac, t_max: Frac) -> Frac {
    if frac_lt(t_max, t2) {
        t_max
    } else {
        t2
    }
}

/// Decide scattering inside a homogeneous medium. `t1 <= t2` are the two
/// boundary crossings of the ray, `flight` the sampled scattering distance
/// in parameter units. The result is the scattering parameter
/// `entry + flight` exactly when the flight ends within the clipped
/// segment, and nothing otherwise.
pub fn medium_scatter(t1: Frac, t2: Frac, t_min: Frac, t_max: Frac, flight: Frac)
    -> (res: Option<Frac>)
    requires
        medium_frac_wf(t1),
        medium_frac_wf(t2),
        medium_frac_wf(t_min),
        medium_frac_wf(t_max),
        medium_frac_wf(flight),
        flight.n >= 0,
    ensures
        match res {
            Some(t) => {
                &&& t.wf()
                &&& frac_lt(medium_entry(t1, t_min), medium_exit(t2, t_max))
                &&& frac_le(flight, medium_exit(t2, t_max).sub_spec(medium_entry(t1, t_min)))
                &&& frac_eq(t, medium_entry(t1, t_min).add_spec(flight))
            },
            None => !frac_lt(medium_entry(t1, t_min), medium_exit(t2, t_max))
                || !frac_le(flight, medium_exit(t2, t_max).sub_spec(medium_entry(t1, t_min))),
        },
{
    let lo0 = if t1.lt(&t_min) {
        t_min
    } else {
        t1
    };
    let lo = if lo0.n < 0 {
        Frac { n: 0, d: 1 }
    } else {
        lo0
    };
    let hi = if t_max.lt(&t2) {
        t_max
    } else {
        t2
    };
    proof {
        assert(lo == medium_entry(t1, t_min));
        assert(hi == medium_exit(t2, t_max));
        assert(medium_frac_wf(lo));
        assert(medium_frac_wf(hi));
    }
    if !lo.lt(&hi) {
        return None;
    }
    proof {
        crate::num::lemma_mul_bound(hi.n as int, lo.d as int, 100_000_000, 100_000_000);
        crate::num::lemma_mul_bound(lo.n as int, hi.d as int, 100_000_000, 100_000_000);
        crate::num::lemma_mul_bound(hi.d as int, lo.d as int, 100_000_000, 100_000_000);
        crate::num::lemma_pos_mul(hi.d as int, lo.d as int);
    }
    let seg = hi.sub(&lo);
    if !flight.le(&seg) {
        return None;
    }
    proof {
        crate::num::lemma_mul_bound(lo.n as int, flight.d as int, 100_000_000, 100_000_000);
        crate::num::lemma_mul_bound(flight.n as int, lo.d as int, 100_000_000, 100_000_000);
        crate::num::lemma_mul_bound(lo.d as int, flight.d as int, 100_000_000, 100_000_000);
        crate::num::lemma_pos_mul(lo.d as int, flight.d as int);
    }
    let t = lo.add(&flight);
    Some(t)
}

} // verus!
