//! Exact frequency-domain arithmetic: the dual-frequency ionosphere-free
//! combination and the clock-corrected pseudorange-to-distance conversion.
//!
//! Values are fixed-point integers: distances in nanometers, clock offsets in
//! nanoseconds, frequencies in hertz. In these units the speed of light is
//! the integer 299,792,458 nanometers per nanosecond, and both formulas are
//! computed exactly over wide integers; a result is omitted (never rounded
//! into range) when it falls outside the 64-bit value range.
use vstd::prelude::*;

use vstd::arithmetic::div_mod::lemma_div_multiples_vanish;

use crate::observation::ObservationData;

verus! {

/// The speed of light in nanometers per nanosecond (the same integer as
/// meters per second).
pub const SPEED_OF_LIGHT_NM_PER_NS: i64 = 299_792_458;

/// Round-toward-zero quotient, for a positive divisor.
pub open spec fn div_trunc(a: int, b: int) -> int {
    if a >= 0 {
        a / b
    } else {
        -((-a) / b)
    }
}

/// The ionosphere-free combination over the integers:
/// `(f0^2 v0 - f1^2 v1) / (f0^2 - f1^2)`, the quotient rounded toward zero.
pub open spec fn iono_free_spec(f0: int, f1: int, v0: int, v1: int) -> int {
    let num = f0 * f0 * v0 - f1 * f1 * v1;
    let den = f0 * f0 - f1 * f1;
    if den < 0 {
        div_trunc(-num, -den)
    } else {
        div_trunc(num, den)
    }
}

/// Computes the dual-frequency ionosphere-free combination of two raw values
/// measured at distinct carrier frequencies. Returns `None` exactly when the
/// combination falls outside the 64-bit range. Two equal raw values always
/// combine to exactly that value, whatever the two distinct frequencies.
pub fn iono_free_combination(f0: u64, f1: u64, v0: i64, v1: i64) -> (r: Option<i64>)
    requires
        f0 != f1,
        1_000_000_000 <= f0 <= 2_000_000_000,
        1_000_000_000 <= f1 <= 2_000_000_000,
    ensures
        match r {
            Some(x) => x as int == iono_free_spec(f0 as int, f1 as int, v0 as int, v1 as int),
            None => iono_free_spec(f0 as int, f1 as int, v0 as int, v1 as int) > i64::MAX as int
                || iono_free_spec(f0 as int, f1 as int, v0 as int, v1 as int) < i64::MIN as int,
        },
        v0 == v1 ==> r == Some(v0),
{
    proof {
        assert(1_000_000_000_000_000_000 <= (f0 as int) * (f0 as int)
            <= 4_000_000_000_000_000_000) by (nonlinear_arith)
            requires
                1_000_000_000 <= f0 <= 2_000_000_000,
        ;
        assert(1_000_000_000_000_000_000 <= (f1 as int) * (f1 as int)
            <= 4_000_000_000_000_000_000) by (nonlinear_arith)
            requires
                1_000_000_000 <= f1 <= 2_000_000_000,
        ;
        assert((f0 as int) * (f0 as int) != (f1 as int) * (f1 as int)) by (nonlinear_arith)
            requires
                f0 != f1,
                f0 >= 1,
                f1 >= 1,
        ;
    }
    let ff0: i128 = (f0 as i128) * (f0 as i128);
    let ff1: i128 = (f1 as i128) * (f1 as i128);
    proof {
        let bound: int = 0x4000_0000_0000_0000_0000_0000_0000_0000;
        assert(-bound < (ff0 as int) * (v0 as int) < bound) by (nonlinear_arith)
            requires
                0 <= (ff0 as int) <= 4_000_000_000_000_000_000,
                -0x8000_0000_0000_0000 <= (v0 as int) <= 0x7fff_ffff_ffff_ffff,
                bound == 0x4000_0000_0000_0000_0000_0000_0000_0000,
        ;
        assert(-bound < (ff1 as int) * (v1 as int) < bound) by (nonlinear_arith)
            requires
                0 <= (ff1 as int) <= 4_000_000_000_000_000_000,
                -0x8000_0000_0000_0000 <= (v1 as int) <= 0x7fff_ffff_ffff_ffff,
                bound == 0x4000_0000_0000_0000_0000_0000_0000_0000,
        ;
    }
    let a: i128 = ff0 * (v0 as i128);
    let b: i128 = ff1 * (v1 as i128);
    let num: i128 = a - b;
    let den: i128 = ff0 - ff1;
    let (n2, d2): (i128, i128) = if den < 0 {
        (-num, -den)
    } else {
        (num, den)
    };
    let q_mag: u128 = if n2 >= 0 {
        (n2 as u128) / (d2 as u128)
    } else {
        ((-n2) as u128) / (d2 as u128)
    };
    proof {
        if n2 >= 0 {
            assert((n2 as u128 as int) / (d2 as u128 as int) <= n2 as int) by (nonlinear_arith)
                requires
                    n2 >= 0,
                    d2 >= 1,
            ;
        } else {
            assert(((-n2) as u128 as int) / (d2 as u128 as int) <= -(n2 as int))
                by (nonlinear_arith)
                requires
                    n2 < 0,
                    d2 >= 1,
            ;
        }
    }
    let fits_pos = n2 >= 0 && q_mag <= i64::MAX as u128;
    let fits_neg = n2 < 0 && q_mag <= 0x8000_0000_0000_0000u128;
    let ghost spec_q = iono_free_spec(f0 as int, f1 as int, v0 as int, v1 as int);
    proof {
        assert(num as int == (f0 as int) * (f0 as int) * (v0 as int) - (f1 as int) * (f1 as int)
            * (v1 as int)) by (nonlinear_arith)
            requires
                num as int == a as int - b as int,
                a as int == (ff0 as int) * (v0 as int),
                b as int == (ff1 as int) * (v1 as int),
                ff0 as int == (f0 as int) * (f0 as int),
                ff1 as int == (f1 as int) * (f1 as int),
        ;
        assert(den as int == (f0 as int) * (f0 as int) - (f1 as int) * (f1 as int));
        if n2 >= 0 {
            assert(spec_q == (n2 as int) / (d2 as int));
        } else {
            assert(spec_q == -((-(n2 as int)) / (d2 as int)));
        }
        if v0 == v1 {
            assert(num as int == (den as int) * (v0 as int)) by (nonlinear_arith)
                requires
                    v0 == v1,
                    num as int == a as int - b as int,
                    a as int == (ff0 as int) * (v0 as int),
                    b as int == (ff1 as int) * (v1 as int),
                    den as int == ff0 as int - ff1 as int,
            ;
            assert(n2 as int == (d2 as int) * (v0 as int)) by (nonlinear_arith)
                requires
                    num as int == (den as int) * (v0 as int),
                    (den < 0 ==> n2 as int == -(num as int) && d2 as int == -(den as int)),
                    (!(den < 0) ==> n2 as int == num as int && d2 as int == den as int),
            ;
            lemma_div_multiples_vanish(v0 as int, d2 as int);
            if n2 >= 0 {
                assert((v0 as int) >= 0) by (nonlinear_arith)
                    requires
                        n2 as int == (d2 as int) * (v0 as int),
                        n2 >= 0,
                        d2 >= 1,
                ;
                assert(q_mag as int == v0 as int);
            } else {
                assert((v0 as int) < 0) by (nonlinear_arith)
                    requires
                        n2 as int == (d2 as int) * (v0 as int),
                        n2 < 0,
                        d2 >= 1,
                ;
                lemma_div_multiples_vanish(-(v0 as int), d2 as int);
                assert((d2 as int) * (-(v0 as int)) == -(n2 as int)) by (nonlinear_arith)
                    requires
                        n2 as int == (d2 as int) * (v0 as int),
                ;
                assert(q_mag as int == -(v0 as int));
            }
        }
    }
    if fits_pos {
        Some(q_mag as i64)
    } else if fits_neg {
        let r: i64 = if q_mag == 0x8000_0000_0000_0000u128 {
            i64::MIN
        } else {
            -(q_mag as i64)
        };
        proof {
            assert(r as int == -(q_mag as int));
        }
        Some(r)
    } else if v0 == v1 {
        proof {
            assert(false);
        }
        None
    } else {
        proof {
            if n2 >= 0 {
                assert(spec_q > i64::MAX as int);
            } else {
                assert(spec_q < i64::MIN as int);
            }
        }
        None
    }
}

/// The clock-corrected distance: the raw pseudorange (nanometers) minus the
/// light-travel equivalent of the receiver-to-vehicle clock difference
/// (nanoseconds), plus an explicit extra bias (nanometers).
pub open spec fn pr_distance_spec(raw: int, local_clk: int, distant_clk: int, bias: int) -> int {
    raw - 299_792_458 * (local_clk - distant_clk) + bias
}

/// Converts one raw pseudorange to a clock-corrected distance. Returns
/// `None` exactly when the corrected distance falls outside the 64-bit
/// range.
pub fn pr_to_distance(raw: i64, local_clk: i64, distant_clk: i64, bias: i64) -> (r: Option<i64>)
    ensures
        match r {
            Some(x) => x as int == pr_distance_spec(
                raw as int,
                local_clk as int,
                distant_clk as int,
                bias as int,
            ),
            None => pr_distance_spec(raw as int, local_clk as int, distant_clk as int, bias as int)
                > i64::MAX as int || pr_distance_spec(
                raw as int,
                local_clk as int,
                distant_clk as int,
                bias as int,
            ) < i64::MIN as int,
        },
{
    let c: i128 = SPEED_OF_LIGHT_NM_PER_NS as i128;
    let delta: i128 = (local_clk as i128) - (distant_clk as i128);
    proof {
        assert(-0x8000_0000_0000_0000_0000 * 0x1_0000_0000 <= c as int * (delta as int)
            <= 0x8000_0000_0000_0000_0000 * 0x1_0000_0000) by (nonlinear_arith)
            requires
                c == 299_792_458,
                -0x1_0000_0000_0000_0000 <= delta as int <= 0x1_0000_0000_0000_0000,
        ;
    }
    let corrected: i128 = (raw as i128) - c * delta + (bias as i128);
    if corrected >= i64::MIN as i128 && corrected <= i64::MAX as i128 {
        Some(corrected as i64)
    } else {
        None
    }
}

impl ObservationData {
    /// The clock-corrected distance of this measurement, taken as a raw
    /// pseudorange in nanometers. Returns `None` exactly when the corrected
    /// distance falls outside the 64-bit range.
    pub fn pr_real_distance(&self, local_clk: i64, distant_clk: i64, bias: i64) -> (r: Option<
        i64,
    >)
        ensures
            match r {
                Some(x) => x as int == pr_distance_spec(
                    self.obs as int,
                    local_clk as int,
                    distant_clk as int,
                    bias as int,
                ),
                None => pr_distance_spec(
                    self.obs as int,
                    local_clk as int,
                    distant_clk as int,
                    bias as int,
                ) > i64::MAX as int || pr_distance_spec(
                    self.obs as int,
                    local_clk as int,
                    distant_clk as int,
                    bias as int,
                ) < i64::MIN as int,
            },
    {
        pr_to_distance(self.obs, local_clk, distant_clk, bias)
    }
}

} // verus!
