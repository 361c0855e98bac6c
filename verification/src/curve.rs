//! Closed-form synthetic transmission dips: a Lorentzian form, a
//! Gaussian form, and a blended form selecting between them.
//!
//! Everything is fixed point: wavelengths, attenuations and results are
//! milli-units, so every function here is an exact, deterministic
//! integer computation.  The square root, exponential and logarithm are
//! integer approximations defined by the spec functions below; the dip
//! value at the resonant wavelength is exact: `-a - bias`.
//!
//! The Lorentzian half-width factor `w / (2*sqrt(|a/3 - 1|))` is
//! undefined where `a/3` rounds to exactly one; callers must guard that
//! input (`lorentzian_defined`) rather than propagate a junk value.
use vstd::prelude::*;

verus! {

/// Largest magnitude, in milli-units, accepted for curve inputs.
pub const CURVE_LIMIT: i64 = 10_000_000;

/// All curve parameters lie in the exact-arithmetic range.
pub open spec fn curve_params_ok(a: int, x0: int, w: int, bias: int) -> bool {
    &&& 0 <= a <= CURVE_LIMIT
    &&& -CURVE_LIMIT <= x0 <= CURVE_LIMIT
    &&& 1 <= w <= CURVE_LIMIT
    &&& -CURVE_LIMIT <= bias <= CURVE_LIMIT
}

/// A wavelength in the exact-arithmetic range.
pub open spec fn curve_input_ok(x: int) -> bool {
    -CURVE_LIMIT <= x <= CURVE_LIMIT
}

/// The Lorentzian factor exists: `a/3` does not round to one.
pub open spec fn lorentzian_defined(a: int) -> bool {
    a / 3 != 1000
}

/// Integer square root by unit steps from `r`: the helper behind
/// `spec_isqrt`.
pub open spec fn isqrt_from(n: int, r: int) -> int
    decreases n - r
        when 0 <= r && r * r <= n
        via isqrt_from_decreases
{
    if (r + 1) * (r + 1) <= n {
        isqrt_from(n, r + 1)
    } else {
        r
    }
}

#[via_fn]
proof fn isqrt_from_decreases(n: int, r: int) {
    assert((r + 1) * (r + 1) <= n ==> r + 1 <= n) by (nonlinear_arith);
}

/// The integer square root: the largest `r` with `r * r <= n`.
pub open spec fn spec_isqrt(n: int) -> int {
    isqrt_from(n, 0)
}

/// `v` forced into `[lo, hi]`.
pub open spec fn spec_clamp_i(v: int, lo: int, hi: int) -> int {
    if v < lo {
        lo
    } else if v > hi {
        hi
    } else {
        v
    }
}

/// Computes the integer square root.
pub fn isqrt(n: u64) -> (r: u64)
    requires
        n <= 10_000_000_000,
    ensures
        r == spec_isqrt(n as int),
        r * r <= n < (r + 1) * (r + 1),
        r <= 100_000,
{
    let mut r: u64 = 0;
    loop
        invariant
            n <= 10_000_000_000,
            0 <= r,
            r * r <= n,
            spec_isqrt(n as int) == isqrt_from(n as int, r as int),
        decreases n - r,
    {
        proof {
            assert(r <= 100_000) by (nonlinear_arith)
                requires
                    r * r <= n <= 10_000_000_000,
            ;
            assert((r + 1) * (r + 1) <= 10_000_200_001) by (nonlinear_arith)
                requires
                    r <= 100_000,
            ;
        }
        let next: u64 = (r + 1) * (r + 1);
        if next <= n {
            proof {
                assert(r + 1 <= n) by (nonlinear_arith)
                    requires
                        (r + 1) * (r + 1) <= n,
                ;
            }
            r = r + 1;
        } else {
            proof {
                assert(r <= 100_000) by (nonlinear_arith)
                    requires
                        r * r <= n <= 10_000_000_000,
                ;
            }
            return r;
        }
    }
}

/// The truncated alternating series for `e^(-f/1000)` on one unit
/// interval, clamped into `[0, 1000]`.
pub open spec fn spec_exp_frac(f: int) -> int {
    spec_clamp_i(1000 - f + f * f / 2000 - f * f * f / 6_000_000, 0, 1000)
}

/// `v` decayed `k` times by the factor `e^-1 ~ 368/1000`.
pub open spec fn spec_decay(v: int, k: nat) -> int
    decreases k,
{
    if k == 0 {
        v
    } else {
        spec_decay(v, (k - 1) as nat) * 368 / 1000
    }
}

/// `1000 * e^(-u/1000)`, as the integer approximation computed here:
/// the series value on the fractional part, decayed once per whole
/// unit, and zero from 15 units on.
pub open spec fn spec_exp_neg_milli(u: int) -> int {
    if u >= 15000 {
        0
    } else {
        spec_decay(spec_exp_frac(u % 1000), (u / 1000) as nat)
    }
}

/// Computes `spec_exp_neg_milli`.
pub fn exp_neg_milli(u: i64) -> (r: i64)
    requires
        0 <= u,
    ensures
        r == spec_exp_neg_milli(u as int),
        0 <= r <= 1000,
{
    if u >= 15000 {
        return 0;
    }
    let uu: u64 = u as u64;
    let f: i64 = (uu % 1000) as i64;
    let k: i64 = (uu / 1000) as i64;
    let fu: u64 = f as u64;
    proof {
        assert(fu * fu <= 1_000_000 && fu * fu * fu <= 1_000_000_000) by (nonlinear_arith)
            requires
                fu <= 999,
        ;
    }
    let series: i64 = 1000 - f + ((fu * fu / 2000) as i64) - ((fu * fu * fu / 6_000_000) as i64);
    let v0: i64 = if series < 0 {
        0
    } else if series > 1000 {
        1000
    } else {
        series
    };
    let mut v: i64 = v0;
    let mut i: i64 = 0;
    while i < k
        invariant
            0 <= i <= k < 15,
            0 <= v <= 1000,
            v == spec_decay(v0 as int, i as nat),
            v0 == spec_exp_frac(f as int),
        decreases k - i,
    {
        v = ((v as u64) * 368 / 1000) as i64;
        i = i + 1;
    }
    v
}

/// Whether the logarithm search stops at `u`: the integer exponential
/// has decayed to the target ratio `y` (given in milli, with ratios
/// above one folded through their reciprocal).
pub open spec fn ln_cond(y: int, u: int) -> bool {
    if y >= 1000 {
        spec_exp_neg_milli(u) * y <= 1_000_000
    } else {
        spec_exp_neg_milli(u) <= y
    }
}

/// The logarithm search from `u` upward, capped at 15000.
pub open spec fn ln_search(y: int, u: int) -> int
    decreases 15000 - u
        when u <= 15000
{
    if u >= 15000 {
        15000
    } else if ln_cond(y, u) {
        u
    } else {
        ln_search(y, u + 1)
    }
}

/// `1000 * |ln(y/1000)|`, as the integer approximation computed here:
/// the smallest `u` whose integer exponential reaches the ratio, capped
/// at 15000.
pub open spec fn spec_ln_abs_milli(y: int) -> int {
    ln_search(y, 0)
}

/// Computes `spec_ln_abs_milli`.
pub fn ln_abs_milli(y: i64) -> (r: i64)
    requires
        1 <= y <= 4_000_000_000,
    ensures
        r == spec_ln_abs_milli(y as int),
        0 <= r <= 15000,
{
    let mut u: i64 = 0;
    while u < 15000
        invariant
            0 <= u <= 15000,
            1 <= y <= 4_000_000_000,
            spec_ln_abs_milli(y as int) == ln_search(y as int, u as int),
        decreases 15000 - u,
    {
        let e: i64 = exp_neg_milli(u);
        proof {
            assert(0 <= e * y <= 4_000_000_000_000) by (nonlinear_arith)
                requires
                    0 <= e <= 1000,
                    0 <= y <= 4_000_000_000,
            ;
        }
        let stop: bool = if y >= 1000 {
            e * y <= 1_000_000
        } else {
            e <= y
        };
        if stop {
            return u;
        }
        u = u + 1;
    }
    15000
}

/// The Lorentzian half-width factor `w / (2*sqrt(|a/3 - 1|))` in milli,
/// clamped into `[1, CURVE_LIMIT]`.
pub open spec fn spec_lorentz_factor(a: int, w: int) -> int {
    let dev = if a / 3 >= 1000 {
        a / 3 - 1000
    } else {
        1000 - a / 3
    };
    let sm = spec_isqrt(dev * 1000);
    spec_clamp_i(w * 1000 / (2 * sm), 1, CURVE_LIMIT as int)
}

/// The Lorentzian dip `-a / (1 + ((x-x0)/factor)^2) - bias` in milli.
/// The normalized offset is clamped at a thousand units, where the dip
/// term has fully vanished at this resolution.
pub open spec fn spec_lorentzian_at(x: int, a: int, x0: int, w: int, bias: int) -> int {
    let f = spec_lorentz_factor(a, w);
    let ad = if x >= x0 {
        x - x0
    } else {
        x0 - x
    };
    let q = spec_clamp_i(ad * 1000 / f, 0, 1_000_000);
    let t = q * q / 1000;
    -(a * 1000 / (1000 + t)) - bias
}

/// The Gaussian width `w / (2*sqrt(4*|ln(a/3.01)|))` in milli, clamped
/// into `[1, CURVE_LIMIT]` (an `a` near 3.01 makes the true width
/// unbounded; the clamp caps it).
pub open spec fn spec_gauss_sigma(a: int, w: int) -> int {
    let y = if a * 1000 / 3010 >= 1 {
        a * 1000 / 3010
    } else {
        1
    };
    let l = spec_ln_abs_milli(y);
    let den = 2 * spec_isqrt(4000 * l);
    if den >= 1 {
        spec_clamp_i(w * 1000 / den, 1, CURVE_LIMIT as int)
    } else {
        CURVE_LIMIT as int
    }
}

/// The Gaussian dip `-a * exp(-(x-x0)^2 / (2*sigma^2)) - bias` in milli.
pub open spec fn spec_gauss_at(x: int, a: int, x0: int, w: int, bias: int) -> int {
    let s = spec_gauss_sigma(a, w);
    let d = if x >= x0 {
        x - x0
    } else {
        x0 - x
    };
    let u = 1000 * d * d / (2 * s * s);
    let e = spec_exp_neg_milli(if u >= 15000 {
        15000
    } else {
        u
    });
    -(a * e / 1000) - bias
}

/// The blended dip: pure Lorentzian below the selector threshold of
/// one half, else the Lorentzian+Gaussian composite at half depth and
/// half width, re-biased as a single dip.
pub open spec fn spec_blend_at(x: int, a: int, x0: int, w: int, bias: int, sel: int) -> int {
    if sel < 500 {
        spec_lorentzian_at(x, a, x0, w, bias)
    } else {
        let hw = if w / 2 >= 1 {
            w / 2
        } else {
            1int
        };
        spec_lorentzian_at(x, a / 2, x0, hw, bias) + spec_gauss_at(x, a / 2, x0, hw, bias) + bias
    }
}

/// The blend is defined when the Lorentzian it evaluates is.
pub open spec fn blend_defined(a: int, sel: int) -> bool {
    if sel < 500 {
        lorentzian_defined(a)
    } else {
        lorentzian_defined(a / 2)
    }
}

/// Decides `lorentzian_defined`, so callers can reject the singular
/// attenuation before evaluating.
pub fn lorentzian_defined_check(a: i64) -> (r: bool)
    requires
        0 <= a,
    ensures
        r == lorentzian_defined(a as int),
{
    a / 3 != 1000
}

/// Evaluates the Lorentzian dip at one wavelength.
pub fn lorentzian_at(x: i64, a: i64, x0: i64, w: i64, bias: i64) -> (r: i64)
    requires
        curve_params_ok(a as int, x0 as int, w as int, bias as int),
        curve_input_ok(x as int),
        lorentzian_defined(a as int),
    ensures
        r == spec_lorentzian_at(x as int, a as int, x0 as int, w as int, bias as int),
        x == x0 ==> r == -a - bias,
        -20_000_000 <= r <= 20_000_000,
{
    let athird: i64 = a / 3;
    let dev: i64 = if athird >= 1000 {
        athird - 1000
    } else {
        1000 - athird
    };
    proof {
        assert(1 <= dev <= 4_000_000);
        assert(dev * 1000 <= 4_000_000_000) by (nonlinear_arith)
            requires
                1 <= dev <= 4_000_000,
        ;
    }
    let sm: i64 = isqrt((dev as u64) * 1000) as i64;
    proof {
        assert(1 <= sm <= 100_000) by (nonlinear_arith)
            requires
                sm * sm <= dev * 1000 <= 4_000_000_000,
                dev * 1000 < (sm + 1) * (sm + 1),
                1000 <= dev * 1000,
                0 <= sm,
        ;
    }
    let fraw: i64 = ((w as u64) * 1000 / (2 * sm as u64)) as i64;
    let f: i64 = if fraw < 1 {
        1
    } else if fraw > CURVE_LIMIT {
        CURVE_LIMIT
    } else {
        fraw
    };
    let ad: i64 = if x >= x0 {
        x - x0
    } else {
        x0 - x
    };
    proof {
        assert(0 <= ad <= 20_000_000);
        assert(ad * 1000 <= 20_000_000_000 && 0 <= ad * 1000) by (nonlinear_arith)
            requires
                0 <= ad <= 20_000_000,
        ;
    }
    let qraw: i64 = ((ad as u64) * 1000 / (f as u64)) as i64;
    let q: i64 = if qraw > 1_000_000 {
        1_000_000
    } else {
        qraw
    };
    proof {
        assert(q * q <= 1_000_000_000_000 && 0 <= q * q) by (nonlinear_arith)
            requires
                0 <= q <= 1_000_000,
        ;
    }
    let t: i64 = ((q as u64) * (q as u64) / 1000) as i64;
    let m: i64 = ((a as u64) * 1000 / ((1000 + t) as u64)) as i64;
    proof {
        assert(a * 1000 / (1000 + t) <= a) by (nonlinear_arith)
            requires
                0 <= a,
                0 <= t,
        ;
        if x == x0 {
            // At the resonant wavelength the offset vanishes, so the
            // dip is exactly `-a - bias`.
            assert((0 as int) * 1000 / (f as int) == 0) by (nonlinear_arith)
                requires
                    1 <= f,
            ;
            assert(qraw == 0 && q == 0 && t == 0);
            assert((a as int) * 1000 / 1000 == a as int) by (nonlinear_arith);
            assert(m == a);
        }
    }
    -m - bias
}

/// Evaluates the Gaussian dip at one wavelength.
pub fn gauss_at(x: i64, a: i64, x0: i64, w: i64, bias: i64) -> (r: i64)
    requires
        curve_params_ok(a as int, x0 as int, w as int, bias as int),
        curve_input_ok(x as int),
    ensures
        r == spec_gauss_at(x as int, a as int, x0 as int, w as int, bias as int),
        -20_000_000 <= r <= 20_000_000,
{
    let yraw: i64 = ((a as u64) * 1000 / 3010) as i64;
    let y: i64 = if yraw < 1 {
        1
    } else {
        yraw
    };
    proof {
        assert(a * 1000 <= 10_000_000_000) by (nonlinear_arith)
            requires
                0 <= a <= 10_000_000,
        ;
    }
    let l: i64 = ln_abs_milli(y);
    let den: i64 = 2 * (isqrt((l as u64) * 4000) as i64);
    proof {
        assert(spec_isqrt(4000 * l as int) * spec_isqrt(4000 * l as int) <= 4000 * l as int
            <= 60_000_000);
        assert(0 <= spec_isqrt(4000 * l as int) <= 100_000) by (nonlinear_arith)
            requires
                spec_isqrt(4000 * l as int) * spec_isqrt(4000 * l as int) <= 60_000_000,
                0 <= spec_isqrt(4000 * l as int),
        ;
    }
    let s: i64 = if den < 1 {
        CURVE_LIMIT
    } else {
        let sraw: i64 = ((w as u64) * 1000 / (den as u64)) as i64;
        if sraw < 1 {
            1
        } else if sraw > CURVE_LIMIT {
            CURVE_LIMIT
        } else {
            sraw
        }
    };
    let d: i64 = if x >= x0 {
        x - x0
    } else {
        x0 - x
    };
    proof {
        assert(0 <= d <= 20_000_000);
        assert(0 <= d * d <= 400_000_000_000_000) by (nonlinear_arith)
            requires
                0 <= d <= 20_000_000,
        ;
        assert(1 <= s * s <= 100_000_000_000_000 && s <= s * s) by (nonlinear_arith)
            requires
                1 <= s <= 10_000_000,
        ;
    }
    proof {
        assert(1000 * d * d <= 400_000_000_000_000_000 && 0 <= 1000 * d * d) by (nonlinear_arith)
            requires
                0 <= d <= 20_000_000,
        ;
        assert(2 * s * s <= 200_000_000_000_000 && 2 <= 2 * s * s) by (nonlinear_arith)
            requires
                1 <= s <= 10_000_000,
        ;
    }
    let u: i64 = ((1000 * (d as u64) * (d as u64)) / (2 * (s as u64) * (s as u64))) as i64;
    proof {
        assert(1000 * (d * d) / (2 * (s * s)) <= 1000 * (d * d)) by (nonlinear_arith)
            requires
                0 <= d * d,
                1 <= s * s,
        ;
    }
    let uc: i64 = if u >= 15000 {
        15000
    } else {
        u
    };
    let e: i64 = exp_neg_milli(uc);
    proof {
        if u as int >= 15000 {
            assert(spec_exp_neg_milli(uc as int) == spec_exp_neg_milli(
                if u as int >= 15000 {
                    15000int
                } else {
                    u as int
                },
            ));
        }
        assert(0 <= a * e <= 10_000_000_000) by (nonlinear_arith)
            requires
                0 <= a <= 10_000_000,
                0 <= e <= 1000,
        ;
        assert(a * e / 1000 <= a) by (nonlinear_arith)
            requires
                0 <= a,
                0 <= e <= 1000,
        ;
    }
    let m: i64 = (((a as u64) * (e as u64)) / 1000) as i64;
    -m - bias
}

/// Approximates an LPFG transmission spectrum by a Lorentzian dip.
/// One output power per input wavelength, each `spec_lorentzian_at`.
pub fn transmission_spectra(x: &Vec<i64>, a: i64, x0: i64, w: i64, bias: i64) -> (r: Vec<i64>)
    requires
        curve_params_ok(a as int, x0 as int, w as int, bias as int),
        lorentzian_defined(a as int),
        forall|k: int| 0 <= k < x@.len() ==> curve_input_ok(#[trigger] x@[k] as int),
    ensures
        r@.len() == x@.len(),
        forall|k: int| 0 <= k < r@.len() ==> r@[k] == spec_lorentzian_at(
            #[trigger] x@[k] as int,
            a as int,
            x0 as int,
            w as int,
            bias as int,
        ),
        forall|k: int| 0 <= k < r@.len() ==> -20_000_000 <= #[trigger] r@[k] <= 20_000_000,
{
    let mut r: Vec<i64> = Vec::new();
    let n: usize = x.len();
    let mut i: usize = 0;
    while i < n
        invariant
            n == x@.len(),
            i == r@.len() <= n,
            curve_params_ok(a as int, x0 as int, w as int, bias as int),
            lorentzian_defined(a as int),
            forall|k: int| 0 <= k < x@.len() ==> curve_input_ok(#[trigger] x@[k] as int),
            forall|k: int| 0 <= k < i ==> r@[k] == spec_lorentzian_at(
                #[trigger] x@[k] as int,
                a as int,
                x0 as int,
                w as int,
                bias as int,
            ),
            forall|k: int| 0 <= k < i ==> -20_000_000 <= #[trigger] r@[k] <= 20_000_000,
        decreases n - i,
    {
        let v = lorentzian_at(x[i], a, x0, w, bias);
        r.push(v);
        i = i + 1;
    }
    r
}

/// Approximates the same spectrum by a Gaussian dip.
pub fn my_gauss(x: &Vec<i64>, a: i64, x0: i64, w: i64, bias: i64) -> (r: Vec<i64>)
    requires
        curve_params_ok(a as int, x0 as int, w as int, bias as int),
        forall|k: int| 0 <= k < x@.len() ==> curve_input_ok(#[trigger] x@[k] as int),
    ensures
        r@.len() == x@.len(),
        forall|k: int| 0 <= k < r@.len() ==> r@[k] == spec_gauss_at(
            #[trigger] x@[k] as int,
            a as int,
            x0 as int,
            w as int,
            bias as int,
        ),
        forall|k: int| 0 <= k < r@.len() ==> -20_000_000 <= #[trigger] r@[k] <= 20_000_000,
{
    let mut r: Vec<i64> = Vec::new();
    let n: usize = x.len();
    let mut i: usize = 0;
    while i < n
        invariant
            n == x@.len(),
            i == r@.len() <= n,
            curve_params_ok(a as int, x0 as int, w as int, bias as int),
            forall|k: int| 0 <= k < x@.len() ==> curve_input_ok(#[trigger] x@[k] as int),
            forall|k: int| 0 <= k < i ==> r@[k] == spec_gauss_at(
                #[trigger] x@[k] as int,
                a as int,
                x0 as int,
                w as int,
                bias as int,
            ),
            forall|k: int| 0 <= k < i ==> -20_000_000 <= #[trigger] r@[k] <= 20_000_000,
        decreases n - i,
    {
        let v = gauss_at(x[i], a, x0, w, bias);
        r.push(v);
        i = i + 1;
    }
    r
}

/// The blended form: pure Lorentzian below the selector threshold,
/// else the half-depth half-width Lorentzian+Gaussian composite.
pub fn transmission_spectra_2(
    x: &Vec<i64>,
    a: i64,
    x0: i64,
    w: i64,
    bias: i64,
    fcn: i64,
) -> (r: Vec<i64>)
    requires
        curve_params_ok(a as int, x0 as int, w as int, bias as int),
        blend_defined(a as int, fcn as int),
        forall|k: int| 0 <= k < x@.len() ==> curve_input_ok(#[trigger] x@[k] as int),
    ensures
        r@.len() == x@.len(),
        forall|k: int| 0 <= k < r@.len() ==> r@[k] == spec_blend_at(
            #[trigger] x@[k] as int,
            a as int,
            x0 as int,
            w as int,
            bias as int,
            fcn as int,
        ),
{
    if fcn < 500 {
        transmission_spectra(x, a, x0, w, bias)
    } else {
        let half_a: i64 = a / 2;
        let half_w: i64 = if w / 2 < 1 {
            1
        } else {
            w / 2
        };
        let ts = transmission_spectra(x, half_a, x0, half_w, bias);
        let mg = my_gauss(x, half_a, x0, half_w, bias);
        let mut r: Vec<i64> = Vec::new();
        let n: usize = x.len();
        let mut i: usize = 0;
        while i < n
            invariant
                n == x@.len(),
                ts@.len() == n,
                mg@.len() == n,
                i == r@.len() <= n,
                -10_000_000 <= bias <= 10_000_000,
                forall|k: int| 0 <= k < i ==> #[trigger] r@[k] == ts@[k] + mg@[k] + bias,
                forall|k: int| 0 <= k < n ==> -20_000_000 <= #[trigger] ts@[k] <= 20_000_000,
                forall|k: int| 0 <= k < n ==> -20_000_000 <= #[trigger] mg@[k] <= 20_000_000,
            decreases n - i,
        {
            let v: i64 = ts[i] + mg[i] + bias;
            r.push(v);
            i = i + 1;
        }
        proof {
            assert forall|k: int| 0 <= k < r@.len() implies r@[k] == spec_blend_at(
                x@[k] as int,
                a as int,
                x0 as int,
                w as int,
                bias as int,
                fcn as int,
            ) by {
                assert(r@[k] == ts@[k] + mg@[k] + bias);
            }
        }
        r
    }
}

} // verus!
