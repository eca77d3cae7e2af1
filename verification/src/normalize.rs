//! Rate normalizer: maps an unbounded throughput value onto a bounded
//! activity ratio through the saturating curve `1 - e^(-2*value/scale)`,
//! computed exactly in fixed point.  The decaying exponential is evaluated as
//! a quadratic seed on a small argument, squared eight times.

use vstd::prelude::*;
use crate::gradient::Ratio;

verus! {

/// Fixed-point denominator of every normalized ratio.
pub const RATIO_SCALE: u64 = 0x100000000;

/// Saturation cutoff for the curve argument: past `2*value/scale == 32` the
/// decayed remainder is below one fixed-point step, so the ratio is taken as
/// fully saturated.
pub const ARG_CAP: u64 = 0x2000000000;

/// One fixed-point squaring step: `y^2 / S`.
pub open spec fn sq_step(y: int) -> int {
    (y * y) / (RATIO_SCALE as int)
}

/// `k` fixed-point squarings of `y`.
pub open spec fn spec_squares(y: int, k: nat) -> int
    decreases k,
{
    if k == 0 {
        y
    } else {
        sq_step(spec_squares(y, (k - 1) as nat))
    }
}

/// Quadratic segment of the decaying exponential at fixed point:
/// `S * e^(-t/S)` is seeded as `S - t + t^2/(2S)` for small `t`.
pub open spec fn spec_decay_seed(t: int) -> int {
    RATIO_SCALE as int - t + (t * t) / (2 * RATIO_SCALE as int)
}

/// Numerator over [`RATIO_SCALE`] of the normalized ratio
/// `1 - e^(-2*value/scale)`; a zero scale counts as instant saturation.
pub open spec fn spec_normalize(value: int, scale: int) -> int {
    if scale <= 0 {
        RATIO_SCALE as int
    } else {
        let x = (2 * value * RATIO_SCALE) / scale;
        if x >= ARG_CAP {
            RATIO_SCALE as int
        } else {
            RATIO_SCALE - spec_squares(spec_decay_seed(x / 256), 8)
        }
    }
}

proof fn lemma_seed_bounds(t: int)
    requires
        0 <= t <= RATIO_SCALE / 8,
    ensures
        RATIO_SCALE as int - t <= spec_decay_seed(t) <= RATIO_SCALE as int,
{
    let u = RATIO_SCALE as int;
    vstd::arithmetic::div_mod::lemma_div_pos_is_pos(t * t, 2 * u);
    assert(t * t <= t * (2 * u)) by (nonlinear_arith)
        requires
            0 <= t,
            t <= 0x20000000,
            u == 0x100000000,
    ;
    vstd::arithmetic::div_mod::lemma_div_is_ordered(t * t, t * (2 * u), 2 * u);
    vstd::arithmetic::div_mod::lemma_div_by_multiple(t, 2 * u);
}

proof fn lemma_sq_bounds(y: int)
    requires
        0 <= y <= RATIO_SCALE,
    ensures
        0 <= sq_step(y) <= RATIO_SCALE,
{
    let u = RATIO_SCALE as int;
    vstd::arithmetic::div_mod::lemma_div_pos_is_pos(y * y, u);
    assert(y * y <= u * u) by (nonlinear_arith)
        requires
            0 <= y <= u,
    ;
    vstd::arithmetic::div_mod::lemma_div_is_ordered(y * y, u * u, u);
    vstd::arithmetic::div_mod::lemma_div_by_multiple(u, u);
}

proof fn lemma_squares_bounds(y: int, k: nat)
    requires
        0 <= y <= RATIO_SCALE,
    ensures
        0 <= spec_squares(y, k) <= RATIO_SCALE,
    decreases k,
{
    if k > 0 {
        lemma_squares_bounds(y, (k - 1) as nat);
        lemma_sq_bounds(spec_squares(y, (k - 1) as nat));
    }
}

proof fn lemma_sq_monotone(y1: int, y2: int)
    requires
        0 <= y1 <= y2,
    ensures
        sq_step(y1) <= sq_step(y2),
{
    assert(y1 * y1 <= y2 * y2) by (nonlinear_arith)
        requires
            0 <= y1 <= y2,
    ;
    vstd::arithmetic::div_mod::lemma_div_is_ordered(y1 * y1, y2 * y2, RATIO_SCALE as int);
}

proof fn lemma_squares_monotone(y1: int, y2: int, k: nat)
    requires
        0 <= y1 <= y2,
    ensures
        spec_squares(y1, k) <= spec_squares(y2, k),
        0 <= spec_squares(y1, k),
    decreases k,
{
    if k > 0 {
        lemma_squares_monotone(y1, y2, (k - 1) as nat);
        lemma_sq_monotone(spec_squares(y1, (k - 1) as nat), spec_squares(y2, (k - 1) as nat));
        vstd::arithmetic::div_mod::lemma_div_pos_is_pos(
            spec_squares(y1, (k - 1) as nat) * spec_squares(y1, (k - 1) as nat),
            RATIO_SCALE as int,
        );
        assert(0 <= spec_squares(y1, (k - 1) as nat) * spec_squares(y1, (k - 1) as nat))
            by (nonlinear_arith)
            requires
                0 <= spec_squares(y1, (k - 1) as nat),
        ;
    }
}

proof fn lemma_seed_antitone(t1: int, t2: int)
    requires
        0 <= t1 <= t2 <= RATIO_SCALE / 8,
    ensures
        spec_decay_seed(t2) <= spec_decay_seed(t1),
{
    let u = RATIO_SCALE as int;
    assert(t2 * t2 <= t1 * t1 + (t2 - t1) * (2 * u)) by (nonlinear_arith)
        requires
            0 <= t1 <= t2,
            t2 <= 0x20000000,
            u == 0x100000000,
    ;
    vstd::arithmetic::div_mod::lemma_div_is_ordered(
        t2 * t2,
        t1 * t1 + (t2 - t1) * (2 * u),
        2 * u,
    );
    vstd::arithmetic::div_mod::lemma_hoist_over_denominator(t1 * t1, t2 - t1, (2 * u) as nat);
}

proof fn lemma_squares_fixed(k: nat)
    ensures
        spec_squares(RATIO_SCALE as int, k) == RATIO_SCALE as int,
    decreases k,
{
    let u = RATIO_SCALE as int;
    if k > 0 {
        lemma_squares_fixed((k - 1) as nat);
        vstd::arithmetic::div_mod::lemma_div_by_multiple(u, u);
    }
}

/// Law: for a positive scale the normalizer maps zero to zero.
pub proof fn lemma_normalize_zero(scale: int)
    requires
        scale > 0,
    ensures
        spec_normalize(0, scale) == 0,
{
    let u = RATIO_SCALE as int;
    vstd::arithmetic::div_mod::lemma_div_of0(scale);
    vstd::arithmetic::div_mod::lemma_div_of0(256);
    vstd::arithmetic::div_mod::lemma_div_of0(2 * u);
    assert(spec_decay_seed(0) == u);
    lemma_squares_fixed(8);
}

/// Law: the normalized ratio never decreases as the raw value grows, for a
/// fixed positive scale.  (Monotonicity is weak: the fixed-point computation
/// can map adjacent values to the same step.)
pub proof fn lemma_normalize_monotone(v1: int, v2: int, scale: int)
    requires
        0 <= v1 <= v2,
        scale > 0,
    ensures
        spec_normalize(v1, scale) <= spec_normalize(v2, scale),
{
    let u = RATIO_SCALE as int;
    let x1 = (2 * v1 * u) / scale;
    let x2 = (2 * v2 * u) / scale;
    assert(2 * v1 * u <= 2 * v2 * u) by (nonlinear_arith)
        requires
            0 <= v1 <= v2,
            u == 0x100000000,
    ;
    vstd::arithmetic::div_mod::lemma_div_pos_is_pos(2 * v1 * u, scale);
    vstd::arithmetic::div_mod::lemma_div_is_ordered(2 * v1 * u, 2 * v2 * u, scale);
    if x2 >= ARG_CAP {
        if x1 >= ARG_CAP {
        } else {
            let t1 = x1 / 256;
            lemma_arg_small(x1);
            lemma_seed_bounds(t1);
            lemma_squares_bounds(spec_decay_seed(t1), 8);
        }
    } else {
        let t1 = x1 / 256;
        let t2 = x2 / 256;
        vstd::arithmetic::div_mod::lemma_div_pos_is_pos(x1, 256);
        vstd::arithmetic::div_mod::lemma_div_is_ordered(x1, x2, 256);
        lemma_arg_small(x1);
        lemma_arg_small(x2);
        lemma_seed_antitone(t1, t2);
        lemma_seed_bounds(t1);
        lemma_seed_bounds(t2);
        lemma_squares_monotone(spec_decay_seed(t2), spec_decay_seed(t1), 8);
    }
}

proof fn lemma_arg_small(x: int)
    requires
        0 <= x < ARG_CAP,
    ensures
        0 <= x / 256 <= RATIO_SCALE / 8,
{
    vstd::arithmetic::div_mod::lemma_div_pos_is_pos(x, 256);
    vstd::arithmetic::div_mod::lemma_div_is_ordered(x, ARG_CAP as int, 256);
    assert(ARG_CAP as int == 256 * (RATIO_SCALE / 8));
    vstd::arithmetic::div_mod::lemma_div_by_multiple((RATIO_SCALE / 8) as int, 256);
    assert((256 * (RATIO_SCALE / 8)) == (RATIO_SCALE / 8) * 256);
}

/// Normalized activity ratio for a raw per-interval value against the
/// family's reference scale: the saturating curve `1 - e^(-2*value/scale)`
/// at fixed point.  A zero scale counts as instant saturation rather than a
/// division fault.
#[verifier::loop_isolation(false)]
pub fn normalize(value: u64, limit: u64) -> (r: Ratio)
    ensures
        r.wf(),
        r.den == RATIO_SCALE,
        r.num == spec_normalize(value as int, limit as int),
        value == 0 && limit > 0 ==> r.num == 0,
        limit == 0 ==> r.num == RATIO_SCALE,
{
    if limit == 0 {
        return Ratio { num: RATIO_SCALE, den: RATIO_SCALE };
    }
    let u128s = RATIO_SCALE as u128;
    let x128 = 2 * (value as u128) * u128s / (limit as u128);
    proof {
        vstd::arithmetic::div_mod::lemma_div_pos_is_pos(
            2 * (value as int) * (RATIO_SCALE as int),
            limit as int,
        );
    }
    if x128 >= ARG_CAP as u128 {
        proof {
            if value == 0 {
                lemma_normalize_zero(limit as int);
            }
        }
        return Ratio { num: RATIO_SCALE, den: RATIO_SCALE };
    }
    let x = x128 as u64;
    let t = x / 256;
    proof {
        lemma_arg_small(x as int);
        lemma_seed_bounds(t as int);
    }
    assert((t as int) * (t as int) <= 0x20000000 * 0x20000000) by (nonlinear_arith)
        requires
            0 <= t as int <= 0x20000000,
    ;
    let tsq = ((t as u128) * (t as u128) / (2 * u128s)) as u64;
    let seed = RATIO_SCALE - t + tsq;
    let ghost seed_spec = spec_decay_seed((x as int) / 256);
    assert(seed == seed_spec);
    let mut e: u64 = seed;
    let mut k: usize = 0;
    while k < 8
        invariant
            k <= 8,
            0 <= e <= RATIO_SCALE,
            e == spec_squares(seed_spec, k as nat),
            0 <= seed_spec <= RATIO_SCALE,
        decreases 8 - k,
    {
        proof {
            lemma_sq_bounds(e as int);
        }
        e = ((e as u128) * (e as u128) / u128s) as u64;
        k = k + 1;
    }
    proof {
        if value == 0 {
            lemma_normalize_zero(limit as int);
        }
    }
    Ratio { num: RATIO_SCALE - e, den: RATIO_SCALE }
}

} // verus!
