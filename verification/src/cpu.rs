//! CPU family: one colored dot per core, colored by the share of non-idle
//! ticks over the sampling interval.  A core whose total tick delta is zero
//! is omitted rather than rendered from an undefined ratio.

use vstd::prelude::*;
use crate::gradient::Ratio;
use crate::gradient::get_color;
use crate::render::ratio_color;
use crate::render::spec_span;
use crate::render::span;

verus! {

/// Zero-clamped difference of two counter readings: a counter that moved
/// backwards counts as no activity.
pub open spec fn spec_clamped_delta(o: int, n: int) -> int {
    if n >= o {
        n - o
    } else {
        0
    }
}

/// Utilization of one core over an interval with `dt > 0` elapsed ticks:
/// `1 - idle/total`, the idle share clamped into the total.
pub open spec fn spec_core_ratio(di: int, dt: int) -> Ratio {
    Ratio { num: (dt - (if di <= dt {
        di
    } else {
        dt
    })) as u64, den: dt as u64 }
}

/// The smallest of the four per-core sequence lengths; cores beyond it have
/// no pair of readings and are skipped.
pub open spec fn spec_core_count(
    old_idle: Seq<i64>,
    old_total: Seq<i64>,
    new_idle: Seq<i64>,
    new_total: Seq<i64>,
) -> int {
    let a = if old_idle.len() <= old_total.len() {
        old_idle.len() as int
    } else {
        old_total.len() as int
    };
    let b = if new_idle.len() <= new_total.len() {
        new_idle.len() as int
    } else {
        new_total.len() as int
    };
    if a <= b {
        a
    } else {
        b
    }
}

/// The glyph run for cores `0..n`: one colored dot per core that saw ticks
/// elapse, in core order.
pub open spec fn spec_cpu_spans(
    old_idle: Seq<i64>,
    old_total: Seq<i64>,
    new_idle: Seq<i64>,
    new_total: Seq<i64>,
    n: int,
) -> Seq<char>
    decreases n,
{
    if n <= 0 {
        Seq::empty()
    } else {
        let i = n - 1;
        let di = spec_clamped_delta(old_idle[i] as int, new_idle[i] as int);
        let dt = spec_clamped_delta(old_total[i] as int, new_total[i] as int);
        spec_cpu_spans(old_idle, old_total, new_idle, new_total, i) + if dt <= 0 {
            Seq::<char>::empty()
        } else {
            spec_span(ratio_color(spec_core_ratio(di, dt)), "\u{25cf}"@)
        }
    }
}

/// The full line for one tick, or nothing while either snapshot is missing
/// (the first tick only collects a baseline).  Each snapshot is the per-core
/// idle tick sums paired with the per-core total tick sums.
#[verifier::loop_isolation(false)]
pub fn output_difference(
    maybe_old: Option<(Vec<i64>, Vec<i64>)>,
    maybe_recent: Option<(Vec<i64>, Vec<i64>)>,
) -> (r: Option<String>)
    ensures
        match (maybe_old, maybe_recent) {
            (Some(o), Some(c)) => match r {
                Some(line) => line@ == "\u{f4bc} "@ + spec_cpu_spans(
                    o.0@,
                    o.1@,
                    c.0@,
                    c.1@,
                    spec_core_count(o.0@, o.1@, c.0@, c.1@),
                ),
                None => false,
            },
            _ => r is None,
        },
{
    match (maybe_old, maybe_recent) {
        (Some(old_pair), Some(recent_pair)) => {
            let a = if old_pair.0.len() <= old_pair.1.len() {
                old_pair.0.len()
            } else {
                old_pair.1.len()
            };
            let b = if recent_pair.0.len() <= recent_pair.1.len() {
                recent_pair.0.len()
            } else {
                recent_pair.1.len()
            };
            let n = if a <= b {
                a
            } else {
                b
            };
            let mut spans = String::new();
            let mut i: usize = 0;
            while i < n
                invariant
                    i <= n,
                    n == spec_core_count(old_pair.0@, old_pair.1@, recent_pair.0@, recent_pair.1@),
                    spans@ == spec_cpu_spans(
                        old_pair.0@,
                        old_pair.1@,
                        recent_pair.0@,
                        recent_pair.1@,
                        i as int,
                    ),
                decreases n - i,
            {
                let oi = old_pair.0[i];
                let ot = old_pair.1[i];
                let ni = recent_pair.0[i];
                let nt = recent_pair.1[i];
                let di: i128 = if ni >= oi {
                    (ni as i128) - (oi as i128)
                } else {
                    0
                };
                let dt: i128 = if nt >= ot {
                    (nt as i128) - (ot as i128)
                } else {
                    0
                };
                if dt > 0 {
                    let dmin: i128 = if di <= dt {
                        di
                    } else {
                        dt
                    };
                    let ratio = Ratio { num: (dt - dmin) as u64, den: dt as u64 };
                    let color = get_color(&ratio);
                    let piece = span(&color, "\u{25cf}");
                    spans.append(piece.as_str());
                }
                i = i + 1;
            }
            Some(String::from_str("\u{f4bc} ").concat(spans.as_str()))
        },
        _ => None,
    }
}

} // verus!
