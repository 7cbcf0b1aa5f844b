//! Trust-region rules of the outer loop: the merit ratio, acceptance of a step,
//! the estimate of the achievable ratio, and the trust radius.
use crate::scalar::{
    abs, at_least, at_most, clamp, clamped, finite, fraction, greater, is_finite, larger, less,
    magnitude, max, minus, negated, num, number, over, plus, ratio, real_ops, times, Real,
};
use crate::types::ScvxAlgoParams;
use vstd::prelude::*;

verus! {

/// A predicted reduction below this counts as none.
pub open spec fn negligible<T: Real>() -> T {
    over(num::<T>(1), times(num::<T>(1_000_000), num::<T>(1_000_000)))
}

/// The merit ratio of a step: actual over predicted reduction, between -10 and 10.
/// One on the first iteration, which has no merit to compare with, and where
/// nothing was predicted and nothing lost; zero where a ratio makes no sense.
pub open spec fn merit_ratio<T: Real>(first: bool, j_prev: T, predicted: T, actual: T) -> T {
    let z = num::<T>(0);
    let pred = minus(j_prev, predicted);
    let act = minus(j_prev, actual);
    if first {
        num::<T>(1)
    } else if greater(pred, negligible::<T>()) && finite(z, act) && finite(z, pred) {
        clamped(over(act, pred), negated(num::<T>(10)), num::<T>(10))
    } else if less(magnitude(z, pred), negligible::<T>()) && at_least(act, z) {
        num::<T>(1)
    } else {
        z
    }
}

/// The merit ratio of a step.
pub fn rho_ratio<T: Real>(first: bool, j_prev: T, predicted: T, actual: T) -> (r: T)
    requires
        real_ops::<T>(),
    ensures
        r == merit_ratio(first, j_prev, predicted, actual),
{
    let one: T = number(1);
    let zero: T = number(0);
    if first {
        return one;
    }
    let million: T = number(1_000_000);
    let eps: T = one / (million * million);
    let pred: T = j_prev - predicted;
    let act: T = j_prev - actual;
    if pred > eps && is_finite(zero, act) && is_finite(zero, pred) {
        let ten: T = number(10);
        clamp(act / pred, ten.neg(), ten)
    } else if abs(zero, pred) < eps && act >= zero {
        one
    } else {
        zero
    }
}

/// A step is taken where its measures are finite and, after the first iteration,
/// its merit ratio is above the refusal threshold.
pub open spec fn accepted<T: Real>(first: bool, sound: bool, rho: T, rho_reject: T) -> bool {
    sound && (first || greater(rho, rho_reject))
}

/// Estimate of the merit ratio a problem lets steps achieve.
pub struct Ceiling<T> {
    pub rho: T,
    /// A step has been seen.
    pub seeded: bool,
}

impl<T: Copy> Clone for Ceiling<T> {
    fn clone(&self) -> (r: Self)
        ensures
            r == *self,
    {
        *self
    }
}

impl<T: Copy> Copy for Ceiling<T> {

}

/// The estimate after a step: the first accepted step's ratio, then the mean of
/// the estimate and each further one's; unchanged by refused steps and by the first
/// iteration.
pub open spec fn next_ceiling<T: Real>(
    adaptive: bool,
    accept: bool,
    first: bool,
    rho: T,
    c: Ceiling<T>,
) -> Ceiling<T> {
    let seen = clamped(rho, num::<T>(0), num::<T>(1));
    let half = ratio::<T>(1, 2);
    if adaptive && accept && !first && finite(num::<T>(0), rho) {
        Ceiling {
            rho: if c.seeded {
                plus(times(minus(num::<T>(1), half), c.rho), times(half, seen))
            } else {
                seen
            },
            seeded: true,
        }
    } else {
        c
    }
}

/// The estimate after a step.
pub fn update_ceiling<T: Real>(
    adaptive: bool,
    accept: bool,
    first: bool,
    rho: T,
    c: Ceiling<T>,
) -> (r: Ceiling<T>)
    requires
        real_ops::<T>(),
    ensures
        r == next_ceiling(adaptive, accept, first, rho, c),
{
    let zero: T = number(0);
    if adaptive && accept && !first && is_finite(zero, rho) {
        let one: T = number(1);
        let half: T = fraction(1, 2);
        let seen: T = clamp(rho, zero, one);
        let v: T = if c.seeded {
            (one - half) * c.rho + half * seen
        } else {
            seen
        };
        Ceiling { rho: v, seeded: true }
    } else {
        c
    }
}

/// The thresholds in force: the configured ones, or fractions of the estimate where
/// that has fallen below the shrink threshold.
pub open spec fn shrink_threshold<T: Real>(algo: &ScvxAlgoParams<T>, ceiling: T) -> T {
    if algo.use_adaptive_trust && less(ceiling, algo.rho_shrink) {
        clamped(times(ratio::<T>(3, 10), ceiling), ratio::<T>(2, 100), algo.rho_shrink)
    } else {
        algo.rho_shrink
    }
}

/// As `shrink_threshold`, for growing.
pub open spec fn grow_threshold<T: Real>(algo: &ScvxAlgoParams<T>, ceiling: T) -> T {
    if algo.use_adaptive_trust && less(ceiling, algo.rho_shrink) {
        clamped(times(ratio::<T>(67, 100), ceiling), ratio::<T>(1, 10), algo.rho_grow)
    } else {
        algo.rho_grow
    }
}

/// The trust radius after a step: smaller after a refused or poor one, larger after
/// a good one, within its bounds.
pub open spec fn next_trust<T: Real>(
    algo: &ScvxAlgoParams<T>,
    ceiling: T,
    accept: bool,
    rho: T,
    eta: T,
) -> T {
    let raw = if !accept || less(rho, shrink_threshold(algo, ceiling)) {
        over(eta, algo.trust_alpha)
    } else if greater(rho, grow_threshold(algo, ceiling)) {
        times(eta, algo.trust_beta)
    } else {
        eta
    };
    clamped(raw, algo.trust_eta_min, algo.trust_eta_max)
}

/// The trust radius after a step.
pub fn update_trust<T: Real>(
    algo: &ScvxAlgoParams<T>,
    ceiling: T,
    accept: bool,
    rho: T,
    eta: T,
) -> (r: T)
    requires
        real_ops::<T>(),
    ensures
        r == next_trust(algo, ceiling, accept, rho, eta),
{
    let mut shrink: T = algo.rho_shrink;
    let mut grow: T = algo.rho_grow;
    if algo.use_adaptive_trust && ceiling < algo.rho_shrink {
        let fs: T = fraction(3, 10);
        let fg: T = fraction(67, 100);
        shrink = clamp(fs * ceiling, fraction(2, 100), algo.rho_shrink);
        grow = clamp(fg * ceiling, fraction(1, 10), algo.rho_grow);
    }
    let raw: T = if !accept || rho < shrink {
        eta / algo.trust_alpha
    } else if rho > grow {
        eta * algo.trust_beta
    } else {
        eta
    };
    clamp(raw, algo.trust_eta_min, algo.trust_eta_max)
}

/// The trust radius has reached its floor.
pub open spec fn at_floor<T: Real>(algo: &ScvxAlgoParams<T>, eta: T) -> bool {
    at_most(
        eta,
        times(algo.trust_eta_min, plus(num::<T>(1), ratio::<T>(1, 1_000_000_000))),
    )
}

/// The trust radius after a subproblem that could not be solved.
pub open spec fn shrunk_trust<T: Real>(algo: &ScvxAlgoParams<T>, eta: T) -> T {
    larger(over(eta, algo.trust_alpha), algo.trust_eta_min)
}

/// The trust radius to try after a subproblem that could not be solved, or nothing
/// where the radius is at its floor.
pub fn shrink_after_failure<T: Real>(algo: &ScvxAlgoParams<T>, eta: T) -> (r: Option<T>)
    requires
        real_ops::<T>(),
    ensures
        r == (if at_floor(algo, eta) {
            None
        } else {
            Some(shrunk_trust(algo, eta))
        }),
{
    let one: T = number(1);
    let eps: T = fraction(1, 1_000_000_000);
    if eta <= algo.trust_eta_min * (one + eps) {
        None
    } else {
        Some(max(eta / algo.trust_alpha, algo.trust_eta_min))
    }
}

} // verus!
