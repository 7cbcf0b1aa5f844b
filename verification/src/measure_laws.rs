//! What the measures of a candidate measure, in an ordered field with exact roots, what a
//! positive merit ratio means, which way the trust radius moves, and which input is
//! refused.
use crate::algebra::{
    lemma_add_assoc, lemma_add_comm, lemma_add_neg, lemma_add_zero, lemma_div_cancel,
    lemma_mul_comm, lemma_mul_one, lemma_mul_zero, lemma_neg_mul, lemma_neg_neg, lemma_sub_def,
};
use crate::judgement_laws::{
    law_radius_follows_the_ratio, law_ratio_weighs_gain_against_promise, miss_terms, misses, squared, step_norm_of, step_terms,
    sum_of, thrusts, true_merit, virtual_norm_of, virtual_terms,
};
use crate::numerics::{root_of, Numerics};
use crate::scalar::{
    at_most, clamped, finite, greater, less, minus, negated, num, over, plus, ratio, times, units,
    Real,
};
use crate::scvx::{iteration, outcome, usable, Next, Plant, ScvxWorkspace, Task};
use crate::start_laws::{
    lemma_less_is_positive, lemma_order, lemma_product_less, lemma_same_square,
    lemma_square_not_negative, lemma_sum_less, ordered_field, root_exact,
};
use crate::types::{SolverStatus, Trajectory};
use vstd::prelude::*;

verus! {

// ---- sums of squares ----

proof fn lemma_square_zero<T: Real>(v: T)
    requires
        ordered_field::<T>(),
    ensures
        squared(v) == num::<T>(0) <==> v == num::<T>(0),
        at_most(num::<T>(0), squared(v)),
{
    let z = num::<T>(0);
    lemma_order(z, v, v);
    lemma_square_not_negative(v);
    lemma_mul_zero(units::<T>(), z);
    if squared(v) == z {
        if less(z, v) {
            lemma_product_less(v, z, v);
            lemma_mul_zero(units::<T>(), v);
            lemma_order(z, squared(v), v);
        } else if less(v, z) {
            let y = minus(z, v);
            lemma_less_is_positive(v, z);
            lemma_product_less(y, z, y);
            lemma_mul_zero(units::<T>(), y);
            lemma_order(z, times(y, y), v);
            // (0 - v)(0 - v) == v v
            let u = units::<T>();
            lemma_sub_def(u, z, v);
            lemma_add_zero(u, negated(v));
            lemma_neg_mul(u, v, negated(v));
            lemma_mul_comm(u, v, negated(v));
            lemma_neg_mul(u, v, v);
            lemma_neg_neg(u, squared(v));
        }
    }
}

/// A sum of terms none of which is negative is zero exactly where all are.
proof fn lemma_sum_zero<T: Real>(f: spec_fn(int) -> T, m: nat)
    requires
        ordered_field::<T>(),
        forall|i: int| 0 <= i < m ==> at_most(num::<T>(0), #[trigger] f(i)),
    ensures
        at_most(num::<T>(0), sum_of(f, m)),
        sum_of(f, m) == num::<T>(0) <==> forall|i: int|
            0 <= i < m ==> #[trigger] f(i) == num::<T>(0),
    decreases m,
{
    let z = num::<T>(0);
    lemma_order(z, z, z);
    if m > 0 {
        let p = (m - 1) as nat;
        let s = sum_of(f, p);
        let t = f(m - 1);
        lemma_sum_zero(f, p);
        assert(at_most(z, t));
        lemma_add_zero(units::<T>(), z);
        lemma_sum_less(z, s, z, t);
        lemma_add_comm(units::<T>(), s, t);
        lemma_sum_less(z, t, z, s);
        lemma_order(z, s, t);
        lemma_order(z, t, s);
        lemma_order(z, plus(s, t), s);
        if plus(s, t) == z {
            assert(s == z);
            assert(t == z);
            assert forall|i: int| 0 <= i < m implies #[trigger] f(i) == z by {
                if i < p {
                    assert(f(i) == z);
                }
            }
        }
        if forall|i: int| 0 <= i < m ==> #[trigger] f(i) == z {
            assert(f(m - 1) == z);
        }
    }
}

/// A root is zero exactly where what it is of is.
proof fn lemma_root_zero<T: Real, C: Numerics<T>>(ops: &C, v: T)
    requires
        ordered_field::<T>(),
        root_exact(ops),
        at_most(num::<T>(0), v),
    ensures
        root_of(ops, v) == num::<T>(0) <==> v == num::<T>(0),
        at_most(num::<T>(0), root_of(ops, v)),
{
    let z = num::<T>(0);
    lemma_order(z, z, z);
    lemma_mul_zero(units::<T>(), z);
    if v == z {
        lemma_same_square(root_of(ops, v), z);
    }
}

/// The measured virtual control is zero exactly where no node uses any.
pub proof fn law_no_virtual_control<T: Real, C: Numerics<T>>(ops: &C, x: Seq<T>, n: nat)
    requires
        ordered_field::<T>(),
        root_exact(ops),
    ensures
        virtual_norm_of(ops, x, n) == num::<T>(0) <==> forall|k: int, i: int|
            #![trigger x[19 * k + 11 + i]]
            0 <= k < n && 0 <= i < 7 ==> x[19 * k + 11 + i] == num::<T>(0),
{
    let z = num::<T>(0);
    let f = virtual_terms(x);
    assert forall|q: int| 0 <= q < 7 * n implies at_most(z, #[trigger] f(q)) by {
        lemma_square_zero(x[19 * (q / 7) + 11 + q % 7]);
    }
    lemma_sum_zero(f, 7 * n);
    lemma_root_zero(ops, sum_of(f, 7 * n));
    if virtual_norm_of(ops, x, n) == z {
        assert forall|k: int, i: int|
            #![trigger x[19 * k + 11 + i]]
            0 <= k < n && 0 <= i < 7 implies x[19 * k + 11 + i] == z by {
            let q = 7 * k + i;
            assert(q / 7 == k && q % 7 == i);
            assert(f(q) == z);
            lemma_square_zero(x[19 * k + 11 + i]);
        }
    }
    if forall|k: int, i: int|
        #![trigger x[19 * k + 11 + i]]
        0 <= k < n && 0 <= i < 7 ==> x[19 * k + 11 + i] == z {
        assert forall|q: int| 0 <= q < 7 * n implies #[trigger] f(q) == z by {
            let k = q / 7;
            let i = q % 7;
            assert(x[19 * k + 11 + i] == z);
            lemma_square_zero(x[19 * k + 11 + i]);
        }
    }
}

/// `a - b == 0` exactly where `a == b`.
proof fn lemma_same_difference<T: Real>(a: T, b: T)
    requires
        ordered_field::<T>(),
    ensures
        minus(a, b) == num::<T>(0) <==> a == b,
{
    let u = units::<T>();
    lemma_order(a, b, b);
    lemma_sub_def(u, a, b);
    lemma_add_neg(u, b);
    // (a - b) + b == a
    lemma_add_assoc(u, a, negated(b), b);
    lemma_add_comm(u, negated(b), b);
    lemma_add_zero(u, a);
    lemma_add_zero(u, b);
}

/// The measured step is zero exactly where states and controls are the reference's, at
/// every node.
pub proof fn law_no_step<T: Real, C: Numerics<T>>(
    ops: &C,
    x: Seq<T>,
    reference: &Trajectory<T>,
    n: nat,
)
    requires
        ordered_field::<T>(),
        root_exact(ops),
    ensures
        step_norm_of(ops, x, reference, n) == num::<T>(0) <==> {
            &&& forall|k: int, i: int|
                0 <= k < n && 0 <= i < 7 ==> x[19 * k + i] == #[trigger] reference.x@[k][i]
            &&& forall|k: int, i: int|
                0 <= k < n && 0 <= i < 3 ==> x[19 * k + 7 + i] == #[trigger] reference.u@[k][i]
        },
{
    let z = num::<T>(0);
    let f = step_terms(x, reference);
    let m = 10 * n;
    let part = |q: int|
        minus(
            x[19 * (q / 10) + q % 10],
            if q % 10 < 7 {
                reference.x@[q / 10][q % 10]
            } else {
                reference.u@[q / 10][q % 10 - 7]
            },
        );
    assert forall|q: int| 0 <= q < m implies at_most(z, #[trigger] f(q)) by {
        lemma_square_zero(part(q));
    }
    lemma_sum_zero(f, m);
    lemma_root_zero(ops, sum_of(f, m));
    if step_norm_of(ops, x, reference, n) == z {
        assert forall|k: int, i: int| 0 <= k < n && 0 <= i < 7 implies x[19 * k + i]
            == #[trigger] reference.x@[k][i] by {
            let q = 10 * k + i;
            assert(q / 10 == k && q % 10 == i);
            assert(f(q) == z);
            lemma_square_zero(part(q));
            lemma_same_difference(x[19 * k + i], reference.x@[k][i]);
        }
        assert forall|k: int, i: int| 0 <= k < n && 0 <= i < 3 implies x[19 * k + 7 + i]
            == #[trigger] reference.u@[k][i] by {
            let q = 10 * k + 7 + i;
            assert(q / 10 == k && q % 10 == 7 + i);
            assert(f(q) == z);
            lemma_square_zero(part(q));
            lemma_same_difference(x[19 * k + 7 + i], reference.u@[k][i]);
        }
    }
    if (forall|k: int, i: int|
        0 <= k < n && 0 <= i < 7 ==> x[19 * k + i] == #[trigger] reference.x@[k][i]) && (forall|
        k: int,
        i: int,
    |
        0 <= k < n && 0 <= i < 3 ==> x[19 * k + 7 + i] == #[trigger] reference.u@[k][i]) {
        assert forall|q: int| 0 <= q < m implies #[trigger] f(q) == z by {
            let k = q / 10;
            let i = q % 10;
            if i < 7 {
                assert(x[19 * k + i] == reference.x@[k][i]);
            } else {
                assert(x[19 * k + 7 + (i - 7)] == reference.u@[k][i - 7]);
            }
            lemma_same_difference(
                x[19 * k + i],
                if i < 7 {
                    reference.x@[k][i]
                } else {
                    reference.u@[k][i - 7]
                },
            );
            lemma_square_zero(part(q));
        }
    }
}

/// Nothing is missed exactly where the flown states are the candidate's, in every
/// component at every node. The merit of such a candidate is its fuel.
pub proof fn law_nothing_missed<T: Real, C: Numerics<T>>(
    ops: &C,
    weight: T,
    x: Seq<T>,
    flown: Seq<Seq<T>>,
    n: nat,
)
    requires
        ordered_field::<T>(),
        root_exact(ops),
    ensures
        sum_of(misses(ops, x, flown), n) == num::<T>(0) <==> forall|k: int, i: int|
            0 <= k < n && 0 <= i < 7 ==> x[19 * k + i] == #[trigger] flown[k][i],
        (forall|k: int, i: int|
            0 <= k < n && 0 <= i < 7 ==> x[19 * k + i] == #[trigger] flown[k][i]) ==> true_merit(
            ops,
            weight,
            x,
            flown,
            n,
        ) == sum_of(thrusts(x), n),
{
    let z = num::<T>(0);
    let f = misses(ops, x, flown);
    assert forall|k: int| 0 <= k < n implies at_most(z, #[trigger] f(k)) && (f(k) == z <==> forall|
        i: int,
    |
        0 <= i < 7 ==> x[19 * k + i] == #[trigger] flown[k][i]) by {
        let g = miss_terms(x, flown, k);
        assert forall|i: int| 0 <= i < 7 implies at_most(z, #[trigger] g(i)) && (g(i) == z <==> x[19
            * k + i] == flown[k][i]) by {
            lemma_square_zero(minus(x[19 * k + i], flown[k][i]));
            lemma_same_difference(x[19 * k + i], flown[k][i]);
        }
        lemma_sum_zero(g, 7);
        lemma_root_zero(ops, sum_of(g, 7));
        if f(k) == z {
            assert forall|i: int| 0 <= i < 7 implies x[19 * k + i] == #[trigger] flown[k][i] by {
                assert(g(i) == z);
            }
        }
        if forall|i: int| 0 <= i < 7 ==> x[19 * k + i] == #[trigger] flown[k][i] {
            assert forall|i: int| 0 <= i < 7 implies #[trigger] g(i) == z by {
                assert(x[19 * k + i] == flown[k][i]);
            }
        }
    }
    lemma_sum_zero(f, n);
    let all = forall|k: int, i: int|
        0 <= k < n && 0 <= i < 7 ==> x[19 * k + i] == #[trigger] flown[k][i];
    if sum_of(f, n) == z {
        assert forall|k: int, i: int| 0 <= k < n && 0 <= i < 7 implies x[19 * k + i]
            == #[trigger] flown[k][i] by {
            assert(f(k) == z);
        }
    }
    if all {
        assert forall|k: int| 0 <= k < n implies #[trigger] f(k) == z by {
            assert forall|i: int| 0 <= i < 7 implies x[19 * k + i] == #[trigger] flown[k][i] by {}
        }
        lemma_order(z, z, z);
        lemma_mul_zero(units::<T>(), weight);
        lemma_add_zero(units::<T>(), sum_of(thrusts(x), n));
    }
}

// ---- the ratio and the radius ----

proof fn lemma_ten_is_positive<T: Real>()
    requires
        ordered_field::<T>(),
    ensures
        less(num::<T>(0), num::<T>(10)),
        less(negated(num::<T>(10)), num::<T>(0)),
{
    let u = units::<T>();
    let z = num::<T>(0);
    let one = num::<T>(1);
    let ten = num::<T>(10);
    lemma_order(z, one, one);
    assert(less(ratio::<T>(0, 1), ratio::<T>(10, 1))) by {
        reveal(ordered_field);
    }
    lemma_div_cancel(u, z, one);
    lemma_div_cancel(u, ten, one);
    lemma_mul_one(u, ratio::<T>(0, 1));
    lemma_mul_one(u, ratio::<T>(10, 1));
    lemma_less_is_positive(negated(ten), z);
    lemma_sub_def(u, z, negated(ten));
    lemma_neg_neg(u, ten);
    lemma_add_zero(u, ten);
}

/// After the first iteration, where the subproblem promised a gain, the recorded ratio is
/// positive exactly where the merit falls below that of the last accepted candidate.
pub proof fn law_positive_ratio_is_a_gain<T: Real, P: Plant<T>>(
    task: Task<T, P>,
    k: u32,
    w0: ScvxWorkspace<T>,
    w1: ScvxWorkspace<T>,
    next: Next,
)
    requires
        ordered_field::<T>(),
        iteration(task, k, w0, w1, next),
        0 < k < w0.history@.len(),
        usable(w1.history@[k as int].ipm_status),
        less(num::<T>(0), minus(w0.j_prev, w1.history@[k as int].cost)),
        greater(
            minus(w0.j_prev, w1.history@[k as int].cost),
            over(num::<T>(1), times(num::<T>(1_000_000), num::<T>(1_000_000))),
        ),
    ensures
        less(num::<T>(0), w1.history@[k as int].rho_ratio) <==> less(
            true_merit(
                task.plant,
                task.algo.virt_weight,
                w1.x_unscaled@,
                w1.x_actual@,
                w0.dims.n as nat,
            ),
            w0.j_prev,
        ),
{
    let u = units::<T>();
    let z = num::<T>(0);
    let ten = num::<T>(10);
    let rec = w1.history@[k as int];
    law_ratio_weighs_gain_against_promise(task, k, w0, w1, next);
    lemma_ten_is_positive::<T>();
    let merit = true_merit(
        task.plant,
        task.algo.virt_weight,
        w1.x_unscaled@,
        w1.x_actual@,
        w0.dims.n as nat,
    );
    let promise = minus(w0.j_prev, rec.cost);
    let gain = minus(w0.j_prev, merit);
    let q = over(gain, promise);
    lemma_less_is_positive(merit, w0.j_prev);
    lemma_order(z, promise, promise);
    lemma_order(promise, z, z);
    assert(finite(z, gain) && finite(z, promise)) by {
        lemma_sub_def(u, gain, gain);
        lemma_add_neg(u, gain);
        lemma_sub_def(u, promise, promise);
        lemma_add_neg(u, promise);
        lemma_order(z, z, z);
    }
    // q promise == gain
    lemma_div_cancel(u, gain, promise);
    lemma_mul_comm(u, q, promise);
    lemma_mul_zero(u, promise);
    lemma_order(z, q, q);
    lemma_order(q, z, z);
    lemma_product_less(promise, z, q);
    lemma_product_less(promise, q, z);
    lemma_order(z, gain, gain);
    lemma_order(gain, z, z);
    lemma_order(q, negated(ten), z);
    lemma_order(negated(ten), z, ten);
    lemma_order(negated(ten), ten, ten);
    lemma_order(z, negated(ten), z);
    lemma_order(ten, q, q);
    lemma_order(q, ten, ten);
    lemma_order(z, ten, q);
}

/// The trust radius does not grow after a refused or poor candidate, and does not shrink
/// after one that is not poor, where the thresholds are the settings.
pub proof fn law_radius_moves_the_right_way<T: Real, P: Plant<T>>(
    task: Task<T, P>,
    k: u32,
    w0: ScvxWorkspace<T>,
    w1: ScvxWorkspace<T>,
    next: Next,
)
    requires
        ordered_field::<T>(),
        iteration(task, k, w0, w1, next),
        k < w0.history@.len(),
        usable(w1.history@[k as int].ipm_status),
        !task.algo.use_adaptive_trust,
        at_most(num::<T>(0), task.algo.trust_eta_min),
        at_most(task.algo.trust_eta_min, w0.trust_eta),
        at_most(w0.trust_eta, task.algo.trust_eta_max),
        less(num::<T>(1), task.algo.trust_alpha),
        at_most(num::<T>(1), task.algo.trust_beta),
    ensures
        ({
            let rec = w1.history@[k as int];
            if !rec.accepted || less(rec.rho_ratio, task.algo.rho_shrink) {
                at_most(w1.trust_eta, w0.trust_eta)
            } else {
                &&& at_most(w0.trust_eta, w1.trust_eta)
                &&& !greater(rec.rho_ratio, task.algo.rho_grow) ==> w1.trust_eta == w0.trust_eta
            }
        }),
{
    let u = units::<T>();
    let z = num::<T>(0);
    let one = num::<T>(1);
    let eta = w0.trust_eta;
    let lo = task.algo.trust_eta_min;
    let hi = task.algo.trust_eta_max;
    let alpha = task.algo.trust_alpha;
    let beta = task.algo.trust_beta;
    law_radius_follows_the_ratio(task, k, w0, w1, next);
    lemma_order(z, lo, eta);
    lemma_order(z, one, alpha);
    lemma_order(z, z, z);
    // eta / alpha <= eta
    let q = over(eta, alpha);
    lemma_order(alpha, z, z);
    lemma_div_cancel(u, eta, alpha);
    lemma_mul_comm(u, q, alpha);
    lemma_mul_zero(u, alpha);
    lemma_order(z, q, q);
    lemma_order(q, z, z);
    lemma_product_less(alpha, q, z);
    lemma_order(eta, z, z);
    lemma_order(z, eta, eta);
    assert(at_most(z, q));
    if less(z, q) {
        lemma_product_less(q, one, alpha);
        lemma_mul_one(u, q);
        lemma_mul_comm(u, q, alpha);
    } else {
        assert(eta == z);
    }
    lemma_order(q, eta, eta);
    assert(at_most(q, eta));
    // eta <= eta beta
    if less(z, eta) {
        lemma_product_less(eta, one, beta);
        lemma_mul_one(u, eta);
    } else {
        lemma_mul_comm(u, eta, beta);
        lemma_mul_zero(u, beta);
    }
    let p = times(eta, beta);
    lemma_order(eta, p, p);
    assert(at_most(eta, p));
    lemma_clamped_beside(q, lo, eta, hi);
    lemma_clamped_beside(p, lo, eta, hi);
    lemma_clamped_beside(eta, lo, eta, hi);
    lemma_order(eta, eta, eta);
}

/// Clamping keeps the side of a value within the bounds.
proof fn lemma_clamped_beside<T: Real>(x: T, lo: T, at: T, hi: T)
    requires
        ordered_field::<T>(),
        at_most(lo, at),
        at_most(at, hi),
    ensures
        at_most(x, at) ==> at_most(clamped(x, lo, hi), at),
        at_most(at, x) ==> at_most(at, clamped(x, lo, hi)),
        x == at ==> clamped(x, lo, hi) == at,
{
    lemma_order(lo, at, hi);
    lemma_order(x, lo, at);
    lemma_order(x, lo, lo);
    lemma_order(lo, hi, hi);
    lemma_order(hi, lo, lo);
    lemma_order(x, hi, hi);
    lemma_order(hi, x, at);
    lemma_order(hi, at, at);
    lemma_order(at, hi, hi);
    lemma_order(at, x, lo);
    lemma_order(at, lo, lo);
    lemma_order(at, at, at);
    lemma_order(x, at, hi);
    lemma_order(x, at, at);
    lemma_order(lo, at, at);
}

// ---- input ----

/// A finite number that is not negative.
pub open spec fn finite_from_zero<T: Real>(v: T) -> bool {
    finite(num::<T>(0), v) && !less(v, num::<T>(0))
}

/// A finite number above zero.
pub open spec fn finite_above_zero<T: Real>(v: T) -> bool {
    finite(num::<T>(0), v) && !at_most(v, num::<T>(0))
}

/// A solve refuses its input, and then leaves the workspace as it was, exactly where a trust
/// setting is not finite, its bounds are negative or crossed, its divisor is not above one or
/// its factor is below one; the penalty is negative or not finite; there is no room for an
/// iteration; a boundary state is not finite; the time of flight is not positive and finite,
/// or free and not within positive and finite bounds; a physical parameter makes no sense;
/// or the workspace is not made for this problem.
pub proof fn law_senseless_input_is_refused<T: Real, P: Plant<T>>(
    task: Task<T, P>,
    w0: ScvxWorkspace<T>,
    w1: ScvxWorkspace<T>,
    status: SolverStatus,
)
    requires
        outcome(task, w0, w1, status),
    ensures
        status == SolverStatus::BadInput ==> w1 == w0,
        status != SolverStatus::BadInput <==> {
            let z = num::<T>(0);
            let one = num::<T>(1);
            let a = task.algo;
            let f = task.phys;
            let n = w0.dims.n as int;
            let tau = w0.reference.tau;
            let free: int = if a.use_free_tf {
                1
            } else {
                0
            };
            &&& finite_from_zero(a.trust_eta_min) && finite(z, a.trust_eta_max) && finite(
                z,
                a.trust_eta0,
            ) && !less(a.trust_eta_max, a.trust_eta_min)
            &&& finite(z, a.trust_alpha) && !at_most(a.trust_alpha, one)
            &&& finite(z, a.trust_beta) && !less(a.trust_beta, one)
            &&& finite_from_zero(a.virt_weight)
            &&& a.max_outer_iters > 0 && w0.dims.max_outer > 0
            &&& forall|i: int| 0 <= i < 7 ==> finite(z, #[trigger] task.initial_state@[i])
            &&& forall|i: int| 0 <= i < 3 ==> finite(z, #[trigger] task.terminal.r@[i])
            &&& forall|i: int| 0 <= i < 3 ==> finite(z, #[trigger] task.terminal.v@[i])
            &&& finite_above_zero(tau)
            &&& a.use_free_tf ==> finite_above_zero(f.tau_lo) && finite(z, f.tau_hi) && !at_most(
                f.tau_hi,
                f.tau_lo,
            ) && !less(tau, f.tau_lo) && !greater(tau, f.tau_hi)
            &&& finite_above_zero(f.isp) && finite_above_zero(f.g0) && finite_above_zero(f.m_dry)
            &&& forall|i: int| 0 <= i < 3 ==> finite(z, #[trigger] f.g@[i])
            &&& finite_from_zero(f.rho) && finite_from_zero(f.cd_a)
            &&& finite_from_zero(f.cos_theta_max) && !greater(f.cos_theta_max, one)
            &&& finite_from_zero(f.tan_gamma_gs)
            &&& finite_from_zero(f.t_min) && finite(z, f.t_max) && !at_most(f.t_max, f.t_min)
            &&& n > 0
            &&& w0.dims.np == 19 * n + free
            &&& w0.dims.ne == 7 * n + 6
            &&& w0.dims.nct == 30 * n + 2 * free
            &&& w0.dims.ncones == 8 * n + 2 * free
        },
{
}

} // verus!
