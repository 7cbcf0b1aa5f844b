//! How the outer loop weighs a candidate: what it measures, what it flies, when it accepts,
//! when it has converged, and where the trust radius goes.
use crate::algebra::{
    field, lemma_add_assoc, lemma_add_neg, lemma_add_swap, lemma_add_zero, lemma_distrib,
    lemma_mul_comm, lemma_mul_one, lemma_sub_def,
};
use crate::descent_laws::{
    flies_reference, in_flight_units, inner_solves_exact, joins,
    law_inner_solve_starts_at_reference, law_solve_lands_on_target, task_sized,
};
use crate::linalg::{constant, dot, Mat};
use crate::merit::{
    controls_in, defect_squares, defect_upto, fuel_upto, holds_candidate, node_entry, step_squares,
    virtual_squares,
};
use crate::numerics::{root_of, Numerics};
use crate::precondition_laws::all_nonzero;
use crate::scalar::{
    at_least, at_most, clamped, finite, greater, less, magnitude, minus, negated, num, over, plus,
    ratio, same, times, units, Real,
};
use crate::scvx::{
    concluded, dense_call, dense_may, dense_method, dims_match, finished, inner_solved, iteration,
    linked, outcome, prepared, retried, structured_outcome, traced, usable, warm_params, warm_x, well_shaped, well_sized,
    Next, Plant, ScvxWorkspace, Task,
};
use crate::scvx_laws::{
    between, dense_capped, law_iteration_is_accounted_for, law_run_is_recorded,
    law_solve_caps_inner_iterations, law_solve_keeps_its_bounds,
    law_time_of_flight_stays_within_bounds, lemma_happened, lemma_parts, lemma_trace_keeps_room,
    order_kept, ordered, poisonous,
};
use crate::structured_hsd::hsd_solved;
use crate::structured_socp::{solved, Driver};
use crate::types::{
    IpmAlgoParams, IpmStatus, Point, ResultModel, SocpProblem, SocpResult, SocpWorkspace, SolverStatus, Trajectory,
};
use vstd::prelude::*;

verus! {

// ---- measures ----

/// `f(0) + f(1) + ... + f(m - 1)`, from the left.
pub open spec fn sum_of<T: Real>(f: spec_fn(int) -> T, m: nat) -> T
    decreases m,
{
    if m == 0 {
        num::<T>(0)
    } else {
        plus(sum_of(f, (m - 1) as nat), f(m - 1))
    }
}

/// `v` times itself.
pub open spec fn squared<T: Real>(v: T) -> T {
    times(v, v)
}

/// The thrust magnitudes of all nodes.
pub open spec fn thrusts<T: Real>(x: Seq<T>) -> spec_fn(int) -> T {
    |k: int| x[19 * k + 10]
}

/// The squares of all nodes' virtual controls, seven to a node.
pub open spec fn virtual_terms<T: Real>(x: Seq<T>) -> spec_fn(int) -> T {
    |q: int| squared(x[19 * (q / 7) + 11 + q % 7])
}

/// The squares of what the states and controls of `x` differ by from the reference's,
/// seven states and three controls to a node.
pub open spec fn step_terms<T: Real>(x: Seq<T>, reference: &Trajectory<T>) -> spec_fn(int) -> T {
    |q: int|
        squared(
            minus(
                x[19 * (q / 10) + q % 10],
                if q % 10 < 7 {
                    reference.x@[q / 10][q % 10]
                } else {
                    reference.u@[q / 10][q % 10 - 7]
                },
            ),
        )
}

/// The squares of what the states of node `k` differ by from the flown ones.
pub open spec fn miss_terms<T: Real>(x: Seq<T>, flown: Seq<Seq<T>>, k: int) -> spec_fn(int) -> T {
    |i: int| squared(minus(x[19 * k + i], flown[k][i]))
}

/// The distances of all nodes' states from the flown ones.
pub open spec fn misses<T: Real, C: Numerics<T>>(
    ops: &C,
    x: Seq<T>,
    flown: Seq<Seq<T>>,
) -> spec_fn(int) -> T {
    |k: int| root_of(ops, sum_of(miss_terms(x, flown, k), 7))
}

/// The norm of all virtual control.
pub open spec fn virtual_norm_of<T: Real, C: Numerics<T>>(ops: &C, x: Seq<T>, n: nat) -> T {
    root_of(ops, sum_of(virtual_terms(x), 7 * n))
}

/// The norm of the step from the reference, in states and controls.
pub open spec fn step_norm_of<T: Real, C: Numerics<T>>(
    ops: &C,
    x: Seq<T>,
    reference: &Trajectory<T>,
    n: nat,
) -> T {
    root_of(ops, sum_of(step_terms(x, reference), 10 * n))
}

/// The merit of a candidate whose controls lead to the states `flown`: its fuel, and its
/// distance from what is flown, weighted.
pub open spec fn true_merit<T: Real, C: Numerics<T>>(
    ops: &C,
    weight: T,
    x: Seq<T>,
    flown: Seq<Seq<T>>,
    n: nat,
) -> T {
    plus(sum_of(thrusts(x), n), times(weight, sum_of(misses(ops, x, flown), n)))
}

proof fn lemma_virtual<T: Real>(x: Seq<T>, m: nat)
    ensures
        virtual_squares(x, m) == sum_of(virtual_terms(x), m),
    decreases m,
{
    if m > 0 {
        lemma_virtual(x, (m - 1) as nat);
    }
}

proof fn lemma_step<T: Real>(x: Seq<T>, reference: &Trajectory<T>, m: nat)
    ensures
        step_squares(x, reference, m) == sum_of(step_terms(x, reference), m),
    decreases m,
{
    if m > 0 {
        lemma_step(x, reference, (m - 1) as nat);
        assert(step_terms(x, reference)(m - 1) == squared(
            minus(
                x[19 * ((m - 1) / 10) + (m - 1) % 10],
                node_entry(reference, (m - 1) / 10, (m - 1) % 10),
            ),
        ));
    }
}

proof fn lemma_fuel<T: Real>(x: Seq<T>, n: nat)
    ensures
        fuel_upto(x, n) == sum_of(thrusts(x), n),
    decreases n,
{
    if n > 0 {
        lemma_fuel(x, (n - 1) as nat);
    }
}

proof fn lemma_node_miss<T: Real>(x: Seq<T>, flown: Seq<Seq<T>>, k: int, i: nat)
    ensures
        defect_squares(flown, x, k, i) == sum_of(miss_terms(x, flown, k), i),
    decreases i,
{
    if i > 0 {
        lemma_node_miss(x, flown, k, (i - 1) as nat);
        assert(miss_terms(x, flown, k)(i - 1) == squared(minus(x[19 * k + i - 1], flown[k][i - 1])));
    }
}

proof fn lemma_misses<T: Real, C: Numerics<T>>(ops: &C, x: Seq<T>, flown: Seq<Seq<T>>, n: nat)
    ensures
        defect_upto(ops, flown, x, n) == sum_of(misses(ops, x, flown), n),
    decreases n,
{
    if n > 0 {
        lemma_misses(ops, x, flown, (n - 1) as nat);
        lemma_node_miss(x, flown, n - 1, 7);
    }
}

// ---- one iteration ----

/// The parts of an iteration whose inner solution can be used.
proof fn lemma_usable_parts<T: Real, P: Plant<T>>(
    task: Task<T, P>,
    k: u32,
    w0: ScvxWorkspace<T>,
    w1: ScvxWorkspace<T>,
    next: Next,
) -> (r: (ScvxWorkspace<T>, ScvxWorkspace<T>, ResultModel<T>))
    requires
        iteration(task, k, w0, w1, next),
        k < w0.history@.len(),
        usable(w1.history@[k as int].ipm_status),
    ensures
        prepared(task, (ScvxWorkspace { iter: k, ..w0 }), r.0),
        inner_solved(task, r.0, r.1, r.2),
        finished(task, k, r.1, w1, r.2, next),
        usable(r.2.status),
        concluded(task, k, r.1, w1, r.2, w1.x_actual, next),
{
    let (wp, wi, r) = lemma_parts(task, k, w0, w1, next);
    if !usable(r.status) {
        assert(retried(task, k, wi, w1, r, next));
        assert(w1.history@[k as int].ipm_status == r.status);
    }
    (wp, wi, r)
}

/// What is measured of a candidate: the record's virtual control is the norm of the
/// candidate's; the candidate is accepted where virtual control, step, cost and merit are
/// finite and, after the first iteration, the recorded ratio is above the refusal
/// threshold; the merit that later candidates are compared with is that of the accepted
/// one. The loop ends with convergence exactly where an accepted candidate's step and
/// virtual control are below their tolerances, and else goes on.
pub proof fn law_candidate_is_judged<T: Real, P: Plant<T>>(
    task: Task<T, P>,
    k: u32,
    w0: ScvxWorkspace<T>,
    w1: ScvxWorkspace<T>,
    next: Next,
)
    requires
        iteration(task, k, w0, w1, next),
        k < w0.history@.len(),
        usable(w1.history@[k as int].ipm_status),
    ensures
        ({
            let z = num::<T>(0);
            let n = w0.dims.n as nat;
            let rec = w1.history@[k as int];
            let x = w1.x_unscaled@;
            let virt = virtual_norm_of(task.plant, x, n);
            let step = step_norm_of(task.plant, x, &w0.reference, n);
            let merit = true_merit(task.plant, task.algo.virt_weight, x, w1.x_actual@, n);
            &&& rec.virt_l1 == virt
            &&& rec.trust_eta == w1.trust_eta
            &&& rec.accepted <==> {
                &&& finite(z, virt) && finite(z, step) && finite(z, rec.cost) && finite(z, merit)
                &&& k == 0 || greater(rec.rho_ratio, task.algo.rho_reject)
            }
            &&& w1.j_prev == if rec.accepted {
                merit
            } else {
                w0.j_prev
            }
            &&& next == Next::Stop(SolverStatus::Converged) <==> {
                &&& rec.accepted
                &&& less(step, task.algo.conv_tol_x)
                &&& less(virt, task.algo.conv_tol_virt)
            }
            &&& next == Next::Stop(SolverStatus::Converged) || next == Next::On
        }),
{
    let (wp, wi, r) = lemma_usable_parts(task, k, w0, w1, next);
    let n = w0.dims.n as nat;
    let x = w1.x_unscaled@;
    lemma_virtual(x, 7 * n);
    lemma_step(x, &w0.reference, 10 * n);
    lemma_fuel(x, n);
    lemma_misses(task.plant, x, w1.x_actual@, n);
    assert(wi.reference == w0.reference && wi.dims == w0.dims && wi.j_prev == w0.j_prev);
}

/// What is flown is the candidate: its states are what the plant makes, in four substeps
/// per interval, of the task's initial state under the candidate's controls in the candidate's time of flight, which
/// for a free final time is the reference's plus the increment, within the bounds. Where
/// the candidate is accepted these are the controls and the duration of the new
/// reference.
pub proof fn law_candidate_is_flown<T: Real, P: Plant<T>>(
    task: Task<T, P>,
    k: u32,
    w0: ScvxWorkspace<T>,
    w1: ScvxWorkspace<T>,
    next: Next,
)
    requires
        iteration(task, k, w0, w1, next),
        k < w0.history@.len(),
        usable(w1.history@[k as int].ipm_status),
        dims_match(w0.dims, task.algo.use_free_tf),
    ensures
        exists|u: Mat<T>, tau: T|
            {
                let n = w0.dims.n as int;
                let x = w1.x_unscaled@;
                &&& #[trigger] call_ensures(
                    P::propagate,
                    (task.plant, task.initial_state, &u, tau, task.phys, 4u32),
                    w1.x_actual,
                )
                &&& u@ == Seq::new(
                    n as nat,
                    |q: int| seq![x[19 * q + 7], x[19 * q + 8], x[19 * q + 9]],
                )
                &&& tau == if task.algo.use_free_tf {
                    clamped(
                        plus(w0.reference.tau, x[19 * n]),
                        task.phys.tau_lo,
                        task.phys.tau_hi,
                    )
                } else {
                    w0.reference.tau
                }
                &&& w1.history@[k as int].accepted ==> u@ == w1.reference.u@ && tau
                    == w1.reference.tau
            },
{
    let (wp, wi, r) = lemma_usable_parts(task, k, w0, w1, next);
    let n = w0.dims.n as int;
    let x = w1.x_unscaled@;
    assert(wi.reference == w0.reference && wi.dims == w0.dims && wi.scale_diag == w0.scale_diag);
    let tau = if task.algo.use_free_tf {
        clamped(plus(w0.reference.tau, x[19 * n]), task.phys.tau_lo, task.phys.tau_hi)
    } else {
        w0.reference.tau
    };
    let u = choose|u: Mat<T>|
        u@ == controls_in(x, n) && #[trigger] call_ensures(
            P::propagate,
            (task.plant, task.initial_state, &u, tau, task.phys, 4u32),
            w1.x_actual,
        );
    let want = Seq::new(n as nat, |q: int| seq![x[19 * q + 7], x[19 * q + 8], x[19 * q + 9]]);
    assert(x.len() == w0.dims.np);
    assert(call_ensures(
        P::propagate,
        (task.plant, task.initial_state, &u, tau, task.phys, 4u32),
        w1.x_actual,
    ));
    assert forall|q: int| 0 <= q < n implies u@[q] == want[q] by {
        assert(u@[q] =~= want[q]);
    }
    assert(u@ =~= want);
}

/// An accepted candidate becomes the reference, node by node: states, controls and thrust
/// magnitudes. A refused one leaves the reference alone.
pub proof fn law_accepted_candidate_is_reference<T: Real, P: Plant<T>>(
    task: Task<T, P>,
    k: u32,
    w0: ScvxWorkspace<T>,
    w1: ScvxWorkspace<T>,
    next: Next,
)
    requires
        iteration(task, k, w0, w1, next),
        k < w0.history@.len(),
        dims_match(w0.dims, task.algo.use_free_tf),
    ensures
        ({
            let n = w0.dims.n as int;
            let x = w1.x_unscaled@;
            let t = w1.reference;
            if w1.history@[k as int].accepted {
                &&& t.sized(n)
                &&& w1.candidate.x@ == t.x@
                &&& w1.candidate.u@ == t.u@
                &&& w1.candidate.sigma@ == t.sigma@
                &&& w1.candidate.tau == t.tau
                &&& forall|q: int, i: int|
                    0 <= q < n && 0 <= i < 7 ==> #[trigger] t.x@[q][i] == x[19 * q + i]
                &&& forall|q: int, i: int|
                    0 <= q < n && 0 <= i < 3 ==> #[trigger] t.u@[q][i] == x[19 * q + 7 + i]
                &&& forall|q: int| 0 <= q < n ==> #[trigger] t.sigma@[q] == x[19 * q + 10]
            } else {
                &&& t == w0.reference
                &&& w1.candidate == w0.candidate
            }
        }),
{
    law_iteration_is_accounted_for(task, k, w0, w1, next);
    if w1.history@[k as int].accepted {
        let (wp, wi, r) = lemma_usable_parts(task, k, w0, w1, next);
        let n = w0.dims.n as int;
        let x = w1.x_unscaled@;
        let t = w1.reference;
        assert(x.len() == w0.dims.np);
        assert forall|q: int| 0 <= q < n implies (#[trigger] t.x@[q]).len() == 7 by {
            assert(t.x@[q] == x.subrange(19 * q, 19 * q + 7));
        }
        assert forall|q: int| 0 <= q < n implies (#[trigger] t.u@[q]).len() == 3 by {
            assert(t.u@[q] == x.subrange(19 * q + 7, 19 * q + 10));
        }
        assert forall|q: int, i: int| 0 <= q < n && 0 <= i < 7 implies #[trigger] t.x@[q][i] == x[19
            * q + i] by {
            assert(t.x@[q] == x.subrange(19 * q, 19 * q + 7));
        }
        assert forall|q: int, i: int| 0 <= q < n && 0 <= i < 3 implies #[trigger] t.u@[q][i] == x[19
            * q + 7 + i] by {
            assert(t.u@[q] == x.subrange(19 * q + 7, 19 * q + 10));
        }
    }
}

/// The recorded merit ratio weighs what the candidate truly gains over the last accepted
/// one against what its subproblem promised: one in the first iteration; else, where more
/// than a trillionth was promised, the gain over the promise, between -10 and 10; else one
/// where next to nothing was promised and nothing lost, and zero where a ratio makes no
/// sense.
pub proof fn law_ratio_weighs_gain_against_promise<T: Real, P: Plant<T>>(
    task: Task<T, P>,
    k: u32,
    w0: ScvxWorkspace<T>,
    w1: ScvxWorkspace<T>,
    next: Next,
)
    requires
        iteration(task, k, w0, w1, next),
        k < w0.history@.len(),
        usable(w1.history@[k as int].ipm_status),
    ensures
        ({
            let z = num::<T>(0);
            let n = w0.dims.n as nat;
            let rec = w1.history@[k as int];
            let merit = true_merit(
                task.plant,
                task.algo.virt_weight,
                w1.x_unscaled@,
                w1.x_actual@,
                n,
            );
            let promise = minus(w0.j_prev, rec.cost);
            let gain = minus(w0.j_prev, merit);
            let trillionth = over(num::<T>(1), times(num::<T>(1_000_000), num::<T>(1_000_000)));
            let ten = num::<T>(10);
            let ratio = over(gain, promise);
            rec.rho_ratio == if k == 0 {
                num::<T>(1)
            } else if greater(promise, trillionth) && finite(z, gain) && finite(z, promise) {
                if less(ratio, negated(ten)) {
                    if greater(negated(ten), ten) {
                        ten
                    } else {
                        negated(ten)
                    }
                } else if greater(ratio, ten) {
                    ten
                } else {
                    ratio
                }
            } else if less(magnitude(z, promise), trillionth) && at_least(gain, z) {
                num::<T>(1)
            } else {
                z
            }
        }),
{
    let (wp, wi, r) = lemma_usable_parts(task, k, w0, w1, next);
    law_candidate_is_judged(task, k, w0, w1, next);
    let n = w0.dims.n as nat;
    lemma_fuel(w1.x_unscaled@, n);
    lemma_misses(task.plant, w1.x_unscaled@, w1.x_actual@, n);
    assert(wi.reference == w0.reference && wi.dims == w0.dims && wi.j_prev == w0.j_prev);
}

/// Where the trust radius goes: down by its divisor after a refused or a poor candidate, up
/// by its factor after a good one, and nowhere in between, within its bounds. Poor and good
/// are set by the two thresholds. Where these follow the achieved ratios and the estimate of
/// those is below the lower threshold, they are three tenths of the estimate, but at least
/// 0.02, and 67 hundredths of it, but at least 0.1, and neither above its setting.
pub proof fn law_radius_follows_the_ratio<T: Real, P: Plant<T>>(
    task: Task<T, P>,
    k: u32,
    w0: ScvxWorkspace<T>,
    w1: ScvxWorkspace<T>,
    next: Next,
)
    requires
        iteration(task, k, w0, w1, next),
        k < w0.history@.len(),
        usable(w1.history@[k as int].ipm_status),
    ensures
        ({
            let algo = task.algo;
            let rec = w1.history@[k as int];
            let follow = algo.use_adaptive_trust && less(w1.rho_ceiling, algo.rho_shrink);
            let poor = if follow {
                clamped(
                    times(ratio::<T>(3, 10), w1.rho_ceiling),
                    ratio::<T>(2, 100),
                    algo.rho_shrink,
                )
            } else {
                algo.rho_shrink
            };
            let good = if follow {
                clamped(
                    times(ratio::<T>(67, 100), w1.rho_ceiling),
                    ratio::<T>(1, 10),
                    algo.rho_grow,
                )
            } else {
                algo.rho_grow
            };
            &&& !rec.accepted || less(rec.rho_ratio, poor) ==> w1.trust_eta == clamped(
                over(w0.trust_eta, algo.trust_alpha),
                algo.trust_eta_min,
                algo.trust_eta_max,
            )
            &&& rec.accepted && !less(rec.rho_ratio, poor) && greater(rec.rho_ratio, good)
                ==> w1.trust_eta == clamped(
                times(w0.trust_eta, algo.trust_beta),
                algo.trust_eta_min,
                algo.trust_eta_max,
            )
            &&& rec.accepted && !less(rec.rho_ratio, poor) && !greater(rec.rho_ratio, good)
                ==> w1.trust_eta == clamped(
                w0.trust_eta,
                algo.trust_eta_min,
                algo.trust_eta_max,
            )
        }),
{
    let (wp, wi, r) = lemma_usable_parts(task, k, w0, w1, next);
    assert(wi.trust_eta == w0.trust_eta);
}

/// The estimate of the achievable ratio: where it is followed, every accepted candidate
/// after the first iteration with a finite ratio moves it, the first of them to its own
/// ratio, brought between zero and one, and each later one half of the way there. Nothing
/// else moves it.
pub proof fn law_estimate_follows_accepted_ratios<T: Real, P: Plant<T>>(
    task: Task<T, P>,
    k: u32,
    w0: ScvxWorkspace<T>,
    w1: ScvxWorkspace<T>,
    next: Next,
)
    requires
        iteration(task, k, w0, w1, next),
        k < w0.history@.len(),
    ensures
        ({
            let rec = w1.history@[k as int];
            let seen = clamped(rec.rho_ratio, num::<T>(0), num::<T>(1));
            let moves = task.algo.use_adaptive_trust && rec.accepted && k != 0 && finite(
                num::<T>(0),
                rec.rho_ratio,
            );
            &&& w1.adaptive_seeded == (w0.adaptive_seeded || moves)
            &&& !moves ==> w1.rho_ceiling == w0.rho_ceiling
            &&& moves && !w0.adaptive_seeded ==> w1.rho_ceiling == seen
            &&& moves && w0.adaptive_seeded && field(units::<T>()) && plus(
                ratio::<T>(1, 2),
                ratio::<T>(1, 2),
            ) == num::<T>(1) ==> plus(w1.rho_ceiling, w1.rho_ceiling) == plus(
                w0.rho_ceiling,
                seen,
            )
        }),
{
    if usable(w1.history@[k as int].ipm_status) {
        let (wp, wi, r) = lemma_usable_parts(task, k, w0, w1, next);
        let seen = clamped(w1.history@[k as int].rho_ratio, num::<T>(0), num::<T>(1));
        if field(units::<T>()) && plus(ratio::<T>(1, 2), ratio::<T>(1, 2)) == num::<T>(1) {
            lemma_half_way(ratio::<T>(1, 2), w0.rho_ceiling, seen);
        }
    } else {
        law_failed_solve_only_shrinks(task, k, w0, w1, next);
    }
}

/// `c = (1 - h) a + h b` with `h + h == 1` is half of `a + b`.
proof fn lemma_half_way<T: Real>(h: T, a: T, b: T)
    requires
        field(units::<T>()),
        plus(h, h) == num::<T>(1),
    ensures
        ({
            let c = plus(times(minus(num::<T>(1), h), a), times(h, b));
            plus(c, c) == plus(a, b)
        }),
{
    let u = units::<T>();
    let one = num::<T>(1);
    // 1 - h == h
    lemma_sub_def(u, one, h);
    lemma_add_assoc(u, h, h, negated(h));
    lemma_add_neg(u, h);
    lemma_add_zero(u, h);
    assert(minus(one, h) == h);
    let ha = times(h, a);
    let hb = times(h, b);
    lemma_add_swap(u, ha, hb, ha, hb);
    lemma_mul_comm(u, h, a);
    lemma_mul_comm(u, h, b);
    lemma_distrib(u, a, h, h);
    lemma_distrib(u, b, h, h);
    lemma_mul_one(u, a);
    lemma_mul_one(u, b);
}

/// After an inner solve without a usable solution nothing but the trust radius changes,
/// beside the record of it: the loop ends where the radius is within a billionth of its
/// floor, and else tries again with a radius divided by its divisor, but not below the
/// floor.
pub proof fn law_failed_solve_only_shrinks<T: Real, P: Plant<T>>(
    task: Task<T, P>,
    k: u32,
    w0: ScvxWorkspace<T>,
    w1: ScvxWorkspace<T>,
    next: Next,
)
    requires
        iteration(task, k, w0, w1, next),
        k < w0.history@.len(),
        !usable(w1.history@[k as int].ipm_status),
    ensures
        ({
            let rec = w1.history@[k as int];
            let lo = task.algo.trust_eta_min;
            let tried = over(w0.trust_eta, task.algo.trust_alpha);
            let floor = at_most(
                w0.trust_eta,
                times(lo, plus(num::<T>(1), ratio::<T>(1, 1_000_000_000))),
            );
            &&& !rec.accepted
            &&& rec.trust_eta == w0.trust_eta
            &&& w1.reference == w0.reference
            &&& w1.candidate == w0.candidate
            &&& w1.j_prev == w0.j_prev
            &&& w1.x_unscaled == w0.x_unscaled
            &&& w1.x_actual == w0.x_actual
            &&& w1.rho_ceiling == w0.rho_ceiling
            &&& w1.adaptive_seeded == w0.adaptive_seeded
            &&& next == if floor {
                Next::Stop(SolverStatus::InnerFailure)
            } else {
                Next::On
            }
            &&& w1.trust_eta == if floor {
                w0.trust_eta
            } else if greater(tried, lo) || !same(lo, lo) {
                tried
            } else {
                lo
            }
        }),
{
    let (wp, wi, r) = lemma_parts(task, k, w0, w1, next);
    if usable(r.status) {
        assert(concluded(task, k, wi, w1, r, w1.x_actual, next));
        assert(w1.history@[k as int].ipm_status == r.status);
    }
    assert(retried(task, k, wi, w1, r, next));
}

/// The record names what the inner solve returned, and the candidate is its solution in the
/// units of the trajectory: its status and iterations, and where it is usable the cost of
/// the inner program at it.
pub proof fn law_record_names_the_inner_result<T: Real, P: Plant<T>>(
    task: Task<T, P>,
    k: u32,
    wi: ScvxWorkspace<T>,
    w1: ScvxWorkspace<T>,
    r: ResultModel<T>,
    next: Next,
)
    requires
        finished(task, k, wi, w1, r, next),
        k < wi.history@.len(),
    ensures
        w1.prob == wi.prob,
        w1.lin == wi.lin,
        w1.ipm_ws == wi.ipm_ws,
        w1.structured_fallbacks == wi.structured_fallbacks,
        ({
            let rec = w1.history@[k as int];
            &&& rec.iter == k
            &&& rec.ipm_status == r.status
            &&& rec.ipm_iters == r.iters
            &&& usable(r.status) ==> rec.cost == dot(num::<T>(0), wi.prob.c@, r.point.x)
            &&& usable(r.status) ==> w1.x_unscaled@ == in_flight_units(
                task.ipm.use_preconditioning,
                r.point.x,
                wi.scale_diag@,
            )
        }),
{
    if usable(r.status) {
        assert(concluded(task, k, wi, w1, r, w1.x_actual, next));
        assert(w1.x_unscaled@ =~= in_flight_units(
            task.ipm.use_preconditioning,
            r.point.x,
            wi.scale_diag@,
        ));
    } else {
        assert(retried(task, k, wi, w1, r, next));
    }
}

/// A run starts afresh: at the reference, the inner point and the records that it was
/// given, with the first trust radius within its bounds, nothing counted, no merit to
/// compare with, and an estimate of one for the ratios that can be achieved.
pub proof fn law_run_starts_afresh<T: Real, P: Plant<T>>(
    task: Task<T, P>,
    w0: ScvxWorkspace<T>,
    trace: Seq<ScvxWorkspace<T>>,
    w1: ScvxWorkspace<T>,
    status: SolverStatus,
)
    requires
        traced(task, w0, trace, w1, status),
    ensures
        ({
            let w = trace[0];
            let eta = task.algo.trust_eta0;
            let raised = if less(eta, task.algo.trust_eta_min) {
                task.algo.trust_eta_min
            } else {
                eta
            };
            &&& w.reference == w0.reference
            &&& w.candidate == w0.candidate
            &&& w.ipm_ws == w0.ipm_ws
            &&& w.history == w0.history
            &&& w.dims == w0.dims
            &&& w.trust_eta == if greater(raised, task.algo.trust_eta_max) {
                task.algo.trust_eta_max
            } else {
                raised
            }
            &&& w.iter == 0
            &&& w.structured_fallbacks == 0
            &&& w.rho_ceiling == num::<T>(1)
            &&& !w.adaptive_seeded
            &&& w.j_prev == over(num::<T>(1), num::<T>(0))
        }),
{
}

/// Which inner results lead to a candidate: optimal ones and the best feasible ones. Such an
/// iteration measures its candidate and never fails; any other accepts nothing and leaves
/// the reference alone.
pub proof fn law_usable_results_lead_to_candidates<T: Real, P: Plant<T>>(
    task: Task<T, P>,
    k: u32,
    w0: ScvxWorkspace<T>,
    w1: ScvxWorkspace<T>,
    next: Next,
)
    requires
        iteration(task, k, w0, w1, next),
        k < w0.history@.len(),
    ensures
        ({
            let rec = w1.history@[k as int];
            if rec.ipm_status == IpmStatus::Optimal || rec.ipm_status == IpmStatus::BestFeasible {
                &&& next != Next::Stop(SolverStatus::InnerFailure)
                &&& w1.x_unscaled@.len() == w0.dims.np
                &&& rec.virt_l1 == virtual_norm_of(
                    task.plant,
                    w1.x_unscaled@,
                    w0.dims.n as nat,
                )
            } else {
                &&& !rec.accepted
                &&& w1.reference == w0.reference
                &&& next != Next::Stop(SolverStatus::Converged)
            }
        }),
{
    if usable(w1.history@[k as int].ipm_status) {
        let (wp, wi, r) = lemma_usable_parts(task, k, w0, w1, next);
        law_candidate_is_judged(task, k, w0, w1, next);
    } else {
        law_failed_solve_only_shrinks(task, k, w0, w1, next);
    }
}

/// A run that ends at the cap has used all the iterations that the settings ask for, or all
/// that the workspace has room for, whichever is less.
pub proof fn law_cap_is_used_up<T: Real, P: Plant<T>>(
    task: Task<T, P>,
    w0: ScvxWorkspace<T>,
    trace: Seq<ScvxWorkspace<T>>,
    w1: ScvxWorkspace<T>,
    status: SolverStatus,
)
    requires
        traced(task, w0, trace, w1, status),
        well_sized(&w0),
        status == SolverStatus::OuterIterCap,
    ensures
        ({
            let done = w1.iter + 1;
            &&& done <= task.algo.max_outer_iters && done <= w0.dims.max_outer
            &&& done == task.algo.max_outer_iters || done == w0.dims.max_outer
        }),
{
    let m = trace.len() - 1;
    law_run_is_recorded(task, w0, trace, w1, status);
    lemma_trace_keeps_room(task, w0, trace, w1, status, m - 1);
    let k = (m - 1) as u32;
    if iteration(task, k, trace[m - 1], trace[m], Next::Stop(status)) {
        law_iteration_is_accounted_for(task, k, trace[m - 1], trace[m], Next::Stop(status));
    }
}

// ---- convergence of a run ----

/// The candidate of iteration `i` of a run was accepted with a step and a virtual control
/// below their tolerances.
pub open spec fn settled_in<T: Real, P: Plant<T>>(
    task: Task<T, P>,
    trace: Seq<ScvxWorkspace<T>>,
    i: int,
) -> bool {
    let n = trace[i].dims.n as nat;
    let x = trace[i + 1].x_unscaled@;
    &&& trace[i + 1].history@[i].accepted
    &&& less(step_norm_of(task.plant, x, &trace[i].reference, n), task.algo.conv_tol_x)
    &&& less(virtual_norm_of(task.plant, x, n), task.algo.conv_tol_virt)
}

/// A run ends as converged in the first iteration that accepts a candidate with a step and
/// a virtual control below their tolerances, and in no other: it does not pass such an
/// iteration by, and a run that ends otherwise has none.
pub proof fn law_run_stops_where_it_settles<T: Real, P: Plant<T>>(
    task: Task<T, P>,
    w0: ScvxWorkspace<T>,
    trace: Seq<ScvxWorkspace<T>>,
    w1: ScvxWorkspace<T>,
    status: SolverStatus,
    i: int,
)
    requires
        traced(task, w0, trace, w1, status),
        well_sized(&w0),
        0 <= i < trace.len() - 1,
    ensures
        settled_in(task, trace, i) <==> i == trace.len() - 2 && status == SolverStatus::Converged,
{
    let m = trace.len() - 1;
    let k = i as u32;
    lemma_trace_keeps_room(task, w0, trace, w1, status, i);
    if i < m - 1 {
        assert(linked(task, trace, i));
        lemma_settles_or_goes_on(task, k, trace[i], trace[i + 1], Next::On);
    } else {
        if iteration(task, k, trace[i], trace[i + 1], Next::Stop(status)) {
            lemma_settles_or_goes_on(task, k, trace[i], trace[i + 1], Next::Stop(status));
        } else {
            assert(linked(task, trace, i));
            lemma_settles_or_goes_on(task, k, trace[i], trace[i + 1], Next::On);
        }
    }
}

proof fn lemma_settles_or_goes_on<T: Real, P: Plant<T>>(
    task: Task<T, P>,
    k: u32,
    w0: ScvxWorkspace<T>,
    w1: ScvxWorkspace<T>,
    next: Next,
)
    requires
        iteration(task, k, w0, w1, next),
        k < w0.history@.len(),
    ensures
        ({
            let n = w0.dims.n as nat;
            let x = w1.x_unscaled@;
            next == Next::Stop(SolverStatus::Converged) <==> {
                &&& w1.history@[k as int].accepted
                &&& less(step_norm_of(task.plant, x, &w0.reference, n), task.algo.conv_tol_x)
                &&& less(virtual_norm_of(task.plant, x, n), task.algo.conv_tol_virt)
            }
        }),
{
    if usable(w1.history@[k as int].ipm_status) {
        law_candidate_is_judged(task, k, w0, w1, next);
    } else {
        law_failed_solve_only_shrinks(task, k, w0, w1, next);
    }
}

/// A solve that converged did so in its last iteration, with an accepted candidate, which
/// is the reference it leaves, whose virtual control and whose step from the reference
/// before are below their tolerances.
pub proof fn law_converged_means_settled<T: Real, P: Plant<T>>(
    task: Task<T, P>,
    w0: ScvxWorkspace<T>,
    w1: ScvxWorkspace<T>,
    status: SolverStatus,
) -> (before: Trajectory<T>)
    requires
        well_sized(&w0),
        outcome(task, w0, w1, status),
        status == SolverStatus::Converged,
    ensures
        ({
            let n = w0.dims.n as nat;
            let last = w1.history@[w1.iter as int];
            let x = w1.x_unscaled@;
            &&& last.accepted
            &&& last.virt_l1 == virtual_norm_of(task.plant, x, n)
            &&& less(last.virt_l1, task.algo.conv_tol_virt)
            &&& less(step_norm_of(task.plant, x, &before, n), task.algo.conv_tol_x)
            &&& holds_candidate(&w1.reference, x, n as int, w1.reference.tau)
        }),
{
    let trace = choose|trace: Seq<ScvxWorkspace<T>>| #[trigger]
        traced(task, w0, trace, w1, status);
    let m = trace.len() - 1;
    let k = (m - 1) as u32;
    law_run_is_recorded(task, w0, trace, w1, status);
    law_run_stops_where_it_settles(task, w0, trace, w1, status, m - 1);
    lemma_trace_keeps_room(task, w0, trace, w1, status, m - 1);
    let next = lemma_happened(task, w0, trace, w1, status, m - 1);
    law_iteration_is_accounted_for(task, k, trace[m - 1], trace[m], next);
    law_candidate_is_judged(task, k, trace[m - 1], trace[m], next);
    trace[m - 1].reference
}

/// The workspace's last record is of an accepted candidate, which is the reference, with
/// virtual control below `tol_virt` and less than `tol_x` away from the reference that was
/// there before.
pub open spec fn settled_at<T: Real, P: Plant<T>>(
    plant: &P,
    tol_x: T,
    tol_virt: T,
    w: &ScvxWorkspace<T>,
) -> bool {
    let n = w.dims.n as nat;
    let last = w.history@[w.iter as int];
    let x = w.x_unscaled@;
    &&& last.accepted
    &&& last.virt_l1 == virtual_norm_of(plant, x, n)
    &&& less(last.virt_l1, tol_virt)
    &&& exists|before: Trajectory<T>|
        less(#[trigger] step_norm_of(plant, x, &before, n), tol_x)
    &&& holds_candidate(&w.reference, x, n as int, w.reference.tau)
}

/// Where comparisons and arithmetic are as those of floating-point numbers, the trust radius
/// of the workspace and of its records lies within the bounds, and so does a free time of
/// flight.
pub open spec fn stays_within<T: Real, P: Plant<T>>(
    plant: &P,
    eta_min: T,
    eta_max: T,
    free_tf: bool,
    tau_lo: T,
    tau_hi: T,
    w: &ScvxWorkspace<T>,
) -> bool {
    ordered::<T>() && order_kept::<T>() && poisonous::<T, P>(plant) ==> {
        &&& between(eta_min, w.trust_eta, eta_max)
        &&& forall|i: int|
            0 <= i <= w.iter ==> between(eta_min, (#[trigger] w.history@[i]).trust_eta, eta_max)
        &&& free_tf ==> between(tau_lo, w.reference.tau, tau_hi)
    }
}

/// Where the plant's drivers keep to their caps, no record has more inner iterations than
/// either cap.
pub open spec fn spends_at_most<T: Real, P: Plant<T>>(
    plant: &P,
    asked: u32,
    hard: u32,
    w: &ScvxWorkspace<T>,
) -> bool {
    dense_capped::<T, P>(plant, hard) ==> forall|i: int|
        0 <= i <= w.iter ==> (#[trigger] w.history@[i]).ipm_iters <= asked && w.history@[i].ipm_iters
            <= hard
}

/// What a solve promises of the workspace it leaves, in terms of the task alone.
pub proof fn lemma_solve_summary<T: Real, P: Plant<T>>(
    task: Task<T, P>,
    w0: ScvxWorkspace<T>,
    w1: ScvxWorkspace<T>,
    status: SolverStatus,
)
    requires
        well_shaped(task.plant),
        well_sized(&w0),
        outcome(task, w0, w1, status),
    ensures
        status != SolverStatus::BadInput ==> {
            &&& w1.iter < task.algo.max_outer_iters
            &&& w1.dims == w0.dims
            &&& !task.algo.use_free_tf ==> w1.reference.tau == w0.reference.tau
            &&& stays_within(
                task.plant,
                task.algo.trust_eta_min,
                task.algo.trust_eta_max,
                task.algo.use_free_tf,
                task.phys.tau_lo,
                task.phys.tau_hi,
                &w1,
            )
            &&& spends_at_most(task.plant, task.ipm.max_iters, task.hard_max_iters, &w1)
        },
        status == SolverStatus::Converged ==> settled_at(
            task.plant,
            task.algo.conv_tol_x,
            task.algo.conv_tol_virt,
            &w1,
        ),
        status == SolverStatus::Converged && field(units::<T>()) && inner_solves_exact(task)
            ==> joins(&w1.reference, w0.dims.n as int, task.initial_state@, task.terminal),
{
    if status != SolverStatus::BadInput {
        let trace = choose|trace: Seq<ScvxWorkspace<T>>| #[trigger]
            traced(task, w0, trace, w1, status);
        law_run_is_recorded(task, w0, trace, w1, status);
        law_time_of_flight_stays_within_bounds(task, w0, trace, w1, status, trace.len() - 1);
        if ordered::<T>() && order_kept::<T>() && poisonous::<T, P>(task.plant) {
            law_solve_keeps_its_bounds(task, w0, w1, status);
        }
        if dense_capped::<T, P>(task.plant, task.hard_max_iters) {
            law_solve_caps_inner_iterations(task, w0, w1, status);
        }
    }
    if status == SolverStatus::Converged {
        let before = law_converged_means_settled(task, w0, w1, status);
        let n = w0.dims.n as nat;
        assert(less(
            step_norm_of(task.plant, w1.x_unscaled@, &before, n),
            task.algo.conv_tol_x,
        ));
        if field(units::<T>()) && inner_solves_exact(task) {
            law_solve_lands_on_target(task, w0, w1, status, w1.iter as int);
        }
    }
}

// ---- who solves the program ----

/// Where no structured solve is asked for, the plant's driver of the asked-for kind solves
/// the iteration's program, with the task's inner settings and a start from the workspace:
/// the self-dual one where that is on, else the Nesterov-Todd one where that is on, else
/// the symmetric one. The record is of its result, and the candidate is its solution.
pub proof fn law_plant_solves_the_program<T: Real, P: Plant<T>>(
    task: Task<T, P>,
    k: u32,
    w0: ScvxWorkspace<T>,
    w1: ScvxWorkspace<T>,
    next: Next,
)
    requires
        iteration(task, k, w0, w1, next),
        k < w0.history@.len(),
        !task.algo.use_structured_solve,
    ensures
        exists|ws: SocpWorkspace<T>, o: (SocpResult<T>, SocpWorkspace<T>)|
            #[trigger] solved_by_plant(task, w1.prob, ws, o) && {
                let rec = w1.history@[k as int];
                &&& rec.ipm_status == o.0.status
                &&& rec.ipm_iters == o.0.iters
                &&& usable(rec.ipm_status) ==> rec.cost == dot(num::<T>(0), w1.prob.c@, o.0.x@)
                &&& w1.ipm_ws@ == o.1@
                &&& ws.lambda@ == w0.ipm_ws.lambda@
                &&& ws.s@ == w0.ipm_ws.s@
                &&& ws.y@ == w0.ipm_ws.y@
                &&& field(units::<T>()) && task_sized(task, &w0) && all_nonzero(
                    num::<T>(0),
                    w0.scale_diag@,
                ) ==> flies_reference(
                    in_flight_units(task.ipm.use_preconditioning, ws.x@, w0.scale_diag@),
                    &w0.reference,
                    w0.dims.n as int,
                    task.algo.use_free_tf,
                )
                &&& usable(rec.ipm_status) ==> w1.x_unscaled@ == in_flight_units(
                    task.ipm.use_preconditioning,
                    o.0.x@,
                    w0.scale_diag@,
                )
            },
{
    let (wp, wi, r) = lemma_parts(task, k, w0, w1, next);
    let params = warm_params(task.ipm);
    let m = dense_method(task.ipm);
    assert(dense_may(task.plant, m, &wp.prob, params, wp.ipm_ws@, r, wi.ipm_ws@));
    let (ws, o) = choose|ws: SocpWorkspace<T>, o: (SocpResult<T>, SocpWorkspace<T>)|
        #[trigger] dense_call(task.plant, m, &wp.prob, &params, ws, o) && ws@ == wp.ipm_ws@ && o.0@
            == r && o.1@ == wi.ipm_ws@;
    assert(solved_by_plant(task, wp.prob, ws, o));
    assert(w1.prob == wp.prob && w1.ipm_ws == wi.ipm_ws) by {
        if usable(r.status) {
            assert(concluded(task, k, wi, w1, r, w1.x_actual, next));
        } else {
            assert(retried(task, k, wi, w1, r, next));
        }
    }
    assert(o.0@.status == r.status && o.0@.iters == r.iters && o.0@.point.x == r.point.x);
    assert(ws@.lambda == wp.ipm_ws@.lambda && ws@.s == wp.ipm_ws@.s && ws@.y == wp.ipm_ws@.y);
    if field(units::<T>()) && task_sized(task, &w0) && all_nonzero(
        num::<T>(0),
        w0.scale_diag@,
    ) {
        law_inner_solve_starts_at_reference(task, ScvxWorkspace { iter: k, ..w0 }, wp);
        assert(ws@.x == wp.ipm_ws@.x);
    }
    assert(wp.ipm_ws@.lambda == w0.ipm_ws@.lambda && wp.ipm_ws@.s == w0.ipm_ws@.s && wp.ipm_ws@.y
        == w0.ipm_ws@.y);
    if usable(r.status) {
        assert(concluded(task, k, wi, w1, r, w1.x_actual, next));
        assert(w1.x_unscaled@ =~= in_flight_units(
            task.ipm.use_preconditioning,
            o.0.x@,
            w0.scale_diag@,
        ));
    } else {
        assert(retried(task, k, wi, w1, r, next));
    }
}

/// The plant's driver of the kind that the settings ask for can return `o` for `prob`.
pub open spec fn solved_by_plant<T: Real, P: Plant<T>>(
    task: Task<T, P>,
    prob: SocpProblem<T>,
    ws: SocpWorkspace<T>,
    o: (SocpResult<T>, SocpWorkspace<T>),
) -> bool {
    let params = IpmAlgoParams { warm_start_x: true, ..*task.ipm };
    if task.ipm.use_hsd {
        call_ensures(P::solve_socp_hsd, (task.plant, &prob, &params, ws), o)
    } else if task.ipm.use_nt_scaling {
        call_ensures(P::solve_socp_nt, (task.plant, &prob, &params, ws), o)
    } else {
        call_ensures(P::solve_socp, (task.plant, &prob, &params, ws), o)
    }
}

/// Where a structured solve is asked for and its result is usable, it is the iteration's:
/// that of the self-dual driver where that is on, else that of the direct driver with the
/// asked-for direction, on the iteration's program with the task's limits and settings.
/// Where it is not usable, the plant's driver starts over from the reference with zero
/// multipliers, and this is counted.
pub proof fn law_structured_driver_goes_first<T: Real, P: Plant<T>>(
    task: Task<T, P>,
    wp: ScvxWorkspace<T>,
    wi: ScvxWorkspace<T>,
    r: ResultModel<T>,
)
    requires
        inner_solved(task, wp, wi, r),
        task.algo.use_structured_solve,
        wp.structured_fallbacks < u32::MAX,
    ensures
        wi.prob == wp.prob,
        wi.reference == wp.reference,
        wi.trust_eta == wp.trust_eta,
        ({
            let params = IpmAlgoParams { warm_start_x: true, ..*task.ipm };
            let drv = |nt: bool|
                Driver {
                    n: wp.dims.n,
                    free_tf: task.algo.use_free_tf,
                    nt,
                    limits: task.limits,
                    hard_max_iters: task.hard_max_iters,
                };
            let o = if task.ipm.use_hsd {
                hsd_solved(drv(true), task.plant, &wp.prob, params, wp.ipm_ws@)
            } else {
                solved(drv(task.ipm.use_nt_scaling), task.plant, &wp.prob, params, wp.ipm_ws@)
            };
            if usable(o.result.status) {
                &&& r == o.result
                &&& wi.ipm_ws@ == o.pt
                &&& wi.structured_fallbacks == wp.structured_fallbacks
            } else {
                &&& wi.structured_fallbacks == wp.structured_fallbacks + 1
                &&& exists|ws: SocpWorkspace<T>, d: (SocpResult<T>, SocpWorkspace<T>)|
                    {
                        &&& #[trigger] solved_by_plant(task, wp.prob, ws, d)
                        &&& d.0@ == r
                        &&& d.1@ == wi.ipm_ws@
                        &&& ws@.x == warm_x(task, &wp)
                        &&& ws@.lambda == constant(num::<T>(0), wp.dims.ne as int)
                    }
            }
        }),
{
    let params = warm_params(task.ipm);
    let m = dense_method(task.ipm);
    let o = structured_outcome(task, &wp);
    if !usable(o.result.status) {
        let again = Point {
            x: warm_x(task, &wp),
            lambda: constant(num::<T>(0), wp.dims.ne as int),
            s: o.pt.s,
            y: o.pt.y,
        };
        assert(dense_may(task.plant, m, &wp.prob, params, again, r, wi.ipm_ws@));
        let (ws, d) = choose|ws: SocpWorkspace<T>, d: (SocpResult<T>, SocpWorkspace<T>)|
            #[trigger] dense_call(task.plant, m, &wp.prob, &params, ws, d) && ws@ == again && d.0@
                == r && d.1@ == wi.ipm_ws@;
        assert(solved_by_plant(task, wp.prob, ws, d));
    }
}

} // verus!
