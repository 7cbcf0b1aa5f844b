//! What every run of the outer loop keeps, whatever the plant returned: how it is
//! recorded and how it ends, when the reference changes, where the merit ratio, its
//! thresholds, the trust radius and the time of flight stay, how many inner iterations
//! are recorded, and that the reference stays finite.
use crate::layout::spec_np;
use crate::linalg::dot_upto;
use crate::merit::{defect_upto, fuel_upto, holds_candidate, node_entry, step_squares};
use crate::numerics::{root_of, Numerics};
use crate::precondition::dtau_scale;
use crate::scalar::{
    at_most, clamped, finite, greater, less, minus, negated, num, over, plus, ratio, same, times,
    Real,
};
use crate::scvx::{
    admissible, algo_admissible, candidate_tau, column_stage, concluded, dense_may, finished,
    inner_driver, inner_solved, is_subproblem, iteration, judgement, linked, original_units,
    outcome, outer_cap, prepared, quality, quality_sound, retried, row_stage, time_admissible,
    traced, usable, warm_params, well_sized, Method, Next, Plant, ScvxWorkspace, Task,
};
use crate::solver_laws::law_iterations_are_capped;
use crate::structured_socp::iteration_cap;
use crate::trust::{
    at_floor, grow_threshold, merit_ratio, negligible, next_trust, shrink_threshold, shrunk_trust,
};
use crate::types::{
    IpmAlgoParams, Point, ResultModel, ScvxAlgoParams, SocpProblem, SolverStatus, Trajectory,
};
use vstd::prelude::*;

verus! {

// ---- one iteration ----

/// What one iteration changes, and what its record says of it.
pub open spec fn accounted<T: Real, P: Plant<T>>(
    task: Task<T, P>,
    k: u32,
    w0: ScvxWorkspace<T>,
    w1: ScvxWorkspace<T>,
    next: Next,
) -> bool {
    let rec = w1.history@[k as int];
    let n = w0.dims.n as int;
    &&& w1.dims == w0.dims
    &&& w1.scale_diag == w0.scale_diag
    &&& w1.iter == k
    &&& rec.iter == k
    &&& w1.history@ == w0.history@.update(k as int, rec)
    &&& if task.algo.use_structured_solve {
        w1.structured_fallbacks == w0.structured_fallbacks || w1.structured_fallbacks == (
        w0.structured_fallbacks + 1) as u32
    } else {
        w1.structured_fallbacks == w0.structured_fallbacks
    }
    &&& if rec.accepted {
        &&& usable(rec.ipm_status)
        &&& holds_candidate(&w1.reference, w1.x_unscaled@, n, w1.reference.tau)
        &&& holds_candidate(&w1.candidate, w1.x_unscaled@, n, w1.reference.tau)
        &&& w1.reference.tau == candidate_tau(task, w0.reference.tau, w1.x_unscaled@, n)
    } else {
        &&& w1.reference == w0.reference
        &&& w1.candidate == w0.candidate
        &&& w1.j_prev == w0.j_prev
    }
    &&& match next {
        Next::On => true,
        Next::Stop(SolverStatus::Converged) => {
            &&& rec.accepted
            &&& less(rec.virt_l1, task.algo.conv_tol_virt)
            &&& less(
                root_of(
                    task.plant,
                    step_squares(w1.x_unscaled@, &w0.reference, (10 * n) as nat),
                ),
                task.algo.conv_tol_x,
            )
        },
        Next::Stop(SolverStatus::InnerFailure) => {
            &&& !usable(rec.ipm_status)
            &&& !rec.accepted
            &&& at_floor(task.algo, w0.trust_eta)
        },
        Next::Stop(_) => false,
    }
}

/// The parts of an iteration, chosen from what its relation says exists.
pub proof fn lemma_parts<T: Real, P: Plant<T>>(
    task: Task<T, P>,
    k: u32,
    w0: ScvxWorkspace<T>,
    w1: ScvxWorkspace<T>,
    next: Next,
) -> (r: (ScvxWorkspace<T>, ScvxWorkspace<T>, ResultModel<T>))
    requires
        iteration(task, k, w0, w1, next),
    ensures
        prepared(task, (ScvxWorkspace { iter: k, ..w0 }), r.0),
        inner_solved(task, r.0, r.1, r.2),
        finished(task, k, r.1, w1, r.2, next),
{
    reveal(iteration);
    let (wp, wi, r) = choose|wp: ScvxWorkspace<T>, wi: ScvxWorkspace<T>, r: ResultModel<T>|
        {
            &&& prepared(task, ScvxWorkspace { iter: k, ..w0 }, wp)
            &&& #[trigger] inner_solved(task, wp, wi, r)
            &&& #[trigger] finished(task, k, wi, w1, r, next)
        };
    (wp, wi, r)
}

/// An iteration is accounted for by its record: an accepted candidate becomes the
/// reference, and a refused one leaves the reference and its merit alone. The loop
/// converges only on an accepted candidate within both tolerances, and fails only
/// where the inner solve failed at the smallest trust radius.
pub proof fn law_iteration_is_accounted_for<T: Real, P: Plant<T>>(
    task: Task<T, P>,
    k: u32,
    w0: ScvxWorkspace<T>,
    w1: ScvxWorkspace<T>,
    next: Next,
)
    requires
        iteration(task, k, w0, w1, next),
        k < w0.history@.len(),
    ensures
        accounted(task, k, w0, w1, next),
{
    let (wp, wi, r) = lemma_parts(task, k, w0, w1, next);
    assert(wi.history == w0.history && wi.reference == w0.reference && wi.dims == w0.dims);
    if usable(r.status) {
        assert(concluded(task, k, wi, w1, r, w1.x_actual, next));
    } else {
        assert(retried(task, k, wi, w1, r, next));
    }
}

/// The plant's own drivers keep to the iterations that their settings and the hard limit
/// allow.
pub open spec fn dense_capped<T: Real, P: Plant<T>>(plant: &P, hard: u32) -> bool {
    forall|
        m: Method,
        prob: SocpProblem<T>,
        params: IpmAlgoParams<T>,
        from: Point<T>,
        r: ResultModel<T>,
        to: Point<T>,
    |
        #[trigger] dense_may(plant, m, &prob, params, from, r, to) ==> r.iters <= iteration_cap(
            params.max_iters,
            hard,
        )
}

/// The inner solve of the iteration from `w0` to `w1` is the structured driver's own: none
/// of the plant's drivers stepped in.
pub open spec fn solved_structured<T: Real, P: Plant<T>>(
    task: Task<T, P>,
    w0: ScvxWorkspace<T>,
    w1: ScvxWorkspace<T>,
) -> bool {
    task.algo.use_structured_solve && w1.structured_fallbacks == w0.structured_fallbacks
}

/// An iteration records no more inner iterations than the settings and the hard limit
/// allow: where the structured driver solved it whatever the plant, and else where the
/// plant's drivers keep to that themselves.
pub proof fn law_inner_iterations_are_capped<T: Real, P: Plant<T>>(
    task: Task<T, P>,
    k: u32,
    w0: ScvxWorkspace<T>,
    w1: ScvxWorkspace<T>,
    next: Next,
)
    requires
        iteration(task, k, w0, w1, next),
        k < w0.history@.len(),
        w0.structured_fallbacks < u32::MAX,
        solved_structured(task, w0, w1) || dense_capped::<T, P>(task.plant, task.hard_max_iters),
    ensures
        w1.history@[k as int].ipm_iters <= iteration_cap(task.ipm.max_iters, task.hard_max_iters),
{
    let (wp, wi, r) = lemma_parts(task, k, w0, w1, next);
    let drv = inner_driver(task, wp.dims.n);
    law_iterations_are_capped(drv, task.plant, &wp.prob, warm_params(task.ipm), wp.ipm_ws@);
    if usable(r.status) {
        assert(concluded(task, k, wi, w1, r, w1.x_actual, next));
    } else {
        assert(retried(task, k, wi, w1, r, next));
    }
}

// ---- a whole run ----

/// The record that the run leaves of iteration `i` is the one made in it.
pub open spec fn keeps_record<T>(
    trace: Seq<ScvxWorkspace<T>>,
    w1: ScvxWorkspace<T>,
    i: int,
) -> bool {
    w1.history@[i] == trace[i + 1].history@[i] && w1.history@[i].iter == i
}

/// What holds after the first `j` iterations of a run.
spec fn recorded_upto<T: Real, P: Plant<T>>(
    task: Task<T, P>,
    w0: ScvxWorkspace<T>,
    trace: Seq<ScvxWorkspace<T>>,
    j: int,
) -> bool {
    let w = trace[j];
    &&& w.dims == w0.dims
    &&& w.history@.len() == w0.history@.len()
    &&& w.structured_fallbacks <= j
    &&& !task.algo.use_structured_solve ==> w.structured_fallbacks == 0
    &&& j > 0 ==> w.iter == j - 1
    &&& forall|i: int| 0 <= i < j ==> #[trigger] keeps_record(trace, w, i)
    &&& forall|i: int| j <= i < w0.history@.len() ==> #[trigger] w.history@[i] == w0.history@[i]
}

/// What iteration `i` of a run led to.
pub proof fn lemma_happened<T: Real, P: Plant<T>>(
    task: Task<T, P>,
    w0: ScvxWorkspace<T>,
    trace: Seq<ScvxWorkspace<T>>,
    w1: ScvxWorkspace<T>,
    status: SolverStatus,
    i: int,
) -> (next: Next)
    requires
        traced(task, w0, trace, w1, status),
        0 <= i < trace.len() - 1,
    ensures
        iteration(task, i as u32, trace[i], trace[i + 1], next),
{
    if i < trace.len() - 2 {
        assert(linked(task, trace, i));
    }
    if iteration(task, i as u32, trace[i], trace[i + 1], Next::On) {
        Next::On
    } else {
        Next::Stop(status)
    }
}

proof fn lemma_recorded_upto<T: Real, P: Plant<T>>(
    task: Task<T, P>,
    w0: ScvxWorkspace<T>,
    trace: Seq<ScvxWorkspace<T>>,
    w1: ScvxWorkspace<T>,
    status: SolverStatus,
    j: int,
)
    requires
        traced(task, w0, trace, w1, status),
        well_sized(&w0),
        0 <= j < trace.len(),
    ensures
        recorded_upto(task, w0, trace, j),
    decreases j,
{
    if j > 0 {
        let k = (j - 1) as u32;
        lemma_recorded_upto(task, w0, trace, w1, status, j - 1);
        let next = lemma_happened(task, w0, trace, w1, status, j - 1);
        law_iteration_is_accounted_for(task, k, trace[j - 1], trace[j], next);
        assert forall|i: int| 0 <= i < j implies #[trigger] keeps_record(trace, trace[j], i) by {
            if i < j - 1 {
                assert(keeps_record(trace, trace[j - 1], i));
            }
        }
    }
}

/// Along a run the workspace keeps its sizes and its room for records.
pub proof fn lemma_trace_keeps_room<T: Real, P: Plant<T>>(
    task: Task<T, P>,
    w0: ScvxWorkspace<T>,
    trace: Seq<ScvxWorkspace<T>>,
    w1: ScvxWorkspace<T>,
    status: SolverStatus,
    i: int,
)
    requires
        traced(task, w0, trace, w1, status),
        well_sized(&w0),
        0 <= i < trace.len() - 1,
    ensures
        trace[i].dims == w0.dims,
        i < trace[i].history@.len(),
        trace[i].structured_fallbacks <= i,
{
    lemma_recorded_upto(task, w0, trace, w1, status, i);
}

/// A run never exceeds its cap. It leaves one record per iteration, in order and
/// never rewritten, and no other record; the workspace's sizes stay; the dense driver
/// steps in at most once per iteration, and is not counted where no structured
/// solve was asked for.
pub proof fn law_run_is_recorded<T: Real, P: Plant<T>>(
    task: Task<T, P>,
    w0: ScvxWorkspace<T>,
    trace: Seq<ScvxWorkspace<T>>,
    w1: ScvxWorkspace<T>,
    status: SolverStatus,
)
    requires
        traced(task, w0, trace, w1, status),
        well_sized(&w0),
    ensures
        ({
            let m = trace.len() - 1;
            &&& 1 <= m <= outer_cap(task.algo.max_outer_iters, w0.dims.max_outer)
            &&& w1.dims == w0.dims
            &&& w1.iter == m - 1
            &&& w1.history@.len() == w0.history@.len()
            &&& forall|i: int| 0 <= i < m ==> #[trigger] keeps_record(trace, w1, i)
            &&& forall|i: int|
                m <= i < w0.history@.len() ==> #[trigger] w1.history@[i] == w0.history@[i]
            &&& w1.structured_fallbacks <= m
            &&& !task.algo.use_structured_solve ==> w1.structured_fallbacks == 0
        }),
{
    lemma_recorded_upto(task, w0, trace, w1, status, trace.len() - 1);
}

/// Every record of a run stays within the iterations that the settings and the hard limit
/// allow the inner solve: a record of the structured driver whatever the plant, and every
/// record where the plant's drivers keep to that themselves.
pub proof fn law_recorded_inner_iterations_are_capped<T: Real, P: Plant<T>>(
    task: Task<T, P>,
    w0: ScvxWorkspace<T>,
    trace: Seq<ScvxWorkspace<T>>,
    w1: ScvxWorkspace<T>,
    status: SolverStatus,
    i: int,
)
    requires
        traced(task, w0, trace, w1, status),
        well_sized(&w0),
        0 <= i < trace.len() - 1,
        solved_structured(task, trace[i], trace[i + 1]) || dense_capped::<T, P>(
            task.plant,
            task.hard_max_iters,
        ),
    ensures
        w1.history@[i].ipm_iters <= iteration_cap(task.ipm.max_iters, task.hard_max_iters),
{
    law_run_is_recorded(task, w0, trace, w1, status);
    assert(keeps_record(trace, w1, i));
    lemma_recorded_upto(task, w0, trace, w1, status, i);
    let next = lemma_happened(task, w0, trace, w1, status, i);
    law_inner_iterations_are_capped(task, i as u32, trace[i], trace[i + 1], next);
}

/// A solve that never fell back on the plant's drivers, or one whose plant's drivers keep
/// to their cap, records for no iteration more inner iterations than the settings and the
/// hard limit allow.
pub proof fn law_solve_caps_inner_iterations<T: Real, P: Plant<T>>(
    task: Task<T, P>,
    w0: ScvxWorkspace<T>,
    w1: ScvxWorkspace<T>,
    status: SolverStatus,
)
    requires
        well_sized(&w0),
        outcome(task, w0, w1, status),
        status != SolverStatus::BadInput,
        (task.algo.use_structured_solve && w1.structured_fallbacks == 0) || dense_capped::<T, P>(
            task.plant,
            task.hard_max_iters,
        ),
    ensures
        forall|i: int|
            0 <= i <= w1.iter ==> (#[trigger] w1.history@[i]).ipm_iters <= iteration_cap(
                task.ipm.max_iters,
                task.hard_max_iters,
            ),
{
    let trace = choose|trace: Seq<ScvxWorkspace<T>>| #[trigger]
        traced(task, w0, trace, w1, status);
    law_run_is_recorded(task, w0, trace, w1, status);
    assert forall|i: int| 0 <= i <= w1.iter implies (#[trigger] w1.history@[i]).ipm_iters
        <= iteration_cap(task.ipm.max_iters, task.hard_max_iters) by {
        if !dense_capped::<T, P>(task.plant, task.hard_max_iters) {
            lemma_fallbacks_grow(task, w0, trace, w1, status, i, trace.len() - 1);
            lemma_fallbacks_grow(task, w0, trace, w1, status, i + 1, trace.len() - 1);
        }
        law_recorded_inner_iterations_are_capped(task, w0, trace, w1, status, i);
    }
}

proof fn lemma_fallbacks_grow<T: Real, P: Plant<T>>(
    task: Task<T, P>,
    w0: ScvxWorkspace<T>,
    trace: Seq<ScvxWorkspace<T>>,
    w1: ScvxWorkspace<T>,
    status: SolverStatus,
    i: int,
    j: int,
)
    requires
        traced(task, w0, trace, w1, status),
        well_sized(&w0),
        0 <= i <= j < trace.len(),
    ensures
        trace[i].structured_fallbacks <= trace[j].structured_fallbacks,
    decreases j - i,
{
    if i < j {
        lemma_fallbacks_grow(task, w0, trace, w1, status, i, j - 1);
        lemma_recorded_upto(task, w0, trace, w1, status, j - 1);
        let next = lemma_happened(task, w0, trace, w1, status, j - 1);
        law_iteration_is_accounted_for(task, (j - 1) as u32, trace[j - 1], trace[j], next);
    }
}

/// How a run can end: converged on an accepted candidate that is the reference it
/// leaves, with the tolerance on the virtual control met; failed with the inner solve
/// of the last iteration, at the smallest trust radius; or at the cap.
pub proof fn law_status_of_run<T: Real, P: Plant<T>>(
    task: Task<T, P>,
    w0: ScvxWorkspace<T>,
    trace: Seq<ScvxWorkspace<T>>,
    w1: ScvxWorkspace<T>,
    status: SolverStatus,
)
    requires
        traced(task, w0, trace, w1, status),
        well_sized(&w0),
    ensures
        ({
            let m = trace.len() - 1;
            let last = w1.history@[m - 1];
            match status {
                SolverStatus::Converged => {
                    &&& last.accepted
                    &&& less(last.virt_l1, task.algo.conv_tol_virt)
                    &&& holds_candidate(
                        &w1.reference,
                        w1.x_unscaled@,
                        w0.dims.n as int,
                        w1.reference.tau,
                    )
                },
                SolverStatus::InnerFailure => {
                    &&& !last.accepted
                    &&& !usable(last.ipm_status)
                    &&& at_floor(task.algo, trace[m - 1].trust_eta)
                },
                SolverStatus::OuterIterCap => m == outer_cap(
                    task.algo.max_outer_iters,
                    w0.dims.max_outer,
                ),
                SolverStatus::Infeasible => false,
                SolverStatus::BadInput => false,
            }
        }),
{
    let m = trace.len() - 1;
    let k = (m - 1) as u32;
    lemma_recorded_upto(task, w0, trace, w1, status, m - 1);
    if iteration(task, k, trace[m - 1], trace[m], Next::Stop(status)) {
        law_iteration_is_accounted_for(task, k, trace[m - 1], trace[m], Next::Stop(status));
    }
}

/// The reference that a run leaves is the candidate of the last accepted iteration:
/// after an iteration none of whose successors was accepted, it does not change.
pub proof fn law_reference_is_last_accepted<T: Real, P: Plant<T>>(
    task: Task<T, P>,
    w0: ScvxWorkspace<T>,
    trace: Seq<ScvxWorkspace<T>>,
    w1: ScvxWorkspace<T>,
    status: SolverStatus,
    i: int,
)
    requires
        traced(task, w0, trace, w1, status),
        well_sized(&w0),
        0 <= i < trace.len(),
        forall|j: int| i <= j < trace.len() - 1 ==> !(#[trigger] w1.history@[j]).accepted,
    ensures
        w1.reference == trace[i].reference,
    decreases trace.len() - i,
{
    let m = trace.len() - 1;
    if i < m {
        law_reference_is_last_accepted(task, w0, trace, w1, status, i + 1);
        lemma_recorded_upto(task, w0, trace, w1, status, i);
        lemma_recorded_upto(task, w0, trace, w1, status, m);
        let next = lemma_happened(task, w0, trace, w1, status, i);
        law_iteration_is_accounted_for(task, i as u32, trace[i], trace[i + 1], next);
        assert(keeps_record(trace, w1, i));
        assert(!w1.history@[i].accepted);
    }
}

// ---- bounds ----

/// The type's comparisons are those of one total order on the values that equal
/// themselves, and what lies between two finite values is finite. Floating-point
/// numbers are ordered so: only a not-a-number does not equal itself.
#[verifier::opaque]
pub open spec fn ordered<T: Real>() -> bool {
    let z = num::<T>(0);
    &&& forall|a: T| #[trigger] finite(z, a) ==> same(a, a)
    &&& forall|a: T, b: T| #[trigger] less(a, b) ==> same(a, a) && same(b, b) && !less(b, a)
    &&& forall|a: T, b: T| #[trigger] less(a, b) ==> !same(a, b)
    &&& forall|a: T, b: T, c: T| #[trigger] less(a, b) && #[trigger] less(b, c) ==> less(a, c)
    &&& forall|a: T, b: T| #[trigger] same(a, b) ==> same(b, a) && same(a, a)
    &&& forall|a: T, b: T, c: T| #[trigger] same(a, b) && #[trigger] less(b, c) ==> less(a, c)
    &&& forall|a: T, b: T, c: T| #[trigger] less(a, b) && #[trigger] same(b, c) ==> less(a, c)
    &&& forall|a: T, b: T, c: T| #[trigger] same(a, b) && #[trigger] same(b, c) ==> same(a, c)
    &&& forall|a: T, b: T|
        same(a, a) && same(b, b) ==> #[trigger] less(a, b) || same(a, b) || less(b, a)
    &&& forall|a: T, b: T| #[trigger] greater(a, b) == less(b, a)
    &&& forall|a: T, b: T| #[trigger] at_most(a, b) == (less(a, b) || same(a, b))
    &&& forall|a: T, x: T, b: T|
        finite(z, a) && finite(z, b) && #[trigger] at_most(a, x) && #[trigger] at_most(x, b)
            ==> finite(z, x)
}

/// Arithmetic on finite values does not lose the order, as it does not with
/// floating-point numbers: sums, differences and products of finite values equal
/// themselves, though they may be infinite; so does a quotient by a positive value; a
/// quotient by more than one is no larger; what is negative has a positive opposite;
/// and small fractions are finite.
#[verifier::opaque]
pub open spec fn order_kept<T: Real>() -> bool {
    let z = num::<T>(0);
    &&& forall|a: T, b: T|
        finite(z, a) && same(b, b) ==> same(#[trigger] plus(a, b), plus(a, b))
    &&& forall|a: T, b: T|
        finite(z, a) && same(b, b) ==> same(#[trigger] minus(a, b), minus(a, b))
    &&& forall|a: T| less(a, z) ==> less(z, #[trigger] minus(z, a))
    &&& forall|a: T, b: T|
        finite(z, a) && finite(z, b) ==> same(#[trigger] times(a, b), times(a, b))
    &&& forall|a: T, b: T|
        finite(z, a) && finite(z, b) && less(z, b) ==> same(#[trigger] over(a, b), over(a, b))
    &&& forall|a: T, b: T|
        finite(z, a) && at_most(z, a) && finite(z, b) && less(num::<T>(1), b) ==> at_most(
            #[trigger] over(a, b),
            a,
        )
    &&& forall|a: T, b: T|
        finite(z, a) && finite(z, b) && at_most(z, b) && at_most(b, a) ==> finite(
            z,
            #[trigger] minus(a, b),
        )
    &&& forall|k: u32| finite(z, #[trigger] num::<T>(k))
    &&& forall|k: u32, q: u32| 0 < q ==> finite(z, #[trigger] ratio::<T>(k, q))
    &&& less(z, num::<T>(1))
}

/// `lo <= x <= hi`.
pub open spec fn between<T: Real>(lo: T, x: T, hi: T) -> bool {
    at_most(lo, x) && at_most(x, hi)
}

/// A value that equals itself is clamped into the bounds.
proof fn lemma_clamped<T: Real>(x: T, lo: T, hi: T)
    requires
        ordered::<T>(),
        same(x, x),
        finite(num::<T>(0), lo),
        finite(num::<T>(0), hi),
        !less(hi, lo),
    ensures
        between(lo, clamped(x, lo, hi), hi),
        finite(num::<T>(0), clamped(x, lo, hi)),
{
    reveal(ordered);
    assert(same(lo, lo) && same(hi, hi));
    assert(less(x, lo) || same(x, lo) || less(lo, x));
    assert(less(lo, hi) || same(lo, hi) || less(hi, lo));
    assert(less(x, hi) || same(x, hi) || less(hi, x));
    assert(same(x, lo) ==> same(lo, x));
    let c = clamped(x, lo, hi);
    assert(at_most(lo, c) && at_most(c, hi));
}

proof fn lemma_not_outside<T: Real>(lo: T, x: T, hi: T)
    requires
        ordered::<T>(),
        same(x, x),
        same(lo, lo),
        same(hi, hi),
        !less(x, lo),
        !greater(x, hi),
    ensures
        between(lo, x, hi),
{
    reveal(ordered);
    assert(less(x, lo) || same(x, lo) || less(lo, x));
    assert(less(x, hi) || same(x, hi) || less(hi, x));
}

/// The trust settings, in order.
proof fn lemma_settings_ordered<T: Real>(algo: &ScvxAlgoParams<T>)
    requires
        ordered::<T>(),
        order_kept::<T>(),
        algo_admissible(algo),
    ensures
        at_most(num::<T>(0), algo.trust_eta_min),
        less(num::<T>(1), algo.trust_alpha),
{
    reveal(ordered);
    reveal(order_kept);
    let z = num::<T>(0);
    let one = num::<T>(1);
    let lo = algo.trust_eta_min;
    let alpha = algo.trust_alpha;
    assert(finite(z, z) && finite(z, one) && finite(z, lo) && finite(z, alpha));
    assert(less(lo, z) || same(lo, z) || less(z, lo));
    assert(same(lo, z) ==> same(z, lo));
    assert(less(alpha, one) || same(alpha, one) || less(one, alpha));
    assert(at_most(alpha, one) == (less(alpha, one) || same(alpha, one)));
}

proof fn lemma_shrunk_between<T: Real>(algo: &ScvxAlgoParams<T>, eta: T)
    requires
        ordered::<T>(),
        order_kept::<T>(),
        algo_admissible(algo),
        between(algo.trust_eta_min, eta, algo.trust_eta_max),
    ensures
        between(algo.trust_eta_min, shrunk_trust(algo, eta), algo.trust_eta_max),
{
    lemma_settings_ordered(algo);
    reveal(ordered);
    let z = num::<T>(0);
    let lo = algo.trust_eta_min;
    let hi = algo.trust_eta_max;
    let q = over(eta, algo.trust_alpha);
    assert(finite(z, eta));
    assert(at_most(z, eta));
    assert(at_most(q, eta)) by {
        reveal(order_kept);
    }
    assert(at_most(q, hi));
    assert(same(q, q) && same(lo, lo));
    assert(less(lo, hi) || same(lo, hi) || less(hi, lo));
    assert(greater(q, lo) == less(lo, q));
}

proof fn lemma_next_trust_between<T: Real>(
    algo: &ScvxAlgoParams<T>,
    ceiling: T,
    accept: bool,
    rho: T,
    eta: T,
)
    requires
        ordered::<T>(),
        order_kept::<T>(),
        algo_admissible(algo),
        between(algo.trust_eta_min, eta, algo.trust_eta_max),
    ensures
        between(
            algo.trust_eta_min,
            next_trust(algo, ceiling, accept, rho, eta),
            algo.trust_eta_max,
        ),
{
    lemma_settings_ordered(algo);
    let z = num::<T>(0);
    let raw = if !accept || less(rho, shrink_threshold(algo, ceiling)) {
        over(eta, algo.trust_alpha)
    } else if greater(rho, grow_threshold(algo, ceiling)) {
        times(eta, algo.trust_beta)
    } else {
        eta
    };
    assert(same(raw, raw)) by {
        reveal(ordered);
        reveal(order_kept);
        assert(finite(z, eta));
        assert(less(z, num::<T>(1)) && less(num::<T>(1), algo.trust_alpha));
        assert(less(z, algo.trust_alpha));
    }
    lemma_clamped(raw, algo.trust_eta_min, algo.trust_eta_max);
}

/// The trust radius never leaves its configured bounds.
pub proof fn law_trust_stays_within_bounds<T: Real, P: Plant<T>>(
    task: Task<T, P>,
    w0: ScvxWorkspace<T>,
    trace: Seq<ScvxWorkspace<T>>,
    w1: ScvxWorkspace<T>,
    status: SolverStatus,
    j: int,
)
    requires
        ordered::<T>(),
        order_kept::<T>(),
        admissible(task, &w0),
        traced(task, w0, trace, w1, status),
        0 <= j < trace.len(),
    ensures
        between(task.algo.trust_eta_min, trace[j].trust_eta, task.algo.trust_eta_max),
    decreases j,
{
    let algo = task.algo;
    if j == 0 {
        assert(same(algo.trust_eta0, algo.trust_eta0)) by {
            reveal(ordered);
        }
        lemma_clamped(algo.trust_eta0, algo.trust_eta_min, algo.trust_eta_max);
    } else {
        law_trust_stays_within_bounds(task, w0, trace, w1, status, j - 1);
        let k = (j - 1) as u32;
        let next = lemma_happened(task, w0, trace, w1, status, j - 1);
        let (wp, wi, r) = lemma_parts(task, k, trace[j - 1], trace[j], next);
        assert(wi.trust_eta == trace[j - 1].trust_eta);
        if usable(r.status) {
            let x = original_units(task, wi.scale_diag@, r.point.x);
            let q = quality(task, &wi, r.point.x, x, trace[j].x_actual@);
            let v = judgement(algo, k, &wi, q);
            assert(trace[j].trust_eta == v.eta);
            lemma_next_trust_between(algo, v.ceiling.rho, v.accept, v.rho, wi.trust_eta);
        } else {
            lemma_shrunk_between(algo, wi.trust_eta);
        }
    }
}

/// The trust radius in every record of a run lies within the configured bounds.
pub proof fn law_recorded_trust_stays_within_bounds<T: Real, P: Plant<T>>(
    task: Task<T, P>,
    w0: ScvxWorkspace<T>,
    trace: Seq<ScvxWorkspace<T>>,
    w1: ScvxWorkspace<T>,
    status: SolverStatus,
    i: int,
)
    requires
        ordered::<T>(),
        order_kept::<T>(),
        admissible(task, &w0),
        well_sized(&w0),
        traced(task, w0, trace, w1, status),
        0 <= i < trace.len() - 1,
    ensures
        between(task.algo.trust_eta_min, w1.history@[i].trust_eta, task.algo.trust_eta_max),
{
    law_run_is_recorded(task, w0, trace, w1, status);
    assert(keeps_record(trace, w1, i));
    lemma_recorded_upto(task, w0, trace, w1, status, i);
    law_trust_stays_within_bounds(task, w0, trace, w1, status, i);
    law_trust_stays_within_bounds(task, w0, trace, w1, status, i + 1);
    let next = lemma_happened(task, w0, trace, w1, status, i);
    let (wp, wi, r) = lemma_parts(task, i as u32, trace[i], trace[i + 1], next);
    assert(wi.history == trace[i].history && wi.trust_eta == trace[i].trust_eta);
    if usable(r.status) {
        assert(concluded(task, i as u32, wi, trace[i + 1], r, trace[i + 1].x_actual, next));
        assert(trace[i + 1].history@[i].trust_eta == trace[i + 1].trust_eta);
    } else {
        assert(trace[i + 1].history@[i].trust_eta == trace[i].trust_eta);
    }
}

/// A merit ratio lies between -10 and 10.
pub proof fn law_merit_ratio_is_bounded<T: Real>(first: bool, j_prev: T, predicted: T, actual: T)
    requires
        ordered::<T>(),
        order_kept::<T>(),
        finite(num::<T>(0), negated(num::<T>(10))),
        at_most(num::<T>(0), negligible::<T>()),
        between(negated(num::<T>(10)), num::<T>(0), num::<T>(10)),
        between(negated(num::<T>(10)), num::<T>(1), num::<T>(10)),
    ensures
        between(
            negated(num::<T>(10)),
            merit_ratio(first, j_prev, predicted, actual),
            num::<T>(10),
        ),
{
    let z = num::<T>(0);
    let lo = negated(num::<T>(10));
    let hi = num::<T>(10);
    let pred = minus(j_prev, predicted);
    let act = minus(j_prev, actual);
    if greater(pred, negligible::<T>()) && finite(z, act) && finite(z, pred) {
        assert(!less(hi, lo) && finite(z, hi) && same(over(act, pred), over(act, pred))) by {
            reveal(ordered);
            reveal(order_kept);
            assert(less(negligible::<T>(), pred));
            assert(less(z, pred));
            assert(at_most(lo, z) == (less(lo, z) || same(lo, z)));
            assert(at_most(z, hi) == (less(z, hi) || same(z, hi)));
        }
        lemma_clamped(over(act, pred), lo, hi);
    }
}

/// Following the achieved ratios only ever relaxes: neither threshold exceeds its
/// setting. Where the estimate is at or above the shrink setting, or is not used, both
/// are the settings.
pub proof fn law_thresholds_only_relax<T: Real>(algo: &ScvxAlgoParams<T>, ceiling: T)
    ensures
        ordered::<T>() && order_kept::<T>() && finite(num::<T>(0), ceiling) && finite(
            num::<T>(0),
            algo.rho_shrink,
        ) && finite(num::<T>(0), algo.rho_grow) ==> at_most(
            shrink_threshold(algo, ceiling),
            algo.rho_shrink,
        ) && at_most(grow_threshold(algo, ceiling), algo.rho_grow),
        !algo.use_adaptive_trust || !less(ceiling, algo.rho_shrink) ==> shrink_threshold(
            algo,
            ceiling,
        ) == algo.rho_shrink && grow_threshold(algo, ceiling) == algo.rho_grow,
{
    if ordered::<T>() && order_kept::<T>() && finite(num::<T>(0), ceiling) && finite(
        num::<T>(0),
        algo.rho_shrink,
    ) && finite(num::<T>(0), algo.rho_grow) {
        lemma_fraction_clamped(3, 10, ceiling, 2, 100, algo.rho_shrink);
        lemma_fraction_clamped(67, 100, ceiling, 1, 10, algo.rho_grow);
    }
}

proof fn lemma_fraction_clamped<T: Real>(k: u32, q: u32, x: T, lo: u32, d: u32, hi: T)
    requires
        ordered::<T>(),
        order_kept::<T>(),
        finite(num::<T>(0), x),
        finite(num::<T>(0), hi),
        0 < q,
        0 < d,
    ensures
        at_most(clamped(times(ratio::<T>(k, q), x), ratio::<T>(lo, d), hi), hi),
        at_most(hi, hi),
{
    reveal(ordered);
    reveal(order_kept);
    let v = times(ratio::<T>(k, q), x);
    let y = if less(v, ratio::<T>(lo, d)) {
        ratio::<T>(lo, d)
    } else {
        v
    };
    assert(finite(num::<T>(0), ratio::<T>(k, q)) && finite(num::<T>(0), ratio::<T>(lo, d)));
    assert(same(v, v) && same(y, y));
    assert(less(y, hi) || same(y, hi) || less(hi, y));
}

// ---- finiteness ----

/// What is not finite stays so through sums, differences, products and square
/// roots, as it does in floating-point arithmetic.
#[verifier::opaque]
pub open spec fn poisonous<T: Real, C: Numerics<T>>(ops: &C) -> bool {
    let z = num::<T>(0);
    &&& forall|a: T, b: T|
        finite(z, #[trigger] plus(a, b)) ==> finite(z, a) && finite(z, b)
    &&& forall|a: T, b: T|
        finite(z, #[trigger] minus(a, b)) ==> finite(z, a) && finite(z, b)
    &&& forall|a: T, b: T|
        finite(z, #[trigger] times(a, b)) ==> finite(z, a) && finite(z, b)
    &&& forall|a: T| finite(z, #[trigger] root_of(ops, a)) ==> finite(z, a)
}

proof fn lemma_fuel_finite<T: Real, C: Numerics<T>>(ops: &C, x: Seq<T>, n: nat, k: int)
    requires
        poisonous::<T, C>(ops),
        finite(num::<T>(0), fuel_upto(x, n)),
        0 <= k < n,
    ensures
        finite(num::<T>(0), x[19 * k + 10]),
    decreases n,
{
    reveal(poisonous);
    assert(finite(num::<T>(0), plus(fuel_upto(x, (n - 1) as nat), x[19 * (n - 1) + 10])));
    if k < n - 1 {
        lemma_fuel_finite(ops, x, (n - 1) as nat, k);
    }
}

proof fn lemma_step_finite<T: Real, C: Numerics<T>>(
    ops: &C,
    x: Seq<T>,
    reference: &Trajectory<T>,
    m: nat,
    q: int,
)
    requires
        poisonous::<T, C>(ops),
        finite(num::<T>(0), step_squares(x, reference, m)),
        0 <= q < m,
    ensures
        finite(num::<T>(0), x[19 * (q / 10) + q % 10]),
    decreases m,
{
    reveal(poisonous);
    let p = m - 1;
    let d = minus(x[19 * (p / 10) + p % 10], node_entry(reference, p / 10, p % 10));
    assert(finite(num::<T>(0), plus(step_squares(x, reference, p as nat), times(d, d))));
    assert(finite(num::<T>(0), times(d, d)));
    assert(finite(num::<T>(0), d));
    if q < p {
        lemma_step_finite(ops, x, reference, p as nat, q);
    }
}

/// Every state, control and thrust magnitude of a trajectory of `n` nodes is finite,
/// and so is its time of flight.
pub open spec fn trajectory_finite<T: Real>(t: &Trajectory<T>, n: int) -> bool {
    let z = num::<T>(0);
    &&& forall|k: int, i: int| 0 <= k < n && 0 <= i < 7 ==> finite(z, #[trigger] t.x@[k][i])
    &&& forall|k: int, i: int| 0 <= k < n && 0 <= i < 3 ==> finite(z, #[trigger] t.u@[k][i])
    &&& forall|k: int| 0 <= k < n ==> finite(z, #[trigger] t.sigma@[k])
    &&& finite(z, t.tau)
}

proof fn lemma_sound_is_finite<T: Real, P: Plant<T>>(
    task: Task<T, P>,
    w: &ScvxWorkspace<T>,
    x_inner: Seq<T>,
    x: Seq<T>,
    xa: Seq<Seq<T>>,
    t: &Trajectory<T>,
    tau: T,
)
    requires
        poisonous::<T, P>(task.plant),
        quality_sound(quality(task, w, x_inner, x, xa)),
        holds_candidate(t, x, w.dims.n as int, tau),
        finite(num::<T>(0), tau),
        19 * w.dims.n <= x.len(),
    ensures
        trajectory_finite(t, w.dims.n as int),
{
    let z = num::<T>(0);
    let n = w.dims.n as int;
    let fuel = fuel_upto(x, n as nat);
    let steps = step_squares(x, &w.reference, (10 * n) as nat);
    assert(finite(z, fuel) && finite(z, steps)) by {
        reveal(poisonous);
        let pen = times(task.algo.virt_weight, defect_upto(task.plant, xa, x, n as nat));
        assert(finite(z, plus(fuel, pen)));
        assert(finite(z, root_of(task.plant, steps)));
    }
    assert forall|k: int, i: int| 0 <= k < n && 0 <= i < 7 implies finite(
        z,
        #[trigger] t.x@[k][i],
    ) by {
        let q = 10 * k + i;
        assert(q / 10 == k && q % 10 == i);
        lemma_step_finite(task.plant, x, &w.reference, (10 * n) as nat, q);
    }
    assert forall|k: int, i: int| 0 <= k < n && 0 <= i < 3 implies finite(
        z,
        #[trigger] t.u@[k][i],
    ) by {
        let q = 10 * k + i + 7;
        assert(q / 10 == k && q % 10 == i + 7);
        lemma_step_finite(task.plant, x, &w.reference, (10 * n) as nat, q);
    }
    assert forall|k: int| 0 <= k < n implies finite(z, #[trigger] t.sigma@[k]) by {
        lemma_fuel_finite(task.plant, x, n as nat, k);
    }
}

pub proof fn lemma_dot_finite<T: Real, C: Numerics<T>>(
    ops: &C,
    a: Seq<T>,
    b: Seq<T>,
    n: nat,
    i: int,
)
    requires
        poisonous::<T, C>(ops),
        finite(num::<T>(0), dot_upto(num::<T>(0), a, b, n)),
        0 <= i < n,
    ensures
        finite(num::<T>(0), b[i]),
    decreases n,
{
    reveal(poisonous);
    let z = num::<T>(0);
    assert(finite(z, plus(dot_upto(z, a, b, (n - 1) as nat), times(a[n - 1], b[n - 1]))));
    if i < n - 1 {
        lemma_dot_finite(ops, a, b, (n - 1) as nat, i);
    }
}

/// The scaled subproblem's cost covers every unknown.
proof fn lemma_cost_covers<T: Real, P: Plant<T>>(
    task: Task<T, P>,
    w0: ScvxWorkspace<T>,
    w1: ScvxWorkspace<T>,
)
    requires
        prepared(task, w0, w1),
    ensures
        w1.prob.c@.len() == spec_np(w0.dims.n as int, task.algo.use_free_tf),
{
    let (p0, p1) = choose|p0: SocpProblem<T>, p1: SocpProblem<T>|
        {
            &&& is_subproblem(task, &w0, &w1.lin, &p0)
            &&& #[trigger] column_stage(task.ipm.use_preconditioning, &p0, &p1, w0.scale_diag@)
            &&& row_stage(task.ipm.use_cone_row_scaling, &p1, &w1.prob, w1.cone_scales@)
        };
    assert(p0.c@.len() == p1.c@.len() && p1.c@.len() == w1.prob.c@.len());
}

/// The time of flight of a sound candidate is finite and, where it is free, within its
/// bounds: the predicted cost runs over the time increment, so an increment that is not
/// finite is refused.
proof fn lemma_sound_tau<T: Real, P: Plant<T>>(
    task: Task<T, P>,
    w: &ScvxWorkspace<T>,
    x_inner: Seq<T>,
    x: Seq<T>,
    xa: Seq<Seq<T>>,
)
    requires
        task.algo.use_free_tf,
        ordered::<T>(),
        order_kept::<T>(),
        poisonous::<T, P>(task.plant),
        quality_sound(quality(task, w, x_inner, x, xa)),
        w.prob.c@.len() == 19 * w.dims.n + 1,
        x == original_units(task, w.scale_diag@, x_inner),
        x.len() == 19 * w.dims.n + 1,
        w.scale_diag@[19 * w.dims.n] == dtau_scale(task.phys),
        finite(num::<T>(0), w.reference.tau),
        finite(num::<T>(0), task.phys.tau_lo),
        finite(num::<T>(0), task.phys.tau_hi),
        !at_most(task.phys.tau_lo, num::<T>(0)),
        !at_most(task.phys.tau_hi, task.phys.tau_lo),
    ensures
        ({
            let tau = candidate_tau(task, w.reference.tau, x, w.dims.n as int);
            finite(num::<T>(0), tau) && between(task.phys.tau_lo, tau, task.phys.tau_hi)
        }),
{
    let z = num::<T>(0);
    let i = 19 * w.dims.n as int;
    let lo = task.phys.tau_lo;
    let hi = task.phys.tau_hi;
    lemma_dot_finite(task.plant, w.prob.c@, x_inner, (i + 1) as nat, i);
    assert(finite(z, x_inner[i]));
    assert(same(plus(w.reference.tau, x[i]), plus(w.reference.tau, x[i])) && !less(hi, lo)) by {
        reveal(ordered);
        reveal(order_kept);
        assert(same(z, z) && same(lo, lo) && same(hi, hi));
        assert(less(lo, z) || same(lo, z) || less(z, lo));
        assert(at_most(lo, z) == (less(lo, z) || same(lo, z)));
        assert(less(hi, lo) || same(hi, lo) || less(lo, hi));
        assert(at_most(hi, lo) == (less(hi, lo) || same(hi, lo)));
        assert(at_most(z, lo) && at_most(lo, hi));
        assert(finite(z, minus(hi, lo)));
        assert(finite(z, num::<T>(1)));
        let d = w.scale_diag@[i];
        assert(finite(z, d));
        assert(same(times(x_inner[i], d), times(x_inner[i], d)));
        assert(same(x[i], x[i]));
    }
    lemma_clamped(plus(w.reference.tau, x[i]), lo, hi);
}

/// What the laws on the reference rest on, after `j` iterations: the scales are those
/// the run began with, a fixed time of flight has not changed, and a free one is finite
/// and within its bounds.
proof fn lemma_tau_kept<T: Real, P: Plant<T>>(
    task: Task<T, P>,
    w0: ScvxWorkspace<T>,
    trace: Seq<ScvxWorkspace<T>>,
    w1: ScvxWorkspace<T>,
    status: SolverStatus,
    j: int,
)
    requires
        admissible(task, &w0),
        traced(task, w0, trace, w1, status),
        0 <= j < trace.len(),
    ensures
        trace[j].dims == w0.dims,
        trace[j].scale_diag == trace[0].scale_diag,
        !task.algo.use_free_tf ==> trace[j].reference.tau == w0.reference.tau,
        task.algo.use_free_tf && ordered::<T>() && order_kept::<T>() && poisonous::<T, P>(
            task.plant,
        ) ==> finite(num::<T>(0), trace[j].reference.tau) && between(
            task.phys.tau_lo,
            trace[j].reference.tau,
            task.phys.tau_hi,
        ),
    decreases j,
{
    let lo = task.phys.tau_lo;
    let hi = task.phys.tau_hi;
    let whole = task.algo.use_free_tf && ordered::<T>() && order_kept::<T>() && poisonous::<T, P>(
        task.plant,
    );
    assert(time_admissible(w0.reference.tau, task.phys, task.algo.use_free_tf));
    if j == 0 {
        assert(trace[0].reference == w0.reference);
        if whole {
            assert(same(w0.reference.tau, w0.reference.tau) && same(lo, lo) && same(hi, hi)) by {
                reveal(ordered);
            }
            lemma_not_outside(lo, w0.reference.tau, hi);
        }
    } else {
        lemma_tau_kept(task, w0, trace, w1, status, j - 1);
        let k = (j - 1) as u32;
        let next = lemma_happened(task, w0, trace, w1, status, j - 1);
        let (wp, wi, r) = lemma_parts(task, k, trace[j - 1], trace[j], next);
        lemma_cost_covers(task, ScvxWorkspace { iter: k, ..trace[j - 1] }, wp);
        assert(wi.dims == w0.dims && wi.scale_diag == trace[0].scale_diag && wi.reference
            == trace[j - 1].reference && wi.prob == wp.prob);
        if usable(r.status) {
            let x = original_units(task, wi.scale_diag@, r.point.x);
            let xa = trace[j].x_actual;
            let q = quality(task, &wi, r.point.x, x, xa@);
            let v = judgement(task.algo, k, &wi, q);
            assert(concluded(task, k, wi, trace[j], r, xa, next));
            if v.accept && whole {
                lemma_sound_tau(task, &wi, r.point.x, x, xa@);
            }
        }
    }
}

/// A fixed time of flight never changes. A free one stays within its bounds.
pub proof fn law_time_of_flight_stays_within_bounds<T: Real, P: Plant<T>>(
    task: Task<T, P>,
    w0: ScvxWorkspace<T>,
    trace: Seq<ScvxWorkspace<T>>,
    w1: ScvxWorkspace<T>,
    status: SolverStatus,
    j: int,
)
    requires
        admissible(task, &w0),
        traced(task, w0, trace, w1, status),
        0 <= j < trace.len(),
    ensures
        !task.algo.use_free_tf ==> trace[j].reference.tau == w0.reference.tau,
        task.algo.use_free_tf && ordered::<T>() && order_kept::<T>() && poisonous::<T, P>(
            task.plant,
        ) ==> between(task.phys.tau_lo, trace[j].reference.tau, task.phys.tau_hi),
{
    lemma_tau_kept(task, w0, trace, w1, status, j);
}

/// A finite reference stays finite, its time of flight among it: no candidate with an
/// entry that is not finite is ever accepted, whatever the inner solve or the plant
/// returned.
pub proof fn law_reference_stays_finite<T: Real, P: Plant<T>>(
    task: Task<T, P>,
    w0: ScvxWorkspace<T>,
    trace: Seq<ScvxWorkspace<T>>,
    w1: ScvxWorkspace<T>,
    status: SolverStatus,
    j: int,
)
    requires
        ordered::<T>(),
        order_kept::<T>(),
        poisonous::<T, P>(task.plant),
        traced(task, w0, trace, w1, status),
        trajectory_finite(&w0.reference, w0.dims.n as int),
        admissible(task, &w0),
        0 <= j < trace.len(),
    ensures
        trajectory_finite(&trace[j].reference, w0.dims.n as int),
    decreases j,
{
    lemma_tau_kept(task, w0, trace, w1, status, j);
    assert(finite(num::<T>(0), trace[j].reference.tau));
    if j > 0 {
        law_reference_stays_finite(task, w0, trace, w1, status, j - 1);
        lemma_tau_kept(task, w0, trace, w1, status, j - 1);
        let k = (j - 1) as u32;
        let next = lemma_happened(task, w0, trace, w1, status, j - 1);
        let (wp, wi, r) = lemma_parts(task, k, trace[j - 1], trace[j], next);
        assert(wi.dims == w0.dims);
        if usable(r.status) {
            let x = original_units(task, wi.scale_diag@, r.point.x);
            let xa = trace[j].x_actual;
            let q = quality(task, &wi, r.point.x, x, xa@);
            let v = judgement(task.algo, k, &wi, q);
            assert(concluded(task, k, wi, trace[j], r, xa, next));
            if v.accept {
                let tau = candidate_tau(task, wi.reference.tau, x, wi.dims.n as int);
                assert(tau == trace[j].reference.tau);
                lemma_sound_is_finite(
                    task,
                    &wi,
                    r.point.x,
                    x,
                    xa@,
                    &trace[j].reference,
                    tau,
                );
            } else {
                assert(trace[j].reference == wi.reference);
            }
        } else {
            assert(trace[j].reference == wi.reference);
        }
    }
}

/// What a solve keeps, whatever the plant returned: a fixed time of flight, a free one
/// within its bounds, the trust radius of the workspace and of every record within its
/// own, and a finite reference.
pub proof fn law_solve_keeps_its_bounds<T: Real, P: Plant<T>>(
    task: Task<T, P>,
    w0: ScvxWorkspace<T>,
    w1: ScvxWorkspace<T>,
    status: SolverStatus,
)
    requires
        ordered::<T>(),
        order_kept::<T>(),
        poisonous::<T, P>(task.plant),
        well_sized(&w0),
        outcome(task, w0, w1, status),
        status != SolverStatus::BadInput,
    ensures
        !task.algo.use_free_tf ==> w1.reference.tau == w0.reference.tau,
        task.algo.use_free_tf ==> between(
            task.phys.tau_lo,
            w1.reference.tau,
            task.phys.tau_hi,
        ),
        between(task.algo.trust_eta_min, w1.trust_eta, task.algo.trust_eta_max),
        forall|i: int|
            0 <= i <= w1.iter ==> between(
                task.algo.trust_eta_min,
                (#[trigger] w1.history@[i]).trust_eta,
                task.algo.trust_eta_max,
            ),
        trajectory_finite(&w0.reference, w0.dims.n as int) ==> trajectory_finite(
            &w1.reference,
            w0.dims.n as int,
        ),
{
    let trace = choose|trace: Seq<ScvxWorkspace<T>>| #[trigger]
        traced(task, w0, trace, w1, status);
    let m = trace.len() - 1;
    law_run_is_recorded(task, w0, trace, w1, status);
    law_time_of_flight_stays_within_bounds(task, w0, trace, w1, status, m);
    law_trust_stays_within_bounds(task, w0, trace, w1, status, m);
    if trajectory_finite(&w0.reference, w0.dims.n as int) {
        law_reference_stays_finite(task, w0, trace, w1, status, m);
    }
    assert forall|i: int| 0 <= i <= w1.iter implies between(
        task.algo.trust_eta_min,
        (#[trigger] w1.history@[i]).trust_eta,
        task.algo.trust_eta_max,
    ) by {
        law_recorded_trust_stays_within_bounds(task, w0, trace, w1, status, i);
    }
}

} // verus!
