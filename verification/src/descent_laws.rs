//! What an iteration of the outer loop aims at, and what a run achieves where its inner
//! solves are exact: trajectories from the initial state to the target.
use crate::algebra::{field, lemma_dot_comm, lemma_dot_scale, lemma_mul_comm, lemma_mul_sub};
use crate::assemble::{scvx_cone_dim, scvx_cone_offset};
use crate::assembly_laws::{law_program_is_node_sparse, units_distinct};
use crate::cones::cones_within;
use crate::layout::spec_nct;
use crate::linalg::{dot, mat_vec, vscale};
use crate::merit::seeded;
use crate::numerics::log_of;
use crate::precondition::{columns_scaled, hadamard, quotients};
use crate::precondition_laws::{
    all_nonzero, law_column_scaling_changes_variables, law_column_scaling_keeps_cost,
    law_cone_rows_are_divided, law_unscaling_inverts_scaling,
};
use crate::program_laws::{
    ends_at, flies_with_virtual_control, law_scvx_cones, law_scvx_cost, law_scvx_equalities,
    node_slacks, penalized_thrust, slacks_of, starts_at,
};
use crate::scalar::{minus, num, over, plus, times, units, Real};
use crate::scvx::{
    admissible, column_stage, concluded, dims_match, inner_solved, is_subproblem, iteration, outcome,
    prepared, retried, row_stage, traced, usable, well_shaped, well_sized, Next, Plant, ScvxWorkspace, Task,
};
use crate::scvx_laws::{
    keeps_record, law_iteration_is_accounted_for, law_run_is_recorded, lemma_happened, lemma_parts,
};
use crate::start_laws::{cones_disjoint, has_row, law_tiled_cones_are_disjoint};
use crate::types::{ResultModel, SocpProblem, SolverStatus, TerminalCondition, Trajectory};
use vstd::prelude::*;

verus! {

// ---- the program that is solved ----

/// The inner unknowns `y` in the units of the trajectory: times their scales, where the
/// unknowns are scaled.
pub open spec fn in_flight_units<T: Real>(scaled: bool, y: Seq<T>, scales: Seq<T>) -> Seq<T> {
    if scaled {
        Seq::new(y.len(), |j: int| times(y[j], scales[j]))
    } else {
        y
    }
}

/// The time of flight that the unknowns `x` ask for, from a reference of duration `tau`.
pub open spec fn asked_tau<T: Real>(free_tf: bool, tau: T, x: Seq<T>, n: int) -> T {
    if free_tf {
        plus(tau, x[19 * n])
    } else {
        tau
    }
}

/// The workspace has the sizes of the task's problem.
pub open spec fn task_sized<T: Real, P: Plant<T>>(
    task: Task<T, P>,
    w: &ScvxWorkspace<T>,
) -> bool {
    &&& well_shaped(task.plant)
    &&& w.dims.n >= 1
    &&& dims_match(w.dims, task.algo.use_free_tf)
    &&& w.reference.sized(w.dims.n as int)
    &&& w.scale_diag@.len() == w.dims.np
}

/// The inner solve's equality rows hold at its unknowns exactly where these, in the units
/// of the trajectory, start in the task's initial state, end at the task's target, and
/// follow the dynamics that the plant linearized about the reference, in four substeps per
/// interval. Its cost is the sum of the thrust magnitudes and the weighted bounds on virtual
/// control.
pub proof fn law_inner_program_is_the_descent<T: Real, P: Plant<T>>(
    task: Task<T, P>,
    w0: ScvxWorkspace<T>,
    wp: ScvxWorkspace<T>,
    y: Seq<T>,
)
    requires
        field(units::<T>()),
        task_sized(task, &w0),
        prepared(task, w0, wp),
        y.len() == w0.dims.np,
    ensures
        call_ensures(
            P::discretize,
            (task.plant, &w0.reference, task.phys, 4u32),
            wp.lin,
        ),
        ({
            let z = num::<T>(0);
            let n = w0.dims.n as int;
            let x = in_flight_units(task.ipm.use_preconditioning, y, w0.scale_diag@);
            &&& mat_vec(z, wp.prob.a_mat@, y) == wp.prob.b@ <==> {
                &&& starts_at(x, task.initial_state@)
                &&& ends_at(x, 19, n, task.terminal)
                &&& flies_with_virtual_control(
                    z,
                    &wp.lin,
                    x,
                    n,
                    asked_tau(task.algo.use_free_tf, w0.reference.tau, x, n),
                )
            }
            &&& dot(z, wp.prob.c@, y) == penalized_thrust(z, task.algo.virt_weight, x, n as nat)
        }),
{
    let u = units::<T>();
    let z = num::<T>(0);
    let n = w0.dims.n as int;
    let free = task.algo.use_free_tf;
    let x = in_flight_units(task.ipm.use_preconditioning, y, w0.scale_diag@);
    let d = w0.scale_diag@;
    assert(wp.lin.covers(n - 1));
    let (p0, p1) = choose|p0: SocpProblem<T>, p1: SocpProblem<T>|
        {
            &&& is_subproblem(task, &w0, &wp.lin, &p0)
            &&& #[trigger] column_stage(task.ipm.use_preconditioning, &p0, &p1, w0.scale_diag@)
            &&& row_stage(task.ipm.use_cone_row_scaling, &p1, &wp.prob, wp.cone_scales@)
        };
    assert(wp.prob.a_mat@ == p1.a_mat@ && wp.prob.b@ == p1.b@ && wp.prob.c@ == p1.c@);
    if task.ipm.use_preconditioning {
        assert(x =~= hadamard(y, d));
        law_column_scaling_changes_variables(u, p0.a_mat@, d, y, p0.b@);
        law_column_scaling_keeps_cost(u, p0.c@, d, y);
    }
    let log_m = log_of(task.plant, task.phys.m_dry);
    law_scvx_equalities(
        u,
        &w0.reference,
        &wp.lin,
        task.phys,
        log_m,
        task.initial_state@,
        task.terminal,
        w0.trust_eta,
        task.algo.virt_weight,
        free,
        n,
        &p0,
        x,
    );
    law_scvx_cost(
        u,
        &w0.reference,
        &wp.lin,
        task.phys,
        log_m,
        task.initial_state@,
        task.terminal,
        w0.trust_eta,
        task.algo.virt_weight,
        free,
        n,
        &p0,
        x,
    );
}

/// The slacks of a scaled cone: those of the cone, divided by its scale.
proof fn lemma_scaled_slacks<T: Real, P: Plant<T>>(
    task: Task<T, P>,
    p0: SocpProblem<T>,
    p1: SocpProblem<T>,
    p2: SocpProblem<T>,
    d: Seq<T>,
    e: Seq<T>,
    y: Seq<T>,
    c: int,
)
    requires
        field(units::<T>()),
        p0.sized(y.len() as int, p0.b@.len() as int, p0.h@.len() as int),
        d.len() == y.len(),
        cones_disjoint(p0.cones@),
        cones_within(p0.cones@, p0.h@.len() as int),
        column_stage(task.ipm.use_preconditioning, &p0, &p1, d),
        row_stage(task.ipm.use_cone_row_scaling, &p1, &p2, e),
        task.ipm.use_cone_row_scaling ==> e.len() == p0.cones@.len(),
        0 <= c < p0.cones@.len(),
    ensures
        ({
            let z = num::<T>(0);
            let x = in_flight_units(task.ipm.use_preconditioning, y, d);
            slacks_of(z, &p2, y, c) == if task.ipm.use_cone_row_scaling {
                vscale(slacks_of(z, &p0, x, c), over(num::<T>(1), e[c]))
            } else {
                slacks_of(z, &p0, x, c)
            }
        }),
{
    let u = units::<T>();
    let z = num::<T>(0);
    let x = in_flight_units(task.ipm.use_preconditioning, y, d);
    let cone = p0.cones@[c];
    let at = cone.offset as int;
    let f = over(num::<T>(1), e[c]);
    assert(cone.offset + cone.dim <= p0.h@.len());
    let l = slacks_of(z, &p2, y, c);
    let r = slacks_of(z, &p0, x, c);
    if task.ipm.use_preconditioning {
        assert(x =~= hadamard(y, d));
        law_column_scaling_changes_variables(u, p0.g_mat@, d, y, p0.h@);
    }
    assert forall|i: int| 0 <= i < cone.dim implies l[i] == (if task.ipm.use_cone_row_scaling {
        times(r[i], f)
    } else {
        r[i]
    }) by {
        let row = at + i;
        assert(p0.g_mat@[row].len() == y.len());
        assert(p1.g_mat@[row].len() == y.len());
        assert(dot(z, p1.g_mat@[row], y) == dot(z, p0.g_mat@[row], x)) by {
            if task.ipm.use_preconditioning {
                assert(p1.g_mat@ == columns_scaled(p0.g_mat@, d));
                assert(mat_vec(z, p1.g_mat@, y)[row] == mat_vec(z, p0.g_mat@, x)[row]);
            }
        }
        if task.ipm.use_cone_row_scaling {
            law_cone_rows_are_divided(
                p1.g_mat@[row],
                p1.h@[row],
                p1.cones@,
                e,
                row,
                e.len(),
            );
            assert(has_row(p1.cones@[c], row));
            let g1 = p1.g_mat@[row];
            assert(p2.g_mat@[row] == vscale(g1, f));
            assert(p2.h@[row] == times(p1.h@[row], f));
            // (h f) - (g f) y == (h - g y) f
            lemma_dot_comm(u, vscale(g1, f), y, y.len());
            lemma_dot_scale(u, y, g1, f, y.len());
            lemma_dot_comm(u, y, g1, y.len());
            lemma_mul_comm(u, p1.h@[row], f);
            lemma_mul_comm(u, dot(z, g1, y), f);
            lemma_mul_sub(u, f, p1.h@[row], dot(z, g1, y));
            lemma_mul_comm(u, f, minus(p1.h@[row], dot(z, g1, y)));
        }
    }
    if task.ipm.use_cone_row_scaling {
        assert(l =~= vscale(r, f));
    } else {
        assert(l =~= r);
    }
}

/// The inner solve's cones bound what the task's constraints bound at the trajectory: the
/// vehicle's limits, the step from the reference by the trust radius, virtual control by
/// its bound, and a free time of flight by its limits. Where cones are scaled, each is
/// divided by its scale.
pub proof fn law_inner_cones_are_the_constraints<T: Real, P: Plant<T>>(
    task: Task<T, P>,
    w0: ScvxWorkspace<T>,
    wp: ScvxWorkspace<T>,
    y: Seq<T>,
)
    requires
        field(units::<T>()),
        units_distinct(units::<T>()),
        task_sized(task, &w0),
        prepared(task, w0, wp),
        y.len() == w0.dims.np,
    ensures
        ({
            let z = num::<T>(0);
            let n = w0.dims.n as int;
            let x = in_flight_units(task.ipm.use_preconditioning, y, w0.scale_diag@);
            let log_m = log_of(task.plant, task.phys.m_dry);
            let e = wp.cone_scales@;
            let rows = task.ipm.use_cone_row_scaling;
            let tau = plus(w0.reference.tau, x[19 * n]);
            &&& forall|k: int, j: int|
                #![trigger node_slacks(&w0.reference, task.phys, log_m, w0.trust_eta, x, 19 * k, k, j)]
                0 <= k < n && 0 <= j < 8 ==> slacks_of(z, &wp.prob, y, 8 * k + j) == divided(
                    rows,
                    node_slacks(&w0.reference, task.phys, log_m, w0.trust_eta, x, 19 * k, k, j),
                    e,
                    8 * k + j,
                )
            &&& task.algo.use_free_tf ==> slacks_of(z, &wp.prob, y, 8 * n) == divided(
                rows,
                seq![minus(tau, task.phys.tau_lo)],
                e,
                8 * n,
            )
            &&& task.algo.use_free_tf ==> slacks_of(z, &wp.prob, y, 8 * n + 1) == divided(
                rows,
                seq![minus(task.phys.tau_hi, tau)],
                e,
                8 * n + 1,
            )
        }),
{
    let u = units::<T>();
    let z = num::<T>(0);
    let n = w0.dims.n as int;
    let free = task.algo.use_free_tf;
    let x = in_flight_units(task.ipm.use_preconditioning, y, w0.scale_diag@);
    let log_m = log_of(task.plant, task.phys.m_dry);
    let e = wp.cone_scales@;
    let rows = task.ipm.use_cone_row_scaling;
    let d = w0.scale_diag@;
    let (p0, p1) = choose|p0: SocpProblem<T>, p1: SocpProblem<T>|
        {
            &&& is_subproblem(task, &w0, &wp.lin, &p0)
            &&& #[trigger] column_stage(task.ipm.use_preconditioning, &p0, &p1, w0.scale_diag@)
            &&& row_stage(task.ipm.use_cone_row_scaling, &p1, &wp.prob, wp.cone_scales@)
        };
    law_program_is_node_sparse(
        u,
        &w0.reference,
        &wp.lin,
        task.phys,
        log_m,
        task.initial_state@,
        task.terminal,
        w0.trust_eta,
        task.algo.virt_weight,
        free,
        n,
        &p0,
    );
    law_tiled_cones_are_disjoint(p0.cones@, spec_nct(n, free));
    assert forall|c: int| 0 <= c < p0.cones@.len() implies (#[trigger] p0.cones@[c]).dim >= 1
        && p0.cones@[c].offset + p0.cones@[c].dim <= spec_nct(n, free) by {
        assert(p0.cones@[c].offset == scvx_cone_offset(n, c));
        assert(p0.cones@[c].dim == scvx_cone_dim(n, c));
    }
    law_scvx_cones(
        u,
        &w0.reference,
        &wp.lin,
        task.phys,
        log_m,
        task.initial_state@,
        task.terminal,
        w0.trust_eta,
        task.algo.virt_weight,
        free,
        n,
        &p0,
        x,
    );
    assert forall|k: int, j: int|
        #![trigger node_slacks(&w0.reference, task.phys, log_m, w0.trust_eta, x, 19 * k, k, j)]
        0 <= k < n && 0 <= j < 8 implies slacks_of(z, &wp.prob, y, 8 * k + j) == divided(
        rows,
        node_slacks(&w0.reference, task.phys, log_m, w0.trust_eta, x, 19 * k, k, j),
        e,
        8 * k + j,
    ) by {
        lemma_scaled_slacks(task, p0, p1, wp.prob, d, e, y, 8 * k + j);
    }
    if free {
        lemma_scaled_slacks(task, p0, p1, wp.prob, d, e, y, 8 * n);
        lemma_scaled_slacks(task, p0, p1, wp.prob, d, e, y, 8 * n + 1);
    }
}

/// The slacks of cone `c`, divided by its scale where cones are scaled.
pub open spec fn divided<T: Real>(scaled: bool, s: Seq<T>, scales: Seq<T>, c: int) -> Seq<T> {
    if scaled {
        vscale(s, over(num::<T>(1), scales[c]))
    } else {
        s
    }
}

/// The unknowns `x` are those of the reference: its states, controls and thrust magnitudes,
/// no virtual control, and no change of the time of flight.
pub open spec fn flies_reference<T: Real>(
    x: Seq<T>,
    reference: &Trajectory<T>,
    n: int,
    free_tf: bool,
) -> bool {
    &&& forall|k: int, i: int|
        0 <= k < n && 0 <= i < 7 ==> x[19 * k + i] == #[trigger] reference.x@[k][i]
    &&& forall|k: int, i: int|
        0 <= k < n && 0 <= i < 3 ==> x[19 * k + 7 + i] == #[trigger] reference.u@[k][i]
    &&& forall|k: int| 0 <= k < n ==> x[19 * k + 10] == #[trigger] reference.sigma@[k]
    &&& forall|k: int, i: int|
        #![trigger x[19 * k + i]]
        0 <= k < n && 11 <= i < 19 ==> x[19 * k + i] == num::<T>(0)
    &&& free_tf ==> x[19 * n] == num::<T>(0)
}

/// The inner solve starts at the reference: in the units of the trajectory its unknowns
/// are the reference's states, controls and thrust magnitudes, without virtual control and
/// without a change of the time of flight. Its multipliers and slacks are those that the
/// workspace held.
pub proof fn law_inner_solve_starts_at_reference<T: Real, P: Plant<T>>(
    task: Task<T, P>,
    w0: ScvxWorkspace<T>,
    wp: ScvxWorkspace<T>,
)
    requires
        field(units::<T>()),
        task_sized(task, &w0),
        prepared(task, w0, wp),
        all_nonzero(num::<T>(0), w0.scale_diag@),
    ensures
        wp.ipm_ws.lambda@ == w0.ipm_ws.lambda@,
        wp.ipm_ws.s@ == w0.ipm_ws.s@,
        wp.ipm_ws.y@ == w0.ipm_ws.y@,
        wp.ipm_ws.x@.len() == w0.dims.np,
        flies_reference(
            in_flight_units(task.ipm.use_preconditioning, wp.ipm_ws.x@, w0.scale_diag@),
            &w0.reference,
            w0.dims.n as int,
            task.algo.use_free_tf,
        ),
{
    let u = units::<T>();
    let n = w0.dims.n as int;
    let s = seeded(&w0.reference, n, w0.dims.np as int);
    let y = wp.ipm_ws@.x;
    let x = in_flight_units(task.ipm.use_preconditioning, wp.ipm_ws.x@, w0.scale_diag@);
    if task.ipm.use_preconditioning {
        assert(y == quotients(s, w0.scale_diag@));
        law_unscaling_inverts_scaling(u, s, w0.scale_diag@);
        assert(x =~= hadamard(y, w0.scale_diag@));
    }
    assert(x =~= s);
    assert forall|k: int, i: int| 0 <= k < n && 0 <= i < 19 implies #[trigger] x[19 * k + i] == (
    if i < 7 {
        w0.reference.x@[k][i]
    } else if i < 10 {
        w0.reference.u@[k][i - 7]
    } else if i == 10 {
        w0.reference.sigma@[k]
    } else {
        num::<T>(0)
    }) by {
        let j = 19 * k + i;
        assert(j / 19 == k && j % 19 == i);
    }
    assert forall|k: int, i: int| 0 <= k < n && 0 <= i < 3 implies x[19 * k + 7 + i]
        == #[trigger] w0.reference.u@[k][i] by {
        assert(x[19 * k + (7 + i)] == w0.reference.u@[k][i]);
    }
    assert(wp.ipm_ws@.lambda == w0.ipm_ws@.lambda && wp.ipm_ws@.s == w0.ipm_ws@.s && wp.ipm_ws@.y
        == w0.ipm_ws@.y);
}

// ---- where a trajectory goes ----

/// The trajectory starts in the state `initial` and ends at the target.
pub open spec fn joins<T>(
    t: &Trajectory<T>,
    n: int,
    initial: Seq<T>,
    target: &TerminalCondition<T>,
) -> bool {
    let end = t.x@[n - 1];
    &&& forall|i: int| 0 <= i < 7 ==> #[trigger] t.x@[0][i] == initial[i]
    &&& end[0] == target.r@[0] && end[1] == target.r@[1] && end[2] == target.r@[2]
    &&& end[3] == target.v@[0] && end[4] == target.v@[1] && end[5] == target.v@[2]
}

/// Every usable inner solution meets the equality rows of its program.
pub open spec fn inner_solves_exact<T: Real, P: Plant<T>>(task: Task<T, P>) -> bool {
    forall|wp: ScvxWorkspace<T>, wi: ScvxWorkspace<T>, r: ResultModel<T>|
        #[trigger] inner_solved(task, wp, wi, r) && usable(r.status) ==> mat_vec(
            num::<T>(0),
            wp.prob.a_mat@,
            r.point.x,
        ) == wp.prob.b@
}

/// An iteration with an exact and usable inner solution finds a candidate from the task's
/// initial state to the task's target that follows the linearized dynamics, and an
/// accepted one becomes a reference that does.
pub proof fn law_iteration_aims_at_target<T: Real, P: Plant<T>>(
    task: Task<T, P>,
    k: u32,
    w0: ScvxWorkspace<T>,
    w1: ScvxWorkspace<T>,
    next: Next,
)
    requires
        field(units::<T>()),
        task_sized(task, &w0),
        iteration(task, k, w0, w1, next),
        k < w0.history@.len(),
        inner_solves_exact(task),
        usable(w1.history@[k as int].ipm_status),
    ensures
        call_ensures(
            P::discretize,
            (task.plant, &w0.reference, task.phys, 4u32),
            w1.lin,
        ),
        ({
            let n = w0.dims.n as int;
            let x = w1.x_unscaled@;
            &&& starts_at(x, task.initial_state@)
            &&& ends_at(x, 19, n, task.terminal)
            &&& flies_with_virtual_control(
                num::<T>(0),
                &w1.lin,
                x,
                n,
                asked_tau(task.algo.use_free_tf, w0.reference.tau, x, n),
            )
            &&& w1.history@[k as int].cost == penalized_thrust(
                num::<T>(0),
                task.algo.virt_weight,
                x,
                n as nat,
            )
            &&& w1.history@[k as int].accepted ==> joins(
                &w1.reference,
                n,
                task.initial_state@,
                task.terminal,
            )
        }),
{
    let n = w0.dims.n as int;
    let (wp, wi, r) = lemma_parts(task, k, w0, w1, next);
    let w = ScvxWorkspace { iter: k, ..w0 };
    if !usable(r.status) {
        assert(retried(task, k, wi, w1, r, next));
        assert(w1.history@[k as int].ipm_status == r.status);
    }
    assert(concluded(task, k, wi, w1, r, w1.x_actual, next));
    assert(w1.lin == wp.lin && wi.prob == wp.prob);
    let y = r.point.x;
    law_inner_program_is_the_descent(task, w, wp, y);
    let x = in_flight_units(task.ipm.use_preconditioning, y, w0.scale_diag@);
    assert(w1.x_unscaled@ =~= x);
    if w1.history@[k as int].accepted {
        law_iteration_is_accounted_for(task, k, w0, w1, next);
        let t = w1.reference.x@;
        assert(t[0] == x.subrange(0, 7));
        assert forall|i: int| 0 <= i < 7 implies #[trigger] t[0][i] == task.initial_state@[i] by {
            assert(t[0][i] == x[i]);
        }
        let b = 19 * (n - 1);
        assert(t[n - 1] == x.subrange(b, b + 7));
        assert(t[n - 1][0] == x[b] && t[n - 1][1] == x[b + 1] && t[n - 1][2] == x[b + 2]
            && t[n - 1][3] == x[b + 3] && t[n - 1][4] == x[b + 4] && t[n - 1][5] == x[b + 5]);
    }
}

/// Along a run the workspace keeps the sizes of the task's problem.
proof fn lemma_trace_sized<T: Real, P: Plant<T>>(
    task: Task<T, P>,
    w0: ScvxWorkspace<T>,
    trace: Seq<ScvxWorkspace<T>>,
    w1: ScvxWorkspace<T>,
    status: SolverStatus,
    i: int,
)
    requires
        well_shaped(task.plant),
        admissible(task, &w0),
        traced(task, w0, trace, w1, status),
        well_sized(&w0),
        0 <= i < trace.len(),
    ensures
        task_sized(task, &trace[i]),
        trace[i].history@.len() == w0.history@.len(),
        trace[i].dims == w0.dims,
    decreases i,
{
    if i > 0 {
        lemma_trace_sized(task, w0, trace, w1, status, i - 1);
        let next = lemma_happened(task, w0, trace, w1, status, i - 1);
        let k = (i - 1) as u32;
        law_iteration_is_accounted_for(task, k, trace[i - 1], trace[i], next);
        let t = trace[i].reference;
        let n = w0.dims.n as int;
        if trace[i].history@[k as int].accepted {
            let (wp, wi, r) = lemma_parts(task, k, trace[i - 1], trace[i], next);
            if !usable(r.status) {
                assert(retried(task, k, wi, trace[i], r, next));
            }
            assert(concluded(task, k, wi, trace[i], r, trace[i].x_actual, next));
            let x = trace[i].x_unscaled@;
            assert(x.len() == w0.dims.np);
            assert forall|q: int| 0 <= q < n implies (#[trigger] t.x@[q]).len() == 7 by {
                assert(t.x@[q] == x.subrange(19 * q, 19 * q + 7));
            }
            assert forall|q: int| 0 <= q < n implies (#[trigger] t.u@[q]).len() == 3 by {
                assert(t.u@[q] == x.subrange(19 * q + 7, 19 * q + 10));
            }
            assert(t.sized(n));
        }
    }
}

/// After an accepted iteration of a run with exact inner solves the reference joins the
/// task's initial state to the task's target.
proof fn lemma_reference_joins<T: Real, P: Plant<T>>(
    task: Task<T, P>,
    w0: ScvxWorkspace<T>,
    trace: Seq<ScvxWorkspace<T>>,
    w1: ScvxWorkspace<T>,
    status: SolverStatus,
    a: int,
    j: int,
)
    requires
        field(units::<T>()),
        inner_solves_exact(task),
        well_shaped(task.plant),
        admissible(task, &w0),
        traced(task, w0, trace, w1, status),
        well_sized(&w0),
        0 <= a < j < trace.len(),
        w1.history@[a].accepted,
    ensures
        joins(&trace[j].reference, w0.dims.n as int, task.initial_state@, task.terminal),
    decreases j,
{
    let k = (j - 1) as u32;
    lemma_trace_sized(task, w0, trace, w1, status, j - 1);
    let next = lemma_happened(task, w0, trace, w1, status, j - 1);
    law_iteration_is_accounted_for(task, k, trace[j - 1], trace[j], next);
    law_run_is_recorded(task, w0, trace, w1, status);
    assert(keeps_record(trace, w1, j - 1));
    if trace[j].history@[j - 1].accepted {
        law_iteration_aims_at_target(task, k, trace[j - 1], trace[j], next);
    } else {
        assert(keeps_record(trace, w1, a));
        assert(a < j - 1);
        lemma_reference_joins(task, w0, trace, w1, status, a, j - 1);
    }
}

/// A solve with exact inner solves that accepted a candidate leaves a reference that
/// starts in the task's initial state and ends at the target's position with the target's
/// velocity.
pub proof fn law_solve_lands_on_target<T: Real, P: Plant<T>>(
    task: Task<T, P>,
    w0: ScvxWorkspace<T>,
    w1: ScvxWorkspace<T>,
    status: SolverStatus,
    a: int,
)
    requires
        field(units::<T>()),
        inner_solves_exact(task),
        well_shaped(task.plant),
        well_sized(&w0),
        outcome(task, w0, w1, status),
        status != SolverStatus::BadInput,
        0 <= a <= w1.iter,
        w1.history@[a].accepted,
    ensures
        joins(&w1.reference, w0.dims.n as int, task.initial_state@, task.terminal),
{
    let trace = choose|trace: Seq<ScvxWorkspace<T>>| #[trigger]
        traced(task, w0, trace, w1, status);
    law_run_is_recorded(task, w0, trace, w1, status);
    lemma_reference_joins(task, w0, trace, w1, status, a, trace.len() - 1);
}

} // verus!
