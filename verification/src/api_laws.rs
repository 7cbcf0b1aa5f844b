//! What the options of a powered descent decide, and where its first reference goes.
use crate::algebra::{
    field, lemma_add_comm, lemma_add_neg, lemma_add_zero, lemma_distrib, lemma_div_cancel,
    lemma_mul_comm, lemma_mul_one, lemma_mul_zero, lemma_neg_add, lemma_neg_mul, lemma_sub_facts,
};
use crate::api::{
    inner_settings, law_line_joins_its_ends, on_line, outer_settings, progress, seeded_with_line,
    target_state, usual_options, PoweredDescentOptions,
};
use crate::descent_laws::{in_flight_units, inner_solves_exact, joins, law_solve_lands_on_target};
use crate::judgement_laws::{
    law_candidate_is_judged, law_plant_solves_the_program, lemma_solve_summary, settled_at,
    solved_by_plant, true_merit,
};
use crate::numerics::{exp_of, log_of};
use crate::scalar::{
    clamped, larger, less, minus, negated, num, plus, ratio, times, units, Limits, Real,
};
use crate::scvx::{
    iteration, outcome, started, traced, usable, well_shaped, well_sized, Next, Plant,
    ScvxWorkspace, Task,
};
use crate::scvx_laws::{
    between, dense_capped, law_iteration_is_accounted_for, law_run_is_recorded, law_solve_caps_inner_iterations,
    law_solve_keeps_its_bounds, lemma_happened, lemma_trace_keeps_room, order_kept, ordered,
    poisonous,
};
use crate::start_laws::{lemma_order, ordered_field};
use crate::types::{
    IpmAlgoParams, PhysicalParams, ScvxAlgoParams, SocpProblem, SocpResult, SocpWorkspace,
    SolverStatus, TerminalCondition,
};
use vstd::prelude::*;

verus! {

/// What a powered descent with these options asks of the loop.
pub open spec fn descent_task<'a, T: Real, P: Plant<T>>(
    limits: Limits<T>,
    hard_max_iters: u32,
    plant: &'a P,
    phys: &'a PhysicalParams<T>,
    initial_state: &'a Vec<T>,
    terminal: &'a TerminalCondition<T>,
    algo: &'a ScvxAlgoParams<T>,
    ipm: &'a IpmAlgoParams<T>,
) -> Task<'a, T, P> {
    Task { limits, hard_max_iters, plant, phys, algo, ipm, initial_state, terminal }
}

/// The plant's driver that the options ask for can return `o` for `prob`, called with the
/// options' tolerance and cap and started from the workspace.
pub open spec fn solved_as_asked<T: Real, P: Plant<T>>(
    plant: &P,
    options: &PoweredDescentOptions<T>,
    base: IpmAlgoParams<T>,
    prob: SocpProblem<T>,
    ws: SocpWorkspace<T>,
    o: (SocpResult<T>, SocpWorkspace<T>),
) -> bool {
    exists|params: IpmAlgoParams<T>|
        {
            &&& #[trigger] driver_called(plant, options, prob, params, ws, o)
            &&& params.max_iters == options.max_inner_iters
            &&& params.tol_mu == options.ipm_tol
            &&& params.tol_primal == options.ipm_tol
            &&& params.tol_dual == options.ipm_tol
            &&& params.tol_gap == options.ipm_tol
            &&& params.use_preconditioning == options.use_preconditioning
            &&& params.use_cone_row_scaling == options.use_cone_row_scaling
            &&& params.use_nt_scaling == options.use_nt_scaling
            &&& params.use_hsd == options.use_hsd
            &&& params.use_adaptive_regularization == base.use_adaptive_regularization
            &&& params.warm_start_x
        }
}

/// The plant's driver that the options ask for can return `o`.
pub open spec fn driver_called<T: Real, P: Plant<T>>(
    plant: &P,
    options: &PoweredDescentOptions<T>,
    prob: SocpProblem<T>,
    params: IpmAlgoParams<T>,
    ws: SocpWorkspace<T>,
    o: (SocpResult<T>, SocpWorkspace<T>),
) -> bool {
    if options.use_hsd {
        call_ensures(P::solve_socp_hsd, (plant, &prob, &params, ws), o)
    } else if options.use_nt_scaling {
        call_ensures(P::solve_socp_nt, (plant, &prob, &params, ws), o)
    } else {
        call_ensures(P::solve_socp, (plant, &prob, &params, ws), o)
    }
}

/// The options rule the descent: its cap on outer iterations, its convergence tolerances,
/// its trust bounds and first radius, its cap on inner iterations, its penalty on what is
/// missed, and whether the time of flight is free, are those of the options.
pub proof fn law_options_rule_the_descent<T: Real, P: Plant<T>>(
    limits: Limits<T>,
    hard_max_iters: u32,
    plant: &P,
    phys: &PhysicalParams<T>,
    initial_state: &Vec<T>,
    terminal: &TerminalCondition<T>,
    options: &PoweredDescentOptions<T>,
    algo_base: ScvxAlgoParams<T>,
    ipm_base: IpmAlgoParams<T>,
    w0: ScvxWorkspace<T>,
    w1: ScvxWorkspace<T>,
    status: SolverStatus,
) -> (ends: (ScvxWorkspace<T>, ScvxWorkspace<T>, Next))
    requires
        well_shaped(plant),
        well_sized(&w0),
        outcome(
            descent_task(
                limits,
                hard_max_iters,
                plant,
                phys,
                initial_state,
                terminal,
                &outer_settings(options, algo_base),
                &inner_settings(options, ipm_base),
            ),
            w0,
            w1,
            status,
        ),
        status != SolverStatus::BadInput,
    ensures
        w1.iter < options.max_outer_iters,
        !options.use_free_tf ==> w1.reference.tau == w0.reference.tau,
        options.use_free_tf && ordered::<T>() && order_kept::<T>() && poisonous::<T, P>(plant)
            ==> between(phys.tau_lo, w1.reference.tau, phys.tau_hi),
        status == SolverStatus::Converged ==> settled_at(
            plant,
            options.conv_tol_x,
            options.conv_tol_virt,
            &w1,
        ),
        ordered::<T>() && order_kept::<T>() && poisonous::<T, P>(plant) ==> between(
            options.trust_eta_min,
            w1.trust_eta,
            options.trust_eta_max,
        ) && forall|i: int|
            0 <= i <= w1.iter ==> between(
                options.trust_eta_min,
                (#[trigger] w1.history@[i]).trust_eta,
                options.trust_eta_max,
            ),
        dense_capped::<T, P>(plant, hard_max_iters) ==> forall|i: int|
            0 <= i <= w1.iter ==> (#[trigger] w1.history@[i]).ipm_iters <= options.max_inner_iters
                && w1.history@[i].ipm_iters <= hard_max_iters,
        // the first radius
        ends.0.trust_eta == clamped(
            options.trust_eta0,
            options.trust_eta_min,
            options.trust_eta_max,
        ),
        ends.0.reference == w0.reference,
        // the last iteration
        iteration(
            descent_task(
                limits,
                hard_max_iters,
                plant,
                phys,
                initial_state,
                terminal,
                &outer_settings(options, algo_base),
                &inner_settings(options, ipm_base),
            ),
            w1.iter,
            ends.1,
            w1,
            ends.2,
        ),
        w1.history@[w1.iter as int].accepted ==> w1.j_prev == true_merit(
            plant,
            options.virt_weight,
            w1.x_unscaled@,
            w1.x_actual@,
            w0.dims.n as nat,
        ),
        !algo_base.use_structured_solve ==> exists|
            ws: SocpWorkspace<T>,
            o: (SocpResult<T>, SocpWorkspace<T>),
        |
            {
                let rec = w1.history@[w1.iter as int];
                &&& #[trigger] solved_as_asked(plant, options, ipm_base, w1.prob, ws, o)
                &&& rec.ipm_status == o.0.status
                &&& rec.ipm_iters == o.0.iters
                &&& usable(rec.ipm_status) ==> w1.x_unscaled@ == in_flight_units(
                    options.use_preconditioning,
                    o.0.x@,
                    ends.1.scale_diag@,
                )
            },
{
    let algo = outer_settings(options, algo_base);
    let ipm = inner_settings(options, ipm_base);
    let task = descent_task(
        limits,
        hard_max_iters,
        plant,
        phys,
        initial_state,
        terminal,
        &algo,
        &ipm,
    );
    lemma_solve_summary(task, w0, w1, status);
    if ordered::<T>() && order_kept::<T>() && poisonous::<T, P>(plant) {
        law_solve_keeps_its_bounds(task, w0, w1, status);
    }
    if dense_capped::<T, P>(plant, hard_max_iters) {
        law_solve_caps_inner_iterations(task, w0, w1, status);
    }
    let trace = choose|trace: Seq<ScvxWorkspace<T>>| #[trigger]
        traced(task, w0, trace, w1, status);
    let m = trace.len() - 1;
    law_run_is_recorded(task, w0, trace, w1, status);
    assert(started(task, w0, trace[0]));
    lemma_trace_keeps_room(task, w0, trace, w1, status, m - 1);
    let next = lemma_happened(task, w0, trace, w1, status, m - 1);
    let k = (m - 1) as u32;
    assert(k == w1.iter);
    let before = trace[m - 1];
    if w1.history@[k as int].accepted {
        law_iteration_is_accounted_for(task, k, before, w1, next);
        law_candidate_is_judged(task, k, before, w1, next);
    }
    if !algo_base.use_structured_solve {
        law_plant_solves_the_program(task, k, before, w1, next);
        let (ws, o) = choose|ws: SocpWorkspace<T>, o: (SocpResult<T>, SocpWorkspace<T>)|
            #[trigger] solved_by_plant(task, w1.prob, ws, o) && {
                let rec = w1.history@[k as int];
                &&& rec.ipm_status == o.0.status
                &&& rec.ipm_iters == o.0.iters
                &&& usable(rec.ipm_status) ==> w1.x_unscaled@ == in_flight_units(
                    task.ipm.use_preconditioning,
                    o.0.x@,
                    before.scale_diag@,
                )
            };
        let params = IpmAlgoParams { warm_start_x: true, ..ipm };
        assert(solved_by_plant(task, w1.prob, ws, o));
        assert(params.max_iters == options.max_inner_iters && params.tol_mu == options.ipm_tol
            && params.tol_primal == options.ipm_tol && params.tol_dual == options.ipm_tol
            && params.tol_gap == options.ipm_tol);
        assert(params.use_hsd == options.use_hsd && params.use_nt_scaling
            == options.use_nt_scaling);
        assert(driver_called(plant, options, w1.prob, params, ws, o));
        assert(solved_as_asked(plant, options, ipm_base, w1.prob, ws, o));
    }
    (trace[0], before, next)
}

/// A powered descent with exact inner solves that converged leaves a trajectory from the
/// initial state to the target.
pub proof fn law_powered_descent_lands<T: Real, P: Plant<T>>(
    limits: Limits<T>,
    hard_max_iters: u32,
    plant: &P,
    phys: &PhysicalParams<T>,
    initial_state: &Vec<T>,
    terminal: &TerminalCondition<T>,
    options: &PoweredDescentOptions<T>,
    algo_base: ScvxAlgoParams<T>,
    ipm_base: IpmAlgoParams<T>,
    w0: ScvxWorkspace<T>,
    w1: ScvxWorkspace<T>,
    status: SolverStatus,
)
    requires
        field(units::<T>()),
        well_shaped(plant),
        well_sized(&w0),
        ({
            let task = descent_task(
                limits,
                hard_max_iters,
                plant,
                phys,
                initial_state,
                terminal,
                &outer_settings(options, algo_base),
                &inner_settings(options, ipm_base),
            );
            inner_solves_exact(task) && outcome(task, w0, w1, status)
        }),
        status == SolverStatus::Converged,
    ensures
        joins(&w1.reference, w0.dims.n as int, initial_state@, terminal),
{
    let task = descent_task(
        limits,
        hard_max_iters,
        plant,
        phys,
        initial_state,
        terminal,
        &outer_settings(options, algo_base),
        &inner_settings(options, ipm_base),
    );
    lemma_solve_summary(task, w0, w1, status);
    law_solve_lands_on_target(task, w0, w1, status, w1.iter as int);
}

/// The first reference of a powered descent joins the initial state to the target in the
/// options' time of flight, ends with the larger of the estimated terminal mass and the
/// dry mass, moves by equal steps, and thrusts upwards, everywhere as much as holds the
/// mean of the initial and the estimated terminal mass against gravity.
pub proof fn law_first_reference_joins<T: Real, P: Plant<T>>(
    plant: &P,
    phys: &PhysicalParams<T>,
    initial_state: Seq<T>,
    terminal: &TerminalCondition<T>,
    options: &PoweredDescentOptions<T>,
    w0: ScvxWorkspace<T>,
    w1: ScvxWorkspace<T>,
)
    requires
        field(units::<T>()),
        seeded_with_line(plant, phys, initial_state, terminal, options, w0, w1),
        2 <= w0.dims.n <= u32::MAX,
        num::<T>((w0.dims.n - 1) as u32) != num::<T>(0),
        num::<T>(2) == plus(num::<T>(1), num::<T>(1)),
        num::<T>(2) != num::<T>(0),
    ensures
        ({
            let n = w0.dims.n as int;
            let t = w1.reference;
            let z = num::<T>(0);
            let end_mass = log_of(plant, larger(options.target_mass, phys.m_dry));
            let masses = plus(exp_of(plant, initial_state[6]), options.target_mass);
            &&& joins(&t, n, initial_state, terminal)
            &&& t.x@[n - 1][6] == end_mass
            &&& t.tau == options.initial_tau
            &&& forall|k: int|
                0 <= k < n ==> {
                    let v = (#[trigger] t.u@[k])[2];
                    &&& t.u@[k] == seq![z, z, v]
                    &&& t.sigma@[k] == v
                    &&& plus(plus(v, v), times(masses, phys.g@[2])) == z
                }
            &&& forall|k: int, i: int|
                0 <= k < n && 0 <= i < 7 ==> #[trigger] t.x@[k][i] == plus(
                    t.x@[0][i],
                    times(
                        progress::<T>(k, n),
                        minus(t.x@[n - 1][i], t.x@[0][i]),
                    ),
                )
        }),
{
    let u = units::<T>();
    let n = w0.dims.n as int;
    let t = w1.reference;
    let z = num::<T>(0);
    let one = num::<T>(1);
    let b = target_state(plant, phys, terminal, options);
    assert forall|i: int| 0 <= i < 7 implies #[trigger] t.x@[0][i] == initial_state[i] by {
        law_line_joins_its_ends(initial_state, b, n, i);
        assert(t.x@[0][i] == on_line(initial_state, b, n, 0, i));
    }
    assert forall|i: int| 0 <= i < 7 implies #[trigger] t.x@[n - 1][i] == b[i] by {
        law_line_joins_its_ends(initial_state, b, n, i);
        assert(t.x@[n - 1][i] == on_line(initial_state, b, n, n - 1, i));
    }
    assert(t.x@[n - 1][0] == b[0] && t.x@[n - 1][1] == b[1] && t.x@[n - 1][2] == b[2]
        && t.x@[n - 1][3] == b[3] && t.x@[n - 1][4] == b[4] && t.x@[n - 1][5] == b[5]
        && t.x@[n - 1][6] == b[6]);
    assert forall|k: int, i: int| 0 <= k < n && 0 <= i < 7 implies #[trigger] t.x@[k][i] == plus(
        t.x@[0][i],
        times(progress::<T>(k, n), minus(t.x@[n - 1][i], t.x@[0][i])),
    ) by {
        law_line_joins_its_ends(initial_state, b, n, i);
        assert(t.x@[k][i] == on_line(initial_state, b, n, k, i));
        assert(t.x@[0][i] == initial_state[i] && t.x@[n - 1][i] == b[i]);
    }
    // twice the thrust is the weight of both masses
    let masses = plus(exp_of(plant, initial_state[6]), options.target_mass);
    let half = ratio::<T>(1, 2);
    let mean = times(masses, half);
    let g = phys.g@[2];
    let v = times(negated(mean), g);
    let q = times(mean, g);
    lemma_neg_mul(u, mean, g);
    assert(v == negated(q));
    // mean + mean == masses
    lemma_div_cancel(u, one, num::<T>(2));
    lemma_distrib(u, half, one, one);
    lemma_mul_one(u, half);
    lemma_mul_comm(u, half, num::<T>(2));
    assert(plus(half, half) == one);
    lemma_distrib(u, masses, half, half);
    lemma_mul_one(u, masses);
    assert(plus(mean, mean) == masses);
    lemma_mul_comm(u, masses, g);
    lemma_distrib(u, g, mean, mean);
    lemma_mul_comm(u, g, mean);
    assert(plus(q, q) == times(masses, g));
    lemma_neg_add(u, q, q);
    lemma_add_comm(u, plus(v, v), plus(q, q));
    lemma_add_neg(u, plus(q, q));
}

/// The usual options: a free final time around 20 with scaled variables and the self-dual
/// embedding; a first radius of 20 between 0.001 and 100, a penalty of 100000, a step below
/// 0.001 and virtual control below a ten-millionth to converge in at most 15 iterations, and
/// inner solves to 0.0001 in at most 25.
pub proof fn law_usual_options<T: Real>()
    ensures
        ({
            let o = usual_options::<T>();
            &&& o.use_free_tf && o.use_preconditioning && o.use_hsd
            &&& !o.use_cone_row_scaling && !o.use_nt_scaling
            &&& o.initial_tau == num::<T>(20)
            &&& o.target_mass == num::<T>(700)
            &&& o.trust_eta_min == ratio::<T>(1, 1_000)
            &&& o.trust_eta0 == num::<T>(20)
            &&& o.trust_eta_max == num::<T>(100)
            &&& o.virt_weight == num::<T>(100_000)
            &&& o.conv_tol_x == ratio::<T>(1, 1_000)
            &&& o.conv_tol_virt == ratio::<T>(1, 10_000_000)
            &&& o.max_outer_iters == 15
            &&& o.ipm_tol == ratio::<T>(1, 10_000)
            &&& o.max_inner_iters == 25
        }),
        ordered_field::<T>() ==> {
            let o = usual_options::<T>();
            &&& less(num::<T>(0), o.trust_eta_min)
            &&& less(o.trust_eta_min, o.trust_eta0)
            &&& less(o.trust_eta0, o.trust_eta_max)
            &&& less(o.conv_tol_virt, o.conv_tol_x)
            &&& less(num::<T>(0), o.conv_tol_virt)
        },
{
    if ordered_field::<T>() {
        let u = units::<T>();
        let one = num::<T>(1);
        lemma_order(num::<T>(0), one, one);
        assert(less(ratio::<T>(0, 1), ratio::<T>(1, 1_000)) && less(
            ratio::<T>(1, 1_000),
            ratio::<T>(20, 1),
        ) && less(ratio::<T>(20, 1), ratio::<T>(100, 1)) && less(
            ratio::<T>(1, 10_000_000),
            ratio::<T>(1, 1_000),
        ) && less(ratio::<T>(0, 1), ratio::<T>(1, 10_000_000))) by {
            reveal(ordered_field);
        }
        lemma_div_cancel(u, num::<T>(0), one);
        lemma_div_cancel(u, num::<T>(20), one);
        lemma_div_cancel(u, num::<T>(100), one);
        lemma_mul_one(u, ratio::<T>(0, 1));
        lemma_mul_one(u, ratio::<T>(20, 1));
        lemma_mul_one(u, ratio::<T>(100, 1));
    }
}

/// What the options do not name comes from the base settings: the thresholds on the merit
/// ratio and whether they are followed, the divisor and the factor of the trust radius, and
/// whether structured solves are asked for.
pub proof fn law_unnamed_settings_are_the_base<T: Real>(
    options: &PoweredDescentOptions<T>,
    algo_base: ScvxAlgoParams<T>,
    ipm_base: IpmAlgoParams<T>,
)
    ensures
        ({
            let a = outer_settings(options, algo_base);
            &&& a.rho_reject == algo_base.rho_reject
            &&& a.rho_shrink == algo_base.rho_shrink
            &&& a.rho_grow == algo_base.rho_grow
            &&& a.trust_alpha == algo_base.trust_alpha
            &&& a.trust_beta == algo_base.trust_beta
            &&& a.use_structured_solve == algo_base.use_structured_solve
            &&& a.use_adaptive_trust == algo_base.use_adaptive_trust
        }),
        inner_settings(options, ipm_base).use_adaptive_regularization
            == ipm_base.use_adaptive_regularization,
        inner_settings(options, ipm_base).warm_start_x == ipm_base.warm_start_x,
{
}

/// With one node, the first reference of a powered descent is the initial state.
pub proof fn law_single_node_reference<T: Real, P: Plant<T>>(
    plant: &P,
    phys: &PhysicalParams<T>,
    initial_state: Seq<T>,
    terminal: &TerminalCondition<T>,
    options: &PoweredDescentOptions<T>,
    w0: ScvxWorkspace<T>,
    w1: ScvxWorkspace<T>,
    i: int,
)
    requires
        field(units::<T>()),
        seeded_with_line(plant, phys, initial_state, terminal, options, w0, w1),
        w0.dims.n == 1,
        0 <= i < 7,
    ensures
        w1.reference.x@.len() == 1,
        w1.reference.x@[0][i] == initial_state[i],
        w1.reference.tau == options.initial_tau,
{
    let u = units::<T>();
    let b = target_state(plant, phys, terminal, options);
    let a = initial_state[i];
    assert(w1.reference.x@[0][i] == on_line(initial_state, b, 1, 0, i));
    lemma_sub_facts(u, num::<T>(1), num::<T>(0));
    lemma_mul_one(u, a);
    lemma_mul_comm(u, num::<T>(1), a);
    lemma_mul_zero(u, b[i]);
    lemma_mul_comm(u, num::<T>(0), b[i]);
    lemma_add_zero(u, a);
}

} // verus!
