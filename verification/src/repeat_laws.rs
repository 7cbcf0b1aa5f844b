//! The same input leads to the same result: the structured drivers read only what a
//! cone program holds, and two runs of the outer loop from workspaces that hold the
//! same end alike, where the plant answers the same question the same way.
use crate::assemble::{dtau_column, dynamics_row_spec, equality_row};
use crate::cones::{ArrowModel, ConeOps, NtModel};
use crate::kkt_backend::{kkt_factor_model, KktModel};
use crate::layout::{spec_ne, spec_np};
use crate::linalg::Mat;
use crate::merit::{controls_in, seeded, states_in, step_squares};
use crate::numerics::Numerics;
use crate::reduced_kkt::hessians;
use crate::scalar::{units, Limits, Real, Scalar, Units};
use crate::scvx::{
    admissible, column_stage, dense_may, dims_match, finished, inner_driver, inner_solved,
    is_subproblem, iteration, judgement, linked, original_units, outcome, prepared, quality,
    row_stage, structured_outcome, traced, usable, warm_params, warm_x, well_shaped, well_sized,
    Method, Next, Plant, ScvxWorkspace, Task,
};
use crate::scvx_laws::{lemma_happened, lemma_parts};
use crate::structured_hsd::{
    central, hsd_factored_step, hsd_optimal, hsd_refreshed, hsd_run, hsd_solved, hsd_step,
    recovered, Embedded, HsdProgress,
};
use crate::structured_socp::{
    aho_direction, aho_step, iteration_cap, nt_direction, nt_step, optimal, refreshed, run, solved,
    starting_point, step, weight_upto, Direction, Driver, Go, Progress,
};
use crate::types::{
    IpmAlgoParams, LinearizedDynamics, PhysicalParams, Point, ResultModel, SocpProblem,
    SolverStatus, Trajectory,
};
use vstd::prelude::*;

verus! {

// ---- the structured drivers ----

/// The two cone programs hold the same.
pub open spec fn same_problem<T>(p: &SocpProblem<T>, q: &SocpProblem<T>) -> bool {
    &&& p.c@ == q.c@
    &&& p.a_mat@ == q.a_mat@
    &&& p.b@ == q.b@
    &&& p.g_mat@ == q.g_mat@
    &&& p.h@ == q.h@
    &&& p.cones@ == q.cones@
}

proof fn lemma_same_factor<T: Scalar, C: Numerics<T>>(
    units: Units<T>,
    limits: Limits<T>,
    ops: &C,
    p: &SocpProblem<T>,
    q: &SocpProblem<T>,
    n: int,
    free_tf: bool,
    m: Seq<Seq<T>>,
    reg: T,
)
    requires
        same_problem(p, q),
    ensures
        kkt_factor_model(units, limits, ops, p, n, free_tf, m, reg) == kkt_factor_model(
            units,
            limits,
            ops,
            q,
            n,
            free_tf,
            m,
            reg,
        ),
{
    let np = spec_np(n, free_tf);
    assert(hessians(units.zero, p, m, np, reg, n) =~= hessians(units.zero, q, m, np, reg, n));
}

proof fn lemma_same_aho_direction<T: Real>(
    drv: Driver<T>,
    p: &SocpProblem<T>,
    q: &SocpProblem<T>,
    pt: Point<T>,
    f: KktModel<T>,
    b: ArrowModel<T>,
    r_c: Seq<T>,
)
    requires
        same_problem(p, q),
    ensures
        aho_direction(drv, p, pt, f, b, r_c) == aho_direction(drv, q, pt, f, b, r_c),
{
}

proof fn lemma_same_nt_direction<T: Real>(
    drv: Driver<T>,
    p: &SocpProblem<T>,
    q: &SocpProblem<T>,
    pt: Point<T>,
    f: KktModel<T>,
    b: NtModel<T>,
    r_c: Seq<T>,
)
    requires
        same_problem(p, q),
    ensures
        nt_direction(drv, p, pt, f, b, r_c) == nt_direction(drv, q, pt, f, b, r_c),
{
}

proof fn lemma_same_weight<T: Real, C: ConeOps<T>>(
    ops: &C,
    p: &SocpProblem<T>,
    q: &SocpProblem<T>,
    pt: Point<T>,
    a: Direction<T>,
    c: Direction<T>,
    k: nat,
)
    requires
        same_problem(p, q),
    ensures
        weight_upto(ops, p, pt, a, c, k) == weight_upto(ops, q, pt, a, c, k),
    decreases k,
{
    if k > 0 {
        lemma_same_weight(ops, p, q, pt, a, c, (k - 1) as nat);
    }
}

proof fn lemma_same_step<T: Real, C: ConeOps<T>>(
    drv: Driver<T>,
    ops: &C,
    p: &SocpProblem<T>,
    q: &SocpProblem<T>,
    pt: Point<T>,
)
    requires
        same_problem(p, q),
    ensures
        step(drv, ops, p, pt) == step(drv, ops, q, pt),
{
    assert forall|m: Seq<Seq<T>>, units: Units<T>, reg: T| #[trigger]
        kkt_factor_model(units, drv.limits, ops, p, drv.n as int, drv.free_tf, m, reg)
            == kkt_factor_model(
            units,
            drv.limits,
            ops,
            q,
            drv.n as int,
            drv.free_tf,
            m,
            reg,
        ) by {
        lemma_same_factor(units, drv.limits, ops, p, q, drv.n as int, drv.free_tf, m, reg);
    }
    if drv.nt {
        assert forall|f: KktModel<T>, b: NtModel<T>, r_c: Seq<T>| #[trigger]
            nt_direction(drv, p, pt, f, b, r_c) == nt_direction(drv, q, pt, f, b, r_c) by {
            lemma_same_nt_direction(drv, p, q, pt, f, b, r_c);
        }
        assert forall|a: Direction<T>, c: Direction<T>| #[trigger]
            weight_upto(ops, p, pt, a, c, 6) == weight_upto(ops, q, pt, a, c, 6) by {
            lemma_same_weight(ops, p, q, pt, a, c, 6);
        }
        reveal(nt_step);
    } else {
        assert forall|f: KktModel<T>, b: ArrowModel<T>, r_c: Seq<T>| #[trigger]
            aho_direction(drv, p, pt, f, b, r_c) == aho_direction(drv, q, pt, f, b, r_c) by {
            lemma_same_aho_direction(drv, p, q, pt, f, b, r_c);
        }
        reveal(aho_step);
    }
}

proof fn lemma_same_run<T: Real, C: ConeOps<T>>(
    drv: Driver<T>,
    ops: &C,
    p: &SocpProblem<T>,
    q: &SocpProblem<T>,
    params: IpmAlgoParams<T>,
    st: Progress<T>,
    iter: u32,
    cap: u32,
)
    requires
        same_problem(p, q),
    ensures
        run(drv, ops, p, params, st, iter, cap) == run(drv, ops, q, params, st, iter, cap),
    decreases cap - iter,
{
    if iter < cap {
        assert(optimal(ops, p, params, st.pt) == optimal(ops, q, params, st.pt));
        let best = refreshed(ops, p, params, st.pt, st.best);
        assert(best == refreshed(ops, q, params, st.pt, st.best));
        lemma_same_step(drv, ops, p, q, st.pt);
        let s = step(drv, ops, p, st.pt);
        if s.go == Go::On {
            lemma_same_run(
                drv,
                ops,
                p,
                q,
                params,
                Progress { pt: s.pt, prev_x: st.pt.x, prev_y: st.pt.y, best },
                (iter + 1) as u32,
                cap,
            );
        }
    }
}

proof fn lemma_same_hsd_step<T: Real, C: ConeOps<T>>(
    drv: Driver<T>,
    ops: &C,
    p: &SocpProblem<T>,
    q: &SocpProblem<T>,
    e: Embedded<T>,
)
    requires
        same_problem(p, q),
    ensures
        hsd_step(drv, ops, p, e) == hsd_step(drv, ops, q, e),
{
    assert forall|m: Seq<Seq<T>>, units: Units<T>, reg: T| #[trigger]
        kkt_factor_model(units, drv.limits, ops, p, drv.n as int, drv.free_tf, m, reg)
            == kkt_factor_model(
            units,
            drv.limits,
            ops,
            q,
            drv.n as int,
            drv.free_tf,
            m,
            reg,
        ) by {
        lemma_same_factor(units, drv.limits, ops, p, q, drv.n as int, drv.free_tf, m, reg);
    }
    assert forall|f: KktModel<T>, b: NtModel<T>| #[trigger]
        hsd_factored_step(drv, ops, p, e, f, b) == hsd_factored_step(drv, ops, q, e, f, b) by {
        reveal(hsd_factored_step);
    }
}

proof fn lemma_same_hsd_run<T: Real, C: ConeOps<T>>(
    drv: Driver<T>,
    ops: &C,
    p: &SocpProblem<T>,
    q: &SocpProblem<T>,
    params: IpmAlgoParams<T>,
    st: HsdProgress<T>,
    iter: u32,
    cap: u32,
)
    requires
        same_problem(p, q),
    ensures
        hsd_run(drv, ops, p, params, st, iter, cap) == hsd_run(drv, ops, q, params, st, iter, cap),
    decreases cap - iter,
{
    if iter < cap {
        assert(hsd_optimal(ops, p, params, st.e) == hsd_optimal(ops, q, params, st.e));
        let best = hsd_refreshed(ops, p, params, st.e, st.best);
        assert(best == hsd_refreshed(ops, q, params, st.e, st.best));
        lemma_same_hsd_step(drv, ops, p, q, st.e);
        let s = hsd_step(drv, ops, p, st.e);
        if s.go == Go::On {
            lemma_same_hsd_run(
                drv,
                ops,
                p,
                q,
                params,
                HsdProgress { e: s.e, shown: recovered(st.e), best },
                (iter + 1) as u32,
                cap,
            );
        }
    }
}

/// The structured drivers' results depend on a cone program only through what it
/// holds.
pub proof fn law_solve_reads_only_contents<T: Real, C: ConeOps<T>>(
    drv: Driver<T>,
    ops: &C,
    p: &SocpProblem<T>,
    q: &SocpProblem<T>,
    params: IpmAlgoParams<T>,
    pt: Point<T>,
)
    requires
        same_problem(p, q),
    ensures
        solved(drv, ops, p, params, pt) == solved(drv, ops, q, params, pt),
        hsd_solved(drv, ops, p, params, pt) == hsd_solved(drv, ops, q, params, pt),
{
    let cap = iteration_cap(params.max_iters, drv.hard_max_iters);
    let from = starting_point(ops, p, params.warm_start_x, pt);
    assert(from == starting_point(ops, q, params.warm_start_x, pt));
    lemma_same_run(
        drv,
        ops,
        p,
        q,
        params,
        Progress { pt: from, prev_x: from.x, prev_y: from.y, best: None },
        0,
        cap,
    );
    lemma_same_hsd_run(
        drv,
        ops,
        p,
        q,
        params,
        HsdProgress { e: central(p), shown: pt, best: None },
        0,
        cap,
    );
}

// ---- the outer loop ----

/// The two trajectories hold the same.
pub open spec fn same_trajectory<T>(s: &Trajectory<T>, t: &Trajectory<T>) -> bool {
    s.x@ == t.x@ && s.u@ == t.u@ && s.sigma@ == t.sigma@ && s.tau == t.tau
}

/// The two sequences of matrices hold the same.
pub open spec fn same_matrices<T>(a: Seq<Mat<T>>, b: Seq<Mat<T>>) -> bool {
    a.len() == b.len() && forall|k: int| 0 <= k < a.len() ==> (#[trigger] a[k])@ == b[k]@
}

/// The two sequences of vectors hold the same.
pub open spec fn same_vectors<T>(a: Seq<Vec<T>>, b: Seq<Vec<T>>) -> bool {
    a.len() == b.len() && forall|k: int| 0 <= k < a.len() ==> (#[trigger] a[k])@ == b[k]@
}

/// The two linearizations hold the same.
pub open spec fn same_dynamics<T>(l: &LinearizedDynamics<T>, m: &LinearizedDynamics<T>) -> bool {
    &&& same_matrices(l.a@, m.a@)
    &&& same_matrices(l.b_minus@, m.b_minus@)
    &&& same_matrices(l.b_plus@, m.b_plus@)
    &&& same_vectors(l.c@, m.c@)
    &&& same_vectors(l.s@, m.s@)
}

/// The two workspaces hold the same.
pub open spec fn same_workspace<T>(w: ScvxWorkspace<T>, v: ScvxWorkspace<T>) -> bool {
    &&& same_inputs(w, v)
    &&& same_trajectory(&w.candidate, &v.candidate)
    &&& same_dynamics(&w.lin, &v.lin)
    &&& same_problem(&w.prob, &v.prob)
    &&& w.x_actual@ == v.x_actual@
    &&& w.x_unscaled@ == v.x_unscaled@
    &&& w.cone_scales@ == v.cone_scales@
}

/// The two workspaces hold the same, as far as an iteration reads them.
pub open spec fn same_inputs<T>(w: ScvxWorkspace<T>, v: ScvxWorkspace<T>) -> bool {
    &&& w.dims == v.dims
    &&& same_trajectory(&w.reference, &v.reference)
    &&& w.ipm_ws@ == v.ipm_ws@
    &&& w.trust_eta == v.trust_eta
    &&& w.iter == v.iter
    &&& w.history@ == v.history@
    &&& w.j_prev == v.j_prev
    &&& w.scale_diag@ == v.scale_diag@
    &&& w.structured_fallbacks == v.structured_fallbacks
    &&& w.rho_ceiling == v.rho_ceiling
    &&& w.adaptive_seeded == v.adaptive_seeded
}

/// The two workspaces hold the same, as far as the loop reads what it is given.
pub open spec fn same_start<T>(w: ScvxWorkspace<T>, v: ScvxWorkspace<T>) -> bool {
    &&& w.dims == v.dims
    &&& same_trajectory(&w.reference, &v.reference)
    &&& w.ipm_ws@ == v.ipm_ws@
    &&& w.history@ == v.history@
}

/// The plant answers the same question the same way: its dynamics and its dense
/// drivers return one result for arguments that hold the same.
pub open spec fn plant_repeatable<T, P: Plant<T>>(plant: &P) -> bool {
    &&& forall|
        s: Trajectory<T>,
        t: Trajectory<T>,
        ph: PhysicalParams<T>,
        n: u32,
        l: LinearizedDynamics<T>,
        m: LinearizedDynamics<T>,
    |
        #[trigger] call_ensures(P::discretize, (plant, &s, &ph, n), l) && #[trigger] call_ensures(
            P::discretize,
            (plant, &t, &ph, n),
            m,
        ) && same_trajectory(&s, &t) ==> same_dynamics(&l, &m)
    &&& forall|
        x0: Vec<T>,
        u: Mat<T>,
        v: Mat<T>,
        tau: T,
        ph: PhysicalParams<T>,
        n: u32,
        a: Mat<T>,
        b: Mat<T>,
    |
        #[trigger] call_ensures(P::propagate, (plant, &x0, &u, tau, &ph, n), a)
            && #[trigger] call_ensures(P::propagate, (plant, &x0, &v, tau, &ph, n), b) && u@ == v@
            ==> a@ == b@
    &&& forall|
        m: Method,
        p: SocpProblem<T>,
        q: SocpProblem<T>,
        params: IpmAlgoParams<T>,
        from: Point<T>,
        r1: ResultModel<T>,
        to1: Point<T>,
        r2: ResultModel<T>,
        to2: Point<T>,
    |
        #[trigger] dense_may(plant, m, &p, params, from, r1, to1) && #[trigger] dense_may(
            plant,
            m,
            &q,
            params,
            from,
            r2,
            to2,
        ) && same_problem(&p, &q) ==> r1 == r2 && to1 == to2
}

proof fn lemma_same_equality_row<T: Scalar>(
    units: Units<T>,
    l: &LinearizedDynamics<T>,
    m: &LinearizedDynamics<T>,
    n: int,
    np: int,
    stride: int,
    dtau_col: Option<int>,
    r: int,
)
    requires
        same_dynamics(l, m),
        l.covers(n - 1),
        0 <= r,
    ensures
        equality_row(units, l, n, np, stride, true, dtau_col, r) == equality_row(
            units,
            m,
            n,
            np,
            stride,
            true,
            dtau_col,
            r,
        ),
{
    if 7 <= r < 7 * n {
        let k = (r - 7) / 7;
        let i = (r - 7) % 7;
        assert(0 <= k < n - 1);
        assert(l.a@[k]@ == m.a@[k]@ && l.b_minus@[k]@ == m.b_minus@[k]@ && l.b_plus@[k]@
            == m.b_plus@[k]@ && l.s@[k]@ == m.s@[k]@);
        assert(dynamics_row_spec(units, l, np, stride, true, dtau_col, k, i)
            =~= dynamics_row_spec(units, m, np, stride, true, dtau_col, k, i));
    }
}

/// One reference and one linearization lead to one subproblem.
proof fn lemma_same_subproblem<T: Real, P: Plant<T>>(
    task: Task<T, P>,
    w: &ScvxWorkspace<T>,
    v: &ScvxWorkspace<T>,
    l: &LinearizedDynamics<T>,
    m: &LinearizedDynamics<T>,
    p: &SocpProblem<T>,
    q: &SocpProblem<T>,
)
    requires
        same_inputs(*w, *v),
        same_dynamics(l, m),
        l.covers(w.dims.n - 1),
        is_subproblem(task, w, l, p),
        is_subproblem(task, v, m, q),
    ensures
        same_problem(p, q),
        p.g_mat@.len() == p.h@.len(),
{
    let n = w.dims.n as int;
    let free_tf = task.algo.use_free_tf;
    assert(p.c@ =~= q.c@);
    assert forall|r: int| 0 <= r < spec_ne(n) implies #[trigger] p.a_mat@[r] == q.a_mat@[r] by {
        lemma_same_equality_row(
            units::<T>(),
            l,
            m,
            n,
            spec_np(n, free_tf),
            19,
            dtau_column(n, free_tf),
            r,
        );
    }
    assert(p.a_mat@ =~= q.a_mat@);
    assert forall|r: int| 0 <= r < spec_ne(n) implies #[trigger] p.b@[r] == q.b@[r] by {
        if 7 <= r < 7 * n {
            let k = (r - 7) / 7;
            assert(0 <= k < n - 1);
            assert(l.c@[k]@ == m.c@[k]@ && l.s@[k]@ == m.s@[k]@);
        }
    }
    assert(p.b@ =~= q.b@);
    assert(p.g_mat@ =~= q.g_mat@);
    assert(p.h@ =~= q.h@);
    assert(p.cones@ =~= q.cones@) by {
        assert forall|c: int| 0 <= c < p.cones@.len() implies p.cones@[c] == q.cones@[c] by {
            assert(p.cones@[c].offset == q.cones@[c].offset);
            assert(p.cones@[c].dim == q.cones@[c].dim);
        }
    }
}

proof fn lemma_same_warm_x<T: Real, P: Plant<T>>(
    task: Task<T, P>,
    w: &ScvxWorkspace<T>,
    v: &ScvxWorkspace<T>,
)
    requires
        same_inputs(*w, *v),
    ensures
        warm_x(task, w) == warm_x(task, v),
{
    let n = w.dims.n as int;
    let np = w.dims.np as int;
    assert(seeded(&w.reference, n, np) =~= seeded(&v.reference, n, np));
}

proof fn lemma_same_step_squares<T: Real>(
    x: Seq<T>,
    s: &Trajectory<T>,
    t: &Trajectory<T>,
    m: nat,
)
    requires
        same_trajectory(s, t),
    ensures
        step_squares(x, s, m) == step_squares(x, t, m),
    decreases m,
{
    if m > 0 {
        lemma_same_step_squares(x, s, t, (m - 1) as nat);
    }
}

proof fn lemma_same_prepared<T: Real, P: Plant<T>>(
    task: Task<T, P>,
    w0: ScvxWorkspace<T>,
    w1: ScvxWorkspace<T>,
    v0: ScvxWorkspace<T>,
    v1: ScvxWorkspace<T>,
)
    requires
        plant_repeatable(task.plant),
        well_shaped(task.plant),
        w0.dims.n >= 1,
        w0.reference.sized(w0.dims.n as int),
        same_inputs(w0, v0),
        prepared(task, w0, w1),
        prepared(task, v0, v1),
    ensures
        same_inputs(w1, v1),
        same_dynamics(&w1.lin, &v1.lin),
        same_problem(&w1.prob, &v1.prob),
        w0.cone_scales@ == v0.cone_scales@ ==> w1.cone_scales@ == v1.cone_scales@,
{
    let n = w0.dims.n as int;
    assert(w1.lin.covers(n - 1));
    assert(same_dynamics(&w1.lin, &v1.lin));
    lemma_same_warm_x(task, &w0, &v0);
    let d = w0.scale_diag@;
    let e = w1.cone_scales@;
    let f = v1.cone_scales@;
    let (p0, p1) = choose|p0: SocpProblem<T>, p1: SocpProblem<T>|
        {
            &&& is_subproblem(task, &w0, &w1.lin, &p0)
            &&& #[trigger] column_stage(task.ipm.use_preconditioning, &p0, &p1, d)
            &&& row_stage(task.ipm.use_cone_row_scaling, &p1, &w1.prob, e)
        };
    let (q0, q1) = choose|q0: SocpProblem<T>, q1: SocpProblem<T>|
        {
            &&& is_subproblem(task, &v0, &v1.lin, &q0)
            &&& #[trigger] column_stage(task.ipm.use_preconditioning, &q0, &q1, v0.scale_diag@)
            &&& row_stage(task.ipm.use_cone_row_scaling, &q1, &v1.prob, f)
        };
    lemma_same_subproblem(task, &w0, &v0, &w1.lin, &v1.lin, &p0, &q0);
    assert(same_problem(&p1, &q1));
    assert(p1.g_mat@.len() == p1.h@.len());
    if task.ipm.use_cone_row_scaling {
        assert(e == f);
        assert(w1.prob.g_mat@ =~= v1.prob.g_mat@);
        assert(w1.prob.h@ =~= v1.prob.h@);
    }
}

proof fn lemma_same_inner<T: Real, P: Plant<T>>(
    task: Task<T, P>,
    w0: ScvxWorkspace<T>,
    w1: ScvxWorkspace<T>,
    r: ResultModel<T>,
    v0: ScvxWorkspace<T>,
    v1: ScvxWorkspace<T>,
    t: ResultModel<T>,
)
    requires
        plant_repeatable(task.plant),
        same_inputs(w0, v0),
        same_problem(&w0.prob, &v0.prob),
        inner_solved(task, w0, w1, r),
        inner_solved(task, v0, v1, t),
    ensures
        r == t,
        same_inputs(w1, v1),
        same_problem(&w1.prob, &v1.prob),
{
    lemma_same_warm_x(task, &w0, &v0);
    law_solve_reads_only_contents(
        inner_driver(task, w0.dims.n),
        task.plant,
        &w0.prob,
        &v0.prob,
        warm_params(task.ipm),
        w0.ipm_ws@,
    );
    assert(structured_outcome(task, &w0) == structured_outcome(task, &v0));
}

proof fn lemma_same_finished<T: Real, P: Plant<T>>(
    task: Task<T, P>,
    k: u32,
    w0: ScvxWorkspace<T>,
    w1: ScvxWorkspace<T>,
    next1: Next,
    v0: ScvxWorkspace<T>,
    v1: ScvxWorkspace<T>,
    next2: Next,
    r: ResultModel<T>,
)
    requires
        plant_repeatable(task.plant),
        same_inputs(w0, v0),
        same_problem(&w0.prob, &v0.prob),
        finished(task, k, w0, w1, r, next1),
        finished(task, k, v0, v1, r, next2),
    ensures
        next1 == next2,
        same_inputs(w1, v1),
        same_workspace(w0, v0) ==> same_workspace(w1, v1),
{
    if usable(r.status) {
        let x = original_units(task, w0.scale_diag@, r.point.x);
        assert(w1.x_actual@ == v1.x_actual@);
        let n = w0.dims.n as nat;
        lemma_same_step_squares(x, &w0.reference, &v0.reference, 10 * n);
        let q = quality(task, &w0, r.point.x, x, w1.x_actual@);
        assert(q == quality(task, &v0, r.point.x, x, v1.x_actual@));
        assert(judgement(task.algo, k, &w0, q) == judgement(task.algo, k, &v0, q));
    }
}

/// The reference an iteration leaves has the nodes the workspace was made for.
proof fn lemma_reference_stays_sized<T: Real, P: Plant<T>>(
    task: Task<T, P>,
    k: u32,
    w0: ScvxWorkspace<T>,
    w1: ScvxWorkspace<T>,
    next: Next,
)
    requires
        iteration(task, k, w0, w1, next),
        w0.reference.sized(w0.dims.n as int),
        dims_match(w0.dims, task.algo.use_free_tf),
    ensures
        w1.dims == w0.dims,
        w1.reference.sized(w1.dims.n as int),
{
    let (wp, wi, r) = lemma_parts(task, k, w0, w1, next);
    assert(wi.dims == w0.dims && wi.reference == w0.reference);
    if usable(r.status) {
        let n = w0.dims.n as int;
        let x = original_units(task, wi.scale_diag@, r.point.x);
        assert(x.len() >= 19 * n);
        assert forall|i: int| 0 <= i < n implies (#[trigger] states_in(x, n)[i]).len() == 7 by {}
        assert forall|i: int| 0 <= i < n implies (#[trigger] controls_in(x, n)[i]).len() == 3 by {}
    }
}

proof fn lemma_same_iteration<T: Real, P: Plant<T>>(
    task: Task<T, P>,
    k: u32,
    w0: ScvxWorkspace<T>,
    w1: ScvxWorkspace<T>,
    next1: Next,
    v0: ScvxWorkspace<T>,
    v1: ScvxWorkspace<T>,
    next2: Next,
)
    requires
        plant_repeatable(task.plant),
        well_shaped(task.plant),
        w0.dims.n >= 1,
        w0.reference.sized(w0.dims.n as int),
        same_inputs(w0, v0),
        iteration(task, k, w0, w1, next1),
        iteration(task, k, v0, v1, next2),
    ensures
        next1 == next2,
        same_inputs(w1, v1),
        same_workspace(w0, v0) ==> same_workspace(w1, v1),
{
    let (wp, wi, r) = lemma_parts(task, k, w0, w1, next1);
    let (vp, vi, t) = lemma_parts(task, k, v0, v1, next2);
    let ws = ScvxWorkspace { iter: k, ..w0 };
    let vs = ScvxWorkspace { iter: k, ..v0 };
    lemma_same_prepared(task, ws, wp, vs, vp);
    lemma_same_inner(task, wp, wi, r, vp, vi, t);
    lemma_same_finished(task, k, wi, w1, next1, vi, v1, next2, r);
}

/// Up to iteration `j` the two runs hold the same.
proof fn lemma_same_traces<T: Real, P: Plant<T>>(
    task: Task<T, P>,
    w0: ScvxWorkspace<T>,
    ws: Seq<ScvxWorkspace<T>>,
    w1: ScvxWorkspace<T>,
    status1: SolverStatus,
    v0: ScvxWorkspace<T>,
    vs: Seq<ScvxWorkspace<T>>,
    v1: ScvxWorkspace<T>,
    status2: SolverStatus,
    j: int,
)
    requires
        plant_repeatable(task.plant),
        well_shaped(task.plant),
        admissible(task, &w0),
        w0.reference.sized(w0.dims.n as int),
        same_start(w0, v0),
        traced(task, w0, ws, w1, status1),
        traced(task, v0, vs, v1, status2),
        0 <= j < ws.len(),
        j < vs.len(),
    ensures
        ws[j].dims == w0.dims,
        ws[j].reference.sized(w0.dims.n as int),
        same_inputs(ws[j], vs[j]),
        same_workspace(w0, v0) ==> same_workspace(ws[j], vs[j]),
    decreases j,
{
    if j > 0 {
        lemma_same_traces(task, w0, ws, w1, status1, v0, vs, v1, status2, j - 1);
        let next1 = lemma_happened(task, w0, ws, w1, status1, j - 1);
        let next2 = lemma_happened(task, v0, vs, v1, status2, j - 1);
        let k = (j - 1) as u32;
        lemma_reference_stays_sized(task, k, ws[j - 1], ws[j], next1);
        lemma_same_iteration(task, k, ws[j - 1], ws[j], next1, vs[j - 1], vs[j], next2);
    }
}

/// Two runs of one task from workspaces that start the loop alike go through the
/// same iterations and end with the same status, reference, history and multipliers.
/// Whatever else the workspaces held has no influence; where that was the same, too,
/// they end up holding the same in every part.
pub proof fn law_runs_repeat<T: Real, P: Plant<T>>(
    task: Task<T, P>,
    w0: ScvxWorkspace<T>,
    w1: ScvxWorkspace<T>,
    status1: SolverStatus,
    v0: ScvxWorkspace<T>,
    v1: ScvxWorkspace<T>,
    status2: SolverStatus,
)
    requires
        plant_repeatable(task.plant),
        well_shaped(task.plant),
        well_sized(&w0),
        same_start(w0, v0),
        outcome(task, w0, w1, status1),
        outcome(task, v0, v1, status2),
    ensures
        status1 == status2,
        status1 != SolverStatus::BadInput ==> same_inputs(w1, v1),
        same_workspace(w0, v0) ==> same_workspace(w1, v1),
{
    if admissible(task, &w0) {
        let ws = choose|trace: Seq<ScvxWorkspace<T>>| #[trigger]
            traced(task, w0, trace, w1, status1);
        let vs = choose|trace: Seq<ScvxWorkspace<T>>| #[trigger]
            traced(task, v0, trace, v1, status2);
        let m = if ws.len() <= vs.len() {
            ws.len() - 1
        } else {
            vs.len() - 1
        };
        let k = (m - 1) as u32;
        lemma_same_traces(task, w0, ws, w1, status1, v0, vs, v1, status2, m - 1);
        lemma_same_traces(task, w0, ws, w1, status1, v0, vs, v1, status2, m);
        lemma_happened(task, w0, ws, w1, status1, m - 1);
        lemma_happened(task, v0, vs, v1, status2, m - 1);
        assert forall|a: Next, b: Next|
            #[trigger] iteration(task, k, ws[m - 1], ws[m], a) && #[trigger] iteration(
                task,
                k,
                vs[m - 1],
                vs[m],
                b,
            ) implies a == b by {
            lemma_same_iteration(task, k, ws[m - 1], ws[m], a, vs[m - 1], vs[m], b);
        }
        if ws.len() < vs.len() {
            assert(linked(task, vs, m - 1));
        } else if vs.len() < ws.len() {
            assert(linked(task, ws, m - 1));
        }
        assert(ws.len() == vs.len());
    }
}

} // verus!
