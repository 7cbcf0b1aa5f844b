//! What the statuses of an interior-point solve mean, and what its result does and
//! does not depend on.
use crate::algebra::{
    field, lemma_distrib, lemma_div_cancel, lemma_dot_scale, lemma_mul_assoc, lemma_mul_comm,
    lemma_mul_one, lemma_mul_sub,
};
use crate::cones::{
    all_finite, clipped, cones_within, identity_upto, interior, nt_upto, warm_upto, ConeOps,
    NtModel,
};
use crate::kkt_backend::{kkt_factor_model, KktModel};
use crate::layout::spec_np;
use crate::linalg::{column, dot, mat_vec, shaped, vadd, vscale, vsub};
use crate::numerics::{root_of, Numerics};
use crate::scalar::{
    at_least, at_most, finite, greater, larger, less, magnitude, minus, negated, num, over, plus,
    same, times, units, Real, Scalar, Units,
};
use crate::scvx_laws::{lemma_dot_finite, order_kept, ordered, poisonous};
use crate::structured_hsd::{
    central, coupling, hsd_affine_mu, hsd_alpha, hsd_amax, hsd_cone, hsd_corrector,
    hsd_corrector_term, hsd_direction, hsd_dual, hsd_equality, hsd_factored_step, hsd_moved,
    hsd_mu, hsd_optimal, hsd_primal_norm, hsd_refreshed, hsd_run, hsd_sigma, hsd_solved, hsd_step,
    positive, recovered, to_boundary, Coupling, Embedded, HsdDirection, HsdProgress,
};
use crate::structured_socp::{
    aho_step, amax_upto, backoff, complementarity, cone_residual, dual_residual,
    equality_residual, exit_result, fits, hessian_reg, iteration_cap, loose, norm, nt_step,
    optimal, point_amax, point_finite, point_fits, primal_norm, refreshed, run, scrubbed, solved,
    starting_point, step, Driver, Outcome, Progress, Snapshot,
};
use crate::types::{ConeDesc, IpmAlgoParams, IpmStatus, Point, SocpProblem};
use vstd::prelude::*;

verus! {

// ---- iterations ----

proof fn lemma_run_iterations<T: Real, C: ConeOps<T>>(
    drv: Driver<T>,
    ops: &C,
    prob: &SocpProblem<T>,
    params: IpmAlgoParams<T>,
    st: Progress<T>,
    iter: u32,
    cap: u32,
)
    requires
        iter <= cap,
    ensures
        run(drv, ops, prob, params, st, iter, cap).result.iters <= cap,
    decreases cap - iter,
{
    if iter < cap {
        let s = step(drv, ops, prob, st.pt);
        let best = refreshed(ops, prob, params, st.pt, st.best);
        lemma_run_iterations(
            drv,
            ops,
            prob,
            params,
            Progress { pt: s.pt, prev_x: st.pt.x, prev_y: st.pt.y, best },
            (iter + 1) as u32,
            cap,
        );
    }
}

proof fn lemma_hsd_run_iterations<T: Real, C: ConeOps<T>>(
    drv: Driver<T>,
    ops: &C,
    prob: &SocpProblem<T>,
    params: IpmAlgoParams<T>,
    st: HsdProgress<T>,
    iter: u32,
    cap: u32,
)
    requires
        iter <= cap,
    ensures
        hsd_run(drv, ops, prob, params, st, iter, cap).result.iters <= cap,
    decreases cap - iter,
{
    if iter < cap {
        let s = hsd_step(drv, ops, prob, st.e);
        let best = hsd_refreshed(ops, prob, params, st.e, st.best);
        lemma_hsd_run_iterations(
            drv,
            ops,
            prob,
            params,
            HsdProgress { e: s.e, shown: recovered(st.e), best },
            (iter + 1) as u32,
            cap,
        );
    }
}

/// No solve, by whatever driver, takes more iterations than its settings and the hard
/// limit allow.
pub proof fn law_iterations_are_capped<T: Real, C: ConeOps<T>>(
    drv: Driver<T>,
    ops: &C,
    prob: &SocpProblem<T>,
    params: IpmAlgoParams<T>,
    pt: Point<T>,
)
    ensures
        solved(drv, ops, prob, params, pt).result.iters <= iteration_cap(
            params.max_iters,
            drv.hard_max_iters,
        ),
        hsd_solved(drv, ops, prob, params, pt).result.iters <= iteration_cap(
            params.max_iters,
            drv.hard_max_iters,
        ),
{
    let cap = iteration_cap(params.max_iters, drv.hard_max_iters);
    let from = starting_point(ops, prob, params.warm_start_x, pt);
    lemma_run_iterations(
        drv,
        ops,
        prob,
        params,
        Progress { pt: from, prev_x: from.x, prev_y: from.y, best: None },
        0,
        cap,
    );
    lemma_hsd_run_iterations(
        drv,
        ops,
        prob,
        params,
        HsdProgress { e: central(prob), shown: pt, best: None },
        0,
        cap,
    );
}

// ---- the direct drivers ----

/// Nearly feasible: the residuals are below the loose tolerances and the
/// complementarity is finite and not negative.
pub open spec fn nearly_feasible<T: Real, C: Numerics<T>>(
    ops: &C,
    prob: &SocpProblem<T>,
    params: IpmAlgoParams<T>,
    pt: Point<T>,
) -> bool {
    &&& less(norm(ops, dual_residual(prob, pt)), loose(ops, params.tol_dual))
    &&& less(primal_norm(ops, prob, pt), loose(ops, params.tol_primal))
    &&& finite(num::<T>(0), complementarity(pt))
    &&& at_least(complementarity(pt), num::<T>(0))
}

/// The interior test passes every starting point.
pub open spec fn starts_inside<T: Real, C: ConeOps<T>>(ops: &C, prob: &SocpProblem<T>) -> bool {
    forall|h: Seq<T>|
        h.len() == prob.h@.len() ==> interior(
            ops,
            #[trigger] warm_upto(ops, h, prob.cones@, prob.cones@.len()),
            prob.cones@,
        )
}

/// Slacks and cone multipliers pass the interior test.
pub open spec fn point_inside<T: Real, C: ConeOps<T>>(
    ops: &C,
    prob: &SocpProblem<T>,
    pt: Point<T>,
) -> bool {
    interior(ops, pt.s, prob.cones@) && interior(ops, pt.y, prob.cones@)
}

/// A square root, or a sum of two, that is below anything is finite. Floating-point
/// roots are: they are never negative, and infinity is below nothing.
#[verifier::opaque]
pub open spec fn roots_tame<T: Real, C: Numerics<T>>(ops: &C) -> bool {
    let z = num::<T>(0);
    &&& forall|x: T, t: T| #[trigger] less(root_of(ops, x), t) ==> finite(z, root_of(ops, x))
    &&& forall|x: T, y: T, t: T|
        #[trigger] less(plus(root_of(ops, x), root_of(ops, y)), t) ==> finite(
            z,
            plus(root_of(ops, x), root_of(ops, y)),
        )
}

/// A program with at least one variable and one equality, whose parts fit together.
pub open spec fn whole_problem<T>(prob: &SocpProblem<T>) -> bool {
    &&& prob.sized(prob.c@.len() as int, prob.b@.len() as int, prob.h@.len() as int)
    &&& prob.c@.len() > 0
    &&& prob.b@.len() > 0
}

/// What the status of a result says of its point and of the iterations spent.
pub open spec fn status_honest<T: Real, C: ConeOps<T>>(
    ops: &C,
    prob: &SocpProblem<T>,
    params: IpmAlgoParams<T>,
    o: Outcome<T>,
    cap: u32,
) -> bool {
    let r = o.result;
    &&& r.iters <= cap
    &&& match r.status {
        IpmStatus::Optimal => {
            &&& optimal(ops, prob, params, r.point)
            &&& o.pt == r.point
            &&& r.iters < cap
            &&& r.iters > 0 || starts_inside(ops, prob) ==> point_inside(ops, prob, r.point)
            &&& whole_problem(prob) && poisonous::<T, C>(ops) && roots_tame(ops) ==> point_finite(
                r.point,
            )
        },
        IpmStatus::BestFeasible => {
            &&& nearly_feasible(ops, prob, params, r.point)
            &&& starts_inside(ops, prob) ==> point_inside(ops, prob, r.point)
            &&& whole_problem(prob) && poisonous::<T, C>(ops) && roots_tame(ops) ==> point_finite(
                r.point,
            )
        },
        IpmStatus::IterCap => {
            &&& r.iters == cap
            &&& r.point == o.pt
            &&& point_finite(r.point)
        },
        IpmStatus::NumericalError => point_finite(r.point),
        IpmStatus::Infeasible => false,
    }
}

proof fn lemma_scrubbed<T: Real>(v: Seq<T>)
    requires
        finite(num::<T>(0), num::<T>(0)),
    ensures
        all_finite(scrubbed(v)),
        all_finite(v) ==> scrubbed(v) == v,
{
    assert forall|i: int| 0 <= i < v.len() implies finite(
        num::<T>(0),
        #[trigger] scrubbed(v)[i],
    ) by {}
    if all_finite(v) {
        assert(scrubbed(v) =~= v);
    }
}

proof fn lemma_exit<T: Real>(pt: Point<T>, status: IpmStatus, iter: u32)
    requires
        finite(num::<T>(0), num::<T>(0)),
    ensures
        point_finite(exit_result(pt, status, iter).point),
        exit_result(pt, status, iter).status != IpmStatus::NumericalError ==> exit_result(
            pt,
            status,
            iter,
        ).point == pt,
{
    lemma_scrubbed(pt.x);
    lemma_scrubbed(pt.lambda);
    lemma_scrubbed(pt.s);
    lemma_scrubbed(pt.y);
}

proof fn lemma_norm_finite<T: Real, C: Numerics<T>>(ops: &C, v: Seq<T>, i: int)
    requires
        poisonous::<T, C>(ops),
        finite(num::<T>(0), norm(ops, v)),
        0 <= i < v.len(),
    ensures
        finite(num::<T>(0), v[i]),
{
    reveal(poisonous);
    assert(finite(num::<T>(0), dot(num::<T>(0), v, v)));
    lemma_dot_finite(ops, v, v, v.len(), i);
}

/// A point whose residuals are below any bounds is finite: they run over all of it.
proof fn lemma_residuals_finite<T: Real, C: Numerics<T>>(
    ops: &C,
    prob: &SocpProblem<T>,
    pt: Point<T>,
    primal: T,
    dual: T,
)
    requires
        poisonous::<T, C>(ops),
        roots_tame(ops),
        whole_problem(prob),
        point_fits(prob, pt),
        less(primal_norm(ops, prob, pt), primal),
        less(norm(ops, dual_residual(prob, pt)), dual),
    ensures
        point_finite(pt),
{
    let z = num::<T>(0);
    let a = prob.a_mat@;
    let g = prob.g_mat@;
    let np = prob.c@.len() as int;
    let r_x = dual_residual(prob, pt);
    let r_a = equality_residual(prob, pt);
    let r_g = cone_residual(prob, pt);
    assert(finite(z, norm(ops, r_x)) && finite(z, norm(ops, r_a)) && finite(z, norm(ops, r_g))) by {
        reveal(roots_tame);
        reveal(poisonous);
        assert(finite(z, plus(norm(ops, r_a), norm(ops, r_g))));
    }
    lemma_norm_finite(ops, r_x, 0);
    lemma_norm_finite(ops, r_a, 0);
    let al = dot(z, column(a, 0), pt.lambda);
    let gy = dot(z, column(g, 0), pt.y);
    let ax = dot(z, a[0], pt.x);
    assert(r_x[0] == plus(plus(prob.c@[0], al), gy));
    assert(r_a[0] == minus(ax, prob.b@[0]));
    assert(finite(z, al) && finite(z, gy) && finite(z, ax)) by {
        reveal(poisonous);
        assert(finite(z, plus(prob.c@[0], al)));
    }
    assert(a[0].len() == np);
    assert forall|i: int| 0 <= i < pt.x.len() implies finite(z, #[trigger] pt.x[i]) by {
        lemma_dot_finite(ops, a[0], pt.x, np as nat, i);
    }
    assert forall|i: int| 0 <= i < pt.lambda.len() implies finite(z, #[trigger] pt.lambda[i]) by {
        lemma_dot_finite(ops, column(a, 0), pt.lambda, a.len(), i);
    }
    assert forall|i: int| 0 <= i < pt.y.len() implies finite(z, #[trigger] pt.y[i]) by {
        lemma_dot_finite(ops, column(g, 0), pt.y, g.len(), i);
    }
    assert forall|i: int| 0 <= i < pt.s.len() implies finite(z, #[trigger] pt.s[i]) by {
        lemma_norm_finite(ops, r_g, i);
        reveal(poisonous);
        assert(finite(z, minus(plus(dot(z, g[i], pt.x), pt.s[i]), prob.h@[i])));
        assert(finite(z, plus(dot(z, g[i], pt.x), pt.s[i])));
    }
}

/// A step keeps the sizes of its point.
pub proof fn lemma_step_fits<T: Real, C: ConeOps<T>>(
    drv: Driver<T>,
    ops: &C,
    prob: &SocpProblem<T>,
    pt: Point<T>,
)
    requires
        point_fits(prob, pt),
    ensures
        point_fits(prob, step(drv, ops, prob, pt).pt),
{
    reveal(nt_step);
    reveal(aho_step);
}

pub proof fn lemma_start_len<T: Real, C: Numerics<T>>(
    ops: &C,
    h: Seq<T>,
    cones: Seq<ConeDesc>,
    c: nat,
)
    ensures
        warm_upto(ops, h, cones, c).len() == h.len(),
    decreases c,
{
    if c > 0 {
        lemma_start_len(ops, h, cones, (c - 1) as nat);
    }
}

/// The loop goes on only from points strictly inside the cones.
proof fn lemma_on_is_interior<T: Real, C: ConeOps<T>>(
    drv: Driver<T>,
    ops: &C,
    prob: &SocpProblem<T>,
    pt: Point<T>,
)
    ensures
        ({
            let s = step(drv, ops, prob, pt);
            s.go is On ==> interior(ops, s.pt.s, prob.cones@) && interior(
                ops,
                s.pt.y,
                prob.cones@,
            )
        }),
{
    reveal(nt_step);
    reveal(aho_step);
}

/// The snapshot held was nearly feasible when it was taken, and inside the cones.
spec fn snapshot_honest<T: Real, C: ConeOps<T>>(
    ops: &C,
    prob: &SocpProblem<T>,
    params: IpmAlgoParams<T>,
    best: Option<Snapshot<T>>,
) -> bool {
    best matches Some(b) ==> {
        &&& nearly_feasible(ops, prob, params, b.pt)
        &&& point_fits(prob, b.pt)
        &&& starts_inside(ops, prob) ==> point_inside(ops, prob, b.pt)
    }
}

/// A nearly feasible or optimal point is finite.
proof fn lemma_near_is_finite<T: Real, C: ConeOps<T>>(
    ops: &C,
    prob: &SocpProblem<T>,
    params: IpmAlgoParams<T>,
    pt: Point<T>,
)
    requires
        point_fits(prob, pt),
        nearly_feasible(ops, prob, params, pt) || optimal(ops, prob, params, pt),
    ensures
        whole_problem(prob) && poisonous::<T, C>(ops) && roots_tame(ops) ==> point_finite(pt),
{
    if whole_problem(prob) && poisonous::<T, C>(ops) && roots_tame(ops) {
        if optimal(ops, prob, params, pt) {
            lemma_residuals_finite(ops, prob, pt, params.tol_primal, params.tol_dual);
        } else {
            lemma_residuals_finite(
                ops,
                prob,
                pt,
                loose(ops, params.tol_primal),
                loose(ops, params.tol_dual),
            );
        }
    }
}

proof fn lemma_run_honest<T: Real, C: ConeOps<T>>(
    drv: Driver<T>,
    ops: &C,
    prob: &SocpProblem<T>,
    params: IpmAlgoParams<T>,
    st: Progress<T>,
    iter: u32,
    cap: u32,
)
    requires
        finite(num::<T>(0), num::<T>(0)),
        iter <= cap,
        point_fits(prob, st.pt),
        snapshot_honest(ops, prob, params, st.best),
        iter > 0 || starts_inside(ops, prob) ==> point_inside(ops, prob, st.pt),
    ensures
        status_honest(ops, prob, params, run(drv, ops, prob, params, st, iter, cap), cap),
    decreases cap - iter,
{
    if st.best is Some {
        lemma_near_is_finite(ops, prob, params, st.best->0.pt);
    }
    if iter >= cap {
        lemma_exit(st.pt, IpmStatus::IterCap, cap);
    } else if optimal(ops, prob, params, st.pt) {
        lemma_near_is_finite(ops, prob, params, st.pt);
    } else {
        let best = refreshed(ops, prob, params, st.pt, st.best);
        if best is Some {
            lemma_near_is_finite(ops, prob, params, best->0.pt);
        }
        lemma_step_fits(drv, ops, prob, st.pt);
        let after = (iter + 1) as u32;
        let s = step(drv, ops, prob, st.pt);
        lemma_exit(s.pt, IpmStatus::NumericalError, iter);
        lemma_exit(s.pt, IpmStatus::NumericalError, after);
        lemma_on_is_interior(drv, ops, prob, st.pt);
        if s.go is On {
            lemma_run_honest(
                drv,
                ops,
                prob,
                params,
                Progress { pt: s.pt, prev_x: st.pt.x, prev_y: st.pt.y, best },
                after,
                cap,
            );
        }
    }
}

/// A solve never spends more than its iteration cap, and its status can be relied
/// on: an optimal point meets all three tolerances and a best feasible point is nearly
/// feasible; both are strictly inside the cones, where the start was or the solve has
/// moved, and finite, as the residuals run over all of them. At the cap and after a
/// breakdown every entry of the point is finite.
pub proof fn law_status_is_honest<T: Real, C: ConeOps<T>>(
    drv: Driver<T>,
    ops: &C,
    prob: &SocpProblem<T>,
    params: IpmAlgoParams<T>,
    pt: Point<T>,
)
    requires
        finite(num::<T>(0), num::<T>(0)),
        point_fits(prob, pt),
    ensures
        status_honest(
            ops,
            prob,
            params,
            solved(drv, ops, prob, params, pt),
            iteration_cap(params.max_iters, drv.hard_max_iters),
        ),
{
    let from = starting_point(ops, prob, params.warm_start_x, pt);
    let nc = prob.cones@.len();
    lemma_start_len(ops, prob.h@, prob.cones@, nc);
    lemma_start_len(
        ops,
        vsub(prob.h@, mat_vec(num::<T>(0), prob.g_mat@, pt.x)),
        prob.cones@,
        nc,
    );
    lemma_run_honest(
        drv,
        ops,
        prob,
        params,
        Progress { pt: from, prev_x: from.x, prev_y: from.y, best: None },
        0,
        iteration_cap(params.max_iters, drv.hard_max_iters),
    );
}

/// A cold start ignores what the workspace held: two solves of one program give the
/// same result.
pub proof fn law_cold_start_ignores_workspace<T: Real, C: ConeOps<T>>(
    drv: Driver<T>,
    ops: &C,
    prob: &SocpProblem<T>,
    params: IpmAlgoParams<T>,
    p: Point<T>,
    q: Point<T>,
)
    requires
        !params.warm_start_x,
    ensures
        solved(drv, ops, prob, params, p) == solved(drv, ops, prob, params, q),
{
}

/// A warm start reads the primal point and the equality multipliers only: what the
/// workspace held as slacks and cone multipliers does not matter.
pub proof fn law_warm_start_reads_x_and_lambda<T: Real, C: ConeOps<T>>(
    drv: Driver<T>,
    ops: &C,
    prob: &SocpProblem<T>,
    params: IpmAlgoParams<T>,
    p: Point<T>,
    q: Point<T>,
)
    requires
        p.x == q.x,
        p.lambda == q.lambda,
    ensures
        solved(drv, ops, prob, params, p) == solved(drv, ops, prob, params, q),
{
}

// ---- the embedded driver ----

/// An embedded point that is nearly primal feasible, with a complementarity that is
/// finite and not negative.
pub open spec fn nearly_feasible_embedded<T: Real, C: Numerics<T>>(
    ops: &C,
    prob: &SocpProblem<T>,
    params: IpmAlgoParams<T>,
    e: Embedded<T>,
) -> bool {
    &&& less(hsd_primal_norm(ops, prob, e), loose(ops, params.tol_primal))
    &&& finite(num::<T>(0), hsd_mu(prob, e))
    &&& at_least(hsd_mu(prob, e), num::<T>(0))
}

/// The interior test passes the central point.
pub open spec fn center_inside<T: Real, C: ConeOps<T>>(ops: &C, prob: &SocpProblem<T>) -> bool {
    point_inside(ops, prob, central(prob).pt)
}

/// Every entry of the embedded point is finite.
pub open spec fn embedded_finite<T: Real>(e: Embedded<T>) -> bool {
    point_finite(e.pt) && finite(num::<T>(0), e.tau) && finite(num::<T>(0), e.kappa)
}

/// The embedded point is inside the cones, where the central point is, and finite.
pub open spec fn embedded_proper<T: Real, C: ConeOps<T>>(
    ops: &C,
    prob: &SocpProblem<T>,
    e: Embedded<T>,
) -> bool {
    &&& center_inside(ops, prob) ==> point_inside(ops, prob, e.pt)
    &&& ordered::<T>() && order_kept::<T>() && poisonous::<T, C>(ops) ==> embedded_finite(e)
}

/// `pt` is what an optimal embedded point stands for.
pub open spec fn optimal_through<T: Real, C: ConeOps<T>>(
    ops: &C,
    prob: &SocpProblem<T>,
    params: IpmAlgoParams<T>,
    pt: Point<T>,
    e: Embedded<T>,
) -> bool {
    &&& hsd_optimal(ops, prob, params, e)
    &&& positive(e.tau)
    &&& positive(e.kappa)
    &&& embedded_proper(ops, prob, e)
    &&& pt == recovered(e)
}

/// `pt` is what a nearly feasible embedded point stands for.
pub open spec fn feasible_through<T: Real, C: ConeOps<T>>(
    ops: &C,
    prob: &SocpProblem<T>,
    params: IpmAlgoParams<T>,
    pt: Point<T>,
    e: Embedded<T>,
) -> bool {
    &&& nearly_feasible_embedded(ops, prob, params, e)
    &&& embedded_proper(ops, prob, e)
    &&& pt == recovered(e)
}

/// `pt` is what some optimal embedded point stands for.
pub open spec fn stands_optimal<T: Real, C: ConeOps<T>>(
    ops: &C,
    prob: &SocpProblem<T>,
    params: IpmAlgoParams<T>,
    pt: Point<T>,
) -> bool {
    exists|e: Embedded<T>| #[trigger] optimal_through(ops, prob, params, pt, e)
}

/// `pt` is what some nearly feasible embedded point stands for.
pub open spec fn stands_feasible<T: Real, C: ConeOps<T>>(
    ops: &C,
    prob: &SocpProblem<T>,
    params: IpmAlgoParams<T>,
    pt: Point<T>,
) -> bool {
    exists|e: Embedded<T>| #[trigger] feasible_through(ops, prob, params, pt, e)
}

/// What the status of a result of the embedded driver says.
pub open spec fn hsd_status_honest<T: Real, C: ConeOps<T>>(
    ops: &C,
    prob: &SocpProblem<T>,
    params: IpmAlgoParams<T>,
    o: Outcome<T>,
    cap: u32,
) -> bool {
    let r = o.result;
    &&& r.iters <= cap
    &&& match r.status {
        IpmStatus::Optimal => {
            &&& stands_optimal(ops, prob, params, r.point)
            &&& o.pt == r.point
            &&& r.iters < cap
        },
        IpmStatus::BestFeasible => stands_feasible(ops, prob, params, r.point),
        IpmStatus::IterCap => {
            &&& r.iters == cap
            &&& r.point == o.pt
            &&& point_finite(r.point)
        },
        IpmStatus::NumericalError => point_finite(r.point),
        IpmStatus::Infeasible => false,
    }
}

spec fn embedded_snapshot_honest<T: Real, C: ConeOps<T>>(
    ops: &C,
    prob: &SocpProblem<T>,
    params: IpmAlgoParams<T>,
    best: Option<Snapshot<T>>,
) -> bool {
    best matches Some(b) ==> stands_feasible(ops, prob, params, b.pt)
}

/// A step length is clipped to a finite value.
proof fn lemma_clipped_finite<T: Real>(a: T)
    requires
        ordered::<T>(),
        order_kept::<T>(),
    ensures
        finite(num::<T>(0), clipped(a)),
{
    reveal(ordered);
    reveal(order_kept);
    let z = num::<T>(0);
    let one = num::<T>(1);
    assert(finite(z, z) && finite(z, one));
    if same(a, a) && !greater(a, one) && !less(a, z) {
        assert(less(a, z) || same(a, z) || less(z, a));
        assert(less(a, one) || same(a, one) || less(one, a));
        assert(same(a, z) ==> same(z, a));
        assert(at_most(z, a) && at_most(a, one));
    }
}

/// Where the larger of two values that equal themselves is finite and neither is
/// negative, both are finite.
proof fn lemma_larger_finite<T: Real>(a: T, b: T)
    requires
        ordered::<T>(),
        same(a, a),
        same(b, b),
        finite(num::<T>(0), num::<T>(0)),
        at_most(num::<T>(0), a),
        at_most(num::<T>(0), b),
    ensures
        same(larger(a, b), larger(a, b)),
        at_most(num::<T>(0), larger(a, b)),
        finite(num::<T>(0), larger(a, b)) ==> finite(num::<T>(0), a) && finite(num::<T>(0), b),
{
    reveal(ordered);
    let m = larger(a, b);
    assert(less(a, b) || same(a, b) || less(b, a));
    assert(greater(a, b) == less(b, a));
    assert(at_most(a, m) && at_most(b, m));
}

/// The magnitude of a value that equals itself is not negative, and finite only where
/// the value is.
proof fn lemma_magnitude<T: Real, C: Numerics<T>>(ops: &C, x: T)
    requires
        ordered::<T>(),
        order_kept::<T>(),
        poisonous::<T, C>(ops),
        same(x, x),
    ensures
        same(magnitude(num::<T>(0), x), magnitude(num::<T>(0), x)),
        at_most(num::<T>(0), magnitude(num::<T>(0), x)),
        finite(num::<T>(0), magnitude(num::<T>(0), x)) ==> finite(num::<T>(0), x),
{
    let z = num::<T>(0);
    assert(finite(z, z) && (less(x, z) ==> less(z, minus(z, x)) && same(
        minus(z, x),
        minus(z, x),
    ))) by {
        reveal(order_kept);
    }
    reveal(ordered);
    assert(less(x, z) || same(x, z) || less(z, x));
    assert(same(x, z) ==> same(z, x));
    assert(at_most(z, minus(z, x)) == (less(z, minus(z, x)) || same(z, minus(z, x))));
    assert(at_most(z, x) == (less(z, x) || same(z, x)));
    if less(x, z) && finite(z, minus(z, x)) {
        reveal(poisonous);
    }
}

/// Where the largest magnitude of entries that equal themselves is finite, every entry
/// is.
proof fn lemma_amax_finite<T: Real, C: Numerics<T>>(ops: &C, v: Seq<T>, n: nat)
    requires
        ordered::<T>(),
        order_kept::<T>(),
        poisonous::<T, C>(ops),
        n <= v.len(),
        forall|i: int| 0 <= i < n ==> same(#[trigger] v[i], v[i]),
    ensures
        same(amax_upto(v, n), amax_upto(v, n)),
        at_most(num::<T>(0), amax_upto(v, n)),
        finite(num::<T>(0), amax_upto(v, n)) ==> forall|i: int|
            0 <= i < n ==> finite(num::<T>(0), #[trigger] v[i]),
    decreases n,
{
    let z = num::<T>(0);
    assert(finite(z, z) && same(z, z) && at_most(z, z)) by {
        reveal(order_kept);
        reveal(ordered);
    }
    if n == 1 {
        lemma_magnitude(ops, v[0]);
    } else if n > 1 {
        lemma_amax_finite(ops, v, (n - 1) as nat);
        lemma_magnitude(ops, v[n - 1]);
        lemma_larger_finite(amax_upto(v, (n - 1) as nat), magnitude(z, v[n - 1]));
    }
}

/// The entries of finite `v` moved along finite `d` by a finite step equal themselves.
proof fn lemma_moved_ordinary<T: Real>(v: Seq<T>, d: Seq<T>, alpha: T)
    requires
        ordered::<T>(),
        order_kept::<T>(),
        all_finite(v),
        all_finite(d),
        v.len() == d.len(),
        finite(num::<T>(0), alpha),
    ensures
        forall|i: int|
            0 <= i < v.len() ==> same(
                #[trigger] vadd(v, vscale(d, alpha))[i],
                vadd(v, vscale(d, alpha))[i],
            ),
{
    reveal(order_kept);
    assert forall|i: int| 0 <= i < v.len() implies same(
        #[trigger] vadd(v, vscale(d, alpha))[i],
        vadd(v, vscale(d, alpha))[i],
    ) by {
        assert(finite(num::<T>(0), v[i]) && finite(num::<T>(0), d[i]));
        assert(same(times(d[i], alpha), times(d[i], alpha)));
    }
}

/// An embedded point that passes the guard on its size is finite, entry by entry.
proof fn lemma_guarded_finite<T: Real, C: Numerics<T>>(
    ops: &C,
    e: Embedded<T>,
    d: HsdDirection<T>,
    alpha: T,
)
    requires
        ordered::<T>(),
        order_kept::<T>(),
        poisonous::<T, C>(ops),
        embedded_finite(e),
        all_finite(d.dx),
        all_finite(d.dl),
        all_finite(d.ds),
        all_finite(d.dy),
        finite(num::<T>(0), d.dtau),
        finite(num::<T>(0), d.dkappa),
        d.dx.len() == e.pt.x.len(),
        d.dl.len() == e.pt.lambda.len(),
        d.ds.len() == e.pt.s.len(),
        d.dy.len() == e.pt.y.len(),
        finite(num::<T>(0), alpha),
        finite(num::<T>(0), hsd_amax(hsd_moved(e, d, alpha))),
    ensures
        embedded_finite(hsd_moved(e, d, alpha)),
{
    let z = num::<T>(0);
    let m = hsd_moved(e, d, alpha);
    let pt = m.pt;
    lemma_moved_ordinary(e.pt.x, d.dx, alpha);
    lemma_moved_ordinary(e.pt.lambda, d.dl, alpha);
    lemma_moved_ordinary(e.pt.s, d.ds, alpha);
    lemma_moved_ordinary(e.pt.y, d.dy, alpha);
    assert(finite(z, z) && same(m.tau, m.tau) && same(m.kappa, m.kappa)) by {
        reveal(order_kept);
        assert(same(times(d.dtau, alpha), times(d.dtau, alpha)));
        assert(same(times(d.dkappa, alpha), times(d.dkappa, alpha)));
    }
    lemma_amax_finite(ops, pt.x, pt.x.len());
    lemma_amax_finite(ops, pt.lambda, pt.lambda.len());
    lemma_amax_finite(ops, pt.s, pt.s.len());
    lemma_amax_finite(ops, pt.y, pt.y.len());
    lemma_magnitude(ops, m.tau);
    lemma_magnitude(ops, m.kappa);
    let xs = larger(amax_upto(pt.x, pt.x.len()), amax_upto(pt.s, pt.s.len()));
    lemma_larger_finite(amax_upto(pt.x, pt.x.len()), amax_upto(pt.s, pt.s.len()));
    let xsy = larger(xs, amax_upto(pt.y, pt.y.len()));
    lemma_larger_finite(xs, amax_upto(pt.y, pt.y.len()));
    lemma_larger_finite(xsy, amax_upto(pt.lambda, pt.lambda.len()));
    lemma_larger_finite(point_amax(pt), magnitude(z, m.tau));
    lemma_larger_finite(
        larger(point_amax(pt), magnitude(z, m.tau)),
        magnitude(z, m.kappa),
    );
}

proof fn lemma_direction_fits<T: Real>(
    n: int,
    prob: &SocpProblem<T>,
    e: Embedded<T>,
    f: KktModel<T>,
    b: NtModel<T>,
    k: Coupling<T>,
    r_c: Seq<T>,
    r6: T,
)
    requires
        point_fits(prob, e.pt),
        prob.sized(prob.c@.len() as int, prob.b@.len() as int, prob.h@.len() as int),
        b.w.len() == prob.h@.len(),
        prob.c@.len() == spec_np(n, f is Free),
        prob.b@.len() == 7 * n + 6,
        n >= 0,
    ensures
        ({
            let d = hsd_direction(n, prob, e, f, b, k, r_c, r6);
            &&& d.dx.len() == e.pt.x.len()
            &&& d.dl.len() == e.pt.lambda.len()
            &&& d.ds.len() == e.pt.s.len()
            &&& d.dy.len() == e.pt.y.len()
        }),
{
}

proof fn lemma_scaling_len<T: Real, C: ConeOps<T>>(
    ops: &C,
    s: Seq<T>,
    y: Seq<T>,
    cones: Seq<ConeDesc>,
    c: nat,
)
    ensures
        nt_upto(ops, s, y, cones, c) matches Some(b) ==> b.w.len() == s.len(),
    decreases c,
{
    if c > 0 {
        lemma_scaling_len(ops, s, y, cones, (c - 1) as nat);
    }
}

proof fn lemma_factored_step_proper<T: Real, C: ConeOps<T>>(
    drv: Driver<T>,
    ops: &C,
    prob: &SocpProblem<T>,
    e: Embedded<T>,
    f: KktModel<T>,
    b: NtModel<T>,
)
    requires
        fits(drv, prob),
        point_fits(prob, e.pt),
        (f is Free) == drv.free_tf,
        b.w.len() == prob.h@.len(),
    ensures
        ({
            let s = hsd_factored_step(drv, ops, prob, e, f, b);
            &&& point_fits(prob, s.e.pt)
            &&& s.go is On ==> point_inside(ops, prob, s.e.pt)
            &&& s.go is On && ordered::<T>() && order_kept::<T>() && poisonous::<T, C>(ops)
                && embedded_finite(e) ==> embedded_finite(s.e)
        }),
{
    reveal(hsd_factored_step);
    let n = drv.n as int;
    let z = num::<T>(0);
    let k = coupling(n, prob, e, f, b);
    let aff = hsd_direction(n, prob, e, f, b, k, b.s_scaled, times(negated(e.tau), e.kappa));
    let d = hsd_corrector(drv, ops, prob, e, f, b, k, aff);
    let mu = hsd_mu(prob, e);
    let sigma = hsd_sigma(
        drv.limits,
        mu,
        hsd_affine_mu(prob, e, aff, hsd_alpha(ops, prob, e, aff)),
    );
    lemma_direction_fits(
        n,
        prob,
        e,
        f,
        b,
        k,
        hsd_corrector_term(ops, prob, b, aff.ds, times(sigma, mu)),
        minus(minus(times(sigma, mu), times(e.tau, e.kappa)), times(aff.dtau, aff.dkappa)),
    );
    let alpha = hsd_alpha(ops, prob, e, d);
    let s = hsd_factored_step(drv, ops, prob, e, f, b);
    if s.go is On && ordered::<T>() && order_kept::<T>() && poisonous::<T, C>(ops)
        && embedded_finite(e) {
        lemma_clipped_finite(times(backoff::<T>(), to_boundary(ops, prob, e, d)));
        lemma_guarded_finite(ops, e, d, alpha);
    }
}

/// A self-dual step keeps the sizes of its point, and what is proper of it.
pub proof fn lemma_hsd_step_proper<T: Real, C: ConeOps<T>>(
    drv: Driver<T>,
    ops: &C,
    prob: &SocpProblem<T>,
    e: Embedded<T>,
)
    requires
        fits(drv, prob),
        point_fits(prob, e.pt),
    ensures
        ({
            let s = hsd_step(drv, ops, prob, e);
            &&& point_fits(prob, s.e.pt)
            &&& s.go is On && embedded_proper(ops, prob, e) ==> embedded_proper(ops, prob, s.e)
        }),
{
    let nc = prob.cones@.len();
    lemma_scaling_len(ops, e.pt.s, e.pt.y, prob.cones@, nc);
    match nt_upto(ops, e.pt.s, e.pt.y, prob.cones@, nc) {
        None => {},
        Some(b) => match kkt_factor_model(
            units::<T>(),
            drv.limits,
            ops,
            prob,
            drv.n as int,
            drv.free_tf,
            b.w2,
            hessian_reg::<T>(),
        ) {
            None => {},
            Some(f) => {
                lemma_factored_step_proper(drv, ops, prob, e, f, b);
            },
        },
    }
}

/// The central point has its sizes and is finite.
pub proof fn lemma_center<T: Real>(nct: int, cones: Seq<ConeDesc>, c: nat)
    requires
        nct >= 0,
        cones_within(cones, nct),
        c <= cones.len(),
    ensures
        identity_upto::<T>(nct, cones, c).len() == nct,
        order_kept::<T>() ==> all_finite(identity_upto::<T>(nct, cones, c)),
    decreases c,
{
    if order_kept::<T>() {
        reveal(order_kept);
        assert(finite(num::<T>(0), num::<T>(0)) && finite(num::<T>(0), num::<T>(1)));
    }
    if c > 0 {
        lemma_center::<T>(nct, cones, (c - 1) as nat);
        let before = identity_upto::<T>(nct, cones, (c - 1) as nat);
        assert(cones[c - 1].dim >= 1);
        let e = identity_upto::<T>(nct, cones, c);
        assert forall|i: int| 0 <= i < nct && order_kept::<T>() implies finite(
            num::<T>(0),
            #[trigger] e[i],
        ) by {
            assert(finite(num::<T>(0), before[i]));
        }
    }
}

proof fn lemma_hsd_run_honest<T: Real, C: ConeOps<T>>(
    drv: Driver<T>,
    ops: &C,
    prob: &SocpProblem<T>,
    params: IpmAlgoParams<T>,
    st: HsdProgress<T>,
    iter: u32,
    cap: u32,
)
    requires
        finite(num::<T>(0), num::<T>(0)),
        iter <= cap,
        fits(drv, prob),
        point_fits(prob, st.e.pt),
        embedded_proper(ops, prob, st.e),
        embedded_snapshot_honest(ops, prob, params, st.best),
    ensures
        hsd_status_honest(ops, prob, params, hsd_run(drv, ops, prob, params, st, iter, cap), cap),
    decreases cap - iter,
{
    let shown = recovered(st.e);
    let best = hsd_refreshed(ops, prob, params, st.e, st.best);
    let after = (iter + 1) as u32;
    let s = hsd_step(drv, ops, prob, st.e);
    lemma_hsd_step_proper(drv, ops, prob, st.e);
    lemma_exit(st.shown, IpmStatus::IterCap, cap);
    lemma_exit(st.shown, IpmStatus::NumericalError, iter);
    lemma_exit(shown, IpmStatus::NumericalError, iter);
    lemma_exit(shown, IpmStatus::NumericalError, after);
    if nearly_feasible_embedded(ops, prob, params, st.e) {
        assert(feasible_through(ops, prob, params, shown, st.e));
    }
    assert(embedded_snapshot_honest(ops, prob, params, best));
    if iter >= cap {
    } else if !positive(st.e.tau) || !positive(st.e.kappa) {
    } else if hsd_optimal(ops, prob, params, st.e) {
        assert(optimal_through(ops, prob, params, shown, st.e));
    } else if s.go is On {
        lemma_hsd_run_honest(
            drv,
            ops,
            prob,
            params,
            HsdProgress { e: s.e, shown, best },
            after,
            cap,
        );
    }
}

/// The embedded driver never spends more than its iteration cap, and its status can
/// be relied on: an optimal point is what an embedded point within all tolerances
/// stands for, a best feasible point what a nearly feasible one stands for, and those
/// embedded points are finite and inside the cones; at the cap and after a breakdown
/// every entry of the point is finite. The division by `tau` that leads to an optimal
/// or best feasible point can overflow, so no more is said of its entries.
pub proof fn law_hsd_status_is_honest<T: Real, C: ConeOps<T>>(
    drv: Driver<T>,
    ops: &C,
    prob: &SocpProblem<T>,
    params: IpmAlgoParams<T>,
    pt: Point<T>,
)
    requires
        finite(num::<T>(0), num::<T>(0)),
        fits(drv, prob),
    ensures
        hsd_status_honest(
            ops,
            prob,
            params,
            hsd_solved(drv, ops, prob, params, pt),
            iteration_cap(params.max_iters, drv.hard_max_iters),
        ),
{
    let e = central(prob);
    lemma_center::<T>(prob.h@.len() as int, prob.cones@, prob.cones@.len());
    if order_kept::<T>() {
        reveal(order_kept);
        assert(finite(num::<T>(0), num::<T>(0)) && finite(num::<T>(0), num::<T>(1)));
        assert(all_finite(e.pt.x) && all_finite(e.pt.lambda));
    }
    lemma_hsd_run_honest(
        drv,
        ops,
        prob,
        params,
        HsdProgress { e, shown: pt, best: None },
        0,
        iteration_cap(params.max_iters, drv.hard_max_iters),
    );
}

/// The embedded driver always starts from the central point: unless no iteration is
/// allowed at all, what the workspace held does not matter.
pub proof fn law_hsd_ignores_workspace<T: Real, C: ConeOps<T>>(
    drv: Driver<T>,
    ops: &C,
    prob: &SocpProblem<T>,
    params: IpmAlgoParams<T>,
    p: Point<T>,
    q: Point<T>,
)
    requires
        params.max_iters > 0,
        drv.hard_max_iters > 0,
        positive(num::<T>(1)),
    ensures
        hsd_solved(drv, ops, prob, params, p) == hsd_solved(drv, ops, prob, params, q),
{
}

// ---- what an embedded point stands for ----

/// `p / t - q == (p - q t) / t`, with the division written as a product.
proof fn lemma_divided<T: Scalar>(u: Units<T>, p: T, q: T, t: T, inv: T)
    requires
        field(u),
        times(inv, t) == u.one,
    ensures
        minus(times(p, inv), q) == times(minus(p, times(q, t)), inv),
        plus(q, times(p, inv)) == times(plus(times(q, t), p), inv),
{
    lemma_mul_comm(u, minus(p, times(q, t)), inv);
    lemma_mul_sub(u, inv, p, times(q, t));
    lemma_mul_comm(u, inv, p);
    lemma_mul_comm(u, inv, times(q, t));
    lemma_mul_assoc(u, q, t, inv);
    lemma_mul_comm(u, t, inv);
    lemma_mul_one(u, q);
    lemma_mul_comm(u, plus(times(q, t), p), inv);
    lemma_distrib(u, inv, times(q, t), p);
}

/// In exact arithmetic the residuals of the point that an embedded point stands for
/// are the embedded residuals divided by `tau`: what is small for the one is small
/// for the other.
pub proof fn law_recovered_residuals<T: Real>(prob: &SocpProblem<T>, e: Embedded<T>)
    requires
        field(units::<T>()),
        e.tau != num::<T>(0),
        point_fits(prob, e.pt),
        shaped(prob.a_mat@, prob.b@.len() as int, prob.c@.len() as int),
        shaped(prob.g_mat@, prob.h@.len() as int, prob.c@.len() as int),
    ensures
        ({
            let inv = over(num::<T>(1), e.tau);
            &&& equality_residual(prob, recovered(e)) == vscale(hsd_equality(prob, e), inv)
            &&& cone_residual(prob, recovered(e)) == vscale(hsd_cone(prob, e), inv)
            &&& dual_residual(prob, recovered(e)) == vscale(hsd_dual(prob, e), inv)
        }),
{
    let u = units::<T>();
    let z = num::<T>(0);
    let t = e.tau;
    let inv = over(num::<T>(1), t);
    let a = prob.a_mat@;
    let g = prob.g_mat@;
    let x = e.pt.x;
    let np = prob.c@.len() as int;
    lemma_div_cancel(u, num::<T>(1), t);
    assert(times(inv, t) == u.one);
    assert forall|i: int| 0 <= i < prob.b@.len() implies equality_residual(prob, recovered(e))[i]
        == vscale(hsd_equality(prob, e), inv)[i] by {
        assert(a[i].len() == np);
        lemma_dot_scale(u, a[i], x, inv, np as nat);
        lemma_divided(u, dot(z, a[i], x), prob.b@[i], t, inv);
    }
    assert(equality_residual(prob, recovered(e)) =~= vscale(hsd_equality(prob, e), inv));
    assert forall|i: int| 0 <= i < prob.h@.len() implies cone_residual(prob, recovered(e))[i]
        == vscale(hsd_cone(prob, e), inv)[i] by {
        assert(g[i].len() == np);
        let p = dot(z, g[i], x);
        let s = e.pt.s[i];
        lemma_dot_scale(u, g[i], x, inv, np as nat);
        lemma_mul_comm(u, p, inv);
        lemma_mul_comm(u, s, inv);
        lemma_distrib(u, inv, p, s);
        lemma_mul_comm(u, inv, plus(p, s));
        lemma_divided(u, plus(p, s), prob.h@[i], t, inv);
    }
    assert(cone_residual(prob, recovered(e)) =~= vscale(hsd_cone(prob, e), inv));
    assert forall|j: int| 0 <= j < np implies dual_residual(prob, recovered(e))[j] == vscale(
        hsd_dual(prob, e),
        inv,
    )[j] by {
        let c = prob.c@[j];
        let p = dot(z, column(a, j), e.pt.lambda);
        let q = dot(z, column(g, j), e.pt.y);
        lemma_dot_scale(u, column(a, j), e.pt.lambda, inv, prob.b@.len());
        lemma_dot_scale(u, column(g, j), e.pt.y, inv, prob.h@.len());
        // c + p/t == (c t + p)/t, then + q/t
        lemma_divided(u, p, c, t, inv);
        let w = plus(times(c, t), p);
        lemma_mul_comm(u, w, inv);
        lemma_mul_comm(u, q, inv);
        lemma_distrib(u, inv, w, q);
        lemma_mul_comm(u, inv, plus(w, q));
    }
    assert(dual_residual(prob, recovered(e)) =~= vscale(hsd_dual(prob, e), inv));
}

} // verus!
