//! The structured drivers agree with dense ones: where arithmetic is exact, a driver
//! that follows the same recipe but takes every Newton step from a solution of the whole
//! system, however found, returns the same result.
use crate::algebra::field;
use crate::cones::{
    all_finite, arrows_upto, clipped, identity_upto, jordan_upto, nt_upto, ArrowModel, ConeOps,
    NtModel,
};
use crate::dense_laws::{
    cones_local, curvature_row, increment_local, lemma_hessians_square, node_sparse, rows_local,
    scaling_local, tiled, zero_test_exact,
};
use crate::kkt_backend::{kkt_dl, kkt_dx, kkt_factor_model, KktModel};
use crate::kkt_laws::{inversion_exact, law_successful_factor_is_exact, lemma_schur_shaped};
use crate::layout::spec_np;
use crate::linalg::{column, dot, mat_t_vec, mat_vec, shaped, vadd, vneg, vscale, vsub};
use crate::newton_laws::{exact_kkt, kkt_setting, law_flat_step_solves_system};
use crate::numerics::inverse_of;
use crate::reduced_kkt::{
    all_square, factor_model, factor_status, hessian_inverses, hessians, pivot, schur_diagonal,
    ReducedKktStatus,
};
use crate::scalar::{
    at_most, finite, less, magnitude, minus, negated, num, over, plus, times, units, Real,
};
use crate::scaling_laws::{
    law_arrow_scaling_is_local, law_nt_scaling_is_local_and_symmetric, routines_shaped,
};
use crate::solver_laws::{lemma_center, lemma_hsd_step_proper, lemma_start_len, lemma_step_fits};
use crate::structured_hsd::{
    central, coupling, hsd_affine_mu, hsd_alpha, hsd_corrector, hsd_corrector_term, hsd_cone,
    hsd_direction, hsd_dtau, hsd_equality, hsd_factored_step, hsd_moved, hsd_mu, hsd_optimal,
    hsd_refreshed, hsd_rhs, hsd_run, hsd_settled, hsd_sigma, hsd_solved, hsd_sound, hsd_step,
    positive, recovered, Coupling, Embedded, HsdDirection, HsdProgress, HsdStepModel,
};
use crate::structured_socp::{
    adaptive_backoff, affine_mu, aho_direction, aho_sigma, aho_step, blended_direction,
    complementarity, direction_finite, equality_residual, fits, give_up, good_enough, hessian_reg,
    iteration_cap, loose, moved, moved_residual, nt_corrector_term, nt_direction, nt_sigma,
    nt_step, optimal, point_fits, primal_rhs, refreshed, run, slack_step, solved, sound, stalled,
    starting_point, step, step_length, weight_upto, Direction, Driver, Go, Outcome, Progress,
    StepModel,
};
use crate::types::{IpmAlgoParams, IpmStatus, Point, ResultModel, SocpProblem};
use vstd::prelude::*;

verus! {

// ---- a dense driver ----

/// A way to take Newton steps: from the cone scaling and the two right-hand sides, the
/// step and the multipliers, or nothing where the system cannot be factored.
pub type NewtonSolver<T> = spec_fn(Seq<Seq<T>>, Seq<T>, Seq<T>) -> Option<(Seq<T>, Seq<T>)>;

/// `(dx, dl)` solves the whole system with cone scaling `m`: `A dx == b_a` and, row by
/// row, `(G' M G + reg I) dx + A' dl == b_x`.
pub open spec fn solves_system<T: Real>(
    prob: &SocpProblem<T>,
    m: Seq<Seq<T>>,
    b_x: Seq<T>,
    b_a: Seq<T>,
    dx: Seq<T>,
    dl: Seq<T>,
) -> bool {
    let z = num::<T>(0);
    &&& dx.len() == prob.c@.len()
    &&& dl.len() == prob.b@.len()
    &&& mat_vec(z, prob.a_mat@, dx) == b_a
    &&& forall|j: int|
        0 <= j < prob.c@.len() ==> plus(
            #[trigger] curvature_row(z, prob, m, hessian_reg::<T>(), dx, j),
            dot(z, column(prob.a_mat@, j), dl),
        ) == b_x[j]
}

/// The system with cone scaling `m` has at most one solution.
pub open spec fn one_solution<T: Real>(prob: &SocpProblem<T>, m: Seq<Seq<T>>) -> bool {
    forall|b_x: Seq<T>, b_a: Seq<T>, dx: Seq<T>, dl: Seq<T>, ex: Seq<T>, el: Seq<T>|
        #[trigger] solves_system(prob, m, b_x, b_a, dx, dl) && #[trigger] solves_system(
            prob,
            m,
            b_x,
            b_a,
            ex,
            el,
        ) ==> dx == ex && dl == el
}

/// For every cone scaling that couples no two cones, `newton` solves the whole system,
/// which has one solution, where the structured factorization succeeds, and gives up
/// where that does.
pub open spec fn dense_newton<T: Real, C: ConeOps<T>>(
    drv: Driver<T>,
    ops: &C,
    prob: &SocpProblem<T>,
    newton: NewtonSolver<T>,
) -> bool {
    forall|m: Seq<Seq<T>>, b_x: Seq<T>, b_a: Seq<T>|
        shaped(m, prob.h@.len() as int, prob.h@.len() as int) && scaling_local(
            num::<T>(0),
            m,
            prob.cones@,
            prob.h@.len() as int,
        ) && b_x.len() == prob.c@.len() && b_a.len() == prob.b@.len() ==> match #[trigger] newton(
            m,
            b_x,
            b_a,
        ) {
            Some((dx, dl)) => {
                &&& factored(drv, ops, prob, m) is Some
                &&& one_solution(prob, m)
                &&& solves_system(prob, m, b_x, b_a, dx, dl)
            },
            None => factored(drv, ops, prob, m) is None,
        }
}

/// What the structured factorization returns for the cone scaling `m`.
pub open spec fn factored<T: Real, C: ConeOps<T>>(
    drv: Driver<T>,
    ops: &C,
    prob: &SocpProblem<T>,
    m: Seq<Seq<T>>,
) -> Option<KktModel<T>> {
    kkt_factor_model(
        units::<T>(),
        drv.limits,
        ops,
        prob,
        drv.n as int,
        drv.free_tf,
        m,
        hessian_reg::<T>(),
    )
}

/// The symmetric direction that `newton` leads to.
pub open spec fn dense_aho_direction<T: Real>(
    prob: &SocpProblem<T>,
    pt: Point<T>,
    newton: NewtonSolver<T>,
    b: ArrowModel<T>,
    r_c: Seq<T>,
) -> Option<Direction<T>> {
    let z = num::<T>(0);
    match newton(
        b.m,
        primal_rhs(prob, pt, b.m, b.s_inv, r_c),
        vneg(equality_residual(prob, pt)),
    ) {
        None => None,
        Some((dx, dl)) => Some(
            Direction {
                dx,
                dl,
                ds: slack_step(prob, pt, dx),
                dy: mat_vec(
                    z,
                    b.s_inv,
                    vsub(mat_vec(z, b.y, moved_residual(prob, pt, dx)), r_c),
                ),
            },
        ),
    }
}

/// The Nesterov-Todd direction that `newton` leads to.
pub open spec fn dense_nt_direction<T: Real>(
    prob: &SocpProblem<T>,
    pt: Point<T>,
    newton: NewtonSolver<T>,
    b: NtModel<T>,
    r_c: Seq<T>,
) -> Option<Direction<T>> {
    let z = num::<T>(0);
    match newton(
        b.w2,
        primal_rhs(prob, pt, b.w2, b.w, r_c),
        vneg(equality_residual(prob, pt)),
    ) {
        None => None,
        Some((dx, dl)) => Some(
            Direction {
                dx,
                dl,
                ds: slack_step(prob, pt, dx),
                dy: vadd(
                    vneg(mat_vec(z, b.w, r_c)),
                    mat_vec(z, b.w2, moved_residual(prob, pt, dx)),
                ),
            },
        ),
    }
}

/// A predictor-corrector step with the symmetric direction.
#[verifier::opaque]
pub open spec fn dense_aho_step<T: Real, C: ConeOps<T>>(
    drv: Driver<T>,
    ops: &C,
    prob: &SocpProblem<T>,
    newton: NewtonSolver<T>,
    pt: Point<T>,
    mu: T,
) -> StepModel<T> {
    let cones = prob.cones@;
    let nc = cones.len();
    match arrows_upto(ops, pt.s, pt.y, cones, nc) {
        None => StepModel { pt, go: Go::ExitBefore },
        Some(b) => {
            let r_aff = jordan_upto(ops, pt.y, pt.s, cones, nc);
            match dense_aho_direction(prob, pt, newton, b, r_aff) {
                None => StepModel { pt, go: Go::ExitBefore },
                Some(aff) => {
                    let a_s = step_length(ops, prob, pt.s, aff.ds);
                    let a_y = step_length(ops, prob, pt.y, aff.dy);
                    let sigma = aho_sigma(drv, mu, affine_mu(pt, aff, a_s, a_y));
                    let r_c = vsub(
                        vadd(r_aff, jordan_upto(ops, aff.dy, aff.ds, cones, nc)),
                        vscale(
                            identity_upto::<T>(pt.s.len() as int, cones, nc),
                            times(sigma, mu),
                        ),
                    );
                    let d = dense_aho_direction(prob, pt, newton, b, r_c)->0;
                    let next = moved(
                        pt,
                        d,
                        step_length(ops, prob, pt.s, d.ds),
                        step_length(ops, prob, pt.y, d.dy),
                    );
                    if !(all_finite(aff.ds) && all_finite(aff.dy) && all_finite(aff.dx)) {
                        StepModel { pt, go: Go::ExitAfter }
                    } else if !direction_finite(d) {
                        StepModel { pt, go: Go::ExitAfter }
                    } else if sound(drv, ops, prob, next) {
                        StepModel { pt: next, go: Go::On }
                    } else {
                        StepModel { pt: next, go: Go::ExitAfter }
                    }
                },
            }
        },
    }
}

/// A predictor-corrector step with the Nesterov-Todd direction.
#[verifier::opaque]
pub open spec fn dense_nt_step<T: Real, C: ConeOps<T>>(
    drv: Driver<T>,
    ops: &C,
    prob: &SocpProblem<T>,
    newton: NewtonSolver<T>,
    pt: Point<T>,
    mu: T,
) -> StepModel<T> {
    match nt_upto(ops, pt.s, pt.y, prob.cones@, prob.cones@.len()) {
        None => StepModel { pt, go: Go::ExitBefore },
        Some(b) => match dense_nt_direction(prob, pt, newton, b, b.s_scaled) {
            None => StepModel { pt, go: Go::ExitBefore },
            Some(aff) => {
                let a_s = step_length(ops, prob, pt.s, aff.ds);
                let a_y = step_length(ops, prob, pt.y, aff.dy);
                let sigma = nt_sigma(drv, ops, mu, affine_mu(pt, aff, a_s, a_y), a_s, a_y);
                let r_c = nt_corrector_term(ops, prob, pt, b, aff, times(sigma, mu));
                let cor = dense_nt_direction(prob, pt, newton, b, r_c)->0;
                let w = weight_upto(ops, prob, pt, aff, cor, 6);
                let gamma = adaptive_backoff(w.raw_s, w.raw_y);
                let next = moved(
                    pt,
                    blended_direction(aff, cor, w.omega),
                    clipped(times(gamma, w.raw_s)),
                    clipped(times(gamma, w.raw_y)),
                );
                if !direction_finite(aff) {
                    StepModel { pt, go: Go::ExitAfter }
                } else if !direction_finite(cor) {
                    StepModel { pt, go: Go::ExitAfter }
                } else if sound(drv, ops, prob, next) {
                    StepModel { pt: next, go: Go::On }
                } else {
                    StepModel { pt: next, go: Go::ExitAfter }
                }
            },
        },
    }
}

/// One step of the dense driver.
pub open spec fn dense_step<T: Real, C: ConeOps<T>>(
    drv: Driver<T>,
    ops: &C,
    prob: &SocpProblem<T>,
    newton: NewtonSolver<T>,
    pt: Point<T>,
) -> StepModel<T> {
    if drv.nt {
        dense_nt_step(drv, ops, prob, newton, pt, complementarity(pt))
    } else {
        dense_aho_step(drv, ops, prob, newton, pt, complementarity(pt))
    }
}

/// The dense driver from iteration `iter` on: the same tests for an end, and the same
/// snapshots, around its own steps.
pub open spec fn dense_run<T: Real, C: ConeOps<T>>(
    drv: Driver<T>,
    ops: &C,
    prob: &SocpProblem<T>,
    newton: NewtonSolver<T>,
    params: IpmAlgoParams<T>,
    st: Progress<T>,
    iter: u32,
    cap: u32,
) -> Outcome<T>
    decreases cap - iter,
{
    if iter >= cap {
        give_up(st.best, st.pt, IpmStatus::IterCap, cap)
    } else if optimal(ops, prob, params, st.pt) {
        Outcome {
            result: ResultModel { point: st.pt, status: IpmStatus::Optimal, iters: iter },
            pt: st.pt,
        }
    } else {
        let best = refreshed(ops, prob, params, st.pt, st.best);
        let after = (iter + 1) as u32;
        let s = dense_step(drv, ops, prob, newton, st.pt);
        if (iter > 2 || (iter > 0 && stalled(ops, st))) && good_enough(
            best,
            loose(ops, params.tol_mu),
        ) {
            give_up(best, st.pt, IpmStatus::BestFeasible, iter)
        } else {
            match s.go {
                Go::ExitBefore => give_up(best, s.pt, IpmStatus::NumericalError, iter),
                Go::ExitAfter => give_up(best, s.pt, IpmStatus::NumericalError, after),
                Go::On => dense_run(
                    drv,
                    ops,
                    prob,
                    newton,
                    params,
                    Progress { pt: s.pt, prev_x: st.pt.x, prev_y: st.pt.y, best },
                    after,
                    cap,
                ),
            }
        }
    }
}

/// What the dense driver returns.
pub open spec fn dense_solved<T: Real, C: ConeOps<T>>(
    drv: Driver<T>,
    ops: &C,
    prob: &SocpProblem<T>,
    newton: NewtonSolver<T>,
    params: IpmAlgoParams<T>,
    pt: Point<T>,
) -> Outcome<T> {
    let from = starting_point(ops, prob, params.warm_start_x, pt);
    dense_run(
        drv,
        ops,
        prob,
        newton,
        params,
        Progress { pt: from, prev_x: from.x, prev_y: from.y, best: None },
        0,
        iteration_cap(params.max_iters, drv.hard_max_iters),
    )
}

// ---- a dense self-dual driver ----

/// What one unit of `tau` moves, as `newton` finds it.
pub open spec fn dense_coupling<T: Real>(
    prob: &SocpProblem<T>,
    e: Embedded<T>,
    newton: NewtonSolver<T>,
    b: NtModel<T>,
) -> Option<Coupling<T>> {
    let z = num::<T>(0);
    let w2h = mat_vec(z, b.w2, prob.h@);
    let gw2h = mat_t_vec(z, prob.g_mat@, prob.c@.len() as int, w2h);
    let d = vadd(prob.c@, gw2h);
    match newton(b.w2, vsub(gw2h, prob.c@), prob.b@) {
        None => None,
        Some((dx_t, dl_t)) => Some(
            Coupling {
                dx_t,
                dl_t,
                d,
                coef: minus(
                    minus(plus(dot(z, d, dx_t), dot(z, prob.b@, dl_t)), dot(z, prob.h@, w2h)),
                    over(e.kappa, e.tau),
                ),
            },
        ),
    }
}

/// The self-dual direction that `newton` leads to.
pub open spec fn dense_hsd_direction<T: Real>(
    prob: &SocpProblem<T>,
    e: Embedded<T>,
    newton: NewtonSolver<T>,
    b: NtModel<T>,
    k: Coupling<T>,
    r_c: Seq<T>,
    r6: T,
) -> Option<HsdDirection<T>> {
    let z = num::<T>(0);
    match newton(b.w2, hsd_rhs(prob, e, b, r_c), vneg(hsd_equality(prob, e))) {
        None => None,
        Some((dx_r, dl_r)) => {
            let dtau = hsd_dtau(prob, e, b, k, dx_r, dl_r, r_c, r6);
            let dx = vadd(dx_r, vscale(k.dx_t, dtau));
            let ds = vadd(
                vsub(vneg(hsd_cone(prob, e)), mat_vec(z, prob.g_mat@, dx)),
                vscale(prob.h@, dtau),
            );
            Some(
                HsdDirection {
                    dx,
                    dl: vadd(dl_r, vscale(k.dl_t, dtau)),
                    ds,
                    dy: vsub(vneg(mat_vec(z, b.w, r_c)), mat_vec(z, b.w2, ds)),
                    dtau,
                    dkappa: over(minus(r6, times(e.kappa, dtau)), e.tau),
                },
            )
        },
    }
}

/// The corrector of a self-dual step that `newton` leads to, after the predictor `aff`.
pub open spec fn dense_hsd_corrector<T: Real, C: ConeOps<T>>(
    drv: Driver<T>,
    ops: &C,
    prob: &SocpProblem<T>,
    e: Embedded<T>,
    newton: NewtonSolver<T>,
    b: NtModel<T>,
    k: Coupling<T>,
    aff: HsdDirection<T>,
) -> HsdDirection<T> {
    let mu = hsd_mu(prob, e);
    let sigma = hsd_sigma(
        drv.limits,
        mu,
        hsd_affine_mu(prob, e, aff, hsd_alpha(ops, prob, e, aff)),
    );
    dense_hsd_direction(
        prob,
        e,
        newton,
        b,
        k,
        hsd_corrector_term(ops, prob, b, aff.ds, times(sigma, mu)),
        minus(minus(times(sigma, mu), times(e.tau, e.kappa)), times(aff.dtau, aff.dkappa)),
    )->0
}

/// A predictor-corrector step in the embedding.
#[verifier::opaque]
pub open spec fn dense_hsd_step<T: Real, C: ConeOps<T>>(
    drv: Driver<T>,
    ops: &C,
    prob: &SocpProblem<T>,
    newton: NewtonSolver<T>,
    e: Embedded<T>,
) -> HsdStepModel<T> {
    let z = num::<T>(0);
    match nt_upto(ops, e.pt.s, e.pt.y, prob.cones@, prob.cones@.len()) {
        None => HsdStepModel { e, go: Go::ExitBefore },
        Some(b) => match dense_coupling(prob, e, newton, b) {
            None => HsdStepModel { e, go: Go::ExitBefore },
            Some(k) => {
                let aff = dense_hsd_direction(
                    prob,
                    e,
                    newton,
                    b,
                    k,
                    b.s_scaled,
                    times(negated(e.tau), e.kappa),
                )->0;
                let d = dense_hsd_corrector(drv, ops, prob, e, newton, b, k, aff);
                let alpha = hsd_alpha(ops, prob, e, d);
                let next = hsd_moved(e, d, alpha);
                if !finite(z, k.coef) || less(magnitude(z, k.coef), drv.limits.tiny) {
                    HsdStepModel { e, go: Go::ExitBefore }
                } else if !(all_finite(aff.ds) && all_finite(aff.dy) && finite(z, aff.dtau)
                    && finite(z, aff.dkappa)) {
                    HsdStepModel { e, go: Go::ExitAfter }
                } else if !(all_finite(d.dx) && all_finite(d.dl) && all_finite(d.ds)
                    && all_finite(d.dy) && finite(z, d.dtau) && finite(z, d.dkappa)) {
                    HsdStepModel { e, go: Go::ExitAfter }
                } else if at_most(alpha, z) {
                    HsdStepModel { e, go: Go::ExitAfter }
                } else if hsd_sound(drv.limits, ops, prob, next) {
                    HsdStepModel { e: next, go: Go::On }
                } else {
                    HsdStepModel { e: next, go: Go::ExitAfter }
                }
            },
        },
    }
}

/// The dense self-dual driver from iteration `iter` on: the same tests for an end, and
/// the same snapshots, around its own steps.
pub open spec fn dense_hsd_run<T: Real, C: ConeOps<T>>(
    drv: Driver<T>,
    ops: &C,
    prob: &SocpProblem<T>,
    newton: NewtonSolver<T>,
    params: IpmAlgoParams<T>,
    st: HsdProgress<T>,
    iter: u32,
    cap: u32,
) -> Outcome<T>
    decreases cap - iter,
{
    let shown = recovered(st.e);
    let best = hsd_refreshed(ops, prob, params, st.e, st.best);
    let after = (iter + 1) as u32;
    let s = dense_hsd_step(drv, ops, prob, newton, st.e);
    if iter >= cap {
        give_up(st.best, st.shown, IpmStatus::IterCap, cap)
    } else if !positive(st.e.tau) || !positive(st.e.kappa) {
        give_up(st.best, st.shown, IpmStatus::NumericalError, iter)
    } else if hsd_optimal(ops, prob, params, st.e) {
        Outcome {
            result: ResultModel { point: shown, status: IpmStatus::Optimal, iters: iter },
            pt: shown,
        }
    } else if iter > 2 && hsd_settled(ops, params, hsd_mu(prob, st.e), best) {
        give_up(best, shown, IpmStatus::BestFeasible, iter)
    } else {
        match s.go {
            Go::ExitBefore => give_up(best, shown, IpmStatus::NumericalError, iter),
            Go::ExitAfter => give_up(best, shown, IpmStatus::NumericalError, after),
            Go::On => dense_hsd_run(
                drv,
                ops,
                prob,
                newton,
                params,
                HsdProgress { e: s.e, shown, best },
                after,
                cap,
            ),
        }
    }
}

/// What the dense self-dual driver returns.
pub open spec fn dense_hsd_solved<T: Real, C: ConeOps<T>>(
    drv: Driver<T>,
    ops: &C,
    prob: &SocpProblem<T>,
    newton: NewtonSolver<T>,
    params: IpmAlgoParams<T>,
    pt: Point<T>,
) -> Outcome<T> {
    dense_hsd_run(
        drv,
        ops,
        prob,
        newton,
        params,
        HsdProgress { e: central(prob), shown: pt, best: None },
        0,
        iteration_cap(params.max_iters, drv.hard_max_iters),
    )
}

// ---- exactness ----

/// Arithmetic and the routines are exact, and the program has the sparsity of its
/// nodes, as assembled programs do.
pub open spec fn exact_setting<T: Real, C: ConeOps<T>>(
    drv: Driver<T>,
    ops: &C,
    prob: &SocpProblem<T>,
) -> bool {
    let u = units::<T>();
    let n = drv.n as int;
    &&& field(u)
    &&& zero_test_exact(u)
    &&& inversion_exact(u, ops)
    &&& routines_shaped(ops)
    &&& at_most(u.zero, u.zero)
    &&& less(magnitude(u.zero, u.zero), drv.limits.tiny)
    &&& drv.n >= 1
    &&& fits(drv, prob)
    &&& rows_local(u.zero, prob.a_mat@, n)
    &&& tiled(prob.cones@, prob.h@.len() as int)
    &&& cones_local(u.zero, prob.g_mat@, spec_np(n, drv.free_tf), prob.cones@, n)
    &&& drv.free_tf ==> increment_local(u.zero, prob.a_mat@, n)
}

proof fn lemma_factor_square<T: Real, C: ConeOps<T>>(
    ops: &C,
    a: Seq<Seq<T>>,
    h: Seq<Seq<Seq<T>>>,
    n: int,
)
    requires
        routines_shaped(ops),
        h.len() == n,
        all_square(h, 19),
        factor_status(units::<T>(), ops, a, h, n) == ReducedKktStatus::Okay,
    ensures
        all_square(factor_model(units::<T>(), ops, a, h, n).h_inv, 19),
        all_square(factor_model(units::<T>(), ops, a, h, n).d_inv, 7),
{
    let u = units::<T>();
    let f = factor_model(u, ops, a, h, n);
    let hv = hessian_inverses(ops, h);
    assert forall|k: int| 0 <= k < f.h_inv.len() implies shaped(
        #[trigger] f.h_inv[k],
        19,
        19,
    ) by {
        assert(shaped(h[k], 19, 19));
        assert(inverse_of(ops, h[k]) is Some);
    }
    assert forall|k: int| 0 <= k < f.d_inv.len() implies shaped(#[trigger] f.d_inv[k], 7, 7) by {
        let p = pivot(u, ops, a, hv, n, k as nat);
        assert(inverse_of(ops, p) is Some);
        lemma_schur_shaped(u, a, hv, n, k);
        assert(schur_diagonal(u, a, hv, n, k).len() == 7);
        assert(p.len() == 7);
    }
}

/// A factorization that succeeds is exact.
proof fn lemma_setting<T: Real, C: ConeOps<T>>(
    drv: Driver<T>,
    ops: &C,
    prob: &SocpProblem<T>,
    m: Seq<Seq<T>>,
    f: KktModel<T>,
    b_x: Seq<T>,
    b_a: Seq<T>,
)
    requires
        exact_setting(drv, ops, prob),
        factored(drv, ops, prob, m) == Some(f),
        shaped(m, prob.h@.len() as int, prob.h@.len() as int),
        scaling_local(
            num::<T>(0),
            m,
            prob.cones@,
            prob.h@.len() as int,
        ),
        b_x.len() == prob.c@.len(),
        b_a.len() == prob.b@.len(),
    ensures
        kkt_setting(units::<T>(), prob, m, hessian_reg::<T>(), drv.n as int, f, b_x, b_a),
        (f is Free) == drv.free_tf,
{
    let u = units::<T>();
    let n = drv.n as int;
    let reg = hessian_reg::<T>();
    let np = spec_np(n, drv.free_tf);
    let a = prob.a_mat@;
    let h = hessians(u.zero, prob, m, np, reg, n);
    lemma_hessians_square(u.zero, prob, m, np, reg, n);
    assert(factor_status(u, ops, a, h, n) == ReducedKktStatus::Okay);
    lemma_factor_square(ops, a, h, n);
    law_successful_factor_is_exact(u, ops, a, h, n);
    assert(prob.cones_fit(prob.h@.len() as int));
    assert(node_sparse(u.zero, prob, m, np, n));
    assert(exact_kkt(u, prob, m, reg, n, f));
    reveal(kkt_setting);
}

/// The structured Newton step is the one solution of the whole system.
pub proof fn law_structured_step_is_the_solution<T: Real, C: ConeOps<T>>(
    drv: Driver<T>,
    ops: &C,
    prob: &SocpProblem<T>,
    m: Seq<Seq<T>>,
    f: KktModel<T>,
    b_x: Seq<T>,
    b_a: Seq<T>,
    dx: Seq<T>,
    dl: Seq<T>,
)
    requires
        exact_setting(drv, ops, prob),
        factored(drv, ops, prob, m) == Some(f),
        shaped(m, prob.h@.len() as int, prob.h@.len() as int),
        scaling_local(
            num::<T>(0),
            m,
            prob.cones@,
            prob.h@.len() as int,
        ),
        b_x.len() == prob.c@.len(),
        b_a.len() == prob.b@.len(),
        one_solution(prob, m),
        solves_system(prob, m, b_x, b_a, dx, dl),
    ensures
        dx == kkt_dx(num::<T>(0), prob.a_mat@, drv.n as int, f, b_x, b_a),
        dl == kkt_dl(num::<T>(0), prob.a_mat@, drv.n as int, f, b_x, b_a),
{
    let n = drv.n as int;
    let z = num::<T>(0);
    lemma_setting(drv, ops, prob, m, f, b_x, b_a);
    law_flat_step_solves_system(units::<T>(), prob, m, hessian_reg::<T>(), n, f, b_x, b_a);
    let ex = kkt_dx(z, prob.a_mat@, n, f, b_x, b_a);
    let el = kkt_dl(z, prob.a_mat@, n, f, b_x, b_a);
    assert(solves_system(prob, m, b_x, b_a, ex, el));
}

proof fn lemma_same_aho_direction<T: Real, C: ConeOps<T>>(
    drv: Driver<T>,
    ops: &C,
    prob: &SocpProblem<T>,
    newton: NewtonSolver<T>,
    pt: Point<T>,
    r_c: Seq<T>,
)
    requires
        exact_setting(drv, ops, prob),
        dense_newton(drv, ops, prob, newton),
        point_fits(prob, pt),
        arrows_upto(ops, pt.s, pt.y, prob.cones@, prob.cones@.len()) is Some,
    ensures
        ({
            let b = arrows_upto(ops, pt.s, pt.y, prob.cones@, prob.cones@.len())->0;
            dense_aho_direction(prob, pt, newton, b, r_c) == match factored(
                drv,
                ops,
                prob,
                b.m,
            ) {
                None => None,
                Some(f) => Some(aho_direction(drv, prob, pt, f, b, r_c)),
            }
        }),
{
    let b = arrows_upto(ops, pt.s, pt.y, prob.cones@, prob.cones@.len())->0;
    let b_x = primal_rhs(prob, pt, b.m, b.s_inv, r_c);
    let b_a = vneg(equality_residual(prob, pt));
    law_arrow_scaling_is_local(ops, pt.s, pt.y, prob.cones@);
    assert(b_x.len() == prob.c@.len() && b_a.len() == prob.b@.len());
    match newton(b.m, b_x, b_a) {
        None => {},
        Some((dx, dl)) => {
            let f = factored(drv, ops, prob, b.m)->0;
            law_structured_step_is_the_solution(drv, ops, prob, b.m, f, b_x, b_a, dx, dl);
        },
    }
}

proof fn lemma_same_nt_direction<T: Real, C: ConeOps<T>>(
    drv: Driver<T>,
    ops: &C,
    prob: &SocpProblem<T>,
    newton: NewtonSolver<T>,
    pt: Point<T>,
    r_c: Seq<T>,
)
    requires
        exact_setting(drv, ops, prob),
        dense_newton(drv, ops, prob, newton),
        point_fits(prob, pt),
        nt_upto(ops, pt.s, pt.y, prob.cones@, prob.cones@.len()) is Some,
    ensures
        ({
            let b = nt_upto(ops, pt.s, pt.y, prob.cones@, prob.cones@.len())->0;
            dense_nt_direction(prob, pt, newton, b, r_c) == match factored(
                drv,
                ops,
                prob,
                b.w2,
            ) {
                None => None,
                Some(f) => Some(nt_direction(drv, prob, pt, f, b, r_c)),
            }
        }),
{
    let b = nt_upto(ops, pt.s, pt.y, prob.cones@, prob.cones@.len())->0;
    let b_x = primal_rhs(prob, pt, b.w2, b.w, r_c);
    let b_a = vneg(equality_residual(prob, pt));
    law_nt_scaling_is_local_and_symmetric(ops, pt.s, pt.y, prob.cones@);
    assert(b_x.len() == prob.c@.len() && b_a.len() == prob.b@.len());
    match newton(b.w2, b_x, b_a) {
        None => {},
        Some((dx, dl)) => {
            let f = factored(drv, ops, prob, b.w2)->0;
            law_structured_step_is_the_solution(drv, ops, prob, b.w2, f, b_x, b_a, dx, dl);
        },
    }
}

/// One step of the structured driver is one of the dense driver.
pub proof fn law_structured_iteration_is_dense_iteration<T: Real, C: ConeOps<T>>(
    drv: Driver<T>,
    ops: &C,
    prob: &SocpProblem<T>,
    newton: NewtonSolver<T>,
    pt: Point<T>,
)
    requires
        exact_setting(drv, ops, prob),
        dense_newton(drv, ops, prob, newton),
        point_fits(prob, pt),
    ensures
        step(drv, ops, prob, pt) == dense_step(drv, ops, prob, newton, pt),
{
    let cones = prob.cones@;
    let nc = cones.len();
    if drv.nt {
        if nt_upto(ops, pt.s, pt.y, cones, nc) is Some {
            let b = nt_upto(ops, pt.s, pt.y, cones, nc)->0;
            assert forall|r_c: Seq<T>| #[trigger]
                dense_nt_direction(prob, pt, newton, b, r_c) == match factored(
                drv,
                ops,
                prob,
                b.w2,
            ) {
                None => None,
                Some(f) => Some(nt_direction(drv, prob, pt, f, b, r_c)),
            } by {
                lemma_same_nt_direction(drv, ops, prob, newton, pt, r_c);
            }
        }
        reveal(nt_step);
        reveal(dense_nt_step);
    } else {
        if arrows_upto(ops, pt.s, pt.y, cones, nc) is Some {
            let b = arrows_upto(ops, pt.s, pt.y, cones, nc)->0;
            assert forall|r_c: Seq<T>| #[trigger]
                dense_aho_direction(prob, pt, newton, b, r_c) == match factored(
                drv,
                ops,
                prob,
                b.m,
            ) {
                None => None,
                Some(f) => Some(aho_direction(drv, prob, pt, f, b, r_c)),
            } by {
                lemma_same_aho_direction(drv, ops, prob, newton, pt, r_c);
            }
        }
        reveal(aho_step);
        reveal(dense_aho_step);
    }
}

proof fn lemma_same_run<T: Real, C: ConeOps<T>>(
    drv: Driver<T>,
    ops: &C,
    prob: &SocpProblem<T>,
    newton: NewtonSolver<T>,
    params: IpmAlgoParams<T>,
    st: Progress<T>,
    iter: u32,
    cap: u32,
)
    requires
        exact_setting(drv, ops, prob),
        dense_newton(drv, ops, prob, newton),
        point_fits(prob, st.pt),
    ensures
        run(drv, ops, prob, params, st, iter, cap) == dense_run(
            drv,
            ops,
            prob,
            newton,
            params,
            st,
            iter,
            cap,
        ),
    decreases cap - iter,
{
    if iter < cap {
        law_structured_iteration_is_dense_iteration(drv, ops, prob, newton, st.pt);
        lemma_step_fits(drv, ops, prob, st.pt);
        let s = step(drv, ops, prob, st.pt);
        let best = refreshed(ops, prob, params, st.pt, st.best);
        if s.go is On {
            lemma_same_run(
                drv,
                ops,
                prob,
                newton,
                params,
                Progress { pt: s.pt, prev_x: st.pt.x, prev_y: st.pt.y, best },
                (iter + 1) as u32,
                cap,
            );
        }
    }
}

/// The direct structured drivers, with either direction and with fixed or free final time,
/// return what a dense driver of the same recipe returns.
pub proof fn law_structured_driver_agrees_with_dense<T: Real, C: ConeOps<T>>(
    drv: Driver<T>,
    ops: &C,
    prob: &SocpProblem<T>,
    newton: NewtonSolver<T>,
    params: IpmAlgoParams<T>,
    pt: Point<T>,
)
    requires
        exact_setting(drv, ops, prob),
        dense_newton(drv, ops, prob, newton),
        point_fits(prob, pt),
    ensures
        solved(drv, ops, prob, params, pt) == dense_solved(drv, ops, prob, newton, params, pt),
{
    let from = starting_point(ops, prob, params.warm_start_x, pt);
    let nc = prob.cones@.len();
    lemma_start_len(ops, prob.h@, prob.cones@, nc);
    lemma_start_len(
        ops,
        vsub(prob.h@, mat_vec(num::<T>(0), prob.g_mat@, pt.x)),
        prob.cones@,
        nc,
    );
    lemma_same_run(
        drv,
        ops,
        prob,
        newton,
        params,
        Progress { pt: from, prev_x: from.x, prev_y: from.y, best: None },
        0,
        iteration_cap(params.max_iters, drv.hard_max_iters),
    );
}

/// The structured self-dual driver's two systems, the coupling and the direction, have
/// the solutions that `newton` finds.
proof fn lemma_same_hsd_directions<T: Real, C: ConeOps<T>>(
    drv: Driver<T>,
    ops: &C,
    prob: &SocpProblem<T>,
    newton: NewtonSolver<T>,
    e: Embedded<T>,
    k: Coupling<T>,
    r_c: Seq<T>,
    r6: T,
)
    requires
        exact_setting(drv, ops, prob),
        dense_newton(drv, ops, prob, newton),
        point_fits(prob, e.pt),
        nt_upto(ops, e.pt.s, e.pt.y, prob.cones@, prob.cones@.len()) is Some,
    ensures
        ({
            let b = nt_upto(ops, e.pt.s, e.pt.y, prob.cones@, prob.cones@.len())->0;
            let n = drv.n as int;
            match factored(drv, ops, prob, b.w2) {
                None => {
                    &&& dense_coupling(prob, e, newton, b) is None
                    &&& dense_hsd_direction(prob, e, newton, b, k, r_c, r6) is None
                },
                Some(f) => {
                    &&& dense_coupling(prob, e, newton, b) == Some(coupling(n, prob, e, f, b))
                    &&& dense_hsd_direction(prob, e, newton, b, k, r_c, r6) == Some(
                        hsd_direction(n, prob, e, f, b, k, r_c, r6),
                    )
                },
            }
        }),
{
    let z = num::<T>(0);
    let b = nt_upto(ops, e.pt.s, e.pt.y, prob.cones@, prob.cones@.len())->0;
    let m = b.w2;
    law_nt_scaling_is_local_and_symmetric(ops, e.pt.s, e.pt.y, prob.cones@);
    let gw2h = mat_t_vec(z, prob.g_mat@, prob.c@.len() as int, mat_vec(z, m, prob.h@));
    let c_x = vsub(gw2h, prob.c@);
    let b_x = hsd_rhs(prob, e, b, r_c);
    let b_a = vneg(hsd_equality(prob, e));
    assert(c_x.len() == prob.c@.len() && b_x.len() == prob.c@.len());
    assert(b_a.len() == prob.b@.len());
    if factored(drv, ops, prob, m) is Some {
        let f = factored(drv, ops, prob, m)->0;
        let (dx_t, dl_t) = newton(m, c_x, prob.b@)->0;
        law_structured_step_is_the_solution(drv, ops, prob, m, f, c_x, prob.b@, dx_t, dl_t);
        let (dx_r, dl_r) = newton(m, b_x, b_a)->0;
        law_structured_step_is_the_solution(drv, ops, prob, m, f, b_x, b_a, dx_r, dl_r);
    } else {
        assert(newton(m, c_x, prob.b@) is None);
        assert(newton(m, b_x, b_a) is None);
    }
}

/// One step of the structured self-dual driver is one of the dense self-dual driver.
pub proof fn law_structured_hsd_iteration_is_dense_iteration<T: Real, C: ConeOps<T>>(
    drv: Driver<T>,
    ops: &C,
    prob: &SocpProblem<T>,
    newton: NewtonSolver<T>,
    e: Embedded<T>,
)
    requires
        exact_setting(drv, ops, prob),
        dense_newton(drv, ops, prob, newton),
        point_fits(prob, e.pt),
    ensures
        hsd_step(drv, ops, prob, e) == dense_hsd_step(drv, ops, prob, newton, e),
{
    reveal(dense_hsd_step);
    reveal(hsd_factored_step);
    if nt_upto(ops, e.pt.s, e.pt.y, prob.cones@, prob.cones@.len()) is Some {
        let b = nt_upto(ops, e.pt.s, e.pt.y, prob.cones@, prob.cones@.len())->0;
        let n = drv.n as int;
        let r6 = times(negated(e.tau), e.kappa);
        if factored(drv, ops, prob, b.w2) is Some {
            let f = factored(drv, ops, prob, b.w2)->0;
            let k = coupling(n, prob, e, f, b);
            lemma_same_hsd_directions(drv, ops, prob, newton, e, k, b.s_scaled, r6);
            let aff = hsd_direction(n, prob, e, f, b, k, b.s_scaled, r6);
            let mu = hsd_mu(prob, e);
            let sigma = hsd_sigma(
                drv.limits,
                mu,
                hsd_affine_mu(prob, e, aff, hsd_alpha(ops, prob, e, aff)),
            );
            lemma_same_hsd_directions(
                drv,
                ops,
                prob,
                newton,
                e,
                k,
                hsd_corrector_term(ops, prob, b, aff.ds, times(sigma, mu)),
                minus(minus(times(sigma, mu), times(e.tau, e.kappa)), times(aff.dtau, aff.dkappa)),
            );
            assert(dense_hsd_corrector(drv, ops, prob, e, newton, b, k, aff) == hsd_corrector(
                drv,
                ops,
                prob,
                e,
                f,
                b,
                k,
                aff,
            ));
        } else {
            let k = dense_coupling(prob, e, newton, b)->0;
            lemma_same_hsd_directions(drv, ops, prob, newton, e, k, b.s_scaled, r6);
        }
    }
}

proof fn lemma_same_hsd_run<T: Real, C: ConeOps<T>>(
    drv: Driver<T>,
    ops: &C,
    prob: &SocpProblem<T>,
    newton: NewtonSolver<T>,
    params: IpmAlgoParams<T>,
    st: HsdProgress<T>,
    iter: u32,
    cap: u32,
)
    requires
        exact_setting(drv, ops, prob),
        dense_newton(drv, ops, prob, newton),
        point_fits(prob, st.e.pt),
    ensures
        hsd_run(drv, ops, prob, params, st, iter, cap) == dense_hsd_run(
            drv,
            ops,
            prob,
            newton,
            params,
            st,
            iter,
            cap,
        ),
    decreases cap - iter,
{
    if iter < cap {
        law_structured_hsd_iteration_is_dense_iteration(drv, ops, prob, newton, st.e);
        lemma_hsd_step_proper(drv, ops, prob, st.e);
        let s = hsd_step(drv, ops, prob, st.e);
        if s.go is On {
            let best = hsd_refreshed(ops, prob, params, st.e, st.best);
            lemma_same_hsd_run(
                drv,
                ops,
                prob,
                newton,
                params,
                HsdProgress { e: s.e, shown: recovered(st.e), best },
                (iter + 1) as u32,
                cap,
            );
        }
    }
}

/// The structured self-dual drivers, with fixed or free final time, return what a dense
/// self-dual driver of the same recipe returns.
pub proof fn law_structured_hsd_driver_agrees_with_dense<T: Real, C: ConeOps<T>>(
    drv: Driver<T>,
    ops: &C,
    prob: &SocpProblem<T>,
    newton: NewtonSolver<T>,
    params: IpmAlgoParams<T>,
    pt: Point<T>,
)
    requires
        exact_setting(drv, ops, prob),
        dense_newton(drv, ops, prob, newton),
    ensures
        hsd_solved(drv, ops, prob, params, pt) == dense_hsd_solved(
            drv,
            ops,
            prob,
            newton,
            params,
            pt,
        ),
{
    lemma_center::<T>(prob.h@.len() as int, prob.cones@, prob.cones@.len());
    lemma_same_hsd_run(
        drv,
        ops,
        prob,
        newton,
        params,
        HsdProgress { e: central(prob), shown: pt, best: None },
        0,
        iteration_cap(params.max_iters, drv.hard_max_iters),
    );
}

} // verus!
