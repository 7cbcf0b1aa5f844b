//! What the interior-point drivers are for: a full step along any of their directions
//! solves the linear part of the optimality conditions, an optimal result satisfies these
//! conditions within the tolerances, entry by entry, and steps stop short of the cones'
//! boundaries.
use crate::algebra::{
    field, lemma_add_assoc, lemma_add_comm, lemma_add_neg, lemma_add_swap, lemma_add_zero,
    lemma_distrib, lemma_div_cancel, lemma_dot_add, lemma_dot_zero, lemma_mul_comm, lemma_mul_one,
    lemma_mul_sub, lemma_mul_zero, lemma_neg_add, lemma_neg_mul, lemma_neg_neg, lemma_sub_def,
    lemma_sub_facts, lemma_sub_pairs,
};
use crate::cones::{
    identity_upto, interior_of, part, step_of, step_upto, ArrowModel, ConeOps, NtModel,
};
use crate::embedding_laws::{embedding_setting, law_embedded_direction_is_newton_step};
use crate::kkt_backend::KktModel;
use crate::linalg::{
    column, dot, dot_upto, mat_mul, mat_t_vec, mat_vec, shaped, transpose, vadd, vneg, vscale, vsub,
};
use crate::newton_laws::{
    kkt_setting, law_nt_direction_is_newton_step, law_symmetric_direction_is_newton_step,
    lemma_flat_forms, lemma_setting_sizes,
};
use crate::numerics::{root_of, Numerics};
use crate::scalar::{
    at_most, finite, larger, less, magnitude, minus, negated, num, over, plus, ratio, smaller, times, units,
    Real, Scalar, Units,
};
use crate::solver_laws::{
    law_recovered_residuals, lemma_center, lemma_hsd_step_proper, lemma_start_len, lemma_step_fits,
};
use crate::start_laws::{
    lemma_larger, lemma_less_is_positive, lemma_order, lemma_product_less, lemma_same_square,
    lemma_square_not_negative, lemma_sum_less, ordered_field, root_exact,
};
use crate::structured_hsd::{
    central, coupling, hsd_cone, hsd_direction, hsd_dual, hsd_equality, hsd_optimal, hsd_rhs,
    hsd_run, hsd_refreshed, hsd_solved, hsd_step, positive, recovered, Embedded, HsdProgress,
};
use crate::structured_socp::{
    adaptive_backoff, aho_direction, aho_step, amax_upto, blended, centered, complementarity, cone_residual,
    dual_residual, equality_residual, fits, hessian_reg, iteration_cap, norm, nt_direction,
    nt_step, optimal, point_fits, primal_rhs, refreshed, run, solved, sound, starting_point, step, step_length,
    weight_upto, Direction, Driver, Progress,
};
use crate::types::{ConeDesc, IpmAlgoParams, IpmStatus, Point, ResultModel, SocpProblem};
use vstd::prelude::*;

verus! {

// ---- the optimality conditions ----

/// `A x == b`, row by row.
pub open spec fn meets_equalities<T: Real>(prob: &SocpProblem<T>, x: Seq<T>) -> bool {
    forall|r: int|
        0 <= r < prob.b@.len() ==> dot(num::<T>(0), #[trigger] prob.a_mat@[r], x) == prob.b@[r]
}

/// `G x + s == h`, row by row.
pub open spec fn meets_slacks<T: Real>(prob: &SocpProblem<T>, x: Seq<T>, s: Seq<T>) -> bool {
    forall|r: int|
        0 <= r < prob.h@.len() ==> plus(
            dot(num::<T>(0), #[trigger] prob.g_mat@[r], x),
            s[r],
        ) == prob.h@[r]
}

/// The slope of the Lagrangian in variable `j`: `c + A' lambda + G' y`.
pub open spec fn slope<T: Real>(
    prob: &SocpProblem<T>,
    lambda: Seq<T>,
    y: Seq<T>,
    j: int,
) -> T {
    let z = num::<T>(0);
    plus(
        plus(prob.c@[j], dot(z, column(prob.a_mat@, j), lambda)),
        dot(z, column(prob.g_mat@, j), y),
    )
}

/// The weight on the step that keeps the reduced system regular.
pub open spec fn damping<T: Real>() -> T {
    ratio::<T>(1, 100_000_000)
}

// ---- full steps ----

/// `p - (p - b) == b`.
proof fn lemma_closed<T: Scalar>(u: Units<T>, p: T, b: T)
    requires
        field(u),
    ensures
        plus(p, negated(minus(p, b))) == b,
{
    lemma_sub_facts(u, p, minus(p, b));
    lemma_sub_def(u, p, minus(p, b));
    lemma_sub_def(u, p, b);
    lemma_neg_add(u, p, negated(b));
    lemma_neg_neg(u, b);
    lemma_add_assoc(u, p, negated(p), b);
    lemma_add_neg(u, p);
    lemma_add_zero(u, b);
}

/// `((c + (a + b)) + (g + h)) + r == ((c + a) + g) + ((r + h) + b)`.
proof fn lemma_slope_parts<T: Scalar>(u: Units<T>, c: T, a: T, b: T, g: T, h: T, r: T)
    requires
        field(u),
    ensures
        plus(plus(plus(c, plus(a, b)), plus(g, h)), r) == plus(
            plus(plus(c, a), g),
            plus(plus(r, h), b),
        ),
{
    lemma_add_assoc(u, c, a, b);
    lemma_add_swap(u, plus(c, a), b, g, h);
    let q = plus(plus(c, a), g);
    lemma_add_assoc(u, q, plus(b, h), r);
    lemma_add_comm(u, plus(b, h), r);
    lemma_add_comm(u, b, h);
    lemma_add_assoc(u, r, h, b);
}

/// The steps of any direction that satisfies the three linear Newton equations lead to
/// where the linear optimality conditions hold.
proof fn lemma_full_step<T: Real>(
    prob: &SocpProblem<T>,
    pt: Point<T>,
    d: Direction<T>,
)
    requires
        field(units::<T>()),
        prob.sized(prob.c@.len() as int, prob.b@.len() as int, prob.h@.len() as int),
        point_fits(prob, pt),
        d.dx.len() == prob.c@.len(),
        d.dl.len() == prob.b@.len(),
        d.ds.len() == prob.h@.len(),
        d.dy.len() == prob.h@.len(),
        ({
            let z = num::<T>(0);
            let np = prob.c@.len() as int;
            &&& mat_vec(z, prob.a_mat@, d.dx) == vneg(equality_residual(prob, pt))
            &&& vadd(mat_vec(z, prob.g_mat@, d.dx), d.ds) == vneg(cone_residual(prob, pt))
            &&& vadd(
                vadd(
                    vscale(d.dx, hessian_reg::<T>()),
                    mat_t_vec(z, prob.g_mat@, np, d.dy),
                ),
                mat_t_vec(z, prob.a_mat@, np, d.dl),
            ) == vneg(dual_residual(prob, pt))
        }),
    ensures
        lands(prob, pt, d),
{
    let u = units::<T>();
    let z = num::<T>(0);
    let np = prob.c@.len() as int;
    let a = prob.a_mat@;
    let g = prob.g_mat@;
    assert forall|r: int| 0 <= r < prob.b@.len() implies dot(
        z,
        #[trigger] a[r],
        vadd(pt.x, d.dx),
    ) == prob.b@[r] by {
        assert(a[r].len() == np);
        lemma_dot_add(u, a[r], pt.x, d.dx, np as nat);
        assert(mat_vec(z, a, d.dx)[r] == vneg(equality_residual(prob, pt))[r]);
        lemma_closed(u, dot(z, a[r], pt.x), prob.b@[r]);
    }
    assert forall|r: int| 0 <= r < prob.h@.len() implies plus(
        dot(z, #[trigger] g[r], vadd(pt.x, d.dx)),
        vadd(pt.s, d.ds)[r],
    ) == prob.h@[r] by {
        assert(g[r].len() == np);
        lemma_dot_add(u, g[r], pt.x, d.dx, np as nat);
        let gx = dot(z, g[r], pt.x);
        let gd = dot(z, g[r], d.dx);
        assert(vadd(mat_vec(z, g, d.dx), d.ds)[r] == vneg(cone_residual(prob, pt))[r]);
        lemma_add_swap(u, gx, gd, pt.s[r], d.ds[r]);
        lemma_closed(u, plus(gx, pt.s[r]), prob.h@[r]);
    }
    assert forall|j: int| 0 <= j < np implies plus(
        #[trigger] slope(prob, vadd(pt.lambda, d.dl), vadd(pt.y, d.dy), j),
        times(d.dx[j], damping::<T>()),
    ) == z by {
        let ca = column(a, j);
        let cg = column(g, j);
        lemma_dot_add(u, ca, pt.lambda, d.dl, ca.len());
        lemma_dot_add(u, cg, pt.y, d.dy, cg.len());
        let r_x = dual_residual(prob, pt)[j];
        assert(vadd(
            vadd(vscale(d.dx, hessian_reg::<T>()), mat_t_vec(z, g, np, d.dy)),
            mat_t_vec(z, a, np, d.dl),
        )[j] == vneg(dual_residual(prob, pt))[j]);
        lemma_slope_parts(
            u,
            prob.c@[j],
            dot(z, ca, pt.lambda),
            dot(z, ca, d.dl),
            dot(z, cg, pt.y),
            dot(z, cg, d.dy),
            times(d.dx[j], damping::<T>()),
        );
        lemma_add_neg(u, r_x);
    }
}

/// After the full step `d` from `pt` the equality rows hold, the slacks are what the cone
/// rows leave, and the slope vanishes up to the damped step.
pub open spec fn lands<T: Real>(prob: &SocpProblem<T>, pt: Point<T>, d: Direction<T>) -> bool {
    &&& meets_equalities(prob, vadd(pt.x, d.dx))
    &&& meets_slacks(prob, vadd(pt.x, d.dx), vadd(pt.s, d.ds))
    &&& forall|j: int|
        0 <= j < prob.c@.len() ==> plus(
            #[trigger] slope(prob, vadd(pt.lambda, d.dl), vadd(pt.y, d.dy), j),
            times(d.dx[j], damping::<T>()),
        ) == num::<T>(0)
}

/// A full Nesterov-Todd step, of whatever cone term, leads to where the linear optimality
/// conditions hold.
pub proof fn law_full_nt_step_lands<T: Real>(
    drv: Driver<T>,
    prob: &SocpProblem<T>,
    pt: Point<T>,
    f: KktModel<T>,
    b: NtModel<T>,
    r_c: Seq<T>,
)
    requires
        kkt_setting(
            units::<T>(),
            prob,
            b.w2,
            hessian_reg::<T>(),
            drv.n as int,
            f,
            primal_rhs(prob, pt, b.w2, b.w, r_c),
            vneg(equality_residual(prob, pt)),
        ),
        point_fits(prob, pt),
        shaped(b.w, prob.h@.len() as int, prob.h@.len() as int),
        r_c.len() == prob.h@.len(),
    ensures
        lands(prob, pt, nt_direction(drv, prob, pt, f, b, r_c)),
{
    let d = nt_direction(drv, prob, pt, f, b, r_c);
    let b_x = primal_rhs(prob, pt, b.w2, b.w, r_c);
    let b_a = vneg(equality_residual(prob, pt));
    law_nt_direction_is_newton_step(drv, prob, pt, f, b, r_c);
    lemma_setting_sizes(
        units::<T>(),
        prob,
        b.w2,
        hessian_reg::<T>(),
        drv.n as int,
        f,
        b_x,
        b_a,
    );
    lemma_flat_forms(
        units::<T>(),
        prob,
        b.w2,
        hessian_reg::<T>(),
        drv.n as int,
        f,
        b_x,
        b_a,
    );
    lemma_full_step(prob, pt, d);
}

/// A full symmetric step, of whatever cone term, leads to where the linear optimality
/// conditions hold.
pub proof fn law_full_symmetric_step_lands<T: Real>(
    drv: Driver<T>,
    prob: &SocpProblem<T>,
    pt: Point<T>,
    f: KktModel<T>,
    b: ArrowModel<T>,
    arrow_s: Seq<Seq<T>>,
    r_c: Seq<T>,
)
    requires
        kkt_setting(
            units::<T>(),
            prob,
            b.m,
            hessian_reg::<T>(),
            drv.n as int,
            f,
            primal_rhs(prob, pt, b.m, b.s_inv, r_c),
            vneg(equality_residual(prob, pt)),
        ),
        point_fits(prob, pt),
        shaped(b.s_inv, prob.h@.len() as int, prob.h@.len() as int),
        shaped(b.y, prob.h@.len() as int, prob.h@.len() as int),
        b.m == mat_mul(num::<T>(0), b.s_inv, b.y, prob.h@.len() as int),
        forall|v: Seq<T>|
            v.len() == prob.h@.len() ==> mat_vec(
                num::<T>(0),
                arrow_s,
                #[trigger] mat_vec(num::<T>(0), b.s_inv, v),
            ) == v,
        r_c.len() == prob.h@.len(),
    ensures
        lands(prob, pt, aho_direction(drv, prob, pt, f, b, r_c)),
{
    let d = aho_direction(drv, prob, pt, f, b, r_c);
    let b_x = primal_rhs(prob, pt, b.m, b.s_inv, r_c);
    let b_a = vneg(equality_residual(prob, pt));
    law_symmetric_direction_is_newton_step(drv, prob, pt, f, b, arrow_s, r_c);
    lemma_setting_sizes(
        units::<T>(),
        prob,
        b.m,
        hessian_reg::<T>(),
        drv.n as int,
        f,
        b_x,
        b_a,
    );
    lemma_flat_forms(
        units::<T>(),
        prob,
        b.m,
        hessian_reg::<T>(),
        drv.n as int,
        f,
        b_x,
        b_a,
    );
    lemma_full_step(prob, pt, d);
}

/// `(p + q) == (r + t)` where `q - t == -(p - r)`.
proof fn lemma_balanced<T: Scalar>(u: Units<T>, p: T, q: T, r: T, t: T)
    requires
        field(u),
        minus(q, t) == negated(minus(p, r)),
    ensures
        plus(p, q) == plus(r, t),
{
    lemma_sub_pairs(u, p, q, r, t);
    lemma_add_neg(u, minus(p, r));
    let s = plus(p, q);
    let v = plus(r, t);
    assert(minus(s, v) == u.zero);
    lemma_sub_facts(u, s, v);
    lemma_add_zero(u, v);
}

/// A full step in the self-dual embedding closes its linear equations: `A x == b tau`,
/// `G x + s == h tau`, `c tau + A' lambda + G' y` vanishes up to the damped step, and
/// `kappa + c x + b lambda + h y == 0`, all at the new point.
pub proof fn law_full_embedded_step_lands<T: Real>(
    n: int,
    prob: &SocpProblem<T>,
    e: Embedded<T>,
    f: KktModel<T>,
    b: NtModel<T>,
    r_c: Seq<T>,
    r6: T,
)
    requires
        embedding_setting(n, prob, e, f, b, r_c),
        transpose(b.w2, prob.h@.len() as int) == b.w2,
        e.tau != num::<T>(0),
        coupling(n, prob, e, f, b).coef != num::<T>(0),
    ensures
        ({
            let z = num::<T>(0);
            let d = hsd_direction(n, prob, e, f, b, coupling(n, prob, e, f, b), r_c, r6);
            let x = vadd(e.pt.x, d.dx);
            let lambda = vadd(e.pt.lambda, d.dl);
            let s = vadd(e.pt.s, d.ds);
            let y = vadd(e.pt.y, d.dy);
            let tau = plus(e.tau, d.dtau);
            let kappa = plus(e.kappa, d.dkappa);
            &&& forall|r: int|
                0 <= r < prob.b@.len() ==> dot(z, #[trigger] prob.a_mat@[r], x) == times(
                    prob.b@[r],
                    tau,
                )
            &&& forall|r: int|
                0 <= r < prob.h@.len() ==> plus(dot(z, #[trigger] prob.g_mat@[r], x), s[r])
                    == times(prob.h@[r], tau)
            &&& forall|j: int|
                0 <= j < prob.c@.len() ==> plus(
                    plus(
                        plus(
                            times(#[trigger] prob.c@[j], tau),
                            dot(z, column(prob.a_mat@, j), lambda),
                        ),
                        dot(z, column(prob.g_mat@, j), y),
                    ),
                    times(d.dx[j], damping::<T>()),
                ) == z
            &&& plus(plus(plus(kappa, dot(z, prob.c@, x)), dot(z, prob.b@, lambda)), dot(z, prob.h@, y))
                == z
        }),
{
    let u = units::<T>();
    let z = num::<T>(0);
    let np = prob.c@.len() as int;
    let a = prob.a_mat@;
    let g = prob.g_mat@;
    let k = coupling(n, prob, e, f, b);
    let d = hsd_direction(n, prob, e, f, b, k, r_c, r6);
    law_embedded_direction_is_newton_step(n, prob, e, f, b, r_c, r6);
    let b_x = hsd_rhs(prob, e, b, r_c);
    let b_a = vneg(hsd_equality(prob, e));
    lemma_setting_sizes(u, prob, b.w2, hessian_reg::<T>(), n, f, b_x, b_a);
    lemma_flat_forms(u, prob, b.w2, hessian_reg::<T>(), n, f, b_x, b_a);
    let x = vadd(e.pt.x, d.dx);
    let lambda = vadd(e.pt.lambda, d.dl);
    let s = vadd(e.pt.s, d.ds);
    let y = vadd(e.pt.y, d.dy);
    let tau = plus(e.tau, d.dtau);
    assert(d.dx.len() == np);
    assert(d.ds.len() == prob.h@.len());
    assert forall|r: int| 0 <= r < prob.b@.len() implies dot(z, #[trigger] a[r], x) == times(
        prob.b@[r],
        tau,
    ) by {
        assert(a[r].len() == np);
        lemma_dot_add(u, a[r], e.pt.x, d.dx, np as nat);
        assert(vneg(hsd_equality(prob, e))[r] == negated(hsd_equality(prob, e)[r]));
        lemma_distrib(u, prob.b@[r], e.tau, d.dtau);
        assert(vsub(mat_vec(z, a, d.dx), vscale(prob.b@, d.dtau))[r] == negated(
            hsd_equality(prob, e)[r],
        ));
        lemma_balanced(
            u,
            dot(z, a[r], e.pt.x),
            dot(z, a[r], d.dx),
            times(prob.b@[r], e.tau),
            times(prob.b@[r], d.dtau),
        );
    }
    assert forall|r: int| 0 <= r < prob.h@.len() implies plus(dot(z, #[trigger] g[r], x), s[r])
        == times(prob.h@[r], tau) by {
        assert(g[r].len() == np);
        lemma_dot_add(u, g[r], e.pt.x, d.dx, np as nat);
        lemma_distrib(u, prob.h@[r], e.tau, d.dtau);
        assert(vsub(
            vadd(mat_vec(z, g, d.dx), d.ds),
            vscale(prob.h@, d.dtau),
        )[r] == vneg(hsd_cone(prob, e))[r]);
        let gx = dot(z, g[r], e.pt.x);
        let gd = dot(z, g[r], d.dx);
        lemma_add_swap(u, gx, gd, e.pt.s[r], d.ds[r]);
        lemma_balanced(
            u,
            plus(gx, e.pt.s[r]),
            plus(gd, d.ds[r]),
            times(prob.h@[r], e.tau),
            times(prob.h@[r], d.dtau),
        );
    }
    assert forall|j: int| 0 <= j < np implies plus(
        plus(
            plus(times(#[trigger] prob.c@[j], tau), dot(z, column(a, j), lambda)),
            dot(z, column(g, j), y),
        ),
        times(d.dx[j], damping::<T>()),
    ) == z by {
        let ca = column(a, j);
        let cg = column(g, j);
        lemma_dot_add(u, ca, e.pt.lambda, d.dl, ca.len());
        lemma_dot_add(u, cg, e.pt.y, d.dy, cg.len());
        lemma_distrib(u, prob.c@[j], e.tau, d.dtau);
        let ct = times(prob.c@[j], e.tau);
        let cd = times(prob.c@[j], d.dtau);
        let al = dot(z, ca, e.pt.lambda);
        let ad = dot(z, ca, d.dl);
        let gy = dot(z, cg, e.pt.y);
        let gd = dot(z, cg, d.dy);
        let rd = times(d.dx[j], damping::<T>());
        assert(vadd(
            vadd(
                vadd(vscale(d.dx, hessian_reg::<T>()), mat_t_vec(z, g, np, d.dy)),
                mat_t_vec(z, a, np, d.dl),
            ),
            vscale(prob.c@, d.dtau),
        )[j] == vneg(hsd_dual(prob, e))[j]);
        let r_x = plus(plus(ct, al), gy);
        assert(plus(plus(plus(rd, gd), ad), cd) == negated(r_x));
        // (((ct + cd) + (al + ad)) + (gy + gd)) + rd == r_x + (((rd + gd) + ad) + cd)
        lemma_add_swap(u, ct, cd, al, ad);
        lemma_add_swap(u, plus(ct, al), plus(cd, ad), gy, gd);
        lemma_add_assoc(u, r_x, plus(plus(cd, ad), gd), rd);
        lemma_add_comm(u, plus(plus(cd, ad), gd), rd);
        lemma_add_comm(u, plus(cd, ad), gd);
        lemma_add_assoc(u, rd, gd, plus(cd, ad));
        lemma_add_comm(u, cd, ad);
        lemma_add_assoc(u, plus(rd, gd), ad, cd);
        lemma_add_neg(u, r_x);
    }
    // the gap
    lemma_dot_add(u, prob.c@, e.pt.x, d.dx, np as nat);
    lemma_dot_add(u, prob.b@, e.pt.lambda, d.dl, prob.b@.len());
    lemma_dot_add(u, prob.h@, e.pt.y, d.dy, prob.h@.len());
    let p1 = dot(z, prob.c@, e.pt.x);
    let q1 = dot(z, prob.c@, d.dx);
    let p2 = dot(z, prob.b@, e.pt.lambda);
    let q2 = dot(z, prob.b@, d.dl);
    let p3 = dot(z, prob.h@, e.pt.y);
    let q3 = dot(z, prob.h@, d.dy);
    lemma_add_swap(u, e.kappa, d.dkappa, p1, q1);
    lemma_add_swap(u, plus(e.kappa, p1), plus(d.dkappa, q1), p2, q2);
    lemma_add_swap(
        u,
        plus(plus(e.kappa, p1), p2),
        plus(plus(d.dkappa, q1), q2),
        p3,
        q3,
    );
    lemma_add_neg(u, plus(plus(plus(e.kappa, p1), p2), p3));
}

// ---- optimal results ----

proof fn lemma_magnitude<T: Real>(v: T)
    requires
        ordered_field::<T>(),
    ensures
        at_most(num::<T>(0), magnitude(num::<T>(0), v)),
        times(magnitude(num::<T>(0), v), magnitude(num::<T>(0), v)) == times(v, v),
{
    let z = num::<T>(0);
    let u = units::<T>();
    lemma_order(z, v, v);
    lemma_order(v, z, z);
    if less(v, z) {
        let y = minus(z, v);
        lemma_less_is_positive(v, z);
        lemma_order(z, y, y);
        lemma_sub_facts(u, v, z);
        assert(y == negated(v));
        lemma_neg_mul(u, v, negated(v));
        lemma_mul_comm(u, v, negated(v));
        lemma_neg_mul(u, v, v);
        lemma_neg_neg(u, times(v, v));
    }
}

/// Squares keep the order of what is not negative.
proof fn lemma_squares_ordered<T: Real>(a: T, b: T)
    requires
        ordered_field::<T>(),
        at_most(num::<T>(0), a),
        less(a, b),
    ensures
        less(times(a, a), times(b, b)),
{
    let z = num::<T>(0);
    let u = units::<T>();
    lemma_order(z, a, b);
    lemma_product_less(b, a, b);
    lemma_mul_comm(u, a, b);
    lemma_order(times(a, a), times(b, a), times(b, b));
    if less(z, a) {
        lemma_product_less(a, a, b);
    } else {
        lemma_mul_zero(u, b);
        lemma_mul_zero(u, a);
        lemma_order(times(a, a), times(a, a), times(b, b));
    }
}

proof fn lemma_square_in_sum<T: Real>(v: Seq<T>, n: nat, i: int)
    requires
        ordered_field::<T>(),
        n <= v.len(),
    ensures
        at_most(num::<T>(0), dot_upto(num::<T>(0), v, v, n)),
        0 <= i < n ==> at_most(times(v[i], v[i]), dot_upto(num::<T>(0), v, v, n)),
    decreases n,
{
    let z = num::<T>(0);
    let u = units::<T>();
    lemma_order(z, z, z);
    if n > 0 {
        let p = (n - 1) as nat;
        let s = dot_upto(z, v, v, p);
        let t = times(v[n - 1], v[n - 1]);
        lemma_square_in_sum(v, p, i);
        lemma_square_not_negative(v[n - 1]);
        lemma_add_zero(u, z);
        lemma_sum_less(z, s, z, t);
        if 0 <= i < n {
            let q = times(v[i], v[i]);
            lemma_add_zero(u, q);
            lemma_add_zero(u, t);
            if i < p {
                lemma_sum_less(q, s, z, t);
                lemma_add_comm(u, q, z);
            } else {
                lemma_order(t, t, t);
                lemma_sum_less(z, s, t, t);
            }
        }
    }
}

/// No entry exceeds the norm.
proof fn lemma_entry_below_norm<T: Real, C: Numerics<T>>(ops: &C, v: Seq<T>, i: int)
    requires
        ordered_field::<T>(),
        root_exact(ops),
    ensures
        at_most(num::<T>(0), norm(ops, v)),
        0 <= i < v.len() ==> at_most(magnitude(num::<T>(0), v[i]), norm(ops, v)),
{
    let z = num::<T>(0);
    let q = dot(z, v, v);
    lemma_square_in_sum(v, v.len(), i);
    if 0 <= i < v.len() {
        let m = magnitude(z, v[i]);
        let r = norm(ops, v);
        lemma_magnitude(v[i]);
        lemma_order(m, r, r);
        lemma_order(r, m, m);
        if less(r, m) {
            lemma_squares_ordered(r, m);
            lemma_order(times(v[i], v[i]), q, q);
            lemma_order(q, times(v[i], v[i]), q);
        }
    }
}

/// The optimality conditions hold within the tolerances, in every entry: `A x` is `b` and
/// `G x + s` is `h` to within `tol_primal`, the slope is zero to within `tol_dual`, and the
/// mean of `s` times `y` is below `tol_mu`.
pub open spec fn optimal_within<T: Real>(
    prob: &SocpProblem<T>,
    pt: Point<T>,
    tol_mu: T,
    tol_primal: T,
    tol_dual: T,
) -> bool {
    let z = num::<T>(0);
    &&& forall|r: int|
        0 <= r < prob.b@.len() ==> less(
            magnitude(z, minus(dot(z, #[trigger] prob.a_mat@[r], pt.x), prob.b@[r])),
            tol_primal,
        )
    &&& forall|r: int|
        0 <= r < prob.h@.len() ==> less(
            magnitude(
                z,
                minus(plus(dot(z, #[trigger] prob.g_mat@[r], pt.x), pt.s[r]), prob.h@[r]),
            ),
            tol_primal,
        )
    &&& forall|j: int|
        0 <= j < prob.c@.len() ==> less(
            magnitude(z, #[trigger] slope(prob, pt.lambda, pt.y, j)),
            tol_dual,
        )
    &&& less(over(dot(z, pt.s, pt.y), num::<T>(prob.h@.len() as u32)), tol_mu)
}

/// A result that a direct driver calls optimal is optimal within the tolerances that were
/// asked for.
pub proof fn law_optimal_result_is_optimal<T: Real, C: ConeOps<T>>(
    drv: Driver<T>,
    ops: &C,
    prob: &SocpProblem<T>,
    params: IpmAlgoParams<T>,
    pt: Point<T>,
)
    requires
        ordered_field::<T>(),
        root_exact(ops),
        fits(drv, prob),
        point_fits(prob, pt),
        solved(drv, ops, prob, params, pt).result.status == IpmStatus::Optimal,
    ensures
        optimal_within(
            prob,
            solved(drv, ops, prob, params, pt).result.point,
            params.tol_mu,
            params.tol_primal,
            params.tol_dual,
        ),
{
    let from = starting_point(ops, prob, params.warm_start_x, pt);
    let nc = prob.cones@.len();
    lemma_start_len(ops, prob.h@, prob.cones@, nc);
    lemma_start_len(
        ops,
        vsub(prob.h@, mat_vec(num::<T>(0), prob.g_mat@, pt.x)),
        prob.cones@,
        nc,
    );
    lemma_run_optimal(
        drv,
        ops,
        prob,
        params,
        Progress { pt: from, prev_x: from.x, prev_y: from.y, best: None },
        0,
        iteration_cap(params.max_iters, drv.hard_max_iters),
    );
    lemma_optimal_within(ops, prob, params, solved(drv, ops, prob, params, pt).result.point);
}

proof fn lemma_run_optimal<T: Real, C: ConeOps<T>>(
    drv: Driver<T>,
    ops: &C,
    prob: &SocpProblem<T>,
    params: IpmAlgoParams<T>,
    st: Progress<T>,
    iter: u32,
    cap: u32,
)
    requires
        point_fits(prob, st.pt),
        run(drv, ops, prob, params, st, iter, cap).result.status == IpmStatus::Optimal,
    ensures
        ({
            let p = run(drv, ops, prob, params, st, iter, cap).result.point;
            optimal(ops, prob, params, p) && point_fits(prob, p)
        }),
    decreases cap - iter,
{
    if iter < cap && !optimal(ops, prob, params, st.pt) {
        let s = step(drv, ops, prob, st.pt);
        lemma_step_fits(drv, ops, prob, st.pt);
        let best = refreshed(ops, prob, params, st.pt, st.best);
        if s.go is On {
            let next = Progress { pt: s.pt, prev_x: st.pt.x, prev_y: st.pt.y, best };
            if run(drv, ops, prob, params, next, (iter + 1) as u32, cap).result.status
                == IpmStatus::Optimal {
                lemma_run_optimal(drv, ops, prob, params, next, (iter + 1) as u32, cap);
            }
        }
    }
}

/// Residual norms below the tolerances bound every entry.
proof fn lemma_optimal_within<T: Real, C: Numerics<T>>(
    ops: &C,
    prob: &SocpProblem<T>,
    params: IpmAlgoParams<T>,
    pt: Point<T>,
)
    requires
        ordered_field::<T>(),
        root_exact(ops),
        prob.sized(prob.c@.len() as int, prob.b@.len() as int, prob.h@.len() as int),
        point_fits(prob, pt),
        optimal(ops, prob, params, pt),
    ensures
        optimal_within(prob, pt, params.tol_mu, params.tol_primal, params.tol_dual),
{
    let z = num::<T>(0);
    let r_a = equality_residual(prob, pt);
    let r_g = cone_residual(prob, pt);
    let r_x = dual_residual(prob, pt);
    lemma_parts_below(norm(ops, r_a), norm(ops, r_g), params.tol_primal, ops, r_a, r_g);
    assert forall|r: int| 0 <= r < prob.b@.len() implies less(
        magnitude(z, minus(dot(z, #[trigger] prob.a_mat@[r], pt.x), prob.b@[r])),
        params.tol_primal,
    ) by {
        lemma_entry_below_norm(ops, r_a, r);
        assert(r_a[r] == minus(dot(z, prob.a_mat@[r], pt.x), prob.b@[r]));
        lemma_order(magnitude(z, r_a[r]), norm(ops, r_a), params.tol_primal);
    }
    assert forall|r: int| 0 <= r < prob.h@.len() implies less(
        magnitude(
            z,
            minus(plus(dot(z, #[trigger] prob.g_mat@[r], pt.x), pt.s[r]), prob.h@[r]),
        ),
        params.tol_primal,
    ) by {
        lemma_entry_below_norm(ops, r_g, r);
        assert(r_g[r] == minus(plus(dot(z, prob.g_mat@[r], pt.x), pt.s[r]), prob.h@[r]));
        lemma_order(magnitude(z, r_g[r]), norm(ops, r_g), params.tol_primal);
    }
    assert forall|j: int| 0 <= j < prob.c@.len() implies less(
        magnitude(z, #[trigger] slope(prob, pt.lambda, pt.y, j)),
        params.tol_dual,
    ) by {
        lemma_entry_below_norm(ops, r_x, j);
        assert(r_x[j] == slope(prob, pt.lambda, pt.y, j));
        lemma_order(magnitude(z, r_x[j]), norm(ops, r_x), params.tol_dual);
    }
}

/// Each of two norms is below what their sum is below.
proof fn lemma_parts_below<T: Real, C: Numerics<T>>(
    a: T,
    b: T,
    t: T,
    ops: &C,
    v: Seq<T>,
    w: Seq<T>,
)
    requires
        ordered_field::<T>(),
        root_exact(ops),
        a == norm(ops, v),
        b == norm(ops, w),
        less(plus(a, b), t),
    ensures
        less(a, t),
        less(b, t),
{
    let z = num::<T>(0);
    let u = units::<T>();
    lemma_entry_below_norm(ops, v, 0);
    lemma_entry_below_norm(ops, w, 0);
    lemma_order(a, a, a);
    lemma_order(b, b, b);
    lemma_sum_less(a, a, z, b);
    lemma_add_zero(u, a);
    lemma_sum_less(z, a, b, b);
    lemma_add_zero(u, b);
    lemma_add_comm(u, a, z);
    lemma_order(a, plus(a, b), t);
    lemma_order(b, plus(a, b), t);
}

/// A start that satisfies the optimality conditions exactly, with complementarity below its
/// tolerance, is returned as optimal without an iteration.
pub proof fn law_optimal_start_is_returned<T: Real, C: ConeOps<T>>(
    drv: Driver<T>,
    ops: &C,
    prob: &SocpProblem<T>,
    params: IpmAlgoParams<T>,
    pt: Point<T>,
)
    requires
        ordered_field::<T>(),
        root_exact(ops),
        fits(drv, prob),
        point_fits(prob, pt),
        0 < params.max_iters,
        0 < drv.hard_max_iters,
        less(num::<T>(0), params.tol_primal),
        less(num::<T>(0), params.tol_dual),
        ({
            let p = starting_point(ops, prob, params.warm_start_x, pt);
            &&& meets_equalities(prob, p.x)
            &&& meets_slacks(prob, p.x, p.s)
            &&& forall|j: int|
                0 <= j < prob.c@.len() ==> #[trigger] slope(prob, p.lambda, p.y, j) == num::<T>(0)
            &&& less(
                over(dot(num::<T>(0), p.s, p.y), num::<T>(prob.h@.len() as u32)),
                params.tol_mu,
            )
        }),
    ensures
        solved(drv, ops, prob, params, pt).result == (ResultModel {
            point: starting_point(ops, prob, params.warm_start_x, pt),
            status: IpmStatus::Optimal,
            iters: 0,
        }),
{
    let u = units::<T>();
    let z = num::<T>(0);
    let p = starting_point(ops, prob, params.warm_start_x, pt);
    let nc = prob.cones@.len();
    lemma_start_len(ops, prob.h@, prob.cones@, nc);
    lemma_start_len(
        ops,
        vsub(prob.h@, mat_vec(z, prob.g_mat@, pt.x)),
        prob.cones@,
        nc,
    );
    lemma_order(z, z, z);
    let r_a = equality_residual(prob, p);
    let r_g = cone_residual(prob, p);
    let r_x = dual_residual(prob, p);
    assert forall|i: int| 0 <= i < r_a.len() implies r_a[i] == z by {
        assert(dot(z, prob.a_mat@[i], p.x) == prob.b@[i]);
        lemma_sub_facts(u, prob.b@[i], z);
    }
    assert forall|i: int| 0 <= i < r_g.len() implies r_g[i] == z by {
        assert(plus(dot(z, prob.g_mat@[i], p.x), p.s[i]) == prob.h@[i]);
        lemma_sub_facts(u, prob.h@[i], z);
    }
    assert forall|i: int| 0 <= i < r_x.len() implies r_x[i] == z by {
        assert(slope(prob, p.lambda, p.y, i) == z);
    }
    lemma_norm_of_zeros(ops, r_a);
    lemma_norm_of_zeros(ops, r_g);
    lemma_norm_of_zeros(ops, r_x);
    lemma_add_zero(u, z);
    assert(p.s.len() == prob.h@.len());
    assert(optimal(ops, prob, params, p));
}

proof fn lemma_norm_of_zeros<T: Real, C: Numerics<T>>(ops: &C, v: Seq<T>)
    requires
        ordered_field::<T>(),
        root_exact(ops),
        forall|i: int| 0 <= i < v.len() ==> v[i] == num::<T>(0),
    ensures
        norm(ops, v) == num::<T>(0),
{
    let z = num::<T>(0);
    lemma_order(z, z, z);
    lemma_dot_zero(units::<T>(), v, v, v.len());
    lemma_mul_zero(units::<T>(), z);
    lemma_same_square(root_of(ops, z), z);
}

/// `pt` is what the embedded point stands for: all but the two rays, divided by `tau`.
pub open spec fn stood_for<T: Real>(e: Embedded<T>, pt: Point<T>) -> bool {
    let inv = over(num::<T>(1), e.tau);
    &&& pt.x == Seq::new(e.pt.x.len(), |i: int| times(e.pt.x[i], inv))
    &&& pt.lambda == Seq::new(e.pt.lambda.len(), |i: int| times(e.pt.lambda[i], inv))
    &&& pt.s == Seq::new(e.pt.s.len(), |i: int| times(e.pt.s[i], inv))
    &&& pt.y == Seq::new(e.pt.y.len(), |i: int| times(e.pt.y[i], inv))
}

/// The complementarity of an embedded point: the mean of `s y` over the cones and
/// `tau kappa`.
pub open spec fn mean_product<T: Real>(prob: &SocpProblem<T>, e: Embedded<T>) -> T {
    over(
        plus(dot(num::<T>(0), e.pt.s, e.pt.y), times(e.tau, e.kappa)),
        num::<T>((prob.cones@.len() + 1) as u32),
    )
}

/// A result that a self-dual driver calls optimal satisfies the equality rows, the cone
/// rows and stationarity of the program itself within the tolerances, entry by entry, and
/// stands for an embedded point with complementarity below its tolerance.
pub proof fn law_optimal_embedded_result_is_optimal<T: Real, C: ConeOps<T>>(
    drv: Driver<T>,
    ops: &C,
    prob: &SocpProblem<T>,
    params: IpmAlgoParams<T>,
    pt: Point<T>,
)
    requires
        ordered_field::<T>(),
        root_exact(ops),
        fits(drv, prob),
        hsd_solved(drv, ops, prob, params, pt).result.status == IpmStatus::Optimal,
    ensures
        ({
            let p = hsd_solved(drv, ops, prob, params, pt).result.point;
            let z = num::<T>(0);
            &&& exists|e: Embedded<T>|
                #[trigger] stood_for(e, p) && less(z, e.tau) && less(
                    mean_product(prob, e),
                    params.tol_mu,
                )
            &&& forall|r: int|
                0 <= r < prob.b@.len() ==> less(
                    magnitude(z, minus(dot(z, #[trigger] prob.a_mat@[r], p.x), prob.b@[r])),
                    params.tol_primal,
                )
            &&& forall|r: int|
                0 <= r < prob.h@.len() ==> less(
                    magnitude(
                        z,
                        minus(plus(dot(z, #[trigger] prob.g_mat@[r], p.x), p.s[r]), prob.h@[r]),
                    ),
                    params.tol_primal,
                )
            &&& forall|j: int|
                0 <= j < prob.c@.len() ==> less(
                    magnitude(z, #[trigger] slope(prob, p.lambda, p.y, j)),
                    params.tol_dual,
                )
        }),
{
    let u = units::<T>();
    let z = num::<T>(0);
    lemma_center::<T>(prob.h@.len() as int, prob.cones@, prob.cones@.len());
    let e = lemma_hsd_run_optimal(
        drv,
        ops,
        prob,
        params,
        HsdProgress { e: central(prob), shown: pt, best: None },
        0,
        iteration_cap(params.max_iters, drv.hard_max_iters),
    );
    let p = recovered(e);
    let inv = over(num::<T>(1), e.tau);
    assert(stood_for(e, p)) by {
        assert(p.x =~= Seq::new(e.pt.x.len(), |i: int| times(e.pt.x[i], inv)));
        assert(p.lambda =~= Seq::new(e.pt.lambda.len(), |i: int| times(e.pt.lambda[i], inv)));
        assert(p.s =~= Seq::new(e.pt.s.len(), |i: int| times(e.pt.s[i], inv)));
        assert(p.y =~= Seq::new(e.pt.y.len(), |i: int| times(e.pt.y[i], inv)));
    }
    lemma_order(z, e.tau, e.tau);
    lemma_order(e.tau, z, z);
    lemma_order(z, z, z);
    law_recovered_residuals(prob, e);
    // the inverse of tau is positive
    lemma_div_cancel(u, num::<T>(1), e.tau);
    lemma_mul_comm(u, inv, e.tau);
    lemma_mul_zero(u, e.tau);
    lemma_order(z, inv, inv);
    lemma_order(inv, z, z);
    lemma_product_less(e.tau, inv, z);
    lemma_order(num::<T>(1), z, num::<T>(1));
    lemma_order(z, num::<T>(1), z);
    assert(less(z, inv));
    let n_a = norm(ops, hsd_equality(prob, e));
    let n_g = norm(ops, hsd_cone(prob, e));
    let n_x = norm(ops, hsd_dual(prob, e));
    // (n_a + n_g) inv < tol
    lemma_mul_comm(u, plus(n_a, n_g), inv);
    lemma_mul_comm(u, n_x, inv);
    lemma_entry_below_norm(ops, hsd_equality(prob, e), 0);
    lemma_entry_below_norm(ops, hsd_cone(prob, e), 0);
    lemma_order(n_a, n_a, n_a);
    lemma_order(n_g, n_g, n_g);
    lemma_sum_less(n_a, n_a, z, n_g);
    lemma_add_zero(u, n_a);
    lemma_add_comm(u, n_a, z);
    lemma_sum_less(z, n_a, n_g, n_g);
    lemma_add_zero(u, n_g);
    lemma_product_less(inv, n_a, plus(n_a, n_g));
    lemma_product_less(inv, n_g, plus(n_a, n_g));
    let top = times(inv, plus(n_a, n_g));
    assert forall|r: int| 0 <= r < prob.b@.len() implies less(
        magnitude(z, minus(dot(z, #[trigger] prob.a_mat@[r], p.x), prob.b@[r])),
        params.tol_primal,
    ) by {
        let v = hsd_equality(prob, e);
        assert(equality_residual(prob, p)[r] == times(v[r], inv));
        lemma_entry_below_norm(ops, v, r);
        lemma_scaled_entry(v[r], inv, n_a, top, params.tol_primal);
    }
    assert forall|r: int| 0 <= r < prob.h@.len() implies less(
        magnitude(z, minus(plus(dot(z, #[trigger] prob.g_mat@[r], p.x), p.s[r]), prob.h@[r])),
        params.tol_primal,
    ) by {
        let v = hsd_cone(prob, e);
        assert(cone_residual(prob, p)[r] == times(v[r], inv));
        lemma_entry_below_norm(ops, v, r);
        lemma_scaled_entry(v[r], inv, n_g, top, params.tol_primal);
    }
    assert forall|j: int| 0 <= j < prob.c@.len() implies less(
        magnitude(z, #[trigger] slope(prob, p.lambda, p.y, j)),
        params.tol_dual,
    ) by {
        let v = hsd_dual(prob, e);
        assert(dual_residual(prob, p)[j] == times(v[j], inv));
        assert(dual_residual(prob, p)[j] == slope(prob, p.lambda, p.y, j));
        lemma_entry_below_norm(ops, v, j);
        lemma_order(times(inv, n_x), times(inv, n_x), params.tol_dual);
        lemma_scaled_entry(v[j], inv, n_x, times(inv, n_x), params.tol_dual);
    }
}

/// `|v k| < t` where `|v| <= n`, `k n <= m < t` and `k` is positive.
proof fn lemma_scaled_entry<T: Real>(v: T, k: T, n: T, m: T, t: T)
    requires
        ordered_field::<T>(),
        less(num::<T>(0), k),
        at_most(magnitude(num::<T>(0), v), n),
        at_most(times(k, n), m),
        less(m, t),
    ensures
        less(magnitude(num::<T>(0), times(v, k)), t),
{
    let z = num::<T>(0);
    let u = units::<T>();
    let a = magnitude(z, v);
    lemma_order(z, v, v);
    lemma_product_less(k, a, n);
    lemma_mul_comm(u, k, v);
    lemma_order(v, z, z);
    lemma_mul_zero(u, k);
    lemma_product_less(k, v, z);
    lemma_product_less(k, z, v);
    let p = times(k, v);
    lemma_order(p, z, z);
    lemma_order(z, p, p);
    assert(magnitude(z, p) == times(k, a)) by {
        if less(v, z) {
            lemma_mul_sub(u, k, z, v);
        }
    }
    lemma_order(times(k, a), times(k, n), m);
    lemma_order(times(k, a), m, t);
}

proof fn lemma_hsd_run_optimal<T: Real, C: ConeOps<T>>(
    drv: Driver<T>,
    ops: &C,
    prob: &SocpProblem<T>,
    params: IpmAlgoParams<T>,
    st: HsdProgress<T>,
    iter: u32,
    cap: u32,
) -> (e: Embedded<T>)
    requires
        fits(drv, prob),
        point_fits(prob, st.e.pt),
        hsd_run(drv, ops, prob, params, st, iter, cap).result.status == IpmStatus::Optimal,
    ensures
        point_fits(prob, e.pt),
        hsd_optimal(ops, prob, params, e),
        positive(e.tau),
        hsd_run(drv, ops, prob, params, st, iter, cap).result.point == recovered(e),
    decreases cap - iter,
{
    if iter < cap && positive(st.e.tau) && positive(st.e.kappa) && hsd_optimal(
        ops,
        prob,
        params,
        st.e,
    ) {
        st.e
    } else if iter < cap {
        let s = hsd_step(drv, ops, prob, st.e);
        lemma_hsd_step_proper(drv, ops, prob, st.e);
        let best = hsd_refreshed(ops, prob, params, st.e, st.best);
        let next = HsdProgress { e: s.e, shown: recovered(st.e), best };
        lemma_hsd_run_optimal(drv, ops, prob, params, next, (iter + 1) as u32, cap)
    } else {
        st.e
    }
}

/// An embedded point with positive rays that satisfies the embedded equations exactly, with
/// complementarity below its tolerance, ends a self-dual solve as optimal, with what it
/// stands for.
pub proof fn law_embedded_optimum_is_returned<T: Real, C: ConeOps<T>>(
    drv: Driver<T>,
    ops: &C,
    prob: &SocpProblem<T>,
    params: IpmAlgoParams<T>,
    st: HsdProgress<T>,
    iter: u32,
    cap: u32,
)
    requires
        ordered_field::<T>(),
        root_exact(ops),
        fits(drv, prob),
        point_fits(prob, st.e.pt),
        iter < cap,
        less(num::<T>(0), st.e.tau),
        less(num::<T>(0), st.e.kappa),
        less(num::<T>(0), params.tol_primal),
        less(num::<T>(0), params.tol_dual),
        less(mean_product(prob, st.e), params.tol_mu),
        ({
            let z = num::<T>(0);
            let e = st.e;
            &&& forall|r: int|
                0 <= r < prob.b@.len() ==> dot(z, #[trigger] prob.a_mat@[r], e.pt.x) == times(
                    prob.b@[r],
                    e.tau,
                )
            &&& forall|r: int|
                0 <= r < prob.h@.len() ==> plus(
                    dot(z, #[trigger] prob.g_mat@[r], e.pt.x),
                    e.pt.s[r],
                ) == times(prob.h@[r], e.tau)
            &&& forall|j: int|
                0 <= j < prob.c@.len() ==> plus(
                    plus(
                        times(#[trigger] prob.c@[j], e.tau),
                        dot(z, column(prob.a_mat@, j), e.pt.lambda),
                    ),
                    dot(z, column(prob.g_mat@, j), e.pt.y),
                ) == z
        }),
    ensures
        ({
            let r = hsd_run(drv, ops, prob, params, st, iter, cap).result;
            &&& r.status == IpmStatus::Optimal
            &&& r.iters == iter
            &&& stood_for(st.e, r.point)
        }),
{
    let u = units::<T>();
    let z = num::<T>(0);
    let e = st.e;
    let inv = over(num::<T>(1), e.tau);
    lemma_order(z, z, z);
    lemma_order(z, e.tau, e.tau);
    lemma_order(e.tau, z, z);
    lemma_order(e.kappa, z, z);
    lemma_sub_facts(u, e.tau, z);
    lemma_sub_facts(u, e.kappa, z);
    assert(positive(e.tau) && positive(e.kappa)) by {
        lemma_order(z, z, z);
    }
    let r_a = hsd_equality(prob, e);
    let r_g = hsd_cone(prob, e);
    let r_x = hsd_dual(prob, e);
    assert forall|i: int| 0 <= i < r_a.len() implies r_a[i] == z by {
        assert(dot(z, prob.a_mat@[i], e.pt.x) == times(prob.b@[i], e.tau));
        lemma_sub_facts(u, times(prob.b@[i], e.tau), z);
    }
    assert forall|i: int| 0 <= i < r_g.len() implies r_g[i] == z by {
        assert(plus(dot(z, prob.g_mat@[i], e.pt.x), e.pt.s[i]) == times(prob.h@[i], e.tau));
        lemma_sub_facts(u, times(prob.h@[i], e.tau), z);
    }
    assert forall|j: int| 0 <= j < r_x.len() implies r_x[j] == z by {
        assert(prob.c@[j] == prob.c@[j]);
    }
    lemma_norm_of_zeros(ops, r_a);
    lemma_norm_of_zeros(ops, r_g);
    lemma_norm_of_zeros(ops, r_x);
    lemma_add_zero(u, z);
    lemma_mul_zero(u, inv);
    lemma_mul_comm(u, z, inv);
    assert(hsd_optimal(ops, prob, params, e));
    let p = recovered(e);
    assert(p.x =~= Seq::new(e.pt.x.len(), |i: int| times(e.pt.x[i], inv)));
    assert(p.lambda =~= Seq::new(e.pt.lambda.len(), |i: int| times(e.pt.lambda[i], inv)));
    assert(p.s =~= Seq::new(e.pt.s.len(), |i: int| times(e.pt.s[i], inv)));
    assert(p.y =~= Seq::new(e.pt.y.len(), |i: int| times(e.pt.y[i], inv)));
}

/// A self-dual solve starts at the center: `tau` and `kappa` are one, variables and
/// equality multipliers zero, and slacks and cone multipliers the identity of the cones.
pub proof fn law_embedded_solve_starts_at_center<T: Real>(prob: &SocpProblem<T>)
    ensures
        ({
            let e = central(prob);
            let one = identity_upto::<T>(prob.h@.len() as int, prob.cones@, prob.cones@.len());
            &&& e.tau == num::<T>(1) && e.kappa == num::<T>(1)
            &&& e.pt.s == one && e.pt.y == one
            &&& e.pt.x.len() == prob.c@.len() && forall|j: int|
                0 <= j < e.pt.x.len() ==> #[trigger] e.pt.x[j] == num::<T>(0)
            &&& e.pt.lambda.len() == prob.b@.len() && forall|j: int|
                0 <= j < e.pt.lambda.len() ==> #[trigger] e.pt.lambda[j] == num::<T>(0)
        }),
{
}

// ---- steps ----

/// A step over all cones is no longer than any one cone allows.
proof fn lemma_step_is_least<T: Real, C: ConeOps<T>>(
    ops: &C,
    v: Seq<T>,
    dv: Seq<T>,
    cones: Seq<ConeDesc>,
    m: nat,
    c: int,
)
    requires
        ordered_field::<T>(),
        0 <= c < m <= cones.len(),
    ensures
        at_most(
            step_upto(ops, v, dv, cones, m),
            step_of(ops, part(v, cones[c]), part(dv, cones[c])),
        ),
    decreases m,
{
    let best = step_upto(ops, v, dv, cones, (m - 1) as nat);
    let a = step_of(ops, part(v, cones[m - 1]), part(dv, cones[m - 1]));
    let own = step_of(ops, part(v, cones[c]), part(dv, cones[c]));
    lemma_order(a, best, best);
    lemma_order(best, a, a);
    lemma_order(a, a, a);
    if c < m - 1 {
        lemma_step_is_least(ops, v, dv, cones, (m - 1) as nat, c);
        lemma_order(a, best, own);
    }
}

/// A step stays short of every cone's boundary: it is a length between zero and one, and
/// no longer than 99 hundredths of what any cone allows, where every cone allows a step.
pub proof fn law_step_stops_short<T: Real, C: ConeOps<T>>(
    ops: &C,
    prob: &SocpProblem<T>,
    v: Seq<T>,
    dv: Seq<T>,
    c: int,
)
    requires
        ordered_field::<T>(),
        0 <= c < prob.cones@.len(),
        at_most(
            num::<T>(0),
            step_of(ops, part(v, prob.cones@[c]), part(dv, prob.cones@[c])),
        ),
    ensures
        at_most(num::<T>(0), step_length(ops, prob, v, dv)),
        at_most(step_length(ops, prob, v, dv), num::<T>(1)),
        at_most(
            step_length(ops, prob, v, dv),
            times(
                ratio::<T>(99, 100),
                step_of(ops, part(v, prob.cones@[c]), part(dv, prob.cones@[c])),
            ),
        ),
{
    let z = num::<T>(0);
    let one = num::<T>(1);
    let u = units::<T>();
    let k = ratio::<T>(99, 100);
    let all = step_upto(ops, v, dv, prob.cones@, prob.cones@.len());
    let own = step_of(ops, part(v, prob.cones@[c]), part(dv, prob.cones@[c]));
    lemma_step_is_least(ops, v, dv, prob.cones@, prob.cones@.len(), c);
    lemma_order(z, one, one);
    assert(less(ratio::<T>(0, 1), k)) by {
        reveal(ordered_field);
    }
    lemma_div_cancel(u, z, one);
    lemma_mul_one(u, ratio::<T>(0, 1));
    assert(less(z, k));
    lemma_product_less(k, all, own);
    lemma_product_less(k, z, own);
    lemma_mul_zero(u, k);
    let a = times(k, all);
    let b = times(k, own);
    lemma_order(a, a, a);
    lemma_order(a, one, one);
    lemma_order(one, a, b);
    lemma_order(a, z, z);
    lemma_order(z, a, one);
    lemma_order(z, z, one);
    lemma_order(one, a, a);
    lemma_order(one, one, one);
    lemma_order(z, b, b);
}

/// The centering weight lies between zero and one.
pub proof fn law_centering_is_a_weight<T: Real>(raw: T)
    requires
        ordered_field::<T>(),
    ensures
        at_most(num::<T>(0), centered(raw)),
        at_most(centered(raw), num::<T>(1)),
{
    let z = num::<T>(0);
    let one = num::<T>(1);
    let u = units::<T>();
    let half = ratio::<T>(1, 2);
    lemma_order(z, one, one);
    assert(less(ratio::<T>(0, 1), half) && less(half, ratio::<T>(1, 1))) by {
        reveal(ordered_field);
    }
    lemma_div_cancel(u, z, one);
    lemma_div_cancel(u, one, one);
    lemma_mul_one(u, ratio::<T>(0, 1));
    lemma_mul_one(u, ratio::<T>(1, 1));
    lemma_order(z, half, half);
    lemma_order(half, one, one);
    lemma_order(raw, z, z);
    lemma_order(z, raw, raw);
    lemma_order(raw, one, one);
    lemma_order(one, raw, raw);
    lemma_order(one, z, z);
    lemma_order(z, z, z);
    lemma_order(one, one, one);
}

/// What blending predictor and corrector with weight `q / 5` allows: the shorter of the
/// steps in slacks and multipliers.
pub open spec fn blend_reach<T: Real, C: ConeOps<T>>(
    ops: &C,
    prob: &SocpProblem<T>,
    pt: Point<T>,
    a: Direction<T>,
    c: Direction<T>,
    q: u32,
) -> T {
    let nc = prob.cones@.len();
    let omega = ratio::<T>(q, 5);
    smaller(
        step_upto(ops, pt.s, blended(a.ds, c.ds, omega), prob.cones@, nc),
        step_upto(ops, pt.y, blended(a.dy, c.dy, omega), prob.cones@, nc),
    )
}

/// The weight of the corrector is the one of `0/5, 1/5, .., 5/5` that allows the longest
/// step.
pub proof fn law_weight_reaches_farthest<T: Real, C: ConeOps<T>>(
    ops: &C,
    prob: &SocpProblem<T>,
    pt: Point<T>,
    a: Direction<T>,
    c: Direction<T>,
    k: nat,
    q: u32,
)
    requires
        ordered_field::<T>(),
        q < k <= 6,
    ensures
        ({
            let w = weight_upto(ops, prob, pt, a, c, k);
            at_most(blend_reach(ops, prob, pt, a, c, q), w.obj)
        }),
        ({
            let w = weight_upto(ops, prob, pt, a, c, k);
            ||| w == weight_upto(ops, prob, pt, a, c, 0)
            ||| exists|b: u32|
                b < k && w.omega == ratio::<T>(b, 5) && w.obj == #[trigger] blend_reach(
                    ops,
                    prob,
                    pt,
                    a,
                    c,
                    b,
                )
        }),
    decreases k,
{
    let z = num::<T>(0);
    let u = units::<T>();
    let p = (k - 1) as nat;
    let prev = weight_upto(ops, prob, pt, a, c, p);
    let w = weight_upto(ops, prob, pt, a, c, k);
    let b = p as u32;
    let obj = blend_reach(ops, prob, pt, a, c, b);
    lemma_order(obj, prev.obj, prev.obj);
    lemma_order(prev.obj, obj, obj);
    lemma_order(obj, obj, obj);
    assert(finite(z, obj)) by {
        lemma_order(z, z, z);
        lemma_sub_facts(u, obj, z);
    }
    if w.obj == obj && w.omega == ratio::<T>(b, 5) {
        assert(b < k);
    }
    if q < p {
        law_weight_reaches_farthest(ops, prob, pt, a, c, p, q);
        lemma_order(blend_reach(ops, prob, pt, a, c, q), prev.obj, obj);
    } else if p > 0 {
        law_weight_reaches_farthest(ops, prob, pt, a, c, p, 0);
    }
}

/// The adaptive backoff never exceeds 99 hundredths.
pub proof fn law_backoff_is_bounded<T: Real>(raw_s: T, raw_y: T)
    requires
        ordered_field::<T>(),
    ensures
        at_most(adaptive_backoff(raw_s, raw_y), ratio::<T>(99, 100)),
        at_most(num::<T>(1), smaller(raw_s, raw_y)) ==> at_most(
            plus(ratio::<T>(9, 10), ratio::<T>(9, 100)),
            plus(ratio::<T>(9, 10), times(ratio::<T>(9, 100), smaller(raw_s, raw_y))),
        ),
{
    let u = units::<T>();
    let z = num::<T>(0);
    let one = num::<T>(1);
    let k = ratio::<T>(9, 100);
    let m = smaller(raw_s, raw_y);
    let q = plus(ratio::<T>(9, 10), times(k, m));
    let top = ratio::<T>(99, 100);
    lemma_order(q, top, top);
    lemma_order(top, q, q);
    lemma_order(top, top, top);
    lemma_order(z, one, one);
    assert(less(ratio::<T>(0, 1), k)) by {
        reveal(ordered_field);
    }
    lemma_div_cancel(u, z, one);
    lemma_mul_one(u, ratio::<T>(0, 1));
    lemma_product_less(k, one, m);
    lemma_mul_one(u, k);
    let base = ratio::<T>(9, 10);
    lemma_order(base, base, base);
    lemma_sum_less(k, times(k, m), base, base);
    lemma_add_comm(u, base, k);
    lemma_add_comm(u, base, times(k, m));
}

proof fn lemma_entry_below_amax<T: Real>(v: Seq<T>, n: nat, i: int)
    requires
        ordered_field::<T>(),
        0 <= i < n,
    ensures
        at_most(magnitude(num::<T>(0), v[i]), amax_upto(v, n)),
    decreases n,
{
    let m = magnitude(num::<T>(0), v[i]);
    lemma_order(m, m, m);
    if n > 1 {
        let p = (n - 1) as nat;
        let best = amax_upto(v, p);
        let last = magnitude(num::<T>(0), v[n - 1]);
        lemma_larger(best, last);
        if i < p {
            lemma_entry_below_amax(v, p, i);
            lemma_order(m, best, larger(best, last));
        }
    }
}

/// A step that goes on leads to a point strictly inside every cone, in slacks and
/// multipliers, none of whose entries exceeds the divergence limit.
pub proof fn law_step_goes_on_inside<T: Real, C: ConeOps<T>>(
    drv: Driver<T>,
    ops: &C,
    prob: &SocpProblem<T>,
    pt: Point<T>,
)
    requires
        ordered_field::<T>(),
        step(drv, ops, prob, pt).go is On,
    ensures
        ({
            let p = step(drv, ops, prob, pt).pt;
            let z = num::<T>(0);
            let top = drv.limits.huge;
            &&& forall|c: int|
                0 <= c < prob.cones@.len() ==> interior_of(ops, part(p.s, #[trigger] prob.cones@[c]))
                    && interior_of(ops, part(p.y, prob.cones@[c]))
            &&& forall|i: int|
                0 <= i < p.x.len() ==> at_most(magnitude(z, #[trigger] p.x[i]), top)
            &&& forall|i: int|
                0 <= i < p.lambda.len() ==> at_most(magnitude(z, #[trigger] p.lambda[i]), top)
            &&& forall|i: int|
                0 <= i < p.s.len() ==> at_most(magnitude(z, #[trigger] p.s[i]), top)
            &&& forall|i: int|
                0 <= i < p.y.len() ==> at_most(magnitude(z, #[trigger] p.y[i]), top)
        }),
{
    let z = num::<T>(0);
    let p = step(drv, ops, prob, pt).pt;
    let top = drv.limits.huge;
    assert(sound(drv, ops, prob, p)) by {
        reveal(aho_step);
        reveal(nt_step);
    }
    let ax = amax_upto(p.x, p.x.len());
    let a_s = amax_upto(p.s, p.s.len());
    let ay = amax_upto(p.y, p.y.len());
    let al = amax_upto(p.lambda, p.lambda.len());
    let xs = larger(ax, a_s);
    let xsy = larger(xs, ay);
    let all = larger(xsy, al);
    lemma_larger(ax, a_s);
    lemma_larger(xs, ay);
    lemma_larger(xsy, al);
    lemma_order(all, top, top);
    lemma_order(top, all, all);
    assert(at_most(all, top));
    lemma_order(xsy, all, top);
    lemma_order(al, all, top);
    lemma_order(xs, xsy, top);
    lemma_order(ay, xsy, top);
    lemma_order(ax, xs, top);
    lemma_order(a_s, xs, top);
    assert forall|i: int| 0 <= i < p.x.len() implies at_most(magnitude(z, #[trigger] p.x[i]), top) by {
        lemma_entry_below_amax(p.x, p.x.len(), i);
        lemma_order(magnitude(z, p.x[i]), ax, top);
    }
    assert forall|i: int| 0 <= i < p.lambda.len() implies at_most(
        magnitude(z, #[trigger] p.lambda[i]),
        top,
    ) by {
        lemma_entry_below_amax(p.lambda, p.lambda.len(), i);
        lemma_order(magnitude(z, p.lambda[i]), al, top);
    }
    assert forall|i: int| 0 <= i < p.s.len() implies at_most(magnitude(z, #[trigger] p.s[i]), top) by {
        lemma_entry_below_amax(p.s, p.s.len(), i);
        lemma_order(magnitude(z, p.s[i]), a_s, top);
    }
    assert forall|i: int| 0 <= i < p.y.len() implies at_most(magnitude(z, #[trigger] p.y[i]), top) by {
        lemma_entry_below_amax(p.y, p.y.len(), i);
        lemma_order(magnitude(z, p.y[i]), ay, top);
    }
}

} // verus!
