//! What the structured solve with a free final time achieves where arithmetic is
//! exact.
use crate::algebra::{
    field, lemma_add_assoc, lemma_add_comm, lemma_add_neg, lemma_add_zero, lemma_distrib,
    lemma_div_cancel, lemma_dot_scale, lemma_dot_sub, lemma_mul_assoc, lemma_mul_comm,
    lemma_mul_one, lemma_mul_sub, lemma_mul_zero, lemma_sub_def, lemma_sub_facts, lemma_sub_pairs,
};
use crate::kkt_laws::{
    balance_setup, equality_lhs, exact_factor, law_recovered_step_is_stationary,
    law_tridiagonal_system_is_solved, lemma_a_block_shaped, lemma_balance_initial,
    lemma_balance_terminal, lemma_balance_transition, lemma_schur_shaped, lemma_solution_shaped,
    multipliers, stationarity_lhs, tridiag_row,
};
use crate::linalg::{dot, mat_vec, shaped, vadd, vscale, vsub};
use crate::numerics::Numerics;
use crate::reduced_kkt::{
    block_rhs, factor_model, factor_status, first_stage, projected_rhs, recovered_step,
    schur_diagonal, schur_lower, schur_upper, stage_rhs, tridiag_solution, ReducedKktStatus,
};
use crate::reduced_kkt_free_tf::{
    dtau_column_blocks, dtau_step, free_tf_model, free_tf_multipliers, free_tf_rhs_all,
    free_tf_status, is_free_tf_application, smw_denominator, stacked_dot, FreeTfModel,
    ReducedKktSolutionFreeTf,
};
use crate::scalar::{
    at_most, finite, less, minus, negated, over, plus, times, Limits, Scalar, Units,
};
use vstd::prelude::*;

verus! {

/// `m (a - b s) == m a - (m b) s`.
proof fn lemma_mat_vec_axpy<T: Scalar>(
    u: Units<T>,
    m: Seq<Seq<T>>,
    a: Seq<T>,
    b: Seq<T>,
    s: T,
)
    requires
        field(u),
        shaped(m, 7, 7),
        a.len() == 7,
        b.len() == 7,
    ensures
        mat_vec(u.zero, m, vsub(a, vscale(b, s))) == vsub(
            mat_vec(u.zero, m, a),
            vscale(mat_vec(u.zero, m, b), s),
        ),
{
    let l = mat_vec(u.zero, m, vsub(a, vscale(b, s)));
    let r = vsub(mat_vec(u.zero, m, a), vscale(mat_vec(u.zero, m, b), s));
    assert forall|i: int| 0 <= i < 7 implies l[i] == r[i] by {
        assert(m[i].len() == 7);
        lemma_dot_sub(u, m[i], a, vscale(b, s), 7);
        lemma_dot_scale(u, m[i], b, s, 7);
    }
    assert(l =~= r);
}

/// `(p - q s) + (p2 - q2 s) == (p + p2) - (q + q2) s`.
proof fn lemma_axpy_add<T: Scalar>(u: Units<T>, p: T, q: T, p2: T, q2: T, s: T)
    requires
        field(u),
    ensures
        plus(minus(p, times(q, s)), minus(p2, times(q2, s))) == minus(
            plus(p, p2),
            times(plus(q, q2), s),
        ),
{
    lemma_sub_pairs(u, p, p2, times(q, s), times(q2, s));
    lemma_distrib(u, s, q, q2);
}

/// The block-tridiagonal operator is linear: `S (y - v s) == S y - (S v) s`.
proof fn lemma_tridiag_row_axpy<T: Scalar>(
    u: Units<T>,
    a: Seq<Seq<T>>,
    h_inv: Seq<Seq<Seq<T>>>,
    n: int,
    y: Seq<Seq<T>>,
    v: Seq<Seq<T>>,
    s: T,
    k: int,
)
    requires
        field(u),
        0 <= k <= n,
        shaped(y, n + 1, 7),
        shaped(v, n + 1, 7),
    ensures
        tridiag_row(
            u,
            a,
            h_inv,
            n,
            Seq::new((n + 1) as nat, |rb: int| vsub(y[rb], vscale(v[rb], s))),
            k,
        ) == vsub(
            tridiag_row(u, a, h_inv, n, y, k),
            vscale(tridiag_row(u, a, h_inv, n, v, k), s),
        ),
{
    let z = u.zero;
    let w = Seq::new((n + 1) as nat, |rb: int| vsub(y[rb], vscale(v[rb], s)));
    let d = schur_diagonal(u, a, h_inv, n, k);
    lemma_schur_shaped(u, a, h_inv, n, k);
    assert(y[k].len() == 7 && v[k].len() == 7);
    lemma_mat_vec_axpy(u, d, y[k], v[k], s);
    let dy = mat_vec(z, d, y[k]);
    let dv = mat_vec(z, d, v[k]);
    if k > 0 {
        lemma_schur_shaped(u, a, h_inv, n, k - 1);
        assert(y[k - 1].len() == 7 && v[k - 1].len() == 7);
        lemma_mat_vec_axpy(u, schur_lower(z, a, h_inv, n, k - 1), y[k - 1], v[k - 1], s);
    }
    if k < n {
        assert(y[k + 1].len() == 7 && v[k + 1].len() == 7);
        lemma_mat_vec_axpy(u, schur_upper(z, a, h_inv, n, k), y[k + 1], v[k + 1], s);
    }
    let ly = mat_vec(z, schur_lower(z, a, h_inv, n, k - 1), y[k - 1]);
    let lv = mat_vec(z, schur_lower(z, a, h_inv, n, k - 1), v[k - 1]);
    let uy = mat_vec(z, schur_upper(z, a, h_inv, n, k), y[k + 1]);
    let uv = mat_vec(z, schur_upper(z, a, h_inv, n, k), v[k + 1]);
    let l = tridiag_row(u, a, h_inv, n, w, k);
    let r = vsub(tridiag_row(u, a, h_inv, n, y, k), vscale(tridiag_row(u, a, h_inv, n, v, k), s));
    assert forall|i: int| 0 <= i < 7 implies l[i] == r[i] by {
        let base = minus(dy[i], times(dv[i], s));
        if k > 0 {
            lemma_axpy_add(u, ly[i], lv[i], dy[i], dv[i], s);
            if k < n {
                lemma_axpy_add(u, plus(ly[i], dy[i]), plus(lv[i], dv[i]), uy[i], uv[i], s);
            }
        } else if k < n {
            lemma_axpy_add(u, dy[i], dv[i], uy[i], uv[i], s);
        }
    }
    assert(l =~= r);
}

/// `a' (y - v s) == a' y - (a' v) s`, over the first `m` row blocks.
proof fn lemma_stacked_dot_axpy<T: Scalar>(
    u: Units<T>,
    a: Seq<Seq<T>>,
    y: Seq<Seq<T>>,
    v: Seq<Seq<T>>,
    s: T,
    n: int,
    m: nat,
)
    requires
        field(u),
        m <= n + 1,
        shaped(a, n + 1, 7),
        shaped(y, n + 1, 7),
        shaped(v, n + 1, 7),
    ensures
        stacked_dot(
            u.zero,
            a,
            Seq::new((n + 1) as nat, |rb: int| vsub(y[rb], vscale(v[rb], s))),
            m,
        ) == minus(stacked_dot(u.zero, a, y, m), times(stacked_dot(u.zero, a, v, m), s)),
    decreases m,
{
    let w = Seq::new((n + 1) as nat, |rb: int| vsub(y[rb], vscale(v[rb], s)));
    if m == 0 {
        lemma_mul_zero(u, s);
        lemma_sub_facts(u, u.zero, u.zero);
    } else {
        let p = (m - 1) as nat;
        lemma_stacked_dot_axpy(u, a, y, v, s, n, p);
        let k = m - 1;
        assert(a[k].len() == 7 && y[k].len() == 7 && v[k].len() == 7);
        lemma_dot_sub(u, a[k], y[k], vscale(v[k], s), 7);
        lemma_dot_scale(u, a[k], v[k], s, 7);
        lemma_axpy_add(
            u,
            stacked_dot(u.zero, a, y, p),
            stacked_dot(u.zero, a, v, p),
            dot(u.zero, a[k], y[k]),
            dot(u.zero, a[k], v[k]),
            s,
        );
    }
}

/// The correction's scale is `alpha` times the corrected product:
/// with `gamma = alpha / (1 + alpha w)`, `alpha (y - w (gamma y)) == gamma y`.
proof fn lemma_smw_scale<T: Scalar>(u: Units<T>, alpha: T, gamma: T, w: T, y: T)
    requires
        field(u),
        plus(u.one, times(alpha, w)) != u.zero,
        gamma == over(alpha, plus(u.one, times(alpha, w))),
    ensures
        times(alpha, minus(y, times(w, times(gamma, y)))) == times(gamma, y),
{
    let d = plus(u.one, times(alpha, w));
    let g = times(gamma, y);
    lemma_div_cancel(u, alpha, d);
    // gamma d == alpha, so alpha y == gamma y + (alpha w) (gamma y).
    lemma_distrib(u, gamma, u.one, times(alpha, w));
    lemma_mul_one(u, gamma);
    let t = times(gamma, times(alpha, w));
    assert(alpha == plus(gamma, t));
    lemma_distrib(u, y, gamma, t);
    // t y == (alpha w) g
    lemma_mul_comm(u, gamma, times(alpha, w));
    lemma_mul_assoc(u, times(alpha, w), gamma, y);
    assert(times(t, y) == times(times(alpha, w), g));
    lemma_mul_sub(u, alpha, y, times(w, g));
    lemma_mul_assoc(u, alpha, w, g);
    assert(times(alpha, minus(y, times(w, g))) == minus(plus(g, times(t, y)), times(t, y)));
    lemma_sub_facts(u, g, times(t, y));
}

/// The hypotheses of exactness with a free final time: an exact block-tridiagonal
/// factor, and divisors that are not zero.
pub open spec fn exact_free_tf_factor<T: Scalar>(
    u: Units<T>,
    a: Seq<Seq<T>>,
    h: Seq<Seq<Seq<T>>>,
    h_dtau: T,
    f: FreeTfModel<T>,
    n: int,
) -> bool {
    &&& exact_factor(u, a, h, f.base, n)
    &&& f == free_tf_model(u, a, f.base, n, h_dtau)
    &&& h_dtau != u.zero
    &&& smw_denominator(u, a, n, f.alpha, f.v) != u.zero
}

proof fn lemma_columns_shaped<T: Scalar>(u: Units<T>, a: Seq<Seq<T>>, n: int)
    requires
        n >= 0,
    ensures
        shaped(dtau_column_blocks(u.zero, a, n), n + 1, 7),
{
}

pub proof fn lemma_free_tf_shapes<T: Scalar>(
    u: Units<T>,
    a: Seq<Seq<T>>,
    h: Seq<Seq<Seq<T>>>,
    f: FreeTfModel<T>,
    n: int,
    b_x: Seq<T>,
    b_a: Seq<T>,
)
    requires
        exact_factor(u, a, h, f.base, n),
        f.v == tridiag_solution(u.zero, a, f.base, n, dtau_column_blocks(u.zero, a, n)),
    ensures
        shaped(f.v, n + 1, 7),
        shaped(free_tf_rhs_all(u.zero, a, f, n, b_x, b_a), n + 1, 7),
        shaped(free_tf_multipliers(u.zero, a, f, n, b_x, b_a), n + 1, 7),
{
    lemma_columns_shaped(u, a, n);
    lemma_solution_shaped(u, a, f.base, n, dtau_column_blocks(u.zero, a, n));
    let rhs = free_tf_rhs_all(u.zero, a, f, n, b_x, b_a);
    assert forall|rb: int| 0 <= rb < n + 1 implies (#[trigger] rhs[rb]).len() == 7 by {
        lemma_a_block_shaped(u.zero, a, n, rb, first_stage(rb));
        lemma_a_block_shaped(u.zero, a, n, rb, rb);
    }
    lemma_solution_shaped(u, a, f.base, n, rhs);
    let y = tridiag_solution(u.zero, a, f.base, n, rhs);
    let lam = free_tf_multipliers(u.zero, a, f, n, b_x, b_a);
    assert forall|k: int| 0 <= k < n + 1 implies (#[trigger] lam[k]).len() == 7 by {
        assert(y[k].len() == 7);
    }
}

/// In exact arithmetic the rank-one correction solves the full Schur system: for
/// every row block, `S_tri lam + a (alpha a' lam) == rhs`.
pub proof fn law_rank_one_correction_solves_schur<T: Scalar>(
    u: Units<T>,
    a: Seq<Seq<T>>,
    h: Seq<Seq<Seq<T>>>,
    h_dtau: T,
    f: FreeTfModel<T>,
    n: int,
    b_x: Seq<T>,
    b_a: Seq<T>,
    rb: int,
)
    requires
        field(u),
        exact_free_tf_factor(u, a, h, h_dtau, f, n),
        0 <= rb <= n,
    ensures
        ({
            let lam = free_tf_multipliers(u.zero, a, f, n, b_x, b_a);
            let cols = dtau_column_blocks(u.zero, a, n);
            vadd(
                tridiag_row(u, a, f.base.h_inv, n, lam, rb),
                vscale(
                    cols[rb],
                    times(f.alpha, stacked_dot(u.zero, cols, lam, (n + 1) as nat)),
                ),
            ) == free_tf_rhs_all(u.zero, a, f, n, b_x, b_a)[rb]
        }),
{
    let z = u.zero;
    let cols = dtau_column_blocks(z, a, n);
    let rhs = free_tf_rhs_all(z, a, f, n, b_x, b_a);
    let y = tridiag_solution(z, a, f.base, n, rhs);
    let lam = free_tf_multipliers(z, a, f, n, b_x, b_a);
    lemma_free_tf_shapes(u, a, h, f, n, b_x, b_a);
    lemma_columns_shaped(u, a, n);
    lemma_solution_shaped(u, a, f.base, n, rhs);
    let all = (n + 1) as nat;
    let ady = stacked_dot(z, cols, y, all);
    let adv = stacked_dot(z, cols, f.v, all);
    let scale = times(f.gamma, ady);
    assert(lam == Seq::new(all, |k: int| vsub(y[k], vscale(f.v[k], scale))));
    law_tridiagonal_system_is_solved(u, a, h, f.base, n, rhs, rb);
    law_tridiagonal_system_is_solved(u, a, h, f.base, n, cols, rb);
    lemma_tridiag_row_axpy(u, a, f.base.h_inv, n, y, f.v, scale, rb);
    lemma_stacked_dot_axpy(u, cols, y, f.v, scale, n, all);
    lemma_smw_scale(u, f.alpha, f.gamma, adv, ady);
    let row = tridiag_row(u, a, f.base.h_inv, n, lam, rb);
    let adl = stacked_dot(z, cols, lam, all);
    assert(times(f.alpha, adl) == scale);
    assert(row == vsub(rhs[rb], vscale(cols[rb], scale)));
    assert(rhs[rb].len() == 7 && cols[rb].len() == 7);
    let total = vadd(row, vscale(cols[rb], scale));
    assert forall|i: int| 0 <= i < 7 implies total[i] == rhs[rb][i] by {
        lemma_sub_facts(u, rhs[rb][i], times(cols[rb][i], scale));
    }
    assert(total =~= rhs[rb]);
}

/// `p - ((((p + c g) - b)) - c s) + c (g - s) == b`.
proof fn lemma_free_row<T: Scalar>(u: Units<T>, p: T, c: T, g: T, b: T, s: T)
    requires
        field(u),
    ensures
        plus(
            minus(p, minus(minus(plus(p, times(c, g)), b), times(c, s))),
            times(c, minus(g, s)),
        ) == b,
{
    let cg = times(c, g);
    let cs = times(c, s);
    lemma_mul_sub(u, c, g, s);
    // X = ((p + cg) - b) - cs; p - X + (cg - cs) == b
    let x = minus(minus(plus(p, cg), b), cs);
    // X + b == (p + cg) - cs == p + (cg - cs)
    let e = plus(p, cg);
    lemma_sub_def(u, minus(e, b), cs);
    lemma_sub_def(u, e, b);
    lemma_add_assoc(u, plus(e, negated(b)), negated(cs), b);
    lemma_add_comm(u, negated(cs), b);
    lemma_add_assoc(u, plus(e, negated(b)), b, negated(cs));
    lemma_add_assoc(u, e, negated(b), b);
    lemma_add_neg(u, b);
    lemma_add_zero(u, e);
    assert(plus(x, b) == plus(e, negated(cs)));
    lemma_add_assoc(u, p, cg, negated(cs));
    lemma_sub_def(u, cg, cs);
    assert(plus(x, b) == plus(p, minus(cg, cs)));
    // (p - X) + (cg - cs) == (p + (cg - cs)) - X == (X + b) - X == b
    let d = minus(cg, cs);
    lemma_sub_def(u, p, x);
    lemma_add_assoc(u, p, negated(x), d);
    lemma_add_comm(u, negated(x), d);
    lemma_add_assoc(u, p, d, negated(x));
    lemma_add_comm(u, x, b);
    lemma_add_assoc(u, b, x, negated(x));
    lemma_add_neg(u, x);
    lemma_add_zero(u, b);
}

/// The steps recovered from the corrected multipliers satisfy every row block of the
/// equalities with the time increment.
pub proof fn lemma_free_steps_feasible<T: Scalar>(
    u: Units<T>,
    a: Seq<Seq<T>>,
    h: Seq<Seq<Seq<T>>>,
    h_dtau: T,
    f: FreeTfModel<T>,
    n: int,
    b_x: Seq<T>,
    b_a: Seq<T>,
    dz: Seq<Seq<T>>,
    dt: T,
    rb: int,
)
    requires
        field(u),
        exact_free_tf_factor(u, a, h, h_dtau, f, n),
        b_x.len() == 19 * n + 1,
        dz.len() == n,
        forall|k: int|
            0 <= k < n ==> #[trigger] dz[k] == recovered_step(
                u.zero,
                a,
                f.base,
                n,
                b_x,
                free_tf_multipliers(u.zero, a, f, n, b_x, b_a),
                k,
            ),
        dt == dtau_step(u.zero, a, f, n, b_x, free_tf_multipliers(u.zero, a, f, n, b_x, b_a)),
        0 <= rb <= n,
    ensures
        vadd(
            equality_lhs(u, a, n, dz, rb),
            vscale(dtau_column_blocks(u.zero, a, n)[rb], dt),
        ) == block_rhs(u.zero, b_a, n, rb),
{
    let z = u.zero;
    let cols = dtau_column_blocks(z, a, n);
    let lam = free_tf_multipliers(z, a, f, n, b_x, b_a);
    let rhs = free_tf_rhs_all(z, a, f, n, b_x, b_a);
    lemma_free_tf_shapes(u, a, h, f, n, b_x, b_a);
    lemma_columns_shaped(u, a, n);
    law_rank_one_correction_solves_schur(u, a, h, h_dtau, f, n, b_x, b_a, rb);
    let adl = stacked_dot(z, cols, lam, (n + 1) as nat);
    let scale = times(f.alpha, adl);
    let g = times(f.alpha, b_x[19 * n]);
    lemma_mul_sub(u, f.alpha, b_x[19 * n], adl);
    assert(dt == minus(g, scale));
    let row = tridiag_row(u, a, f.base.h_inv, n, lam, rb);
    assert(balance_setup(u, a, f.base, n, b_x, lam, dz));
    if rb == 0 {
        lemma_balance_initial(u, a, f.base, n, b_x, lam, dz);
    } else if rb < n {
        lemma_balance_transition(u, a, f.base, n, b_x, lam, dz, rb);
    } else {
        lemma_balance_terminal(u, a, f.base, n, b_x, lam, dz);
    }
    let proj = projected_rhs(z, a, f.base, n, b_x, rb);
    let ba = block_rhs(z, b_a, n, rb);
    let lhs = equality_lhs(u, a, n, dz, rb);
    let total = vadd(lhs, vscale(cols[rb], dt));
    assert(cols[rb].len() == 7 && rhs[rb].len() == 7);
    lemma_a_block_shaped(z, a, n, rb, first_stage(rb));
    lemma_schur_shaped(u, a, f.base.h_inv, n, rb);
    let summed = vadd(row, vscale(cols[rb], scale));
    assert(row.len() == 7) by {
        lemma_schur_shaped(u, a, f.base.h_inv, n, rb - 1);
    }
    assert forall|i: int| 0 <= i < 7 implies total[i] == ba[i] by {
        if rb < n || i < 6 {
            let c = cols[rb][i];
            assert(summed[i] == rhs[rb][i]);
            assert(rhs[rb][i] == minus(plus(proj[i], times(c, g)), ba[i]));
            lemma_sub_facts(u, row[i], times(c, scale));
            assert(row[i] == minus(rhs[rb][i], times(c, scale)));
            lemma_free_row(u, proj[i], c, g, ba[i], scale);
        } else {
            assert(cols[rb][i] == z);
            lemma_mul_zero(u, dt);
            lemma_add_zero(u, z);
        }
    }
    assert(total =~= ba);
}

/// In exact arithmetic the step satisfies the equality rows with the time
/// increment: every row block of `A dz + a dtau` is that of `b_a`.
pub proof fn law_free_tf_step_is_feasible<T: Scalar>(
    u: Units<T>,
    a: Seq<Seq<T>>,
    h: Seq<Seq<Seq<T>>>,
    h_dtau: T,
    f: FreeTfModel<T>,
    n: int,
    b_x: Seq<T>,
    b_a: Seq<T>,
    sol: &ReducedKktSolutionFreeTf<T>,
    rb: int,
)
    requires
        field(u),
        exact_free_tf_factor(u, a, h, h_dtau, f, n),
        b_x.len() == 19 * n + 1,
        is_free_tf_application(u.zero, a, f, n, b_x, b_a, sol),
        0 <= rb <= n,
    ensures
        vadd(
            equality_lhs(u, a, n, sol.base.dz@, rb),
            vscale(dtau_column_blocks(u.zero, a, n)[rb], sol.dz_delta_tau),
        ) == block_rhs(u.zero, b_a, n, rb),
{
    lemma_free_steps_feasible(
        u,
        a,
        h,
        h_dtau,
        f,
        n,
        b_x,
        b_a,
        sol.base.dz@,
        sol.dz_delta_tau,
        rb,
    );
}

/// The time increment's own stationarity row.
pub proof fn lemma_increment_balance<T: Scalar>(
    u: Units<T>,
    a: Seq<Seq<T>>,
    h: Seq<Seq<Seq<T>>>,
    h_dtau: T,
    f: FreeTfModel<T>,
    n: int,
    b_x: Seq<T>,
    lam: Seq<Seq<T>>,
)
    requires
        field(u),
        exact_free_tf_factor(u, a, h, h_dtau, f, n),
    ensures
        plus(
            times(h_dtau, dtau_step(u.zero, a, f, n, b_x, lam)),
            stacked_dot(u.zero, dtau_column_blocks(u.zero, a, n), lam, (n + 1) as nat),
        ) == b_x[19 * n],
{
    let z = u.zero;
    let adl = stacked_dot(z, dtau_column_blocks(z, a, n), lam, (n + 1) as nat);
    let r = minus(b_x[19 * n], adl);
    lemma_div_cancel(u, u.one, h_dtau);
    lemma_mul_comm(u, f.alpha, h_dtau);
    lemma_mul_assoc(u, h_dtau, f.alpha, r);
    lemma_mul_one(u, r);
    lemma_sub_facts(u, b_x[19 * n], adl);
}

/// In exact arithmetic the step satisfies the stationarity rows: those of every
/// node, and `H_dtau dtau + a' lam == b_dtau`.
pub proof fn law_free_tf_step_is_stationary<T: Scalar>(
    u: Units<T>,
    a: Seq<Seq<T>>,
    h: Seq<Seq<Seq<T>>>,
    h_dtau: T,
    f: FreeTfModel<T>,
    n: int,
    b_x: Seq<T>,
    b_a: Seq<T>,
    sol: &ReducedKktSolutionFreeTf<T>,
)
    requires
        field(u),
        exact_free_tf_factor(u, a, h, h_dtau, f, n),
        b_x.len() == 19 * n + 1,
        is_free_tf_application(u.zero, a, f, n, b_x, b_a, sol),
    ensures
        forall|k: int|
            0 <= k < n ==> #[trigger] stationarity_lhs(
                u,
                a,
                h,
                n,
                sol.base.dz@,
                multipliers(u, &sol.base, n),
                k,
            ) == stage_rhs(b_x, k),
        plus(
            times(h_dtau, sol.dz_delta_tau),
            stacked_dot(
                u.zero,
                dtau_column_blocks(u.zero, a, n),
                free_tf_multipliers(u.zero, a, f, n, b_x, b_a),
                (n + 1) as nat,
            ),
        ) == b_x[19 * n],
{
    let z = u.zero;
    let lam = free_tf_multipliers(z, a, f, n, b_x, b_a);
    lemma_free_tf_shapes(u, a, h, f, n, b_x, b_a);
    assert forall|k: int| 0 <= k < n implies #[trigger] stationarity_lhs(
        u,
        a,
        h,
        n,
        sol.base.dz@,
        multipliers(u, &sol.base, n),
        k,
    ) == stage_rhs(b_x, k) by {
        law_recovered_step_is_stationary(u, a, h, f.base, n, b_x, lam, &sol.base, k);
    }
    lemma_increment_balance(u, a, h, h_dtau, f, n, b_x, lam);
}

/// A factorization with free final time succeeds exactly where its block-tridiagonal part
/// does, the time increment's Hessian entry is finite and positive, and both the
/// denominator of the rank-one part, which must not be tiny, and its factor are finite. It
/// fails as not positive definite for that entry, and as singular for the rank-one part.
pub proof fn law_free_factor_status_says<T: Scalar, C: Numerics<T>>(
    u: Units<T>,
    limits: Limits<T>,
    ops: &C,
    a: Seq<Seq<T>>,
    h: Seq<Seq<Seq<T>>>,
    n: int,
    h_dtau: T,
)
    ensures
        ({
            let base = factor_status(u, ops, a, h, n);
            let f = free_tf_model(u, a, factor_model(u, ops, a, h, n), n, h_dtau);
            let denom = smw_denominator(u, a, n, over(u.one, h_dtau), f.v);
            let size = if less(denom, u.zero) {
                minus(u.zero, denom)
            } else {
                denom
            };
            free_tf_status(u, limits, ops, a, h, n, h_dtau) == if base != ReducedKktStatus::Okay {
                base
            } else if !finite(u.zero, h_dtau) || at_most(h_dtau, u.zero) {
                ReducedKktStatus::HNotPd
            } else if !finite(u.zero, denom) || less(size, limits.tiny) || !finite(
                u.zero,
                over(over(u.one, h_dtau), denom),
            ) {
                ReducedKktStatus::SchurSingular
            } else {
                ReducedKktStatus::Okay
            }
        }),
{
}

} // verus!
