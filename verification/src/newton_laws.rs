//! The directions of the interior-point drivers are Newton steps.
//!
//! Where arithmetic is exact, the flat steps of the structured backend solve the
//! whole system, and the Nesterov-Todd direction made from them satisfies the four
//! equations it is meant to: primal equalities, slacks, complementarity, and
//! stationarity.
use crate::algebra::{
    field, lemma_add_assoc, lemma_add_comm, lemma_add_neg, lemma_add_zero, lemma_distrib,
    lemma_dot_add, lemma_dot_zero, lemma_mat_mul_vec, lemma_mat_vec_add, lemma_mat_vec_sub,
    lemma_mul_comm, lemma_neg_add, lemma_neg_mul, lemma_neg_neg, lemma_neg_zero, lemma_sub_def,
    lemma_sub_facts,
};
use crate::cones::{ArrowModel, NtModel};
use crate::dense_laws::{
    curvature_row, increment_local, lemma_column_rows, lemma_curvature, lemma_dot_split,
    lemma_equality_column, lemma_equality_row, lemma_increment_column, node_sparse,
    stacked_multipliers, stacks, zero_test_exact,
};
use crate::free_tf_laws::{
    exact_free_tf_factor, lemma_free_steps_feasible, lemma_free_tf_shapes, lemma_increment_balance,
};
use crate::kkt_backend::{kkt_base, kkt_dl, kkt_dx, kkt_multipliers, KktModel};
use crate::kkt_laws::{
    equality_lhs, exact_factor, lemma_recovered_balance, lemma_rhs_shaped, lemma_solution_shaped,
    lemma_steps_feasible, stationarity_lhs,
};
use crate::layout::spec_np;
use crate::linalg::{
    column, dot, dot_upto, mat_mul, mat_t_vec, mat_vec, shaped, vadd, vneg, vscale, vsub,
};
use crate::reduced_kkt::{all_square, block_rhs, hessians, recovered_step, schur_rhs_all};
use crate::reduced_kkt_free_tf::{
    column_hessian, dtau_column_blocks, dtau_hessian, dtau_step, stacked_dot,
};
use crate::scalar::{minus, negated, num, plus, times, units, Real, Scalar, Units};
use crate::stage_blocks::{a_block, stage_hessian};
use crate::structured_socp::{
    aho_direction, cone_residual, dual_residual, equality_residual, hessian_reg, kkt_step,
    moved_residual, nt_direction, point_fits, primal_rhs, slack_step, Driver,
};
use crate::types::{Point, SocpProblem};
use vstd::prelude::*;

verus! {

/// The factor is exact for the problem and the cone scaling `m`.
pub open spec fn exact_kkt<T: Scalar>(
    u: Units<T>,
    prob: &SocpProblem<T>,
    m: Seq<Seq<T>>,
    reg: T,
    n: int,
    f: KktModel<T>,
) -> bool {
    let a = prob.a_mat@;
    match f {
        KktModel::Fixed(x) => exact_factor(u, a, hessians(u.zero, prob, m, 19 * n, reg, n), x, n),
        KktModel::Free(x) => {
            &&& increment_local(u.zero, a, n)
            &&& exact_free_tf_factor(
                u,
                a,
                hessians(u.zero, prob, m, 19 * n + 1, reg, n),
                dtau_hessian(u.zero, prob, m, n, reg),
                x,
                n,
            )
        },
    }
}

/// What the laws on a flat step take for granted.
#[verifier::opaque]
pub open spec fn kkt_setting<T: Scalar>(
    u: Units<T>,
    prob: &SocpProblem<T>,
    m: Seq<Seq<T>>,
    reg: T,
    n: int,
    f: KktModel<T>,
    b_x: Seq<T>,
    b_a: Seq<T>,
) -> bool {
    &&& field(u)
    &&& zero_test_exact(u)
    &&& node_sparse(u.zero, prob, m, spec_np(n, f is Free), n)
    &&& exact_kkt(u, prob, m, reg, n, f)
    &&& b_x.len() == spec_np(n, f is Free)
    &&& b_a.len() == 7 * n + 6
}

/// The nodes' steps behind a flat step.
pub open spec fn node_steps<T: Scalar>(
    z: T,
    a: Seq<Seq<T>>,
    n: int,
    f: KktModel<T>,
    b_x: Seq<T>,
    b_a: Seq<T>,
) -> Seq<Seq<T>> {
    let lam = kkt_multipliers(z, a, n, f, b_x, b_a);
    Seq::new(n as nat, |k: int| recovered_step(z, a, kkt_base(f), n, b_x, lam, k))
}

/// A flat step stacks the nodes' steps.
proof fn lemma_steps_stack<T: Scalar>(
    z: T,
    a: Seq<Seq<T>>,
    n: int,
    f: KktModel<T>,
    b_x: Seq<T>,
    b_a: Seq<T>,
)
    requires
        n >= 1,
        kkt_base(f).h_inv.len() == n,
        all_square(kkt_base(f).h_inv, 19),
    ensures
        stacks(kkt_dx(z, a, n, f, b_x, b_a), node_steps(z, a, n, f, b_x, b_a), n),
{
    let base = kkt_base(f);
    let dz = node_steps(z, a, n, f, b_x, b_a);
    let dx = kkt_dx(z, a, n, f, b_x, b_a);
    assert forall|k: int| 0 <= k < n implies #[trigger] dz[k] == dx.subrange(
        19 * k,
        19 * k + 19,
    ) by {
        assert(shaped(base.h_inv[k], 19, 19));
        assert(dz[k].len() == 19);
        assert forall|i: int| 0 <= i < 19 implies dz[k][i] == dx.subrange(19 * k, 19 * k + 19)[i] by {
            assert((19 * k + i) / 19 == k && (19 * k + i) % 19 == i);
        }
        assert(dz[k] =~= dx.subrange(19 * k, 19 * k + 19));
    }
}

/// The multipliers behind a flat step have one block per row block.
proof fn lemma_multipliers_shaped<T: Scalar>(
    u: Units<T>,
    prob: &SocpProblem<T>,
    m: Seq<Seq<T>>,
    reg: T,
    n: int,
    f: KktModel<T>,
    b_x: Seq<T>,
    b_a: Seq<T>,
)
    requires
        exact_kkt(u, prob, m, reg, n, f),
    ensures
        n >= 1,
        kkt_base(f).h_inv.len() == n,
        all_square(kkt_base(f).h_inv, 19),
        shaped(kkt_multipliers(u.zero, prob.a_mat@, n, f, b_x, b_a), n + 1, 7),
{
    let z = u.zero;
    let a = prob.a_mat@;
    match f {
        KktModel::Fixed(x) => {
            lemma_rhs_shaped(u, a, x, n, b_x, b_a);
            lemma_solution_shaped(u, a, x, n, schur_rhs_all(z, a, x, n, b_x, b_a));
        },
        KktModel::Free(x) => {
            lemma_free_tf_shapes(
                u,
                a,
                hessians(z, prob, m, 19 * n + 1, reg, n),
                x,
                n,
                b_x,
                b_a,
            );
        },
    }
}

/// A flat step stacks the nodes' steps, flat multipliers the row blocks'.
pub proof fn lemma_flat_forms<T: Scalar>(
    u: Units<T>,
    prob: &SocpProblem<T>,
    m: Seq<Seq<T>>,
    reg: T,
    n: int,
    f: KktModel<T>,
    b_x: Seq<T>,
    b_a: Seq<T>,
)
    requires
        kkt_setting(u, prob, m, reg, n, f, b_x, b_a),
    ensures
        n >= 1,
        field(u),
        shaped(prob.a_mat@, 7 * n + 6, spec_np(n, f is Free)),
        b_x.len() == spec_np(n, f is Free),
        b_a.len() == 7 * n + 6,
        kkt_dx(u.zero, prob.a_mat@, n, f, b_x, b_a).len() == spec_np(n, f is Free),
        stacks(
            kkt_dx(u.zero, prob.a_mat@, n, f, b_x, b_a),
            node_steps(u.zero, prob.a_mat@, n, f, b_x, b_a),
            n,
        ),
        shaped(kkt_multipliers(u.zero, prob.a_mat@, n, f, b_x, b_a), n + 1, 7),
        kkt_dl(u.zero, prob.a_mat@, n, f, b_x, b_a) == stacked_multipliers(
            kkt_multipliers(u.zero, prob.a_mat@, n, f, b_x, b_a),
            n,
        ),
{
    reveal(kkt_setting);
    let z = u.zero;
    let a = prob.a_mat@;
    lemma_multipliers_shaped(u, prob, m, reg, n, f, b_x, b_a);
    lemma_steps_stack(z, a, n, f, b_x, b_a);
    assert(kkt_dl(z, a, n, f, b_x, b_a) =~= stacked_multipliers(
        kkt_multipliers(z, a, n, f, b_x, b_a),
        n,
    ));
}

#[verifier::spinoff_prover]
#[verifier::rlimit(40)]
proof fn lemma_flat_feasible<T: Scalar>(
    u: Units<T>,
    prob: &SocpProblem<T>,
    m: Seq<Seq<T>>,
    reg: T,
    n: int,
    f: KktModel<T>,
    b_x: Seq<T>,
    b_a: Seq<T>,
    r: int,
)
    requires
        kkt_setting(u, prob, m, reg, n, f, b_x, b_a),
        0 <= r < 7 * n + 6,
    ensures
        dot(u.zero, prob.a_mat@[r], kkt_dx(u.zero, prob.a_mat@, n, f, b_x, b_a)) == b_a[r],
{
    reveal(kkt_setting);
    let z = u.zero;
    let a = prob.a_mat@;
    let np = spec_np(n, f is Free);
    let h = hessians(z, prob, m, np, reg, n);
    let dz = node_steps(z, a, n, f, b_x, b_a);
    let dx = kkt_dx(z, a, n, f, b_x, b_a);
    let rb = r / 7;
    let i = r % 7;
    lemma_flat_forms(u, prob, m, reg, n, f, b_x, b_a);
    assert(7 * rb + i == r);
    assert(a[r].len() == np);
    lemma_equality_row(u, a, n, dx, dz, r);
    match f {
        KktModel::Fixed(x) => {
            lemma_steps_feasible(u, a, h, x, n, b_x, b_a, dz, rb);
            assert(equality_lhs(u, a, n, dz, rb)[i] == block_rhs(z, b_a, n, rb)[i]);
        },
        KktModel::Free(x) => {
            let lam = kkt_multipliers(z, a, n, f, b_x, b_a);
            let dt = dtau_step(z, a, x, n, b_x, lam);
            let hd = dtau_hessian(z, prob, m, n, reg);
            let cols = dtau_column_blocks(z, a, n);
            lemma_free_steps_feasible(u, a, h, hd, x, n, b_x, b_a, dz, dt, rb);
            assert(cols[rb][i] == a[r][19 * n]);
            let lhs = equality_lhs(u, a, n, dz, rb);
            assert(lhs.len() == 7);
            assert(vadd(lhs, vscale(cols[rb], dt))[i] == block_rhs(z, b_a, n, rb)[i]);
            assert(dx[19 * n] == dt);
        },
    }
}

proof fn lemma_flat_stationary<T: Scalar>(
    u: Units<T>,
    prob: &SocpProblem<T>,
    m: Seq<Seq<T>>,
    reg: T,
    n: int,
    f: KktModel<T>,
    b_x: Seq<T>,
    b_a: Seq<T>,
    j: int,
)
    requires
        kkt_setting(u, prob, m, reg, n, f, b_x, b_a),
        0 <= j < 19 * n,
    ensures
        plus(
            curvature_row(u.zero, prob, m, reg, kkt_dx(u.zero, prob.a_mat@, n, f, b_x, b_a), j),
            dot(u.zero, column(prob.a_mat@, j), kkt_dl(u.zero, prob.a_mat@, n, f, b_x, b_a)),
        ) == b_x[j],
{
    reveal(kkt_setting);
    let z = u.zero;
    let a = prob.a_mat@;
    let np = spec_np(n, f is Free);
    let h = hessians(z, prob, m, np, reg, n);
    let base = kkt_base(f);
    let dz = node_steps(z, a, n, f, b_x, b_a);
    let dx = kkt_dx(z, a, n, f, b_x, b_a);
    let lam = kkt_multipliers(z, a, n, f, b_x, b_a);
    let k = j / 19;
    let i = j % 19;
    lemma_flat_forms(u, prob, m, reg, n, f, b_x, b_a);
    lemma_recovered_balance(u, a, h, base, n, b_x, lam, dz, k);
    lemma_curvature(u, prob, m, reg, np, n, dx, dz, j);
    lemma_equality_column(u, a, n, np, lam, j);
    let lhs = stationarity_lhs(u, a, h, n, dz, lam, k);
    assert(19 * k + i == j);
    assert(lhs[i] == b_x[j]);
    assert(h[k] == stage_hessian(z, prob, m, np, reg, k));
    assert(shaped(h[k], 19, 19));
    lemma_add_assoc(
        u,
        mat_vec(z, h[k], dz[k])[i],
        mat_t_vec(z, a_block(z, a, n, k, k), 19, lam[k])[i],
        mat_t_vec(z, a_block(z, a, n, k + 1, k), 19, lam[k + 1])[i],
    );
}

proof fn lemma_flat_increment<T: Scalar>(
    u: Units<T>,
    prob: &SocpProblem<T>,
    m: Seq<Seq<T>>,
    reg: T,
    n: int,
    f: KktModel<T>,
    b_x: Seq<T>,
    b_a: Seq<T>,
)
    requires
        kkt_setting(u, prob, m, reg, n, f, b_x, b_a),
        f is Free,
    ensures
        plus(
            curvature_row(
                u.zero,
                prob,
                m,
                reg,
                kkt_dx(u.zero, prob.a_mat@, n, f, b_x, b_a),
                19 * n,
            ),
            dot(
                u.zero,
                column(prob.a_mat@, 19 * n),
                kkt_dl(u.zero, prob.a_mat@, n, f, b_x, b_a),
            ),
        ) == b_x[19 * n],
{
    reveal(kkt_setting);
    let z = u.zero;
    let a = prob.a_mat@;
    let np = 19 * n + 1;
    let x = f->Free_0;
    let h = hessians(z, prob, m, np, reg, n);
    let hd = dtau_hessian(z, prob, m, n, reg);
    let lam = kkt_multipliers(z, a, n, f, b_x, b_a);
    let dx = kkt_dx(z, a, n, f, b_x, b_a);
    let dl = stacked_multipliers(lam, n);
    let dt = dtau_step(z, a, x, n, b_x, lam);
    let cols = dtau_column_blocks(z, a, n);
    let cones = prob.cones@;
    let nct = prob.h@.len() as int;
    lemma_flat_forms(u, prob, m, reg, n, f, b_x, b_a);
    lemma_increment_balance(u, a, h, hd, x, n, b_x, lam);
    assert(dx[19 * n] == dt);
    lemma_column_rows(u, prob.g_mat@, m, nct, cones, n, dx, cones.len() as int);
    lemma_increment_column(u, a, n, lam, lam, n);
    let col = column(a, 19 * n);
    lemma_dot_split(u, col, dl, 7 * n, 6);
    let tail = col.subrange(7 * n, 7 * n + 6);
    assert forall|q: int| 0 <= q < 6 implies #[trigger] tail[q] == z by {
        assert(a[7 * n + q][19 * n] == z);
    }
    lemma_dot_zero(u, tail, dl.subrange(7 * n, 7 * n + 6), 6);
    lemma_dot_zero(u, cols[n], lam[n], 7);
    let sd = stacked_dot(z, cols, lam, n as nat);
    lemma_add_zero(u, sd);
    assert(stacked_dot(z, cols, lam, (n + 1) as nat) == plus(sd, dot(z, cols[n], lam[n])));
    assert(dot(z, col, dl) == sd);
    let ch = column_hessian(z, prob.g_mat@, m, np, cones, 19 * n, cones.len());
    lemma_distrib(u, dt, ch, reg);
    assert(column(prob.g_mat@, 19 * n).len() == nct);
}

/// A flat step of the structured backend solves the whole system, with fixed and
/// with free final time: `A dx == b_a` and, row by row,
/// `(G' M G + reg I) dx + A' dl == b_x`.
pub proof fn law_flat_step_solves_system<T: Scalar>(
    u: Units<T>,
    prob: &SocpProblem<T>,
    m: Seq<Seq<T>>,
    reg: T,
    n: int,
    f: KktModel<T>,
    b_x: Seq<T>,
    b_a: Seq<T>,
)
    requires
        kkt_setting(u, prob, m, reg, n, f, b_x, b_a),
    ensures
        ({
            let dx = kkt_dx(u.zero, prob.a_mat@, n, f, b_x, b_a);
            let dl = kkt_dl(u.zero, prob.a_mat@, n, f, b_x, b_a);
            &&& mat_vec(u.zero, prob.a_mat@, dx) == b_a
            &&& forall|j: int|
                0 <= j < spec_np(n, f is Free) ==> plus(
                    #[trigger] curvature_row(u.zero, prob, m, reg, dx, j),
                    dot(u.zero, column(prob.a_mat@, j), dl),
                ) == b_x[j]
        }),
{
    let z = u.zero;
    let a = prob.a_mat@;
    let dx = kkt_dx(z, a, n, f, b_x, b_a);
    let dl = kkt_dl(z, a, n, f, b_x, b_a);
    lemma_flat_forms(u, prob, m, reg, n, f, b_x, b_a);
    assert forall|r: int| 0 <= r < 7 * n + 6 implies mat_vec(z, a, dx)[r] == b_a[r] by {
        lemma_flat_feasible(u, prob, m, reg, n, f, b_x, b_a, r);
    }
    assert(mat_vec(z, a, dx) =~= b_a);
    assert forall|j: int| 0 <= j < spec_np(n, f is Free) implies plus(
        #[trigger] curvature_row(z, prob, m, reg, dx, j),
        dot(z, column(a, j), dl),
    ) == b_x[j] by {
        if j < 19 * n {
            lemma_flat_stationary(u, prob, m, reg, n, f, b_x, b_a, j);
        } else {
            lemma_flat_increment(u, prob, m, reg, n, f, b_x, b_a);
        }
    }
}

// ---- the Nesterov-Todd direction ----

pub proof fn lemma_dot_neg_right<T: Scalar>(u: Units<T>, a: Seq<T>, b: Seq<T>, n: nat)
    requires
        field(u),
        n <= b.len(),
    ensures
        dot_upto(u.zero, a, vneg(b), n) == negated(dot_upto(u.zero, a, b, n)),
    decreases n,
{
    if n == 0 {
        lemma_neg_zero(u);
    } else {
        let p = n - 1;
        lemma_dot_neg_right(u, a, b, p as nat);
        lemma_neg_mul(u, a[p], b[p]);
        lemma_neg_add(u, dot_upto(u.zero, a, b, p as nat), times(a[p], b[p]));
    }
}

/// `m (-v) == -(m v)`.
pub proof fn lemma_mat_vec_neg<T: Scalar>(u: Units<T>, m: Seq<Seq<T>>, v: Seq<T>)
    requires
        field(u),
        shaped(m, m.len() as int, v.len() as int),
    ensures
        mat_vec(u.zero, m, vneg(v)) == vneg(mat_vec(u.zero, m, v)),
{
    assert forall|i: int| 0 <= i < m.len() implies mat_vec(u.zero, m, vneg(v))[i] == vneg(
        mat_vec(u.zero, m, v),
    )[i] by {
        assert(m[i].len() == v.len());
        lemma_dot_neg_right(u, m[i], v, v.len());
    }
    assert(mat_vec(u.zero, m, vneg(v)) =~= vneg(mat_vec(u.zero, m, v)));
}

/// From `(q + t) + l == (-x - p) + r` follows `(t + (-r + (p + q))) + l == -x`.
proof fn lemma_balance<T: Scalar>(u: Units<T>, q: T, t: T, l: T, x: T, p: T, r: T)
    requires
        field(u),
        plus(plus(q, t), l) == plus(minus(negated(x), p), r),
    ensures
        plus(plus(t, plus(negated(r), plus(p, q))), l) == negated(x),
{
    let nr = negated(r);
    let w = plus(p, nr);
    // t + (-r + (p + q)) == (q + t) + (p - r)
    lemma_add_assoc(u, nr, p, q);
    lemma_add_comm(u, nr, p);
    lemma_add_comm(u, w, q);
    lemma_add_assoc(u, t, q, w);
    lemma_add_comm(u, t, q);
    let qt = plus(q, t);
    assert(plus(t, plus(nr, plus(p, q))) == plus(qt, w));
    // ((q + t) + w) + l == ((q + t) + l) + w
    lemma_add_assoc(u, qt, w, l);
    lemma_add_comm(u, w, l);
    lemma_add_assoc(u, qt, l, w);
    // ((-x - p) + r) + (p - r) == -x
    let y = minus(negated(x), p);
    lemma_add_assoc(u, y, r, w);
    lemma_add_comm(u, p, nr);
    lemma_add_assoc(u, r, nr, p);
    lemma_add_neg(u, r);
    lemma_add_zero(u, p);
    lemma_sub_facts(u, negated(x), p);
}

/// What any direction with `dy == -p r_c + m (r_g + G dx)` satisfies.
proof fn lemma_newton_step<T: Real>(
    drv: Driver<T>,
    prob: &SocpProblem<T>,
    pt: Point<T>,
    f: KktModel<T>,
    m: Seq<Seq<T>>,
    p: Seq<Seq<T>>,
    r_c: Seq<T>,
    dy: Seq<T>,
)
    requires
        kkt_setting(
            units::<T>(),
            prob,
            m,
            hessian_reg::<T>(),
            drv.n as int,
            f,
            primal_rhs(prob, pt, m, p, r_c),
            vneg(equality_residual(prob, pt)),
        ),
        point_fits(prob, pt),
        shaped(p, prob.h@.len() as int, prob.h@.len() as int),
        r_c.len() == prob.h@.len(),
        dy == vadd(
            vneg(mat_vec(num::<T>(0), p, r_c)),
            mat_vec(
                num::<T>(0),
                m,
                moved_residual(prob, pt, kkt_step(drv, prob, pt, f, m, p, r_c).0),
            ),
        ),
    ensures
        ({
            let z = num::<T>(0);
            let np = prob.c@.len() as int;
            let (dx, dl) = kkt_step(drv, prob, pt, f, m, p, r_c);
            let ds = slack_step(prob, pt, dx);
            &&& field(units::<T>())
            &&& mat_vec(z, prob.a_mat@, dx) == vneg(equality_residual(prob, pt))
            &&& vadd(mat_vec(z, prob.g_mat@, dx), ds) == vneg(cone_residual(prob, pt))
            &&& moved_residual(prob, pt, dx) == vneg(ds)
            &&& ds.len() == prob.h@.len()
            &&& shaped(m, prob.h@.len() as int, prob.h@.len() as int)
            &&& dy == vsub(vneg(mat_vec(z, p, r_c)), mat_vec(z, m, ds))
            &&& vadd(
                vadd(vscale(dx, hessian_reg::<T>()), mat_t_vec(z, prob.g_mat@, np, dy)),
                mat_t_vec(z, prob.a_mat@, np, dl),
            ) == vneg(dual_residual(prob, pt))
        }),
{
    let u = units::<T>();
    let z = num::<T>(0);
    let n = drv.n as int;
    let reg = hessian_reg::<T>();
    let np = prob.c@.len() as int;
    let nct = prob.h@.len() as int;
    let g = prob.g_mat@;
    let a = prob.a_mat@;
    let b_x = primal_rhs(prob, pt, m, p, r_c);
    let b_a = vneg(equality_residual(prob, pt));
    let (dx, dl) = kkt_step(drv, prob, pt, f, m, p, r_c);
    let ds = slack_step(prob, pt, dx);
    let r_g = cone_residual(prob, pt);
    let r_x = dual_residual(prob, pt);
    let gdx = mat_vec(z, g, dx);
    let mv = moved_residual(prob, pt, dx);
    let pr = mat_vec(z, p, r_c);
    law_flat_step_solves_system(u, prob, m, reg, n, f, b_x, b_a);
    lemma_flat_forms(u, prob, m, reg, n, f, b_x, b_a);
    lemma_setting_sizes(u, prob, m, reg, n, f, b_x, b_a);
    assert forall|i: int| 0 <= i < nct implies plus(gdx[i], #[trigger] ds[i]) == negated(r_g[i])
        && mv[i] == negated(ds[i]) by {
        lemma_sub_facts(u, negated(r_g[i]), gdx[i]);
        lemma_add_comm(u, gdx[i], ds[i]);
        lemma_sub_def(u, negated(r_g[i]), gdx[i]);
        lemma_neg_add(u, r_g[i], gdx[i]);
        lemma_neg_neg(u, plus(r_g[i], gdx[i]));
    }
    assert(vadd(gdx, ds) =~= vneg(r_g));
    assert(mv =~= vneg(ds));
    lemma_mat_vec_neg(u, m, ds);
    let ms = mat_vec(z, m, ds);
    assert forall|i: int| 0 <= i < nct implies dy[i] == vsub(vneg(pr), ms)[i] by {
        lemma_sub_def(u, negated(pr[i]), ms[i]);
    }
    assert(dy =~= vsub(vneg(pr), ms));
    let mg = mat_vec(z, m, r_g);
    let md = mat_vec(z, m, gdx);
    lemma_mat_vec_add(u, m, r_g, gdx);
    let lhs = vadd(vadd(vscale(dx, reg), mat_t_vec(z, g, np, dy)), mat_t_vec(z, a, np, dl));
    assert forall|j: int| 0 <= j < np implies lhs[j] == vneg(r_x)[j] by {
        let col = column(g, j);
        let q = dot(z, col, md);
        let v = dot(z, col, mg);
        let r = dot(z, col, pr);
        let l = dot(z, column(a, j), dl);
        let t = times(reg, dx[j]);
        assert(curvature_row(z, prob, m, reg, dx, j) == plus(q, t));
        assert(plus(plus(q, t), l) == b_x[j]);
        lemma_dot_add(u, col, vneg(pr), vadd(mg, md), nct as nat);
        lemma_dot_add(u, col, mg, md, nct as nat);
        lemma_dot_neg_right(u, col, pr, nct as nat);
        assert(dy == vadd(vneg(pr), vadd(mg, md)));
        lemma_balance(u, q, t, l, r_x[j], v, r);
        lemma_mul_comm(u, reg, dx[j]);
    }
    assert(lhs =~= vneg(r_x));
}

/// In exact arithmetic the Nesterov-Todd direction satisfies the Newton equations of
/// its cone term `r_c`: `A dx == -r_a`, `G dx + ds == -r_g`,
/// `dy == -W r_c - W W ds`, and `reg dx + G' dy + A' dl == -r_x`.
pub proof fn law_nt_direction_is_newton_step<T: Real>(
    drv: Driver<T>,
    prob: &SocpProblem<T>,
    pt: Point<T>,
    f: KktModel<T>,
    b: NtModel<T>,
    r_c: Seq<T>,
)
    requires
        kkt_setting(
            units::<T>(),
            prob,
            b.w2,
            hessian_reg::<T>(),
            drv.n as int,
            f,
            primal_rhs(prob, pt, b.w2, b.w, r_c),
            vneg(equality_residual(prob, pt)),
        ),
        point_fits(prob, pt),
        shaped(b.w, prob.h@.len() as int, prob.h@.len() as int),
        r_c.len() == prob.h@.len(),
    ensures
        ({
            let z = num::<T>(0);
            let np = prob.c@.len() as int;
            let d = nt_direction(drv, prob, pt, f, b, r_c);
            &&& mat_vec(z, prob.a_mat@, d.dx) == vneg(equality_residual(prob, pt))
            &&& vadd(mat_vec(z, prob.g_mat@, d.dx), d.ds) == vneg(cone_residual(prob, pt))
            &&& d.dy == vsub(vneg(mat_vec(z, b.w, r_c)), mat_vec(z, b.w2, d.ds))
            &&& vadd(
                vadd(
                    vscale(d.dx, hessian_reg::<T>()),
                    mat_t_vec(z, prob.g_mat@, np, d.dy),
                ),
                mat_t_vec(z, prob.a_mat@, np, d.dl),
            ) == vneg(dual_residual(prob, pt))
        }),
{
    let d = nt_direction(drv, prob, pt, f, b, r_c);
    lemma_newton_step(drv, prob, pt, f, b.w2, b.w, r_c, d.dy);
}

/// In exact arithmetic the symmetric direction satisfies the Newton equations of its
/// cone term `r_c`: `A dx == -r_a`, `G dx + ds == -r_g`,
/// `arrow(s) dy + arrow(y) ds == -r_c`, and `reg dx + G' dy + A' dl == -r_x`.
pub proof fn law_symmetric_direction_is_newton_step<T: Real>(
    drv: Driver<T>,
    prob: &SocpProblem<T>,
    pt: Point<T>,
    f: KktModel<T>,
    b: ArrowModel<T>,
    arrow_s: Seq<Seq<T>>,
    r_c: Seq<T>,
)
    requires
        kkt_setting(
            units::<T>(),
            prob,
            b.m,
            hessian_reg::<T>(),
            drv.n as int,
            f,
            primal_rhs(prob, pt, b.m, b.s_inv, r_c),
            vneg(equality_residual(prob, pt)),
        ),
        point_fits(prob, pt),
        shaped(b.s_inv, prob.h@.len() as int, prob.h@.len() as int),
        shaped(b.y, prob.h@.len() as int, prob.h@.len() as int),
        b.m == mat_mul(num::<T>(0), b.s_inv, b.y, prob.h@.len() as int),
        forall|v: Seq<T>|
            v.len() == prob.h@.len() ==> mat_vec(
                num::<T>(0),
                arrow_s,
                #[trigger] mat_vec(num::<T>(0), b.s_inv, v),
            ) == v,
        r_c.len() == prob.h@.len(),
    ensures
        ({
            let z = num::<T>(0);
            let np = prob.c@.len() as int;
            let d = aho_direction(drv, prob, pt, f, b, r_c);
            &&& mat_vec(z, prob.a_mat@, d.dx) == vneg(equality_residual(prob, pt))
            &&& vadd(mat_vec(z, prob.g_mat@, d.dx), d.ds) == vneg(cone_residual(prob, pt))
            &&& vadd(mat_vec(z, arrow_s, d.dy), mat_vec(z, b.y, d.ds)) == vneg(r_c)
            &&& vadd(
                vadd(
                    vscale(d.dx, hessian_reg::<T>()),
                    mat_t_vec(z, prob.g_mat@, np, d.dy),
                ),
                mat_t_vec(z, prob.a_mat@, np, d.dl),
            ) == vneg(dual_residual(prob, pt))
        }),
{
    let u = units::<T>();
    let z = num::<T>(0);
    let nct = prob.h@.len() as int;
    let d = aho_direction(drv, prob, pt, f, b, r_c);
    let mv = moved_residual(prob, pt, d.dx);
    let n = drv.n as int;
    let b_x = primal_rhs(prob, pt, b.m, b.s_inv, r_c);
    let b_a = vneg(equality_residual(prob, pt));
    lemma_flat_forms(u, prob, b.m, hessian_reg::<T>(), n, f, b_x, b_a);
    lemma_setting_sizes(u, prob, b.m, hessian_reg::<T>(), n, f, b_x, b_a);
    let ym = mat_vec(z, b.y, mv);
    let sr = mat_vec(z, b.s_inv, r_c);
    assert(mv.len() == nct && ym.len() == nct);
    // s_inv (y mv - r_c) == -s_inv r_c + m mv
    lemma_mat_vec_sub(u, b.s_inv, ym, r_c);
    lemma_mat_mul_vec(u, b.s_inv, b.y, nct, mv);
    let mm = mat_vec(z, b.m, mv);
    assert forall|i: int| 0 <= i < nct implies d.dy[i] == vadd(vneg(sr), mm)[i] by {
        lemma_sub_def(u, mm[i], sr[i]);
        lemma_add_comm(u, mm[i], negated(sr[i]));
    }
    assert(d.dy =~= vadd(vneg(sr), mm));
    lemma_newton_step(drv, prob, pt, f, b.m, b.s_inv, r_c, d.dy);
    // arrow(s) dy == y mv - r_c, and mv == -ds
    assert(mat_vec(z, arrow_s, d.dy) == vsub(ym, r_c));
    lemma_mat_vec_neg(u, b.y, d.ds);
    let yd = mat_vec(z, b.y, d.ds);
    let sum = vadd(vsub(ym, r_c), yd);
    assert forall|i: int| 0 <= i < nct implies sum[i] == vneg(r_c)[i] by {
        lemma_sub_def(u, negated(yd[i]), r_c[i]);
        lemma_add_comm(u, negated(yd[i]), negated(r_c[i]));
        lemma_add_assoc(u, negated(r_c[i]), negated(yd[i]), yd[i]);
        lemma_add_comm(u, negated(yd[i]), yd[i]);
        lemma_add_neg(u, yd[i]);
        lemma_add_zero(u, negated(r_c[i]));
    }
    assert(sum =~= vneg(r_c));
}

/// Sizes that the laws on a flat step take for granted.
pub proof fn lemma_setting_sizes<T: Scalar>(
    u: Units<T>,
    prob: &SocpProblem<T>,
    m: Seq<Seq<T>>,
    reg: T,
    n: int,
    f: KktModel<T>,
    b_x: Seq<T>,
    b_a: Seq<T>,
)
    requires
        kkt_setting(u, prob, m, reg, n, f, b_x, b_a),
    ensures
        prob.sized(spec_np(n, f is Free), 7 * n + 6, prob.h@.len() as int),
        shaped(m, prob.h@.len() as int, prob.h@.len() as int),
{
    reveal(kkt_setting);
}

} // verus!
