//! A structured solve with a diagonal cone scaling is the one with the matrix that has this
//! diagonal, and solves the whole system.
use crate::algebra::{
    field, lemma_add_assoc, lemma_add_zero, lemma_dot_comm, lemma_mul_comm, lemma_mul_zero,
};
use crate::dense_laws::{
    curvature_row, inverses_square, law_structured_solve_is_dense_solve, lemma_dot_only,
    node_sparse, stacked, stacked_multipliers, zero_test_exact,
};
use crate::kkt_laws::{inversion_exact, multipliers};
use crate::linalg::{column, dot, dot_upto, mat_mul, mat_vec, shaped, transpose};
use crate::numerics::Numerics;
use crate::reduced_kkt::{
    factor_model, factor_status, hessians, hessians_diag, is_application, ReducedKktSolution,
    ReducedKktStatus,
};
use crate::scalar::{plus, same, times, Scalar, Units};
use crate::stage_blocks::{
    cone_g, cone_hessian, cone_in_stage, cone_m, diag_rows_upto, h_diag_upto, h_upto,
    stage_hessian, stage_hessian_diag, MAX_CONE_DIM,
};
use crate::types::{ConeDesc, SocpProblem};
use vstd::prelude::*;

verus! {

/// The square matrix with diagonal `d` and zeros elsewhere.
pub open spec fn diagonal<T: Scalar>(z: T, d: Seq<T>) -> Seq<Seq<T>> {
    Seq::new(
        d.len(),
        |i: int|
            Seq::new(
                d.len(),
                |j: int|
                    if i == j {
                        d[i]
                    } else {
                        z
                    },
            ),
    )
}

/// `(G_c' M_c)` row `r` for a diagonal scaling: the entries of `G_c` times those of the
/// diagonal.
proof fn lemma_weighted_row<T: Scalar>(
    u: Units<T>,
    g: Seq<Seq<T>>,
    d: Seq<T>,
    cone: ConeDesc,
    k: int,
    r: int,
    i: int,
)
    requires
        field(u),
        cone.offset + cone.dim <= d.len(),
        0 <= r < 19,
        0 <= i < cone.dim,
    ensures
        ({
            let gc = cone_g(g, cone, k);
            mat_mul(
                u.zero,
                transpose(gc, 19),
                cone_m(diagonal(u.zero, d), cone),
                cone.dim as int,
            )[r][i] == times(gc[i][r], d[cone.offset + i])
        }),
{
    let z = u.zero;
    let gc = cone_g(g, cone, k);
    let mc = cone_m(diagonal(z, d), cone);
    let dim = cone.dim as int;
    let row = transpose(gc, 19)[r];
    let col = column(mc, i);
    assert(row.len() == dim && col.len() == dim);
    assert forall|q: int| 0 <= q < dim implies #[trigger] col[q] == (if q == i {
        d[cone.offset + i]
    } else {
        z
    }) by {}
    lemma_dot_comm(u, row, col, dim as nat);
    lemma_dot_only(u, col, row, dim, i, 1);
    let c1 = col.subrange(i, i + 1);
    let r1 = row.subrange(i, i + 1);
    assert(dot_upto(z, c1, r1, 1) == plus(dot_upto(z, c1, r1, 0), times(c1[0], r1[0])));
    lemma_add_zero(u, times(col[i], row[i]));
    lemma_mul_comm(u, col[i], row[i]);
}

/// Adding a cone's rows one by one adds its share of the Hessian.
proof fn lemma_rows_add_up<T: Scalar>(
    u: Units<T>,
    g: Seq<Seq<T>>,
    d: Seq<T>,
    cone: ConeDesc,
    k: int,
    h: Seq<Seq<T>>,
    i: nat,
)
    requires
        field(u),
        zero_test_exact(u),
        cone.offset + cone.dim <= d.len(),
        shaped(h, 19, 19),
        i <= cone.dim,
    ensures
        ({
            let gc = cone_g(g, cone, k);
            let w = mat_mul(
                u.zero,
                transpose(gc, 19),
                cone_m(diagonal(u.zero, d), cone),
                cone.dim as int,
            );
            let out = diag_rows_upto(u.zero, g, d, cone, k, h, i);
            &&& shaped(out, 19, 19)
            &&& forall|r: int, c: int|
                0 <= r < 19 && 0 <= c < 19 ==> #[trigger] out[r][c] == plus(
                    h[r][c],
                    dot_upto(u.zero, w[r], column(gc, c), i),
                )
        }),
    decreases i,
{
    let z = u.zero;
    let gc = cone_g(g, cone, k);
    let w = mat_mul(z, transpose(gc, 19), cone_m(diagonal(z, d), cone), cone.dim as int);
    let out = diag_rows_upto(z, g, d, cone, k, h, i);
    if i == 0 {
        assert forall|r: int, c: int| 0 <= r < 19 && 0 <= c < 19 implies #[trigger] out[r][c]
            == plus(h[r][c], dot_upto(z, w[r], column(gc, c), i)) by {
            lemma_add_zero(u, h[r][c]);
        }
    } else {
        let p = (i - 1) as nat;
        lemma_rows_add_up(u, g, d, cone, k, h, p);
        let before = diag_rows_upto(z, g, d, cone, k, h, p);
        let mi = d[cone.offset + i - 1];
        let row = gc[i - 1];
        assert forall|r: int| 0 <= r < 19 implies (#[trigger] out[r]).len() == 19 by {
            assert(before[r].len() == 19);
        }
        assert forall|r: int, c: int| 0 <= r < 19 && 0 <= c < 19 implies #[trigger] out[r][c]
            == plus(h[r][c], dot_upto(z, w[r], column(gc, c), i)) by {
            assert(before[r].len() == 19);
            lemma_weighted_row(u, g, d, cone, k, r, i - 1);
            let e = dot_upto(z, w[r], column(gc, c), p);
            let t = times(w[r][i - 1], column(gc, c)[i - 1]);
            assert(before[r][c] == plus(h[r][c], e));
            lemma_mul_comm(u, row[r], mi);
            lemma_add_assoc(u, h[r][c], e, t);
            if same(row[r], z) {
                lemma_mul_zero(u, mi);
                lemma_mul_comm(u, z, mi);
                lemma_mul_zero(u, row[c]);
                lemma_mul_comm(u, z, row[c]);
                lemma_add_zero(u, plus(h[r][c], e));
            }
        }
    }
}

/// The Hessian blocks for a diagonal scaling are those for the matrix with this diagonal.
pub proof fn law_diagonal_hessian_is_dense_hessian<T: Scalar>(
    u: Units<T>,
    prob: &SocpProblem<T>,
    d: Seq<T>,
    np: int,
    reg: T,
    k: int,
)
    requires
        field(u),
        zero_test_exact(u),
        d.len() == prob.h@.len(),
        prob.cones_fit(prob.h@.len() as int),
        forall|c: int| 0 <= c < prob.cones@.len() ==> (#[trigger] prob.cones@[c]).dim
            <= MAX_CONE_DIM,
    ensures
        stage_hessian_diag(u.zero, prob, d, np, reg, k) == stage_hessian(
            u.zero,
            prob,
            diagonal(u.zero, d),
            np,
            reg,
            k,
        ),
{
    lemma_same_blocks(u, prob, d, np, k, prob.cones@.len());
}

proof fn lemma_same_blocks<T: Scalar>(
    u: Units<T>,
    prob: &SocpProblem<T>,
    d: Seq<T>,
    np: int,
    k: int,
    c: nat,
)
    requires
        field(u),
        zero_test_exact(u),
        d.len() == prob.h@.len(),
        prob.cones_fit(prob.h@.len() as int),
        forall|c: int| 0 <= c < prob.cones@.len() ==> (#[trigger] prob.cones@[c]).dim
            <= MAX_CONE_DIM,
        c <= prob.cones@.len(),
    ensures
        shaped(h_diag_upto(u.zero, prob.g_mat@, d, np, prob.cones@, k, c), 19, 19),
        h_diag_upto(u.zero, prob.g_mat@, d, np, prob.cones@, k, c) == h_upto(
            u.zero,
            prob.g_mat@,
            diagonal(u.zero, d),
            np,
            prob.cones@,
            k,
            c,
        ),
    decreases c,
{
    if c > 0 {
        let z = u.zero;
        let g = prob.g_mat@;
        let p = (c - 1) as nat;
        lemma_same_blocks(u, prob, d, np, k, p);
        let cone = prob.cones@[c - 1];
        assert(cone.offset + cone.dim <= prob.h@.len() && cone.dim <= MAX_CONE_DIM);
        let before = h_diag_upto(z, g, d, np, prob.cones@, k, p);
        let l = h_diag_upto(z, g, d, np, prob.cones@, k, c);
        let r = h_upto(z, g, diagonal(z, d), np, prob.cones@, k, c);
        if cone_in_stage(z, g, np, cone, k) {
            lemma_rows_add_up(u, g, d, cone, k, before, cone.dim as nat);
            let share = cone_hessian(z, g, diagonal(z, d), cone, k);
            assert forall|i: int| 0 <= i < 19 implies l[i] == r[i] by {
                assert(before[i].len() == 19 && l[i].len() == 19);
                assert forall|j: int| 0 <= j < 19 implies l[i][j] == r[i][j] by {
                    assert(r[i][j] == plus(before[i][j], share[i][j]));
                }
                assert(l[i] =~= r[i]);
            }
            assert(l =~= r);
        }
    }
}

/// A structured solve with a diagonal scaling solves the whole system: in exact arithmetic
/// the stacked step and multipliers satisfy `A dx == b_a` and, row by row,
/// `(G' D G + reg I) dx + A' dl == b_x`.
pub proof fn law_diagonal_solve_is_dense_solve<T: Scalar, C: Numerics<T>>(
    u: Units<T>,
    ops: &C,
    prob: &SocpProblem<T>,
    d: Seq<T>,
    reg: T,
    n: int,
    b_x: Seq<T>,
    b_a: Seq<T>,
    sol: &ReducedKktSolution<T>,
)
    requires
        field(u),
        zero_test_exact(u),
        inversion_exact(u, ops),
        d.len() == prob.h@.len(),
        prob.cones_fit(prob.h@.len() as int),
        forall|c: int| 0 <= c < prob.cones@.len() ==> (#[trigger] prob.cones@[c]).dim
            <= MAX_CONE_DIM,
        node_sparse(u.zero, prob, diagonal(u.zero, d), 19 * n, n),
        factor_status(u, ops, prob.a_mat@, hessians_diag(u.zero, prob, d, 19 * n, reg, n), n)
            == ReducedKktStatus::Okay,
        inverses_square(u, ops, prob, diagonal(u.zero, d), 19 * n, reg, n),
        b_x.len() == 19 * n,
        b_a.len() == 7 * n + 6,
        is_application(
            u.zero,
            prob.a_mat@,
            factor_model(u, ops, prob.a_mat@, hessians_diag(u.zero, prob, d, 19 * n, reg, n), n),
            n,
            b_x,
            b_a,
            sol,
        ),
    ensures
        ({
            let dx = stacked(sol.dz@, n);
            let dl = stacked_multipliers(multipliers(u, sol, n), n);
            &&& mat_vec(u.zero, prob.a_mat@, dx) == b_a
            &&& forall|j: int|
                0 <= j < 19 * n ==> plus(
                    #[trigger] curvature_row(u.zero, prob, diagonal(u.zero, d), reg, dx, j),
                    dot(u.zero, column(prob.a_mat@, j), dl),
                ) == b_x[j]
        }),
{
    let l = hessians_diag(u.zero, prob, d, 19 * n, reg, n);
    let r = hessians(u.zero, prob, diagonal(u.zero, d), 19 * n, reg, n);
    assert forall|k: int| 0 <= k < n implies l[k] == r[k] by {
        law_diagonal_hessian_is_dense_hessian(u, prob, d, 19 * n, reg, k);
    }
    assert(l =~= r);
    law_structured_solve_is_dense_solve(
        u,
        ops,
        prob,
        diagonal(u.zero, d),
        reg,
        n,
        b_x,
        b_a,
        sol,
    );
}

} // verus!
