//! The structured step against the whole system.
//!
//! The structured solve works node by node. These laws put its blocks together:
//! where arithmetic is exact, the stacked step and multipliers satisfy
//! `A dx = b_a` and `(G' M G + reg I) dx + A' dl = b_x`, the system as a dense
//! solver would see it.
use crate::algebra::{
    field, lemma_add_assoc, lemma_add_comm, lemma_add_zero, lemma_distrib, lemma_dot_congruence,
    lemma_dot_scale, lemma_dot_zero, lemma_madd_vec, lemma_mat_mul_vec, lemma_mul_assoc,
    lemma_mul_zero,
};
use crate::free_tf_laws::{
    exact_free_tf_factor, law_free_tf_step_is_feasible, law_free_tf_step_is_stationary,
    lemma_free_tf_shapes,
};
use crate::kkt_laws::{
    equality_lhs, inversion_exact, law_structured_solve_satisfies_kkt,
    law_successful_factor_is_exact, multipliers, stationarity_lhs,
};
use crate::linalg::{
    column, dot, dot_upto, madd, mat_mul, mat_t_vec, mat_vec, shaped, transpose, vadd, vscale,
};
use crate::numerics::Numerics;
use crate::reduced_kkt::{
    all_square, block_rhs, factor_model, factor_status, first_stage, hessians, holds_solution,
    is_application, stage_rhs, FactorModel, ReducedKktSolution, ReducedKktStatus,
};
use crate::reduced_kkt_free_tf::{
    column_hessian, cone_only_in_column, dtau_column_blocks, dtau_hessian, free_tf_multipliers,
    is_free_tf_application, quad_form, quad_row, stacked_dot, FreeTfModel, ReducedKktSolutionFreeTf,
};
use crate::scalar::{plus, same, times, Scalar, Units};
use crate::stage_blocks::{
    a_block, add_diagonal, cone_g, cone_hessian, cone_in_stage, cone_m, cone_touches, h_upto,
    rb_touches, stage_hessian, MAX_CONE_DIM,
};
use crate::types::{ConeDesc, SocpProblem};
use vstd::prelude::*;

verus! {

// ---- inner products of sparse vectors ----

/// An inner product splits at index `p`.
pub proof fn lemma_dot_split<T: Scalar>(u: Units<T>, a: Seq<T>, b: Seq<T>, p: int, m: nat)
    requires
        field(u),
        0 <= p,
        p + m <= a.len(),
        p + m <= b.len(),
    ensures
        dot_upto(u.zero, a, b, (p + m) as nat) == plus(
            dot_upto(u.zero, a, b, p as nat),
            dot_upto(u.zero, a.subrange(p, p + m), b.subrange(p, p + m), m),
        ),
    decreases m,
{
    let z = u.zero;
    let head = dot_upto(z, a, b, p as nat);
    if m == 0 {
        lemma_add_zero(u, head);
    } else {
        let q = (m - 1) as nat;
        lemma_dot_split(u, a, b, p, q);
        let s = dot_upto(z, a.subrange(p, p + q), b.subrange(p, p + q), q);
        lemma_dot_congruence(
            z,
            a.subrange(p, p + q),
            b.subrange(p, p + q),
            a.subrange(p, p + m),
            b.subrange(p, p + m),
            q,
        );
        lemma_add_assoc(u, head, s, times(a[p + q], b[p + q]));
    }
}

/// Where `a` vanishes outside `p .. p + m`, only that part counts.
pub proof fn lemma_dot_only<T: Scalar>(u: Units<T>, a: Seq<T>, b: Seq<T>, n: int, p: int, m: int)
    requires
        field(u),
        0 <= p,
        0 <= m,
        p + m <= n,
        n <= a.len(),
        n <= b.len(),
        forall|i: int| 0 <= i < n && !(p <= i < p + m) ==> #[trigger] a[i] == u.zero,
    ensures
        dot_upto(u.zero, a, b, n as nat) == dot_upto(
            u.zero,
            a.subrange(p, p + m),
            b.subrange(p, p + m),
            m as nat,
        ),
{
    let z = u.zero;
    let mid = dot_upto(z, a.subrange(p, p + m), b.subrange(p, p + m), m as nat);
    lemma_dot_split(u, a, b, p, m as nat);
    lemma_dot_zero(u, a, b, p as nat);
    lemma_add_zero(u, mid);
    let rest = (n - p - m) as nat;
    lemma_dot_split(u, a, b, p + m, rest);
    assert forall|i: int| 0 <= i < rest implies #[trigger] a.subrange(p + m, n)[i] == z by {
        assert(a[p + m + i] == z);
    }
    lemma_dot_zero(u, a.subrange(p + m, n), b.subrange(p + m, n), rest);
}

// ---- stacking ----

/// `v` holds the nodes' steps `dz` one after the other.
pub open spec fn stacks<T>(v: Seq<T>, dz: Seq<Seq<T>>, n: int) -> bool {
    &&& v.len() >= 19 * n
    &&& forall|k: int| 0 <= k < n ==> #[trigger] dz[k] == v.subrange(19 * k, 19 * k + 19)
}

/// The nodes' steps one after the other.
pub open spec fn stacked<T>(dz: Seq<Seq<T>>, n: int) -> Seq<T> {
    Seq::new((19 * n) as nat, |j: int| dz[j / 19][j % 19])
}

pub proof fn lemma_stacked<T>(dz: Seq<Seq<T>>, n: int)
    requires
        0 <= n,
        shaped(dz, n, 19),
    ensures
        stacks(stacked(dz, n), dz, n),
{
    let v = stacked(dz, n);
    assert forall|k: int| 0 <= k < n implies #[trigger] dz[k] == v.subrange(
        19 * k,
        19 * k + 19,
    ) by {
        assert(dz[k].len() == 19);
        assert forall|i: int| 0 <= i < 19 implies dz[k][i] == v.subrange(19 * k, 19 * k + 19)[i] by {
            assert((19 * k + i) / 19 == k && (19 * k + i) % 19 == i);
        }
        assert(dz[k] =~= v.subrange(19 * k, 19 * k + 19));
    }
}

/// The row blocks' multipliers one after the other, without the terminal padding.
pub open spec fn stacked_multipliers<T>(lam: Seq<Seq<T>>, n: int) -> Seq<T> {
    Seq::new((7 * n + 6) as nat, |r: int| lam[r / 7][r % 7])
}

// ---- the equality rows ----

/// Every row of `a` vanishes in the columns of nodes that its row block does not
/// touch.
pub open spec fn rows_local<T>(z: T, a: Seq<Seq<T>>, n: int) -> bool {
    forall|r: int, j: int|
        0 <= r < 7 * n + 6 && 0 <= j < 19 * n && !rb_touches(n, r / 7, j / 19)
            ==> #[trigger] a[r][j] == z
}

/// Row `r` of the equality matrix applied to a stacked step is its row block's.
pub proof fn lemma_equality_row<T: Scalar>(
    u: Units<T>,
    a: Seq<Seq<T>>,
    n: int,
    v: Seq<T>,
    dz: Seq<Seq<T>>,
    r: int,
)
    requires
        field(u),
        n >= 1,
        a.len() == 7 * n + 6,
        a[r].len() >= 19 * n,
        rows_local(u.zero, a, n),
        stacks(v, dz, n),
        0 <= r < 7 * n + 6,
    ensures
        dot_upto(u.zero, a[r], v, (19 * n) as nat) == equality_lhs(u, a, n, dz, r / 7)[r % 7],
{
    let z = u.zero;
    let rb = r / 7;
    let i = r % 7;
    let s = first_stage(rb);
    let row = a[r];
    let blk = a_block(z, a, n, rb, s);
    assert(blk[i] =~= row.subrange(19 * s, 19 * s + 19)) by {
        assert(7 * rb + i == r);
    }
    assert(dz[s] == v.subrange(19 * s, 19 * s + 19));
    if 0 < rb < n {
        let blk1 = a_block(z, a, n, rb, rb);
        assert(blk1[i] =~= row.subrange(19 * rb, 19 * rb + 19)) by {
            assert(7 * rb + i == r);
        }
        assert(dz[rb] == v.subrange(19 * rb, 19 * rb + 19));
        assert forall|j: int| 0 <= j < 19 * n && !(19 * s <= j < 19 * s + 38) implies #[trigger]
            row[j] == z by {
            assert(!rb_touches(n, rb, j / 19));
            assert(a[r][j] == z);
        }
        lemma_dot_only(u, row, v, 19 * n, 19 * s, 38);
        let a2 = row.subrange(19 * s, 19 * s + 38);
        let v2 = v.subrange(19 * s, 19 * s + 38);
        lemma_dot_split(u, a2, v2, 19, 19);
        assert(a2.subrange(19, 38) =~= blk1[i]);
        assert(v2.subrange(19, 38) =~= dz[rb]);
        lemma_dot_congruence(z, a2, v2, blk[i], dz[s], 19);
    } else {
        assert forall|j: int| 0 <= j < 19 * n && !(19 * s <= j < 19 * s + 19) implies #[trigger]
            row[j] == z by {
            assert(!rb_touches(n, rb, j / 19));
            assert(a[r][j] == z);
        }
        lemma_dot_only(u, row, v, 19 * n, 19 * s, 19);
    }
}

/// Column `j` of the equality matrix applied to stacked multipliers is the sum of
/// what the two row blocks that touch its node put on it.
pub proof fn lemma_equality_column<T: Scalar>(
    u: Units<T>,
    a: Seq<Seq<T>>,
    n: int,
    np: int,
    lam: Seq<Seq<T>>,
    j: int,
)
    requires
        field(u),
        n >= 1,
        np >= 19 * n,
        shaped(a, 7 * n + 6, np),
        rows_local(u.zero, a, n),
        shaped(lam, n + 1, 7),
        0 <= j < 19 * n,
    ensures
        dot(u.zero, column(a, j), stacked_multipliers(lam, n)) == plus(
            mat_t_vec(u.zero, a_block(u.zero, a, n, j / 19, j / 19), 19, lam[j / 19])[j % 19],
            mat_t_vec(u.zero, a_block(u.zero, a, n, j / 19 + 1, j / 19), 19, lam[j / 19 + 1])[j
                % 19],
        ),
{
    let z = u.zero;
    let k = j / 19;
    let i = j % 19;
    let col = column(a, j);
    let dl = stacked_multipliers(lam, n);
    let b0 = a_block(z, a, n, k, k);
    let b1 = a_block(z, a, n, k + 1, k);
    let h1: int = if k + 1 < n {
        7
    } else {
        6
    };
    assert(lam[k].len() == 7 && lam[k + 1].len() == 7);
    assert forall|r: int| 0 <= r < 7 * n + 6 && !(7 * k <= r < 7 * k + 7 + h1) implies #[trigger]
        col[r] == z by {
        assert(!rb_touches(n, r / 7, k));
        assert(a[r][j] == z);
    }
    lemma_dot_only(u, col, dl, 7 * n + 6, 7 * k, 7 + h1);
    let c2 = col.subrange(7 * k, 7 * k + 7 + h1);
    let d2 = dl.subrange(7 * k, 7 * k + 7 + h1);
    lemma_dot_split(u, c2, d2, 7, h1 as nat);
    let k0 = column(b0, i);
    let k1 = column(b1, i);
    assert(19 * k + i == j);
    assert forall|q: int| 0 <= q < 7 implies #[trigger] c2[q] == k0[q] && d2[q] == lam[k][q] by {
        assert((7 * k + q) / 7 == k && (7 * k + q) % 7 == q);
    }
    lemma_dot_congruence(z, c2, d2, k0, lam[k], 7);
    let c3 = c2.subrange(7, 7 + h1);
    let d3 = d2.subrange(7, 7 + h1);
    assert forall|q: int| 0 <= q < h1 implies #[trigger] c3[q] == k1[q] && d3[q] == lam[k
        + 1][q] by {
        assert((7 * k + 7 + q) / 7 == k + 1 && (7 * k + 7 + q) % 7 == q);
    }
    lemma_dot_congruence(z, c3, d3, k1, lam[k + 1], h1 as nat);
    if h1 == 6 {
        assert(k1[6] == z);
        lemma_mul_zero(u, lam[k + 1][6]);
        lemma_add_zero(u, dot_upto(z, k1, lam[k + 1], 6));
    }
}

// ---- the Hessian ----

/// Row at which cone `c` begins when the cones follow one another.
pub open spec fn cones_end(cones: Seq<ConeDesc>, c: int) -> int {
    if c <= 0 {
        0
    } else {
        cones[c - 1].offset + cones[c - 1].dim
    }
}

/// The cones follow one another and cover the `nct` rows.
pub open spec fn tiled(cones: Seq<ConeDesc>, nct: int) -> bool {
    &&& forall|c: int|
        0 <= c < cones.len() ==> (#[trigger] cones[c]).offset == cones_end(cones, c)
    &&& cones_end(cones, cones.len() as int) == nct
}

/// Row `r` is one of the cone's.
pub open spec fn in_cone(cone: ConeDesc, r: int) -> bool {
    cone.offset <= r < cone.offset + cone.dim
}

/// The cone scaling couples no two cones.
pub open spec fn scaling_local<T>(z: T, m: Seq<Seq<T>>, cones: Seq<ConeDesc>, nct: int) -> bool {
    forall|c: int, r: int, q: int|
        #![trigger in_cone(cones[c], r), m[r][q]]
        0 <= c < cones.len() && in_cone(cones[c], r) && 0 <= q < nct && !in_cone(cones[c], q)
            ==> m[r][q] == z
}

/// The type's comparison with zero is exact.
pub open spec fn zero_test_exact<T: Scalar>(u: Units<T>) -> bool {
    forall|a: T| #[trigger] same(a, u.zero) ==> a == u.zero
}

/// Every cone lies in one node and is small enough to count, or touches none of the
/// nodes' columns.
pub open spec fn cones_local<T: Scalar>(
    z: T,
    g: Seq<Seq<T>>,
    np: int,
    cones: Seq<ConeDesc>,
    n: int,
) -> bool {
    forall|c: int|
        0 <= c < cones.len() ==> {
            ||| (#[trigger] cones[c]).dim <= MAX_CONE_DIM && exists|k: int|
                0 <= k < n && #[trigger] cone_in_stage(z, g, np, cones[c], k)
            ||| forall|j: int| 0 <= j < 19 * n ==> !#[trigger] cone_touches(z, g, cones[c], j)
        }
}

/// Entries of `g` in columns that a cone does not touch are zero.
proof fn lemma_untouched<T: Scalar>(
    u: Units<T>,
    g: Seq<Seq<T>>,
    cone: ConeDesc,
    col: int,
    q: int,
)
    requires
        zero_test_exact(u),
        !cone_touches(u.zero, g, cone, col),
        0 <= q < cone.dim,
    ensures
        g[cone.offset + q][col] == u.zero,
{
    assert(same(g[cone.offset + q][col], u.zero));
}

/// What the rows of a cone in node `k` make of a stacked step.
proof fn lemma_cone_rows<T: Scalar>(
    u: Units<T>,
    g: Seq<Seq<T>>,
    np: int,
    nct: int,
    cone: ConeDesc,
    k: int,
    n: int,
    v: Seq<T>,
    dz: Seq<Seq<T>>,
    q: int,
)
    requires
        field(u),
        zero_test_exact(u),
        shaped(g, nct, np),
        np >= 19 * n,
        v.len() == np,
        stacks(v, dz, n),
        cone_in_stage(u.zero, g, np, cone, k),
        cone.offset + cone.dim <= nct,
        0 <= k < n,
        0 <= q < cone.dim,
    ensures
        mat_vec(u.zero, g, v)[cone.offset + q] == mat_vec(u.zero, cone_g(g, cone, k), dz[k])[q],
{
    let row = g[cone.offset + q];
    assert(row.len() == np);
    assert forall|j: int| 0 <= j < np && !(19 * k <= j < 19 * k + 19) implies #[trigger] row[j]
        == u.zero by {
        if cone_touches(u.zero, g, cone, j) {
            assert(j / 19 == k);
        }
        lemma_untouched(u, g, cone, j, q);
    }
    lemma_dot_only(u, row, v, np, 19 * k, 19);
    assert(row.subrange(19 * k, 19 * k + 19) =~= cone_g(g, cone, k)[q]);
    assert(dz[k] == v.subrange(19 * k, 19 * k + 19));
}

/// What a cone in node `k` adds to the node's rows of `G' M G dx`.
proof fn lemma_cone_share<T: Scalar>(
    u: Units<T>,
    g: Seq<Seq<T>>,
    m: Seq<Seq<T>>,
    np: int,
    nct: int,
    cones: Seq<ConeDesc>,
    c: int,
    k: int,
    n: int,
    v: Seq<T>,
    dz: Seq<Seq<T>>,
    i: int,
)
    requires
        field(u),
        zero_test_exact(u),
        shaped(g, nct, np),
        shaped(m, nct, nct),
        np >= 19 * n,
        v.len() == np,
        stacks(v, dz, n),
        scaling_local(u.zero, m, cones, nct),
        0 <= c < cones.len(),
        cone_in_stage(u.zero, g, np, cones[c], k),
        cones[c].offset + cones[c].dim <= nct,
        0 <= k < n,
        0 <= i < 19,
    ensures
        ({
            let o = cones[c].offset as int;
            let d = cones[c].dim as int;
            let w = mat_vec(u.zero, m, mat_vec(u.zero, g, v));
            dot_upto(
                u.zero,
                column(g, 19 * k + i).subrange(o, o + d),
                w.subrange(o, o + d),
                d as nat,
            ) == mat_vec(u.zero, cone_hessian(u.zero, g, m, cones[c], k), dz[k])[i]
        }),
{
    let z = u.zero;
    let cone = cones[c];
    let o = cone.offset as int;
    let d = cone.dim as int;
    let gv = mat_vec(z, g, v);
    let w = mat_vec(z, m, gv);
    let gc = cone_g(g, cone, k);
    let mc = cone_m(m, cone);
    assert(dz[k] == v.subrange(19 * k, 19 * k + 19));
    assert(shaped(gc, d, 19));
    assert(shaped(mc, d, d));
    let inner = mat_vec(z, gc, dz[k]);
    assert(gv.subrange(o, o + d) =~= inner) by {
        assert forall|q: int| 0 <= q < d implies gv.subrange(o, o + d)[q] == inner[q] by {
            lemma_cone_rows(u, g, np, nct, cone, k, n, v, dz, q);
        }
    }
    let mid = mat_vec(z, mc, inner);
    assert(w.subrange(o, o + d) =~= mid) by {
        assert forall|q: int| 0 <= q < d implies w.subrange(o, o + d)[q] == mid[q] by {
            let row = m[o + q];
            assert(row.len() == nct);
            assert forall|p: int| 0 <= p < nct && !(o <= p < o + d) implies #[trigger] row[p]
                == z by {
                assert(in_cone(cones[c], o + q) && !in_cone(cones[c], p));
                assert(m[o + q][p] == z);
            }
            lemma_dot_only(u, row, gv, nct, o, d);
            assert(row.subrange(o, o + d) =~= mc[q]);
        }
    }
    let gt = transpose(gc, 19);
    assert(column(g, 19 * k + i).subrange(o, o + d) =~= gt[i]);
    assert(shaped(gt, 19, d));
    let gm = mat_mul(z, gt, mc, d);
    lemma_mat_mul_vec(u, gt, mc, d, inner);
    assert(shaped(gm, 19, d));
    lemma_mat_mul_vec(u, gm, gc, 19, dz[k]);
    assert(mat_vec(z, gt, mid)[i] == dot(z, gt[i], mid));
}

/// The first `c` cones' share of the rows of node `k` in `G' M G dx` is what the
/// Hessian block after `c` cones makes of the node's step.
proof fn lemma_hessian_rows<T: Scalar>(
    u: Units<T>,
    g: Seq<Seq<T>>,
    m: Seq<Seq<T>>,
    np: int,
    nct: int,
    cones: Seq<ConeDesc>,
    k: int,
    n: int,
    v: Seq<T>,
    dz: Seq<Seq<T>>,
    i: int,
    c: int,
)
    requires
        field(u),
        zero_test_exact(u),
        shaped(g, nct, np),
        shaped(m, nct, nct),
        np >= 19 * n,
        v.len() == np,
        stacks(v, dz, n),
        scaling_local(u.zero, m, cones, nct),
        tiled(cones, nct),
        cones_local(u.zero, g, np, cones, n),
        forall|q: int| 0 <= q < cones.len() ==> (#[trigger] cones[q]).offset + cones[q].dim <= nct,
        0 <= k < n,
        0 <= i < 19,
        0 <= c <= cones.len(),
    ensures
        shaped(h_upto(u.zero, g, m, np, cones, k, c as nat), 19, 19),
        dot_upto(
            u.zero,
            column(g, 19 * k + i),
            mat_vec(u.zero, m, mat_vec(u.zero, g, v)),
            cones_end(cones, c) as nat,
        ) == mat_vec(u.zero, h_upto(u.zero, g, m, np, cones, k, c as nat), dz[k])[i],
    decreases c,
{
    let z = u.zero;
    let col = column(g, 19 * k + i);
    let w = mat_vec(z, m, mat_vec(z, g, v));
    let h = h_upto(z, g, m, np, cones, k, c as nat);
    assert(dz[k] == v.subrange(19 * k, 19 * k + 19));
    if c == 0 {
        lemma_dot_zero(u, h[i], dz[k], 19);
    } else {
        let p = c - 1;
        let cone = cones[p];
        let before = h_upto(z, g, m, np, cones, k, p as nat);
        lemma_hessian_rows(u, g, m, np, nct, cones, k, n, v, dz, i, p);
        let o = cone.offset as int;
        let d = cone.dim as int;
        assert(o == cones_end(cones, p));
        lemma_dot_split(u, col, w, o, d as nat);
        let head = dot_upto(z, col, w, o as nat);
        let share = dot_upto(z, col.subrange(o, o + d), w.subrange(o, o + d), d as nat);
        if cone_in_stage(z, g, np, cone, k) {
            let touched = choose|j: int| 0 <= j < np && #[trigger] cone_touches(z, g, cone, j);
            assert(touched / 19 == k);
            assert(cone_touches(z, g, cones[p], touched));
            assert(cone.dim <= MAX_CONE_DIM);
            lemma_cone_share(u, g, m, np, nct, cones, p, k, n, v, dz, i);
            let hc = cone_hessian(z, g, m, cone, k);
            assert(shaped(hc, 19, 19));
            assert(h == madd(before, hc));
            assert forall|r: int| 0 <= r < 19 implies (#[trigger] h[r]).len() == 19 by {
                assert(before[r].len() == 19);
            }
            lemma_madd_vec(u, before, hc, dz[k]);
        } else {
            assert(h == before);
            assert forall|q: int| 0 <= q < d implies #[trigger] col.subrange(o, o + d)[q] == z by {
                if cone_touches(z, g, cone, 19 * k + i) {
                    let s = choose|s: int| 0 <= s < n && #[trigger] cone_in_stage(z, g, np, cones[p], s);
                    assert((19 * k + i) / 19 == k);
                    assert(!(forall|j: int| 0 <= j < 19 * n ==> !#[trigger] cone_touches(z, g, cones[p], j)));
                    assert(cone_in_stage(z, g, np, cones[p], s));
                    assert(s == k);
                }
                lemma_untouched(u, g, cone, 19 * k + i, q);
            }
            lemma_dot_zero(u, col.subrange(o, o + d), w.subrange(o, o + d), d as nat);
            lemma_add_zero(u, head);
        }
    }
}

/// Hessian blocks are 19 by 19.
pub proof fn lemma_hessian_square<T: Scalar>(
    z: T,
    g: Seq<Seq<T>>,
    m: Seq<Seq<T>>,
    np: int,
    cones: Seq<ConeDesc>,
    k: int,
    c: nat,
)
    ensures
        shaped(h_upto(z, g, m, np, cones, k, c), 19, 19),
    decreases c,
{
    if c > 0 {
        let p = (c - 1) as nat;
        lemma_hessian_square(z, g, m, np, cones, k, p);
        let before = h_upto(z, g, m, np, cones, k, p);
        let h = h_upto(z, g, m, np, cones, k, c);
        assert forall|r: int| 0 <= r < 19 implies (#[trigger] h[r]).len() == 19 by {
            assert(before[r].len() == 19);
        }
    }
}

/// All nodes' Hessian blocks are square.
pub proof fn lemma_hessians_square<T: Scalar>(
    z: T,
    prob: &SocpProblem<T>,
    m: Seq<Seq<T>>,
    np: int,
    reg: T,
    n: int,
)
    requires
        0 <= n,
    ensures
        all_square(hessians(z, prob, m, np, reg, n), 19),
{
    let hs = hessians(z, prob, m, np, reg, n);
    let cones = prob.cones@;
    assert forall|k: int| 0 <= k < n implies shaped(#[trigger] hs[k], 19, 19) by {
        let h = h_upto(z, prob.g_mat@, m, np, cones, k, cones.len());
        lemma_hessian_square(z, prob.g_mat@, m, np, cones, k, cones.len());
        assert forall|i: int| 0 <= i < 19 implies (#[trigger] hs[k][i]).len() == 19 by {
            assert(h[i].len() == 19);
        }
    }
}

proof fn lemma_diagonal_dot<T: Scalar>(
    u: Units<T>,
    h: Seq<Seq<T>>,
    reg: T,
    v: Seq<T>,
    i: int,
    m: nat,
)
    requires
        field(u),
        0 <= i < h.len(),
        m <= h[i].len(),
    ensures
        dot_upto(u.zero, add_diagonal(h, reg)[i], v, m) == plus(
            dot_upto(u.zero, h[i], v, m),
            if i < m {
                times(reg, v[i])
            } else {
                u.zero
            },
        ),
    decreases m,
{
    let z = u.zero;
    if m == 0 {
        lemma_add_zero(u, z);
    } else {
        let p = (m - 1) as nat;
        lemma_diagonal_dot(u, h, reg, v, i, p);
        let d = dot_upto(z, h[i], v, p);
        let t = times(h[i][p as int], v[p as int]);
        if i == p {
            lemma_distrib(u, v[i], h[i][i], reg);
            lemma_add_zero(u, d);
            lemma_add_assoc(u, d, t, times(reg, v[i]));
        } else if i < p {
            lemma_add_assoc(u, d, times(reg, v[i]), t);
            lemma_add_comm(u, times(reg, v[i]), t);
            lemma_add_assoc(u, d, t, times(reg, v[i]));
        } else {
            lemma_add_zero(u, d);
            lemma_add_zero(u, plus(d, t));
        }
    }
}

/// Row `j` of `(G' M G + reg I) dx`.
pub open spec fn curvature_row<T: Scalar>(
    z: T,
    prob: &SocpProblem<T>,
    m: Seq<Seq<T>>,
    reg: T,
    dx: Seq<T>,
    j: int,
) -> T {
    plus(
        dot(z, column(prob.g_mat@, j), mat_vec(z, m, mat_vec(z, prob.g_mat@, dx))),
        times(reg, dx[j]),
    )
}

/// Node `k`'s Hessian block applied to the node's step gives the node's rows of
/// `(G' M G + reg I) dx`.
pub proof fn lemma_curvature<T: Scalar>(
    u: Units<T>,
    prob: &SocpProblem<T>,
    m: Seq<Seq<T>>,
    reg: T,
    np: int,
    n: int,
    v: Seq<T>,
    dz: Seq<Seq<T>>,
    j: int,
)
    requires
        field(u),
        zero_test_exact(u),
        shaped(prob.g_mat@, prob.h@.len() as int, np),
        shaped(m, prob.h@.len() as int, prob.h@.len() as int),
        np >= 19 * n,
        v.len() == np,
        stacks(v, dz, n),
        scaling_local(u.zero, m, prob.cones@, prob.h@.len() as int),
        tiled(prob.cones@, prob.h@.len() as int),
        prob.cones_fit(prob.h@.len() as int),
        cones_local(u.zero, prob.g_mat@, np, prob.cones@, n),
        0 <= j < 19 * n,
    ensures
        curvature_row(u.zero, prob, m, reg, v, j) == mat_vec(
            u.zero,
            stage_hessian(u.zero, prob, m, np, reg, j / 19),
            dz[j / 19],
        )[j % 19],
{
    let z = u.zero;
    let k = j / 19;
    let i = j % 19;
    let cones = prob.cones@;
    let nct = prob.h@.len() as int;
    let h = h_upto(z, prob.g_mat@, m, np, cones, k, cones.len());
    lemma_hessian_rows(
        u,
        prob.g_mat@,
        m,
        np,
        nct,
        cones,
        k,
        n,
        v,
        dz,
        i,
        cones.len() as int,
    );
    assert(19 * k + i == j);
    assert(h[i].len() == 19);
    lemma_diagonal_dot(u, h, reg, dz[k], i, 19);
    assert(dz[k] == v.subrange(19 * k, 19 * k + 19));
}

/// The problem has the sparsity of `n` nodes: equality rows touch the nodes of
/// their row block, cones follow one another and each lies in one node, and the
/// cone scaling couples no two cones.
pub open spec fn node_sparse<T: Scalar>(
    z: T,
    prob: &SocpProblem<T>,
    m: Seq<Seq<T>>,
    np: int,
    n: int,
) -> bool {
    let nct = prob.h@.len() as int;
    &&& prob.sized(np, 7 * n + 6, nct)
    &&& prob.cones_fit(nct)
    &&& shaped(m, nct, nct)
    &&& rows_local(z, prob.a_mat@, n)
    &&& tiled(prob.cones@, nct)
    &&& cones_local(z, prob.g_mat@, np, prob.cones@, n)
    &&& scaling_local(z, m, prob.cones@, nct)
}

/// A structured solve with fixed final time solves the whole system: in exact
/// arithmetic the stacked step and multipliers satisfy
/// `A dx == b_a` and, row by row, `(G' M G + reg I) dx + A' dl == b_x`.
pub proof fn law_structured_solve_is_dense_solve<T: Scalar, C: Numerics<T>>(
    u: Units<T>,
    ops: &C,
    prob: &SocpProblem<T>,
    m: Seq<Seq<T>>,
    reg: T,
    n: int,
    b_x: Seq<T>,
    b_a: Seq<T>,
    sol: &ReducedKktSolution<T>,
)
    requires
        field(u),
        zero_test_exact(u),
        inversion_exact(u, ops),
        node_sparse(u.zero, prob, m, 19 * n, n),
        factor_status(u, ops, prob.a_mat@, hessians(u.zero, prob, m, 19 * n, reg, n), n)
            == ReducedKktStatus::Okay,
        inverses_square(u, ops, prob, m, 19 * n, reg, n),
        b_x.len() == 19 * n,
        b_a.len() == 7 * n + 6,
        is_application(
            u.zero,
            prob.a_mat@,
            factor_model(u, ops, prob.a_mat@, hessians(u.zero, prob, m, 19 * n, reg, n), n),
            n,
            b_x,
            b_a,
            sol,
        ),
    ensures
        ({
            let dx = stacked(sol.dz@, n);
            let dl = stacked_multipliers(multipliers(u, sol, n), n);
            &&& mat_vec(u.zero, prob.a_mat@, dx) == b_a
            &&& forall|j: int|
                0 <= j < 19 * n ==> plus(
                    #[trigger] curvature_row(u.zero, prob, m, reg, dx, j),
                    dot(u.zero, column(prob.a_mat@, j), dl),
                ) == b_x[j]
        }),
{
    let z = u.zero;
    let a = prob.a_mat@;
    let h = hessians(z, prob, m, 19 * n, reg, n);
    let f = factor_model(u, ops, a, h, n);
    let dz = sol.dz@;
    let lam = multipliers(u, sol, n);
    let dx = stacked(dz, n);
    let dl = stacked_multipliers(lam, n);
    lemma_hessians_square(z, prob, m, 19 * n, reg, n);
    law_structured_solve_satisfies_kkt(u, ops, a, h, n, b_x, b_a, sol);
    law_successful_factor_is_exact(u, ops, a, h, n);
    lemma_solution_sizes(u, a, f, n, b_x, b_a, sol);
    lemma_stacked(dz, n);
    assert forall|r: int| 0 <= r < 7 * n + 6 implies mat_vec(z, a, dx)[r] == b_a[r] by {
        assert(a[r].len() == 19 * n);
        lemma_equality_row(u, a, n, dx, dz, r);
        assert(equality_lhs(u, a, n, dz, r / 7) == block_rhs(z, b_a, n, r / 7));
        assert(7 * (r / 7) + r % 7 == r);
    }
    assert(mat_vec(z, a, dx) =~= b_a);
    assert forall|j: int| 0 <= j < 19 * n implies plus(
        #[trigger] curvature_row(z, prob, m, reg, dx, j),
        dot(z, column(a, j), dl),
    ) == b_x[j] by {
        let k = j / 19;
        let i = j % 19;
        lemma_curvature(u, prob, m, reg, 19 * n, n, dx, dz, j);
        lemma_equality_column(u, a, n, 19 * n, lam, j);
        assert(stationarity_lhs(u, a, h, n, dz, lam, k) == stage_rhs(b_x, k));
        assert(stationarity_lhs(u, a, h, n, dz, lam, k)[i] == b_x[19 * k + i]);
        assert(shaped(h[k], 19, 19));
        lemma_add_assoc(
            u,
            mat_vec(z, h[k], dz[k])[i],
            mat_t_vec(z, a_block(z, a, n, k, k), 19, lam[k])[i],
            mat_t_vec(z, a_block(z, a, n, k + 1, k), 19, lam[k + 1])[i],
        );
        assert(19 * k + i == j);
    }
}

/// The inverses in the problem's factor have the sizes of what they invert.
pub open spec fn inverses_square<T: Scalar, C: Numerics<T>>(
    u: Units<T>,
    ops: &C,
    prob: &SocpProblem<T>,
    m: Seq<Seq<T>>,
    np: int,
    reg: T,
    n: int,
) -> bool {
    let f = factor_model(u, ops, prob.a_mat@, hessians(u.zero, prob, m, np, reg, n), n);
    all_square(f.h_inv, 19) && all_square(f.d_inv, 7)
}

/// The parts of a solution have the sizes of `n` nodes.
proof fn lemma_solution_sizes<T: Scalar>(
    u: Units<T>,
    a: Seq<Seq<T>>,
    f: FactorModel<T>,
    n: int,
    b_x: Seq<T>,
    b_a: Seq<T>,
    sol: &ReducedKktSolution<T>,
)
    requires
        n >= 1,
        f.h_inv.len() == n,
        f.d_inv.len() == n + 1,
        all_square(f.h_inv, 19),
        all_square(f.d_inv, 7),
        is_application(u.zero, a, f, n, b_x, b_a, sol),
    ensures
        shaped(sol.dz@, n, 19),
        shaped(multipliers(u, sol, n), n + 1, 7),
{
    let z = u.zero;
    let lam = multipliers(u, sol, n);
    assert forall|k: int| 0 <= k < n implies (#[trigger] sol.dz@[k]).len() == 19 by {
        assert(shaped(f.h_inv[k], 19, 19));
    }
    assert forall|k: int| 0 <= k < n + 1 implies (#[trigger] lam[k]).len() == 7 by {}
}

// ---- free final time ----

/// `quad_row` adds the row's entry times what the row makes of the column.
proof fn lemma_quad_row<T: Scalar>(
    u: Units<T>,
    g: Seq<Seq<T>>,
    m: Seq<Seq<T>>,
    cone: ConeDesc,
    col: int,
    i: int,
    acc: T,
    mrow: Seq<T>,
    gcol: Seq<T>,
    j: nat,
)
    requires
        field(u),
        zero_test_exact(u),
        j <= cone.dim,
        0 <= i < cone.dim,
        forall|q: int| 0 <= q < cone.dim ==> #[trigger] mrow[q] == m[cone.offset + i][cone.offset + q],
        forall|q: int| 0 <= q < cone.dim ==> #[trigger] gcol[q] == g[cone.offset + q][col],
    ensures
        quad_row(u.zero, g, m, cone, col, i, acc, j) == plus(
            acc,
            times(gcol[i], dot_upto(u.zero, mrow, gcol, j)),
        ),
    decreases j,
{
    let z = u.zero;
    let gi = gcol[i];
    if j == 0 {
        lemma_mul_zero(u, gi);
        lemma_add_zero(u, acc);
    } else {
        let p = (j - 1) as nat;
        lemma_quad_row(u, g, m, cone, col, i, acc, mrow, gcol, p);
        let d = dot_upto(z, mrow, gcol, p);
        let mp = mrow[p as int];
        let gp = gcol[p as int];
        assert(gp == g[cone.offset + j - 1][col]);
        assert(gi == g[cone.offset + i][col]);
        assert(mp == m[cone.offset + i][cone.offset + j - 1]);
        lemma_distrib(u, gi, d, times(mp, gp));
        lemma_mul_assoc(u, gi, mp, gp);
        lemma_add_assoc(u, acc, times(gi, d), times(gi, times(mp, gp)));
        if same(gp, z) {
            lemma_mul_zero(u, mp);
            lemma_mul_zero(u, gi);
            lemma_add_zero(u, d);
        }
    }
}

/// `quad_form` adds the quadratic form of the cone's part of a column.
proof fn lemma_quad_form<T: Scalar>(
    u: Units<T>,
    g: Seq<Seq<T>>,
    m: Seq<Seq<T>>,
    cone: ConeDesc,
    col: int,
    acc: T,
    gcol: Seq<T>,
    i: nat,
)
    requires
        field(u),
        zero_test_exact(u),
        i <= cone.dim,
        gcol.len() == cone.dim,
        forall|q: int| 0 <= q < cone.dim ==> #[trigger] gcol[q] == g[cone.offset + q][col],
    ensures
        quad_form(u.zero, g, m, cone, col, acc, i) == plus(
            acc,
            dot_upto(u.zero, gcol, mat_vec(u.zero, cone_m(m, cone), gcol), i),
        ),
    decreases i,
{
    let z = u.zero;
    let mc = cone_m(m, cone);
    let t = mat_vec(z, mc, gcol);
    if i == 0 {
        lemma_add_zero(u, acc);
    } else {
        let p = (i - 1) as nat;
        lemma_quad_form(u, g, m, cone, col, acc, gcol, p);
        let d = dot_upto(z, gcol, t, p);
        let before = quad_form(z, g, m, cone, col, acc, p);
        let gp = gcol[p as int];
        assert(gp == g[cone.offset + i - 1][col]);
        if same(gp, z) {
            lemma_mul_zero(u, t[p as int]);
            lemma_add_zero(u, d);
        } else {
            lemma_quad_row(
                u,
                g,
                m,
                cone,
                col,
                p as int,
                before,
                mc[p as int],
                gcol,
                cone.dim as nat,
            );
            assert(t[p as int] == dot(z, mc[p as int], gcol));
            lemma_add_assoc(u, acc, d, times(gp, t[p as int]));
        }
    }
}

/// What a cone that touches column `cl` only adds to that column's row of
/// `G' M G dx`.
proof fn lemma_only_share<T: Scalar>(
    u: Units<T>,
    g: Seq<Seq<T>>,
    m: Seq<Seq<T>>,
    np: int,
    nct: int,
    cones: Seq<ConeDesc>,
    c: int,
    cl: int,
    v: Seq<T>,
    acc: T,
)
    requires
        field(u),
        zero_test_exact(u),
        shaped(g, nct, np),
        shaped(m, nct, nct),
        v.len() == np,
        0 <= cl < np,
        scaling_local(u.zero, m, cones, nct),
        0 <= c < cones.len(),
        cones[c].offset + cones[c].dim <= nct,
        cone_only_in_column(u.zero, g, np, cones[c], cl),
    ensures
        ({
            let o = cones[c].offset as int;
            let d = cones[c].dim as int;
            let w = mat_vec(u.zero, m, mat_vec(u.zero, g, v));
            plus(
                times(acc, v[cl]),
                dot_upto(
                    u.zero,
                    column(g, cl).subrange(o, o + d),
                    w.subrange(o, o + d),
                    d as nat,
                ),
            ) == times(quad_form(u.zero, g, m, cones[c], cl, acc, d as nat), v[cl])
        }),
{
    let z = u.zero;
    let cone = cones[c];
    let o = cone.offset as int;
    let d = cone.dim as int;
    let dt = v[cl];
    let gv = mat_vec(z, g, v);
    let w = mat_vec(z, m, gv);
    let gcol = column(g, cl).subrange(o, o + d);
    assert forall|q: int| 0 <= q < d implies gv.subrange(o, o + d)[q] == vscale(gcol, dt)[q] by {
        let row = g[o + q];
        assert(row.len() == np);
        assert forall|j: int| 0 <= j < np && !(cl <= j < cl + 1) implies #[trigger] row[j] == z by {
            assert(!cone_touches(z, g, cone, j));
            lemma_untouched(u, g, cone, j, q);
        }
        lemma_dot_only(u, row, v, np, cl, 1);
        let r1 = row.subrange(cl, cl + 1);
        let v1 = v.subrange(cl, cl + 1);
        assert(dot_upto(z, r1, v1, 1) == plus(dot_upto(z, r1, v1, 0), times(r1[0], v1[0])));
        lemma_add_zero(u, times(row[cl], dt));
    }
    assert(gv.subrange(o, o + d) =~= vscale(gcol, dt));
    let mc = cone_m(m, cone);
    let t = mat_vec(z, mc, gcol);
    assert forall|q: int| 0 <= q < d implies w.subrange(o, o + d)[q] == vscale(t, dt)[q] by {
        let row = m[o + q];
        assert(row.len() == nct);
        assert forall|j: int| 0 <= j < nct && !(o <= j < o + d) implies #[trigger] row[j] == z by {
            assert(in_cone(cones[c], o + q) && !in_cone(cones[c], j));
            assert(m[o + q][j] == z);
        }
        lemma_dot_only(u, row, gv, nct, o, d);
        assert(row.subrange(o, o + d) =~= mc[q]);
        lemma_dot_scale(u, mc[q], gcol, dt, d as nat);
    }
    assert(w.subrange(o, o + d) =~= vscale(t, dt));
    lemma_dot_scale(u, gcol, t, dt, d as nat);
    lemma_quad_form(u, g, m, cone, cl, acc, gcol, d as nat);
    lemma_distrib(u, dt, acc, dot_upto(z, gcol, t, d as nat));
}

/// A cone that is not the time increment's alone does not touch its column.
proof fn lemma_increment_untouched<T: Scalar>(
    z: T,
    g: Seq<Seq<T>>,
    cones: Seq<ConeDesc>,
    n: int,
    p: int,
)
    requires
        n >= 0,
        0 <= p < cones.len(),
        cones_local(z, g, 19 * n + 1, cones, n),
        !cone_only_in_column(z, g, 19 * n + 1, cones[p], 19 * n),
    ensures
        !cone_touches(z, g, cones[p], 19 * n),
{
    let np = 19 * n + 1;
    let cl = 19 * n;
    if cone_touches(z, g, cones[p], cl) {
        if exists|k: int| 0 <= k < n && #[trigger] cone_in_stage(z, g, np, cones[p], k) {
            let k = choose|k: int| 0 <= k < n && #[trigger] cone_in_stage(z, g, np, cones[p], k);
            assert(cl / 19 == k && cl / 19 == n);
        } else {
            assert forall|j: int| 0 <= j < np && #[trigger] cone_touches(
                z,
                g,
                cones[p],
                j,
            ) implies j == cl by {}
            assert(cone_only_in_column(z, g, np, cones[p], cl));
        }
    }
}

/// The first `c` cones' share of the time increment's row of `G' M G dx`.
#[verifier::spinoff_prover]
#[verifier::rlimit(40)]
pub proof fn lemma_column_rows<T: Scalar>(
    u: Units<T>,
    g: Seq<Seq<T>>,
    m: Seq<Seq<T>>,
    nct: int,
    cones: Seq<ConeDesc>,
    n: int,
    v: Seq<T>,
    c: int,
)
    requires
        field(u),
        zero_test_exact(u),
        n >= 0,
        shaped(g, nct, 19 * n + 1),
        shaped(m, nct, nct),
        v.len() == 19 * n + 1,
        scaling_local(u.zero, m, cones, nct),
        tiled(cones, nct),
        cones_local(u.zero, g, 19 * n + 1, cones, n),
        forall|q: int| 0 <= q < cones.len() ==> (#[trigger] cones[q]).offset + cones[q].dim <= nct,
        0 <= c <= cones.len(),
    ensures
        dot_upto(
            u.zero,
            column(g, 19 * n),
            mat_vec(u.zero, m, mat_vec(u.zero, g, v)),
            cones_end(cones, c) as nat,
        ) == times(
            column_hessian(u.zero, g, m, 19 * n + 1, cones, 19 * n, c as nat),
            v[19 * n],
        ),
    decreases c,
{
    let z = u.zero;
    let np = 19 * n + 1;
    let cl = 19 * n;
    let col = column(g, cl);
    let w = mat_vec(z, m, mat_vec(z, g, v));
    if c == 0 {
        lemma_mul_zero(u, v[cl]);
    } else {
        let p = c - 1;
        let cone = cones[p];
        let o = cone.offset as int;
        let d = cone.dim as int;
        let before = column_hessian(z, g, m, np, cones, cl, p as nat);
        lemma_column_rows(u, g, m, nct, cones, n, v, p);
        assert(o == cones_end(cones, p));
        lemma_dot_split(u, col, w, o, d as nat);
        let head = dot_upto(z, col, w, o as nat);
        let gcol = col.subrange(o, o + d);
        if cone_only_in_column(z, g, np, cone, cl) {
            lemma_only_share(u, g, m, np, nct, cones, p, cl, v, before);
        } else {
            lemma_increment_untouched(z, g, cones, n, p);
            assert forall|q: int| 0 <= q < d implies #[trigger] gcol[q] == z by {
                lemma_untouched(u, g, cone, cl, q);
            }
            lemma_dot_zero(u, gcol, w.subrange(o, o + d), d as nat);
            lemma_add_zero(u, head);
        }
    }
}

/// The time increment's column vanishes outside the transitions.
pub open spec fn increment_local<T>(z: T, a: Seq<Seq<T>>, n: int) -> bool {
    forall|r: int|
        0 <= r < 7 * n + 6 && !(7 <= r < 7 * n) ==> (#[trigger] a[r])[19 * n] == z
}

/// The first `k` row blocks' share of the increment's column applied to stacked
/// multipliers.
pub proof fn lemma_increment_column<T: Scalar>(
    u: Units<T>,
    a: Seq<Seq<T>>,
    n: int,
    mu: Seq<Seq<T>>,
    lam: Seq<Seq<T>>,
    k: int,
)
    requires
        field(u),
        n >= 1,
        shaped(a, 7 * n + 6, 19 * n + 1),
        increment_local(u.zero, a, n),
        shaped(mu, n + 1, 7),
        shaped(lam, n + 1, 7),
        forall|q: int| 0 <= q < n ==> #[trigger] mu[q] == lam[q],
        0 <= k <= n,
    ensures
        dot_upto(
            u.zero,
            column(a, 19 * n),
            stacked_multipliers(mu, n),
            (7 * k) as nat,
        ) == stacked_dot(u.zero, dtau_column_blocks(u.zero, a, n), lam, k as nat),
    decreases k,
{
    let z = u.zero;
    let col = column(a, 19 * n);
    let dl = stacked_multipliers(mu, n);
    let cols = dtau_column_blocks(z, a, n);
    if k > 0 {
        let p = k - 1;
        lemma_increment_column(u, a, n, mu, lam, p);
        lemma_dot_split(u, col, dl, 7 * p, 7);
        let c1 = col.subrange(7 * p, 7 * p + 7);
        let d1 = dl.subrange(7 * p, 7 * p + 7);
        assert(mu[p] == lam[p] && lam[p].len() == 7);
        assert(c1 =~= cols[p]) by {
            assert forall|q: int| 0 <= q < 7 implies c1[q] == cols[p][q] by {
                assert(a[7 * p + q][19 * n] == col[7 * p + q]);
            }
        }
        assert(d1 =~= lam[p]) by {
            assert forall|q: int| 0 <= q < 7 implies d1[q] == lam[p][q] by {
                assert((7 * p + q) / 7 == p && (7 * p + q) % 7 == q);
            }
        }
    }
}

/// What the laws on a solve with free final time take for granted.
pub open spec fn free_tf_setting<T: Scalar>(
    u: Units<T>,
    prob: &SocpProblem<T>,
    m: Seq<Seq<T>>,
    reg: T,
    n: int,
    f: FreeTfModel<T>,
    b_x: Seq<T>,
    b_a: Seq<T>,
    sol: &ReducedKktSolutionFreeTf<T>,
) -> bool {
    &&& field(u)
    &&& zero_test_exact(u)
    &&& node_sparse(u.zero, prob, m, 19 * n + 1, n)
    &&& increment_local(u.zero, prob.a_mat@, n)
    &&& exact_free_tf_factor(
        u,
        prob.a_mat@,
        hessians(u.zero, prob, m, 19 * n + 1, reg, n),
        dtau_hessian(u.zero, prob, m, n, reg),
        f,
        n,
    )
    &&& b_x.len() == 19 * n + 1
    &&& b_a.len() == 7 * n + 6
    &&& is_free_tf_application(u.zero, prob.a_mat@, f, n, b_x, b_a, sol)
}

/// The stacked step with the time increment last.
pub open spec fn stacked_free<T>(sol: &ReducedKktSolutionFreeTf<T>, n: int) -> Seq<T> {
    stacked(sol.base.dz@, n).push(sol.dz_delta_tau)
}

proof fn lemma_free_stack<T: Scalar>(
    u: Units<T>,
    prob: &SocpProblem<T>,
    m: Seq<Seq<T>>,
    reg: T,
    n: int,
    f: FreeTfModel<T>,
    b_x: Seq<T>,
    b_a: Seq<T>,
    sol: &ReducedKktSolutionFreeTf<T>,
)
    requires
        free_tf_setting(u, prob, m, reg, n, f, b_x, b_a, sol),
    ensures
        n >= 1,
        shaped(sol.base.dz@, n, 19),
        shaped(multipliers(u, &sol.base, n), n + 1, 7),
        shaped(free_tf_multipliers(u.zero, prob.a_mat@, f, n, b_x, b_a), n + 1, 7),
        stacks(stacked_free(sol, n), sol.base.dz@, n),
        stacked_free(sol, n).len() == 19 * n + 1,
{
    let z = u.zero;
    let a = prob.a_mat@;
    let h = hessians(z, prob, m, 19 * n + 1, reg, n);
    let dz = sol.base.dz@;
    let dx = stacked_free(sol, n);
    let lam = free_tf_multipliers(z, a, f, n, b_x, b_a);
    lemma_free_tf_shapes(u, a, h, f, n, b_x, b_a);
    lemma_free_tf_sizes(u, a, f, n, b_x, lam, &sol.base);
    lemma_stacked(dz, n);
    assert forall|k: int| 0 <= k < n implies #[trigger] dz[k] == dx.subrange(
        19 * k,
        19 * k + 19,
    ) by {
        assert(dx.subrange(19 * k, 19 * k + 19) =~= stacked(dz, n).subrange(19 * k, 19 * k + 19));
    }
}

proof fn lemma_free_feasible<T: Scalar>(
    u: Units<T>,
    prob: &SocpProblem<T>,
    m: Seq<Seq<T>>,
    reg: T,
    n: int,
    f: FreeTfModel<T>,
    b_x: Seq<T>,
    b_a: Seq<T>,
    sol: &ReducedKktSolutionFreeTf<T>,
    r: int,
)
    requires
        free_tf_setting(u, prob, m, reg, n, f, b_x, b_a, sol),
        0 <= r < 7 * n + 6,
    ensures
        mat_vec(u.zero, prob.a_mat@, stacked_free(sol, n))[r] == b_a[r],
{
    let z = u.zero;
    let a = prob.a_mat@;
    let h = hessians(z, prob, m, 19 * n + 1, reg, n);
    let hd = dtau_hessian(z, prob, m, n, reg);
    let dz = sol.base.dz@;
    let dt = sol.dz_delta_tau;
    let dx = stacked_free(sol, n);
    let cols = dtau_column_blocks(z, a, n);
    let rb = r / 7;
    let i = r % 7;
    lemma_free_stack(u, prob, m, reg, n, f, b_x, b_a, sol);
    assert(7 * rb + i == r);
    assert(a[r].len() == 19 * n + 1);
    lemma_equality_row(u, a, n, dx, dz, r);
    law_free_tf_step_is_feasible(u, a, h, hd, f, n, b_x, b_a, sol, rb);
    assert(cols[rb][i] == a[r][19 * n]);
    let lhs = equality_lhs(u, a, n, dz, rb);
    assert(lhs.len() == 7);
    assert(vadd(lhs, vscale(cols[rb], dt))[i] == block_rhs(z, b_a, n, rb)[i]);
}

proof fn lemma_free_stationary<T: Scalar>(
    u: Units<T>,
    prob: &SocpProblem<T>,
    m: Seq<Seq<T>>,
    reg: T,
    n: int,
    f: FreeTfModel<T>,
    b_x: Seq<T>,
    b_a: Seq<T>,
    sol: &ReducedKktSolutionFreeTf<T>,
    j: int,
)
    requires
        free_tf_setting(u, prob, m, reg, n, f, b_x, b_a, sol),
        0 <= j < 19 * n,
    ensures
        plus(
            curvature_row(u.zero, prob, m, reg, stacked_free(sol, n), j),
            dot(
                u.zero,
                column(prob.a_mat@, j),
                stacked_multipliers(multipliers(u, &sol.base, n), n),
            ),
        ) == b_x[j],
{
    let z = u.zero;
    let a = prob.a_mat@;
    let np = 19 * n + 1;
    let h = hessians(z, prob, m, np, reg, n);
    let hd = dtau_hessian(z, prob, m, n, reg);
    let dz = sol.base.dz@;
    let mu = multipliers(u, &sol.base, n);
    let dx = stacked_free(sol, n);
    let k = j / 19;
    let i = j % 19;
    lemma_free_stack(u, prob, m, reg, n, f, b_x, b_a, sol);
    law_free_tf_step_is_stationary(u, a, h, hd, f, n, b_x, b_a, sol);
    lemma_curvature(u, prob, m, reg, np, n, dx, dz, j);
    lemma_equality_column(u, a, n, np, mu, j);
    let lhs = stationarity_lhs(u, a, h, n, dz, mu, k);
    assert(lhs == stage_rhs(b_x, k));
    assert(19 * k + i == j);
    assert(lhs[i] == b_x[j]);
    assert(h[k] == stage_hessian(z, prob, m, np, reg, k));
    assert(shaped(h[k], 19, 19));
    lemma_add_assoc(
        u,
        mat_vec(z, h[k], dz[k])[i],
        mat_t_vec(z, a_block(z, a, n, k, k), 19, mu[k])[i],
        mat_t_vec(z, a_block(z, a, n, k + 1, k), 19, mu[k + 1])[i],
    );
}

#[verifier::spinoff_prover]
#[verifier::rlimit(40)]
proof fn lemma_free_increment<T: Scalar>(
    u: Units<T>,
    prob: &SocpProblem<T>,
    m: Seq<Seq<T>>,
    reg: T,
    n: int,
    f: FreeTfModel<T>,
    b_x: Seq<T>,
    b_a: Seq<T>,
    sol: &ReducedKktSolutionFreeTf<T>,
)
    requires
        free_tf_setting(u, prob, m, reg, n, f, b_x, b_a, sol),
    ensures
        plus(
            curvature_row(u.zero, prob, m, reg, stacked_free(sol, n), 19 * n),
            dot(
                u.zero,
                column(prob.a_mat@, 19 * n),
                stacked_multipliers(multipliers(u, &sol.base, n), n),
            ),
        ) == b_x[19 * n],
{
    let z = u.zero;
    let a = prob.a_mat@;
    let np = 19 * n + 1;
    let h = hessians(z, prob, m, np, reg, n);
    let hd = dtau_hessian(z, prob, m, n, reg);
    let dt = sol.dz_delta_tau;
    let mu = multipliers(u, &sol.base, n);
    let lam = free_tf_multipliers(z, a, f, n, b_x, b_a);
    let dx = stacked_free(sol, n);
    let dl = stacked_multipliers(mu, n);
    let cols = dtau_column_blocks(z, a, n);
    let cones = prob.cones@;
    let nct = prob.h@.len() as int;
    lemma_free_stack(u, prob, m, reg, n, f, b_x, b_a, sol);
    law_free_tf_step_is_stationary(u, a, h, hd, f, n, b_x, b_a, sol);
    lemma_column_rows(u, prob.g_mat@, m, nct, cones, n, dx, cones.len() as int);
    assert forall|q: int| 0 <= q < n implies #[trigger] mu[q] == lam[q] by {
        if q > 0 {
            assert(sol.base.dlam_dyn@[q - 1] == lam[q]);
        }
    }
    lemma_increment_column(u, a, n, mu, lam, n);
    let col = column(a, 19 * n);
    lemma_dot_split(u, col, dl, 7 * n, 6);
    let tail = col.subrange(7 * n, 7 * n + 6);
    assert forall|q: int| 0 <= q < 6 implies #[trigger] tail[q] == z by {
        assert(a[7 * n + q][19 * n] == z);
    }
    lemma_dot_zero(u, tail, dl.subrange(7 * n, 7 * n + 6), 6);
    lemma_dot_zero(u, cols[n], lam[n], 7);
    let sd = stacked_dot(z, cols, lam, n as nat);
    lemma_add_zero(u, sd);
    assert(stacked_dot(z, cols, lam, (n + 1) as nat) == plus(sd, dot(z, cols[n], lam[n])));
    assert(dot(z, col, dl) == sd);
    let ch = column_hessian(z, prob.g_mat@, m, np, cones, 19 * n, cones.len());
    lemma_distrib(u, dt, ch, reg);
    assert(dx[19 * n] == dt);
    assert(column(prob.g_mat@, 19 * n).len() == nct);
}

/// A structured solve with free final time solves the whole system: in exact
/// arithmetic, with an exact factor, the stacked step with the time increment last
/// and the stacked multipliers satisfy `A dx == b_a` and, row by row,
/// `(G' M G + reg I) dx + A' dl == b_x`.
pub proof fn law_free_tf_solve_is_dense_solve<T: Scalar>(
    u: Units<T>,
    prob: &SocpProblem<T>,
    m: Seq<Seq<T>>,
    reg: T,
    n: int,
    f: FreeTfModel<T>,
    b_x: Seq<T>,
    b_a: Seq<T>,
    sol: &ReducedKktSolutionFreeTf<T>,
)
    requires
        free_tf_setting(u, prob, m, reg, n, f, b_x, b_a, sol),
    ensures
        ({
            let dx = stacked_free(sol, n);
            let dl = stacked_multipliers(multipliers(u, &sol.base, n), n);
            &&& mat_vec(u.zero, prob.a_mat@, dx) == b_a
            &&& forall|j: int|
                0 <= j < 19 * n + 1 ==> plus(
                    #[trigger] curvature_row(u.zero, prob, m, reg, dx, j),
                    dot(u.zero, column(prob.a_mat@, j), dl),
                ) == b_x[j]
        }),
{
    let z = u.zero;
    let a = prob.a_mat@;
    let dx = stacked_free(sol, n);
    let dl = stacked_multipliers(multipliers(u, &sol.base, n), n);
    assert forall|r: int| 0 <= r < 7 * n + 6 implies mat_vec(z, a, dx)[r] == b_a[r] by {
        lemma_free_feasible(u, prob, m, reg, n, f, b_x, b_a, sol, r);
    }
    assert(mat_vec(z, a, dx) =~= b_a);
    assert forall|j: int| 0 <= j < 19 * n + 1 implies plus(
        #[trigger] curvature_row(z, prob, m, reg, dx, j),
        dot(z, column(a, j), dl),
    ) == b_x[j] by {
        if j < 19 * n {
            lemma_free_stationary(u, prob, m, reg, n, f, b_x, b_a, sol, j);
        } else {
            lemma_free_increment(u, prob, m, reg, n, f, b_x, b_a, sol);
        }
    }
}

/// The parts of a free-final-time solution have the sizes of `n` nodes.
proof fn lemma_free_tf_sizes<T: Scalar>(
    u: Units<T>,
    a: Seq<Seq<T>>,
    f: FreeTfModel<T>,
    n: int,
    b_x: Seq<T>,
    lam: Seq<Seq<T>>,
    sol: &ReducedKktSolution<T>,
)
    requires
        n >= 1,
        f.base.h_inv.len() == n,
        all_square(f.base.h_inv, 19),
        shaped(lam, n + 1, 7),
        holds_solution(u.zero, a, f.base, n, b_x, lam, sol),
    ensures
        shaped(sol.dz@, n, 19),
        shaped(multipliers(u, sol, n), n + 1, 7),
{
    let mu = multipliers(u, sol, n);
    assert forall|k: int| 0 <= k < n implies (#[trigger] sol.dz@[k]).len() == 19 by {
        assert(shaped(f.base.h_inv[k], 19, 19));
    }
    assert forall|k: int| 0 <= k < n + 1 implies (#[trigger] mu[k]).len() == 7 by {}
}

} // verus!
