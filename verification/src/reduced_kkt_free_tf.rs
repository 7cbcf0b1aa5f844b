//! The structured solve with a free final time.
//!
//! The time increment adds one global column to the equality matrix, nonzero in
//! the transition rows only, and one diagonal entry to the Hessian. The Schur
//! complement becomes the block-tridiagonal one plus a rank-one term, which the
//! Sherman-Morrison formula takes care of:
//!
//! ```text
//!   S = S_tri + alpha a a',   alpha = 1 / H_dtau
//!   inv(S) r = y - gamma (a' y) v,   y = inv(S_tri) r,   v = inv(S_tri) a,
//!   gamma = alpha / (1 + alpha a' v)
//! ```
use crate::linalg::{
    dot, dot_product, fill_vec, shaped, vadd, vec_add, vec_scale, vec_sub, vscale, vsub, Mat,
};
use crate::numerics::{inversion_repeatable, Numerics};
use crate::reduced_kkt::{
    block_rhs, block_rhs_of, block_tridiag_back_sub, factor_model, factor_reduced_kkt_scvx_block_m,
    factor_status, hessians, holds_solution, projected_rhs, projected_rhs_of, recover_solution,
    tridiag_solution, FactorModel, ReducedKktFactor, ReducedKktSolution, ReducedKktStatus, RB_MAX,
};
use crate::scalar::{
    abs, at_most, finite, is_finite, less, magnitude, minus, over, plus, same, times, total, Limits,
    Scalar, Units,
};
use crate::stage_blocks::cone_touches;
use crate::types::{ConeDesc, SocpProblem};
use vstd::prelude::*;

verus! {

/// The cone touches column `col` and no other of the `np` columns.
pub open spec fn cone_only_in_column<T: Scalar>(
    zero: T,
    g: Seq<Seq<T>>,
    np: int,
    cone: ConeDesc,
    col: int,
) -> bool {
    &&& cone_touches(zero, g, cone, col)
    &&& forall|c: int| 0 <= c < np && #[trigger] cone_touches(zero, g, cone, c) ==> c == col
}

/// Whether the cone touches column `col` and no other.
fn touches_only<T: Scalar>(
    zero: T,
    prob: &SocpProblem<T>,
    np: usize,
    cone: ConeDesc,
    col: usize,
) -> (r: bool)
    requires
        total::<T>(),
        shaped(prob.g_mat@, prob.g_mat@.len() as int, np as int),
        cone.offset + cone.dim <= prob.g_mat@.len(),
        col < np,
    ensures
        r == cone_only_in_column(zero, prob.g_mat@, np as int, cone, col as int),
{
    let ghost g = prob.g_mat@;
    let mut hit: bool = false;
    let mut i: usize = 0;
    while i < cone.dim
        invariant
            total::<T>(),
            g == prob.g_mat@,
            shaped(g, g.len() as int, np as int),
            cone.offset + cone.dim <= g.len(),
            col < np,
            i <= cone.dim,
            hit ==> cone_touches(zero, g, cone, col as int),
            !hit ==> forall|q: int|
                0 <= q < i ==> same(#[trigger] g[cone.offset + q][col as int], zero),
            forall|q: int, c: int|
                0 <= q < i && 0 <= c < np && c != col ==> same(
                    #[trigger] g[cone.offset + q][c],
                    zero,
                ),
        decreases cone.dim - i,
    {
        assert(cone.offset + i < prob.g_mat.rows.len());
        assert(g[cone.offset + i].len() == np);
        let mut c: usize = 0;
        while c < np
            invariant
                total::<T>(),
                g == prob.g_mat@,
                cone.offset + cone.dim <= g.len(),
                cone.offset + i < prob.g_mat.rows.len(),
                g[cone.offset + i].len() == np,
                col < np,
                i < cone.dim,
                c <= np,
                hit ==> cone_touches(zero, g, cone, col as int),
                !hit ==> forall|q: int|
                    0 <= q < i ==> same(#[trigger] g[cone.offset + q][col as int], zero),
                !hit && col < c ==> same(g[cone.offset + i][col as int], zero),
                forall|q: int, k: int|
                    0 <= q < i && 0 <= k < np && k != col ==> same(
                        #[trigger] g[cone.offset + q][k],
                        zero,
                    ),
                forall|k: int|
                    0 <= k < c && k != col ==> same(#[trigger] g[cone.offset + i][k], zero),
            decreases np - c,
        {
            if prob.g_mat.rows[cone.offset + i][c] == zero {
                assert(same(g[cone.offset + i][c as int], zero));
            } else {
                assert(!same(g[cone.offset + i][c as int], zero));
                assert(cone_touches(zero, g, cone, c as int));
                if c == col {
                    hit = true;
                } else {
                    return false;
                }
            }
            c = c + 1;
        }
        i = i + 1;
    }
    proof {
        if !hit && cone_touches(zero, g, cone, col as int) {
            let q = choose|q: int|
                0 <= q < cone.dim && !same(#[trigger] g[cone.offset + q][col as int], zero);
            assert(same(g[cone.offset + q][col as int], zero));
        }
        assert forall|k: int| 0 <= k < np && #[trigger] cone_touches(
            zero,
            g,
            cone,
            k,
        ) implies k == col by {
            let q = choose|q: int|
                0 <= q < cone.dim && !same(#[trigger] g[cone.offset + q][k], zero);
            assert(k != col ==> same(g[cone.offset + q][k], zero));
        }
    }
    hit
}

/// `acc + sum_j (g_i m_ij) g_j` over the first `j` rows of the cone, in column
/// `col`; vanishing `g_j` are skipped.
pub open spec fn quad_row<T: Scalar>(
    z: T,
    g: Seq<Seq<T>>,
    m: Seq<Seq<T>>,
    cone: ConeDesc,
    col: int,
    i: int,
    acc: T,
    j: nat,
) -> T
    decreases j,
{
    if j == 0 {
        acc
    } else {
        let before = quad_row(z, g, m, cone, col, i, acc, (j - 1) as nat);
        let gj = g[cone.offset + j - 1][col];
        if same(gj, z) {
            before
        } else {
            plus(
                before,
                times(times(g[cone.offset + i][col], m[cone.offset + i][cone.offset + j - 1]), gj),
            )
        }
    }
}

/// `acc + g' m g` over the first `i` rows of the cone, in column `col`.
pub open spec fn quad_form<T: Scalar>(
    z: T,
    g: Seq<Seq<T>>,
    m: Seq<Seq<T>>,
    cone: ConeDesc,
    col: int,
    acc: T,
    i: nat,
) -> T
    decreases i,
{
    if i == 0 {
        acc
    } else {
        let before = quad_form(z, g, m, cone, col, acc, (i - 1) as nat);
        if same(g[cone.offset + i - 1][col], z) {
            before
        } else {
            quad_row(z, g, m, cone, col, i - 1, before, cone.dim as nat)
        }
    }
}

/// The Hessian entry of column `col` after the first `c` cones: those that touch
/// this column only contribute.
pub open spec fn column_hessian<T: Scalar>(
    z: T,
    g: Seq<Seq<T>>,
    m: Seq<Seq<T>>,
    np: int,
    cones: Seq<ConeDesc>,
    col: int,
    c: nat,
) -> T
    decreases c,
{
    if c == 0 {
        z
    } else {
        let before = column_hessian(z, g, m, np, cones, col, (c - 1) as nat);
        let cone = cones[c - 1];
        if cone_only_in_column(z, g, np, cone, col) {
            quad_form(z, g, m, cone, col, before, cone.dim as nat)
        } else {
            before
        }
    }
}

/// The Hessian entry of the time increment.
pub open spec fn dtau_hessian<T: Scalar>(
    z: T,
    prob: &SocpProblem<T>,
    m: Seq<Seq<T>>,
    n: int,
    reg: T,
) -> T {
    plus(
        column_hessian(
            z,
            prob.g_mat@,
            m,
            19 * n + 1,
            prob.cones@,
            19 * n,
            prob.cones@.len(),
        ),
        reg,
    )
}

/// The Hessian entry of the time increment.
fn dtau_hessian_of<T: Scalar>(
    zero: T,
    prob: &SocpProblem<T>,
    n: usize,
    m_full: &Mat<T>,
    reg: T,
) -> (h: T)
    requires
        total::<T>(),
        19 * n + 1 <= usize::MAX,
        shaped(prob.g_mat@, prob.g_mat@.len() as int, 19 * n + 1),
        prob.cones_fit(prob.g_mat@.len() as int),
        shaped(m_full@, prob.g_mat@.len() as int, prob.g_mat@.len() as int),
    ensures
        h == dtau_hessian(zero, prob, m_full@, n as int, reg),
{
    let ghost g = prob.g_mat@;
    let ghost m = m_full@;
    let ghost nct = g.len() as int;
    let np: usize = 19 * n + 1;
    let col: usize = 19 * n;
    let mut h: T = zero;
    let mut c: usize = 0;
    while c < prob.cones.len()
        invariant
            total::<T>(),
            np == 19 * n + 1,
            col == 19 * n,
            g == prob.g_mat@,
            m == m_full@,
            nct == g.len(),
            shaped(g, nct, np as int),
            shaped(m, nct, nct),
            prob.cones_fit(nct),
            c <= prob.cones@.len(),
            h == column_hessian(zero, g, m, np as int, prob.cones@, col as int, c as nat),
        decreases prob.cones.len() - c,
    {
        let cone: ConeDesc = prob.cones[c];
        assert(prob.cones@[c as int].offset + prob.cones@[c as int].dim <= nct);
        if touches_only(zero, prob, np, cone, col) {
            let ghost start = h;
            let mut i: usize = 0;
            while i < cone.dim
                invariant
                    total::<T>(),
                    np == 19 * n + 1,
                    col == 19 * n,
                    g == prob.g_mat@,
                    m == m_full@,
                    nct == g.len(),
                    shaped(g, nct, np as int),
                    shaped(m, nct, nct),
                    cone.offset + cone.dim <= nct,
                    i <= cone.dim,
                    h == quad_form(zero, g, m, cone, col as int, start, i as nat),
                decreases cone.dim - i,
            {
                assert(cone.offset + i < prob.g_mat.rows.len());
                assert(g[cone.offset + i].len() == np);
                assert(m[cone.offset + i].len() == nct);
                let gi: T = prob.g_mat.rows[cone.offset + i][col];
                if gi == zero {
                } else {
                    let ghost row_start = h;
                    let mut j: usize = 0;
                    while j < cone.dim
                        invariant
                            total::<T>(),
                            np == 19 * n + 1,
                            col == 19 * n,
                            g == prob.g_mat@,
                            m == m_full@,
                            nct == g.len(),
                            shaped(g, nct, np as int),
                            shaped(m, nct, nct),
                            cone.offset + cone.dim <= nct,
                            i < cone.dim,
                            gi == g[cone.offset + i][col as int],
                            j <= cone.dim,
                            h == quad_row(
                                zero,
                                g,
                                m,
                                cone,
                                col as int,
                                i as int,
                                row_start,
                                j as nat,
                            ),
                        decreases cone.dim - j,
                    {
                        assert(cone.offset + j < prob.g_mat.rows.len());
                        assert(g[cone.offset + j].len() == np);
                        assert(m[cone.offset + i].len() == nct);
                        assert(cone.offset + i < m_full.rows.len());
                        let gj: T = prob.g_mat.rows[cone.offset + j][col];
                        if gj == zero {
                        } else {
                            h = h + (gi * m_full.rows[cone.offset + i][cone.offset + j]) * gj;
                        }
                        j = j + 1;
                    }
                }
                i = i + 1;
            }
        }
        c = c + 1;
    }
    h + reg
}

/// The time increment's column of the equality matrix, one row per row block:
/// zero but for the transitions.
pub open spec fn dtau_column_blocks<T>(zero: T, a: Seq<Seq<T>>, n: int) -> Seq<Seq<T>> {
    Seq::new(
        (n + 1) as nat,
        |rb: int|
            Seq::new(
                7,
                |i: int|
                    if 0 < rb < n {
                        a[7 * rb + i][19 * n]
                    } else {
                        zero
                    },
            ),
    )
}

/// Sum over the first `m` row blocks of the blocks' inner products.
pub open spec fn stacked_dot<T: Scalar>(z: T, a: Seq<Seq<T>>, b: Seq<Seq<T>>, m: nat) -> T
    decreases m,
{
    if m == 0 {
        z
    } else {
        plus(stacked_dot(z, a, b, (m - 1) as nat), dot(z, a[m - 1], b[m - 1]))
    }
}

/// What a free-final-time factor stands for.
pub struct FreeTfModel<T> {
    pub base: FactorModel<T>,
    /// `1 / H_dtau`.
    pub alpha: T,
    /// `inv(S_tri) a`, one row per row block.
    pub v: Seq<Seq<T>>,
    /// `alpha / (1 + alpha a' v)`.
    pub gamma: T,
}

/// `1 + alpha a' v`.
pub open spec fn smw_denominator<T: Scalar>(
    units: Units<T>,
    a: Seq<Seq<T>>,
    n: int,
    alpha: T,
    v: Seq<Seq<T>>,
) -> T {
    plus(
        units.one,
        times(
            alpha,
            stacked_dot(
                units.zero,
                dtau_column_blocks(units.zero, a, n),
                v,
                (n + 1) as nat,
            ),
        ),
    )
}

/// The free-final-time factor built on `base` with the time increment's Hessian
/// entry `h_dtau`.
pub open spec fn free_tf_model<T: Scalar>(
    units: Units<T>,
    a: Seq<Seq<T>>,
    base: FactorModel<T>,
    n: int,
    h_dtau: T,
) -> FreeTfModel<T> {
    let alpha = over(units.one, h_dtau);
    let v = tridiag_solution(units.zero, a, base, n, dtau_column_blocks(units.zero, a, n));
    FreeTfModel {
        base,
        alpha,
        v,
        gamma: over(alpha, smw_denominator(units, a, n, alpha, v)),
    }
}

/// The time increment's Hessian entry is not a positive finite number.
pub open spec fn hessian_entry_refused<T: Scalar>(units: Units<T>, h_dtau: T) -> bool {
    !finite(units.zero, h_dtau) || at_most(h_dtau, units.zero)
}

/// The denominator of `gamma` is not finite or too close to zero.
pub open spec fn denominator_refused<T: Scalar>(
    units: Units<T>,
    limits: Limits<T>,
    a: Seq<Seq<T>>,
    base: FactorModel<T>,
    n: int,
    h_dtau: T,
) -> bool {
    let f = free_tf_model(units, a, base, n, h_dtau);
    let denom = smw_denominator(units, a, n, f.alpha, f.v);
    !finite(units.zero, denom) || less(magnitude(units.zero, denom), limits.tiny)
}

/// Outcome of the rank-one part of a free-final-time factorization.
pub open spec fn rank_one_status<T: Scalar>(
    units: Units<T>,
    limits: Limits<T>,
    a: Seq<Seq<T>>,
    base: FactorModel<T>,
    n: int,
    h_dtau: T,
) -> ReducedKktStatus {
    let f = free_tf_model(units, a, base, n, h_dtau);
    if hessian_entry_refused(units, h_dtau) {
        ReducedKktStatus::HNotPd
    } else if denominator_refused(units, limits, a, base, n, h_dtau) || !finite(
        units.zero,
        f.gamma,
    ) {
        ReducedKktStatus::SchurSingular
    } else {
        ReducedKktStatus::Okay
    }
}

/// Outcome of a free-final-time factorization: that of the block-tridiagonal
/// part, then that of the rank-one part.
pub open spec fn free_tf_status<T: Scalar, C: Numerics<T>>(
    units: Units<T>,
    limits: Limits<T>,
    ops: &C,
    a: Seq<Seq<T>>,
    h: Seq<Seq<Seq<T>>>,
    n: int,
    h_dtau: T,
) -> ReducedKktStatus {
    let st = factor_status(units, ops, a, h, n);
    if st != ReducedKktStatus::Okay {
        st
    } else {
        rank_one_status(units, limits, a, factor_model(units, ops, a, h, n), n, h_dtau)
    }
}

/// A factor with the data of the rank-one correction.
pub struct ReducedKktFactorFreeTf<T> {
    pub base: ReducedKktFactor<T>,
    pub h_inv_dtau: T,
    /// The time increment's column of the equality matrix, by row blocks.
    pub a_dtau: Mat<T>,
    pub v_smw: Mat<T>,
    pub gamma: T,
}

impl<T> View for ReducedKktFactorFreeTf<T> {
    type V = FreeTfModel<T>;

    open spec fn view(&self) -> FreeTfModel<T> {
        FreeTfModel {
            base: self.base@,
            alpha: self.h_inv_dtau,
            v: self.v_smw@,
            gamma: self.gamma,
        }
    }
}

impl<T: Scalar> ReducedKktFactorFreeTf<T> {
    /// An empty factor.
    pub fn new(zero: T) -> (f: Self)
        ensures
            f.base.is_blank(),
            f.h_inv_dtau == zero,
            f.a_dtau@ == Seq::<Seq<T>>::empty(),
            f.v_smw@ == Seq::<Seq<T>>::empty(),
            f.gamma == zero,
    {
        ReducedKktFactorFreeTf {
            base: ReducedKktFactor::new(),
            h_inv_dtau: zero,
            a_dtau: Mat { rows: Vec::new() },
            v_smw: Mat { rows: Vec::new() },
            gamma: zero,
        }
    }

    /// The factor belongs to the `n`-node equality matrix `a`.
    pub open spec fn belongs_to(&self, zero: T, a: Seq<Seq<T>>, n: int) -> bool {
        &&& self.base.belongs_to(zero, a, n)
        &&& self.a_dtau@ == dtau_column_blocks(zero, a, n)
        &&& shaped(self.v_smw@, n + 1, 7)
    }

    /// The rank-one part is that of `before`.
    pub open spec fn keeps_rank_one(&self, before: &Self) -> bool {
        &&& self.h_inv_dtau == before.h_inv_dtau
        &&& self.a_dtau == before.a_dtau
        &&& self.v_smw == before.v_smw
        &&& self.gamma == before.gamma
    }

    /// What a factorization whose block-tridiagonal part `base` succeeded makes of
    /// the rank-one part of `before`: where the time increment's Hessian entry is
    /// refused it is kept; where the denominator of `gamma` is refused, only
    /// `gamma` is.
    pub open spec fn rank_one_written(
        &self,
        before: &Self,
        units: Units<T>,
        limits: Limits<T>,
        a: Seq<Seq<T>>,
        base: FactorModel<T>,
        n: int,
        h_dtau: T,
    ) -> bool {
        let f = free_tf_model(units, a, base, n, h_dtau);
        if hessian_entry_refused(units, h_dtau) {
            self.keeps_rank_one(before)
        } else {
            &&& self.h_inv_dtau == f.alpha
            &&& self.a_dtau@ == dtau_column_blocks(units.zero, a, n)
            &&& self.v_smw@ == f.v
            &&& self.gamma == if denominator_refused(units, limits, a, base, n, h_dtau) {
                before.gamma
            } else {
                f.gamma
            }
        }
    }
}

/// A step in all unknowns, the time increment included.
pub struct ReducedKktSolutionFreeTf<T> {
    pub base: ReducedKktSolution<T>,
    pub dz_delta_tau: T,
}

impl<T> ReducedKktSolutionFreeTf<T> {
    /// An empty solution.
    pub fn new(zero: T) -> (r: Self)
        ensures
            r.base.is_blank(),
            r.dz_delta_tau == zero,
    {
        ReducedKktSolutionFreeTf { base: ReducedKktSolution::new(), dz_delta_tau: zero }
    }
}

/// The time increment's column of the equality matrix, by row blocks.
fn pack_dtau_column<T: Copy>(zero: T, prob: &SocpProblem<T>, n: usize) -> (m: Mat<T>)
    requires
        n >= 1,
        19 * n + 1 <= usize::MAX,
        shaped(prob.a_mat@, 7 * n + 6, 19 * n + 1),
    ensures
        m@ == dtau_column_blocks(zero, prob.a_mat@, n as int),
        shaped(m@, n + 1, 7),
{
    let ghost a = prob.a_mat@;
    let ghost target = dtau_column_blocks(zero, a, n as int);
    assert(7 * n + 6 <= prob.a_mat.rows.len());
    let col: usize = 19 * n;
    let mut rows: Vec<Vec<T>> = Vec::new();
    let mut rb: usize = 0;
    while rb <= n
        invariant
            n >= 1,
            col == 19 * n,
            a == prob.a_mat@,
            7 * n + 6 <= prob.a_mat.rows.len(),
            shaped(a, 7 * n + 6, 19 * n + 1),
            target == dtau_column_blocks(zero, a, n as int),
            rb <= n + 1,
            rows@.len() == rb,
            forall|q: int| 0 <= q < rb ==> (#[trigger] rows@[q])@ == target[q],
        decreases n + 1 - rb,
    {
        let mut v: Vec<T> = fill_vec(zero, 7);
        if 0 < rb && rb < n {
            let mut i: usize = 0;
            while i < 7
                invariant
                    n >= 1,
                    col == 19 * n,
                    a == prob.a_mat@,
                    7 * n + 6 <= prob.a_mat.rows.len(),
                    shaped(a, 7 * n + 6, 19 * n + 1),
                    0 < rb < n,
                    i <= 7,
                    v@.len() == 7,
                    forall|q: int| 0 <= q < i ==> #[trigger] v@[q] == a[7 * rb + q][col as int],
                decreases 7 - i,
            {
                assert(a[7 * rb + i].len() == 19 * n + 1);
                let x: T = prob.a_mat.rows[7 * rb + i][col];
                v[i] = x;
                i = i + 1;
            }
        }
        assert(v@ =~= target[rb as int]);
        rows.push(v);
        rb = rb + 1;
    }
    let m: Mat<T> = Mat { rows };
    assert(m@ =~= target);
    m
}

/// Sum over all row blocks of the blocks' inner products.
fn stacked_dot_of<T: Scalar>(zero: T, a: &Mat<T>, b: &Mat<T>) -> (r: T)
    requires
        total::<T>(),
        shaped(a@, a@.len() as int, 7),
        shaped(b@, a@.len() as int, 7),
    ensures
        r == stacked_dot(zero, a@, b@, a@.len()),
{
    let mut s: T = zero;
    let mut k: usize = 0;
    while k < a.rows.len()
        invariant
            total::<T>(),
            shaped(a@, a@.len() as int, 7),
            shaped(b@, a@.len() as int, 7),
            k <= a.rows.len(),
            s == stacked_dot(zero, a@, b@, k as nat),
        decreases a.rows.len() - k,
    {
        assert(a@[k as int].len() == 7 && b@[k as int].len() == 7);
        s = s + dot_product(zero, &a.rows[k], &b.rows[k]);
        k = k + 1;
    }
    s
}

/// Builds the factor of the structured system with a free final time, into
/// `factor`. Where the status is not `Okay`, what was computed until then is
/// written and the rest of `factor` is left as it was.
pub fn factor_reduced_kkt_scvx_block_m_free_tf<T: Scalar, C: Numerics<T>>(
    units: Units<T>,
    limits: Limits<T>,
    ops: &C,
    prob: &SocpProblem<T>,
    n: usize,
    m_full: &Mat<T>,
    reg: T,
    factor: &mut ReducedKktFactorFreeTf<T>,
) -> (status: ReducedKktStatus)
    requires
        total::<T>(),
        inversion_repeatable(ops),
        19 * n + 1 <= usize::MAX,
        prob.sized(19 * n + 1, 7 * n + 6, prob.h@.len() as int),
        prob.cones_fit(prob.h@.len() as int),
        shaped(m_full@, prob.h@.len() as int, prob.h@.len() as int),
    ensures
        status == free_tf_status(
            units,
            limits,
            ops,
            prob.a_mat@,
            hessians(units.zero, prob, m_full@, 19 * n + 1, reg, n as int),
            n as int,
            dtau_hessian(units.zero, prob, m_full@, n as int, reg),
        ),
        status == ReducedKktStatus::Okay ==> final(factor).belongs_to(
            units.zero,
            prob.a_mat@,
            n as int,
        ) && final(factor)@ == free_tf_model(
            units,
            prob.a_mat@,
            factor_model(
                units,
                ops,
                prob.a_mat@,
                hessians(units.zero, prob, m_full@, 19 * n + 1, reg, n as int),
                n as int,
            ),
            n as int,
            dtau_hessian(units.zero, prob, m_full@, n as int, reg),
        ),
        ({
            let h = hessians(units.zero, prob, m_full@, 19 * n + 1, reg, n as int);
            let a = prob.a_mat@;
            let before = *old(factor);
            let after = *final(factor);
            match factor_status(units, ops, a, h, n as int) {
                ReducedKktStatus::DegenerateInput => after == before,
                ReducedKktStatus::HNotPd => {
                    &&& after.base.stopped_at_hessian(&before.base, ops, h, n as int)
                    &&& after.keeps_rank_one(&before)
                },
                ReducedKktStatus::SchurSingular => {
                    &&& after.base.stopped_at_pivot(&before.base, units, ops, a, h, n as int)
                    &&& after.keeps_rank_one(&before)
                },
                ReducedKktStatus::Okay => {
                    &&& after.base.belongs_to(units.zero, a, n as int)
                    &&& after.base@ == factor_model(units, ops, a, h, n as int)
                    &&& after.rank_one_written(
                        &before,
                        units,
                        limits,
                        a,
                        factor_model(units, ops, a, h, n as int),
                        n as int,
                        dtau_hessian(units.zero, prob, m_full@, n as int, reg),
                    )
                },
            }
        }),
{
    let ghost a = prob.a_mat@;
    let st: ReducedKktStatus = factor_reduced_kkt_scvx_block_m(
        units,
        ops,
        prob,
        n,
        19 * n + 1,
        m_full,
        reg,
        &mut factor.base,
    );
    if st != ReducedKktStatus::Okay {
        return st;
    }
    let h_dtau: T = dtau_hessian_of(units.zero, prob, n, m_full, reg);
    if !is_finite(units.zero, h_dtau) || h_dtau <= units.zero {
        return ReducedKktStatus::HNotPd;
    }
    factor.h_inv_dtau = units.one / h_dtau;
    factor.a_dtau = pack_dtau_column(units.zero, prob, n);
    factor.v_smw = block_tridiag_back_sub(units.zero, Ghost(a), &factor.base, n, &factor.a_dtau);
    let utv: T = stacked_dot_of(units.zero, &factor.a_dtau, &factor.v_smw);
    let denom: T = units.one + factor.h_inv_dtau * utv;
    if !is_finite(units.zero, denom) {
        return ReducedKktStatus::SchurSingular;
    }
    let size: T = abs(units.zero, denom);
    if size < limits.tiny {
        return ReducedKktStatus::SchurSingular;
    }
    factor.gamma = factor.h_inv_dtau / denom;
    if !is_finite(units.zero, factor.gamma) {
        return ReducedKktStatus::SchurSingular;
    }
    ReducedKktStatus::Okay
}

/// Row block `rb` of the Schur right-hand side, with the time increment's share:
/// `A inv(H) b_z + a (alpha b_dtau) - b_a`.
pub open spec fn free_tf_rhs<T: Scalar>(
    z: T,
    a: Seq<Seq<T>>,
    f: FreeTfModel<T>,
    n: int,
    b_x: Seq<T>,
    b_a: Seq<T>,
    rb: int,
) -> Seq<T> {
    vsub(
        vadd(
            projected_rhs(z, a, f.base, n, b_x, rb),
            vscale(dtau_column_blocks(z, a, n)[rb], times(f.alpha, b_x[19 * n])),
        ),
        block_rhs(z, b_a, n, rb),
    )
}

/// The Schur right-hand side, one row per row block.
pub open spec fn free_tf_rhs_all<T: Scalar>(
    z: T,
    a: Seq<Seq<T>>,
    f: FreeTfModel<T>,
    n: int,
    b_x: Seq<T>,
    b_a: Seq<T>,
) -> Seq<Seq<T>> {
    Seq::new((n + 1) as nat, |rb: int| free_tf_rhs(z, a, f, n, b_x, b_a, rb))
}

/// The rank-one correction of a block-tridiagonal solution `y`:
/// `y - v (gamma a' y)`.
pub open spec fn smw_corrected<T: Scalar>(
    z: T,
    a: Seq<Seq<T>>,
    f: FreeTfModel<T>,
    n: int,
    y: Seq<Seq<T>>,
) -> Seq<Seq<T>> {
    let scale = times(
        f.gamma,
        stacked_dot(z, dtau_column_blocks(z, a, n), y, (n + 1) as nat),
    );
    Seq::new((n + 1) as nat, |rb: int| vsub(y[rb], vscale(f.v[rb], scale)))
}

/// The multipliers for one right-hand side.
pub open spec fn free_tf_multipliers<T: Scalar>(
    z: T,
    a: Seq<Seq<T>>,
    f: FreeTfModel<T>,
    n: int,
    b_x: Seq<T>,
    b_a: Seq<T>,
) -> Seq<Seq<T>> {
    smw_corrected(
        z,
        a,
        f,
        n,
        tridiag_solution(z, a, f.base, n, free_tf_rhs_all(z, a, f, n, b_x, b_a)),
    )
}

/// The step in the time increment: `alpha (b_dtau - a' lam)`.
pub open spec fn dtau_step<T: Scalar>(
    z: T,
    a: Seq<Seq<T>>,
    f: FreeTfModel<T>,
    n: int,
    b_x: Seq<T>,
    lam: Seq<Seq<T>>,
) -> T {
    times(
        f.alpha,
        minus(b_x[19 * n], stacked_dot(z, dtau_column_blocks(z, a, n), lam, (n + 1) as nat)),
    )
}

/// What applying `f` to `(b_x, b_a)` yields.
pub open spec fn is_free_tf_application<T: Scalar>(
    z: T,
    a: Seq<Seq<T>>,
    f: FreeTfModel<T>,
    n: int,
    b_x: Seq<T>,
    b_a: Seq<T>,
    sol: &ReducedKktSolutionFreeTf<T>,
) -> bool {
    let lam = free_tf_multipliers(z, a, f, n, b_x, b_a);
    &&& holds_solution(z, a, f.base, n, b_x, lam, &sol.base)
    &&& sol.dz_delta_tau == dtau_step(z, a, f, n, b_x, lam)
}

/// Applies a prebuilt free-final-time factor to one right-hand side. The factor
/// must come from the same problem.
pub fn solve_reduced_kkt_scvx_with_factor_free_tf<T: Scalar>(
    units: Units<T>,
    prob: &SocpProblem<T>,
    n: usize,
    factor: &ReducedKktFactorFreeTf<T>,
    b_x: &Vec<T>,
    b_a: &Vec<T>,
    out: &mut ReducedKktSolutionFreeTf<T>,
) -> (status: ReducedKktStatus)
    requires
        total::<T>(),
        19 * n + 1 <= usize::MAX,
        shaped(prob.a_mat@, 7 * n + 6, 19 * n + 1),
        n >= 1 && factor.base.nrb == n + 1 ==> factor.belongs_to(
            units.zero,
            prob.a_mat@,
            n as int,
        ),
        b_x@.len() == 19 * n + 1,
        b_a@.len() == 7 * n + 6,
    ensures
        status == (if n < 1 || factor.base.nrb != n + 1 || factor.base.nrb > RB_MAX {
            ReducedKktStatus::DegenerateInput
        } else {
            ReducedKktStatus::Okay
        }),
        status == ReducedKktStatus::Okay ==> is_free_tf_application(
            units.zero,
            prob.a_mat@,
            factor@,
            n as int,
            b_x@,
            b_a@,
            final(out),
        ),
        status != ReducedKktStatus::Okay ==> *final(out) == *old(out),
{
    if n < 1 {
        return ReducedKktStatus::DegenerateInput;
    }
    let nrb: usize = factor.base.nrb;
    if nrb > RB_MAX || nrb == 0 || nrb - 1 != n {
        return ReducedKktStatus::DegenerateInput;
    }
    let ghost a = prob.a_mat@;
    let zero: T = units.zero;
    let np: usize = 19 * n + 1;
    let b_dtau: T = b_x[19 * n];
    let alpha: T = factor.h_inv_dtau;
    let share: T = alpha * b_dtau;
    let ghost cols = dtau_column_blocks(zero, a, n as int);
    assert(shaped(cols, n + 1, 7));
    let mut rows: Vec<Vec<T>> = Vec::new();
    let mut rb: usize = 0;
    while rb <= n
        invariant
            total::<T>(),
            1 <= n < RB_MAX,
            np == 19 * n + 1,
            a == prob.a_mat@,
            shaped(a, 7 * n + 6, np as int),
            factor.belongs_to(zero, a, n as int),
            cols == dtau_column_blocks(zero, a, n as int),
            shaped(cols, n + 1, 7),
            b_x@.len() == np,
            b_a@.len() == 7 * n + 6,
            share == times(factor@.alpha, b_x@[19 * n as int]),
            rb <= n + 1,
            rows@.len() == rb,
            forall|q: int|
                0 <= q < rb ==> (#[trigger] rows@[q])@ == free_tf_rhs(
                    zero,
                    a,
                    factor@,
                    n as int,
                    b_x@,
                    b_a@,
                    q,
                ) && rows@[q]@.len() == 7,
        decreases n + 1 - rb,
    {
        assert(cols[rb as int].len() == 7);
        let p: Vec<T> = projected_rhs_of(zero, prob, &factor.base, n, np, b_x, rb);
        let t: Vec<T> = vec_scale(&factor.a_dtau.rows[rb], share);
        let pt: Vec<T> = vec_add(&p, &t);
        let b: Vec<T> = block_rhs_of(zero, b_a, n, rb);
        let r: Vec<T> = vec_sub(&pt, &b);
        rows.push(r);
        rb = rb + 1;
    }
    let rhs: Mat<T> = Mat { rows };
    assert(rhs@ =~= free_tf_rhs_all(zero, a, factor@, n as int, b_x@, b_a@));
    assert forall|i: int| 0 <= i < n + 1 implies (#[trigger] rhs@[i]).len() == 7 by {
        assert(rhs.rows@[i]@.len() == 7);
    }
    let y0: Mat<T> = block_tridiag_back_sub(zero, Ghost(a), &factor.base, n, &rhs);
    let uty: T = stacked_dot_of(zero, &factor.a_dtau, &y0);
    let scale: T = factor.gamma * uty;
    let ghost target = smw_corrected(zero, a, factor@, n as int, y0@);
    let mut lam_rows: Vec<Vec<T>> = Vec::new();
    let mut rb: usize = 0;
    while rb <= n
        invariant
            total::<T>(),
            1 <= n < RB_MAX,
            shaped(factor.v_smw@, n + 1, 7),
            shaped(y0@, n + 1, 7),
            rb <= n + 1,
            target.len() == n + 1,
            forall|q: int|
                0 <= q <= n ==> #[trigger] target[q] == vsub(
                    y0@[q],
                    vscale(factor.v_smw@[q], scale),
                ),
            lam_rows@.len() == rb,
            forall|q: int|
                0 <= q < rb ==> (#[trigger] lam_rows@[q])@ == target[q] && lam_rows@[q]@.len() == 7,
        decreases n + 1 - rb,
    {
        assert(y0@[rb as int].len() == 7 && factor.v_smw@[rb as int].len() == 7);
        let t: Vec<T> = vec_scale(&factor.v_smw.rows[rb], scale);
        let r: Vec<T> = vec_sub(&y0.rows[rb], &t);
        assert(r@ == target[rb as int]);
        lam_rows.push(r);
        rb = rb + 1;
    }
    let lam: Mat<T> = Mat { rows: lam_rows };
    assert(lam@ =~= target);
    assert forall|i: int| 0 <= i < n + 1 implies (#[trigger] lam@[i]).len() == 7 by {
        assert(lam.rows@[i]@.len() == 7);
    }
    let base: ReducedKktSolution<T> = recover_solution(
        zero,
        prob,
        &factor.base,
        n,
        np,
        b_x,
        &lam,
    );
    let at_dl: T = stacked_dot_of(zero, &factor.a_dtau, &lam);
    let dz_delta_tau: T = alpha * (b_dtau - at_dl);
    *out = ReducedKktSolutionFreeTf { base, dz_delta_tau };
    ReducedKktStatus::Okay
}

} // verus!
