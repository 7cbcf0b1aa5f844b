//! What the structured solve achieves where arithmetic is exact: the step it
//! returns satisfies the optimality system it was asked to solve.
use crate::algebra::{
    field, lemma_add_assoc, lemma_add_comm, lemma_add_neg, lemma_add_zero,
    lemma_dot_congruence, lemma_dot_zero, lemma_madd_vec, lemma_mat_mul_vec, lemma_mat_t_vec,
    lemma_mat_vec_sub, lemma_msub_vec, lemma_mul_one, lemma_mul_zero, lemma_neg_add, lemma_neg_neg,
    lemma_sub_def, lemma_sub_facts, lemma_sub_pairs,
};
use crate::linalg::{
    column, constant, dot, dot_upto, filled, madd, mat_mul, mat_t_vec, mat_vec, shaped, transpose,
    vadd, vsub,
};
use crate::numerics::{inverse_of, Numerics};
use crate::reduced_kkt::{
    all_square, backward, block_rhs, factor_model, factor_status, first_stage, forward,
    hessian_inverses, holds_solution, is_application, pivot, projected_rhs, recovered_step,
    reduced_pivot, sandwich, schur_diagonal, schur_lower, schur_rhs_all, schur_upper, stage_rhs,
    through, tridiag_solution, FactorModel, ReducedKktSolution, ReducedKktStatus,
};
use crate::scalar::{minus, negated, plus, Scalar, Units};
use crate::stage_blocks::a_block;
use vstd::prelude::*;

verus! {

/// The identity matrix of dimension `d`.
pub open spec fn identity<T>(u: Units<T>, d: int) -> Seq<Seq<T>> {
    Seq::new(
        d as nat,
        |i: int|
            Seq::new(
                d as nat,
                |j: int|
                    if i == j {
                        u.one
                    } else {
                        u.zero
                    },
            ),
    )
}

/// `m inv == I`, for matrices of dimension `d`.
pub open spec fn is_right_inverse<T: Scalar>(
    u: Units<T>,
    m: Seq<Seq<T>>,
    inv: Seq<Seq<T>>,
    d: int,
) -> bool {
    mat_mul(u.zero, m, inv, d) == identity(u, d)
}

proof fn lemma_dot_unit<T: Scalar>(u: Units<T>, v: Seq<T>, d: int, i: int, n: nat)
    requires
        field(u),
        0 <= i < d,
        n <= d,
    ensures
        dot_upto(u.zero, identity(u, d)[i], v, n) == (if i < n {
            v[i]
        } else {
            u.zero
        }),
    decreases n,
{
    if n > 0 {
        lemma_dot_unit(u, v, d, i, (n - 1) as nat);
        if i == n - 1 {
            lemma_mul_one(u, v[i]);
            lemma_add_zero(u, v[i]);
        } else {
            lemma_mul_zero(u, v[n - 1]);
            lemma_add_zero(u, dot_upto(u.zero, identity(u, d)[i], v, (n - 1) as nat));
        }
    }
}

/// `I v == v`.
proof fn lemma_identity_vec<T: Scalar>(u: Units<T>, v: Seq<T>)
    requires
        field(u),
    ensures
        mat_vec(u.zero, identity(u, v.len() as int), v) == v,
{
    let d = v.len() as int;
    assert forall|i: int| 0 <= i < d implies mat_vec(u.zero, identity(u, d), v)[i] == v[i] by {
        lemma_dot_unit(u, v, d, i, v.len());
    }
    assert(mat_vec(u.zero, identity(u, d), v) =~= v);
}

/// A right inverse undoes: `m (inv v) == v`.
proof fn lemma_right_inverse<T: Scalar>(
    u: Units<T>,
    m: Seq<Seq<T>>,
    inv: Seq<Seq<T>>,
    v: Seq<T>,
)
    requires
        field(u),
        shaped(m, v.len() as int, v.len() as int),
        shaped(inv, v.len() as int, v.len() as int),
        is_right_inverse(u, m, inv, v.len() as int),
    ensures
        mat_vec(u.zero, m, mat_vec(u.zero, inv, v)) == v,
{
    lemma_mat_mul_vec(u, m, inv, v.len() as int, v);
    lemma_identity_vec(u, v);
}

/// `sandwich(a, h, b) y == a (h (b' y))`.
proof fn lemma_sandwich_vec<T: Scalar>(
    u: Units<T>,
    a: Seq<Seq<T>>,
    h: Seq<Seq<T>>,
    b: Seq<Seq<T>>,
    y: Seq<T>,
)
    requires
        field(u),
        shaped(a, 7, 19),
        shaped(h, 19, 19),
        shaped(b, 7, 19),
        y.len() == 7,
    ensures
        mat_vec(u.zero, sandwich(u.zero, a, h, b), y) == through(
            u.zero,
            a,
            h,
            mat_t_vec(u.zero, b, 19, y),
        ),
{
    let bt = transpose(b, 19);
    assert(shaped(bt, 19, 7));
    let hb = mat_mul(u.zero, h, bt, 7);
    assert(shaped(hb, 19, 7));
    lemma_mat_mul_vec(u, a, hb, 7, y);
    lemma_mat_mul_vec(u, h, bt, 7, y);
    lemma_mat_t_vec(u.zero, b, 19, y);
}

/// `a (h ((b - c) - d)) == (a (h b) - a (h c)) - a (h d)`.
proof fn lemma_through_sub<T: Scalar>(
    u: Units<T>,
    a: Seq<Seq<T>>,
    h: Seq<Seq<T>>,
    b: Seq<T>,
    c: Seq<T>,
    d: Seq<T>,
)
    requires
        field(u),
        shaped(a, a.len() as int, 19),
        shaped(h, 19, 19),
        b.len() == 19,
        c.len() == 19,
        d.len() == 19,
    ensures
        through(u.zero, a, h, vsub(vsub(b, c), d)) == vsub(
            vsub(through(u.zero, a, h, b), through(u.zero, a, h, c)),
            through(u.zero, a, h, d),
        ),
{
    lemma_mat_vec_sub(u, h, vsub(b, c), d);
    lemma_mat_vec_sub(u, h, b, c);
    let hb = mat_vec(u.zero, h, b);
    let hc = mat_vec(u.zero, h, c);
    let hd = mat_vec(u.zero, h, d);
    lemma_mat_vec_sub(u, a, vsub(hb, hc), hd);
    lemma_mat_vec_sub(u, a, hb, hc);
}

/// The blocks are 7 by 19.
pub proof fn lemma_a_block_shaped<T>(zero: T, a: Seq<Seq<T>>, n: int, rb: int, stage: int)
    ensures
        shaped(a_block(zero, a, n, rb, stage), 7, 19),
{
}

/// `(p - q) + (((r - p) - w) + q) + w == r`.
proof fn lemma_cancel<T: Scalar>(u: Units<T>, p: T, q: T, r: T, w: T)
    requires
        field(u),
    ensures
        plus(plus(minus(p, q), plus(minus(minus(r, p), w), q)), w) == r,
        plus(minus(p, q), plus(minus(r, p), q)) == r,
{
    // x + ((s + q)) with x = p - q: (p - q) + (s + q) == s + p.
    let s1 = minus(minus(r, p), w);
    let s2 = minus(r, p);
    lemma_regroup(u, p, q, s1);
    lemma_regroup(u, p, q, s2);
    // (s2 - w) + p == r - w
    lemma_sub_def(u, s2, w);
    lemma_add_assoc(u, s2, negated(w), p);
    lemma_add_comm(u, negated(w), p);
    lemma_add_assoc(u, s2, p, negated(w));
    lemma_sub_facts(u, r, p);
    lemma_sub_def(u, r, w);
    lemma_sub_facts(u, r, w);
}

/// `(p - q) + (s + q) == s + p`.
proof fn lemma_regroup<T: Scalar>(u: Units<T>, p: T, q: T, s: T)
    requires
        field(u),
    ensures
        plus(minus(p, q), plus(s, q)) == plus(s, p),
{
    lemma_add_comm(u, s, q);
    lemma_add_assoc(u, minus(p, q), q, s);
    lemma_sub_facts(u, p, q);
    lemma_add_comm(u, p, s);
}

/// `(b - l) - s == b - (l + s)`.
proof fn lemma_sub_sub<T: Scalar>(u: Units<T>, b: T, l: T, s: T)
    requires
        field(u),
    ensures
        minus(minus(b, l), s) == minus(b, plus(l, s)),
{
    lemma_sub_def(u, b, l);
    lemma_sub_def(u, plus(b, negated(l)), s);
    lemma_add_assoc(u, b, negated(l), negated(s));
    lemma_neg_add(u, l, s);
    lemma_sub_def(u, b, plus(l, s));
}

/// `((b0 - l) - s0) + ((b1 - s1) - w) == (b0 + b1) - ((l + (s0 + s1)) + w)`.
proof fn lemma_two_stage_balance<T: Scalar>(u: Units<T>, b0: T, l: T, s0: T, b1: T, s1: T, w: T)
    requires
        field(u),
    ensures
        plus(minus(minus(b0, l), s0), minus(minus(b1, s1), w)) == minus(
            plus(b0, b1),
            plus(plus(l, plus(s0, s1)), w),
        ),
{
    lemma_sub_sub(u, b0, l, s0);
    lemma_sub_sub(u, b1, s1, w);
    lemma_sub_pairs(u, b0, b1, plus(l, s0), plus(s1, w));
    lemma_add_assoc(u, plus(l, s0), s1, w);
    lemma_add_assoc(u, l, s0, s1);
}

/// `p - (p - b) == b`.
proof fn lemma_sub_self<T: Scalar>(u: Units<T>, p: T, b: T)
    requires
        field(u),
    ensures
        minus(p, minus(p, b)) == b,
{
    lemma_sub_def(u, p, minus(p, b));
    lemma_sub_def(u, p, b);
    lemma_neg_add(u, p, negated(b));
    lemma_neg_neg(u, b);
    lemma_add_assoc(u, p, negated(p), b);
    lemma_add_neg(u, p);
    lemma_add_zero(u, b);
}

/// A matrix of zeros takes every vector to zero.
proof fn lemma_zero_mat_vec<T: Scalar>(u: Units<T>, r: int, v: Seq<T>)
    requires
        field(u),
        r >= 0,
    ensures
        mat_vec(u.zero, filled(u.zero, r, v.len() as int), v) == constant(u.zero, r),
{
    let m = filled(u.zero, r, v.len() as int);
    assert forall|i: int| 0 <= i < r implies mat_vec(u.zero, m, v)[i] == u.zero by {
        lemma_dot_zero(u, m[i], v, v.len());
    }
    assert(mat_vec(u.zero, m, v) =~= constant(u.zero, r));
}

/// The diagonal and the coupling blocks of the Schur complement are 7 by 7.
pub proof fn lemma_schur_shaped<T: Scalar>(
    u: Units<T>,
    a: Seq<Seq<T>>,
    h_inv: Seq<Seq<Seq<T>>>,
    n: int,
    k: int,
)
    ensures
        shaped(schur_diagonal(u, a, h_inv, n, k), 7, 7),
        shaped(schur_upper(u.zero, a, h_inv, n, k), 7, 7),
        shaped(schur_lower(u.zero, a, h_inv, n, k), 7, 7),
{
    let s = first_stage(k);
    let a0 = a_block(u.zero, a, n, k, s);
    let d0 = madd(filled(u.zero, 7, 7), sandwich(u.zero, a0, h_inv[s], a0));
    assert(shaped(d0, 7, 7));
    assert(d0[6].len() == 7);
    let d = schur_diagonal(u, a, h_inv, n, k);
    assert forall|i: int| 0 <= i < 7 implies (#[trigger] d[i]).len() == 7 by {
        assert(d0[i].len() == 7);
    }
    lemma_a_block_shaped(u.zero, a, n, k, k);
    lemma_a_block_shaped(u.zero, a, n, k + 1, k);
}

/// Pivot `k` of an elimination that inverted its pivots to `d_inv`.
pub open spec fn pivot_in<T: Scalar>(
    u: Units<T>,
    a: Seq<Seq<T>>,
    f: FactorModel<T>,
    n: int,
    k: int,
) -> Seq<Seq<T>> {
    if k == 0 {
        schur_diagonal(u, a, f.h_inv, n, 0)
    } else {
        reduced_pivot(u, a, f.h_inv, n, k, f.d_inv[k - 1])
    }
}

/// The hypotheses of exactness: the factor has the sizes of an `n`-node problem,
/// and every inverse in it is an inverse of a node Hessian of `h`, or of its pivot.
pub open spec fn exact_factor<T: Scalar>(
    u: Units<T>,
    a: Seq<Seq<T>>,
    h: Seq<Seq<Seq<T>>>,
    f: FactorModel<T>,
    n: int,
) -> bool {
    &&& n >= 1
    &&& h.len() == n
    &&& f.h_inv.len() == n
    &&& f.d_inv.len() == n + 1
    &&& all_square(h, 19)
    &&& all_square(f.h_inv, 19)
    &&& all_square(f.d_inv, 7)
    &&& forall|k: int|
        0 <= k < n ==> is_right_inverse(u, h[k], #[trigger] f.h_inv[k], 19)
    &&& forall|k: int|
        0 <= k <= n ==> is_right_inverse(u, pivot_in(u, a, f, n, k), #[trigger] f.d_inv[k], 7)
}

/// Row block `k` of the Schur complement applied to `y`:
/// `L y[k-1] + D y[k] + U y[k+1]`, the first and the last row block without the
/// neighbour they lack.
pub open spec fn tridiag_row<T: Scalar>(
    u: Units<T>,
    a: Seq<Seq<T>>,
    h_inv: Seq<Seq<Seq<T>>>,
    n: int,
    y: Seq<Seq<T>>,
    k: int,
) -> Seq<T> {
    let d = mat_vec(u.zero, schur_diagonal(u, a, h_inv, n, k), y[k]);
    let with_lower = if k > 0 {
        vadd(mat_vec(u.zero, schur_lower(u.zero, a, h_inv, n, k - 1), y[k - 1]), d)
    } else {
        d
    };
    if k < n {
        vadd(with_lower, mat_vec(u.zero, schur_upper(u.zero, a, h_inv, n, k), y[k + 1]))
    } else {
        with_lower
    }
}

proof fn lemma_forward_len<T: Scalar>(
    u: Units<T>,
    a: Seq<Seq<T>>,
    f: FactorModel<T>,
    n: int,
    rhs: Seq<Seq<T>>,
    k: int,
)
    requires
        f.d_inv.len() == n + 1,
        all_square(f.d_inv, 7),
        shaped(rhs, n + 1, 7),
        0 <= k <= n,
    ensures
        forward(u.zero, a, f, n, rhs, k as nat).len() == 7,
        backward(u.zero, a, f, n, rhs, k).len() == 7,
{
    assert(rhs[k].len() == 7);
    assert(shaped(f.d_inv[k], 7, 7));
}

/// In exact arithmetic, elimination and back substitution solve the
/// block-tridiagonal system: every row block holds.
pub proof fn law_tridiagonal_system_is_solved<T: Scalar>(
    u: Units<T>,
    a: Seq<Seq<T>>,
    h: Seq<Seq<Seq<T>>>,
    f: FactorModel<T>,
    n: int,
    rhs: Seq<Seq<T>>,
    k: int,
)
    requires
        field(u),
        exact_factor(u, a, h, f, n),
        shaped(rhs, n + 1, 7),
        0 <= k <= n,
    ensures
        tridiag_row(u, a, f.h_inv, n, tridiag_solution(u.zero, a, f, n, rhs), k) == rhs[k],
{
    let z = u.zero;
    let y = tridiag_solution(z, a, f, n, rhs);
    let q = f.d_inv[k];
    let p = pivot_in(u, a, f, n, k);
    let d = schur_diagonal(u, a, f.h_inv, n, k);
    let up = schur_upper(z, a, f.h_inv, n, k);
    lemma_schur_shaped(u, a, f.h_inv, n, k);
    lemma_forward_len(u, a, f, n, rhs, k);
    assert(rhs[k].len() == 7);
    assert(shaped(q, 7, 7));
    assert(y[k] == backward(z, a, f, n, rhs, k));
    let fk = forward(z, a, f, n, rhs, k as nat);
    // g is what the inverse pivot is applied to.
    let g = if k < n {
        vsub(fk, mat_vec(z, up, y[k + 1]))
    } else {
        fk
    };
    if k < n {
        lemma_forward_len(u, a, f, n, rhs, k + 1);
        assert(y[k + 1] == backward(z, a, f, n, rhs, k + 1));
    }
    assert(g.len() == 7);
    assert(y[k] == mat_vec(z, q, g));
    assert(shaped(p, 7, 7)) by {
        if k > 0 {
            assert forall|i: int| 0 <= i < 7 implies (#[trigger] p[i]).len() == 7 by {
                assert(d[i].len() == 7);
            }
        }
    }
    lemma_right_inverse(u, p, q, g);
    let py = mat_vec(z, p, y[k]);
    assert(py == g);
    let dy = mat_vec(z, d, y[k]);
    let row = tridiag_row(u, a, f.h_inv, n, y, k);
    if k == 0 {
        let w = mat_vec(z, up, y[1]);
        assert forall|i: int| 0 <= i < 7 implies row[i] == rhs[0][i] by {
            lemma_sub_facts(u, rhs[0][i], w[i]);
        }
        assert(row =~= rhs[0]);
    } else {
        lemma_forward_len(u, a, f, n, rhs, k - 1);
        lemma_schur_shaped(u, a, f.h_inv, n, k - 1);
        let l = schur_lower(z, a, f.h_inv, n, k - 1);
        let q1 = f.d_inv[k - 1];
        let u1 = schur_upper(z, a, f.h_inv, n, k - 1);
        assert(shaped(q1, 7, 7));
        let qu = mat_mul(z, q1, u1, 7);
        assert(shaped(qu, 7, 7));
        let m = mat_mul(z, l, qu, 7);
        assert(shaped(m, 7, 7));
        let my = mat_vec(z, m, y[k]);
        lemma_msub_vec(u, d, m, y[k]);
        assert(py == vsub(dy, my));
        lemma_mat_mul_vec(u, l, qu, 7, y[k]);
        lemma_mat_mul_vec(u, q1, u1, 7, y[k]);
        let u1y = mat_vec(z, u1, y[k]);
        let f1 = forward(z, a, f, n, rhs, (k - 1) as nat);
        assert(y[k - 1] == backward(z, a, f, n, rhs, k - 1));
        assert(y[k - 1] == mat_vec(z, q1, vsub(f1, u1y)));
        lemma_mat_vec_sub(u, q1, f1, u1y);
        let qf1 = mat_vec(z, q1, f1);
        let qu1y = mat_vec(z, q1, u1y);
        lemma_mat_vec_sub(u, l, qf1, qu1y);
        let lqf = mat_vec(z, l, qf1);
        let lqu = mat_vec(z, l, qu1y);
        let ly = mat_vec(z, l, y[k - 1]);
        assert(ly == vsub(lqf, lqu));
        assert(my == lqu);
        assert(fk == vsub(rhs[k], lqf));
        if k < n {
            let w = mat_vec(z, up, y[k + 1]);
            assert forall|i: int| 0 <= i < 7 implies row[i] == rhs[k][i] by {
                lemma_sub_facts(u, dy[i], my[i]);
                assert(py[i] == minus(minus(rhs[k][i], lqf[i]), w[i]));
                assert(dy[i] == plus(py[i], lqu[i]));
                lemma_cancel(u, lqf[i], lqu[i], rhs[k][i], w[i]);
            }
        } else {
            assert forall|i: int| 0 <= i < 7 implies row[i] == rhs[k][i] by {
                lemma_sub_facts(u, dy[i], my[i]);
                assert(py[i] == minus(rhs[k][i], lqf[i]));
                assert(dy[i] == plus(py[i], lqu[i]));
                lemma_cancel(u, lqf[i], lqu[i], rhs[k][i], u.zero);
            }
        }
        assert(row =~= rhs[k]);
    }
}

// ---- from multipliers to steps ----

/// Row block `rb` of `A dz`.
pub open spec fn equality_lhs<T: Scalar>(
    u: Units<T>,
    a: Seq<Seq<T>>,
    n: int,
    dz: Seq<Seq<T>>,
    rb: int,
) -> Seq<T> {
    let s = first_stage(rb);
    let first = mat_vec(u.zero, a_block(u.zero, a, n, rb, s), dz[s]);
    if 0 < rb < n {
        vadd(first, mat_vec(u.zero, a_block(u.zero, a, n, rb, rb), dz[rb]))
    } else {
        first
    }
}

/// One node's contribution to a row block:
/// `a dz_s == (a inv(H) b_s - a inv(H) A_s' y_s) - a inv(H) A_{s+1}' y_{s+1}`.
proof fn lemma_stage_contribution<T: Scalar>(
    u: Units<T>,
    a: Seq<Seq<T>>,
    f: FactorModel<T>,
    n: int,
    b_x: Seq<T>,
    lam: Seq<Seq<T>>,
    ar: Seq<Seq<T>>,
    s: int,
)
    requires
        field(u),
        f.h_inv.len() == n,
        all_square(f.h_inv, 19),
        b_x.len() >= 19 * n,
        shaped(lam, n + 1, 7),
        shaped(ar, 7, 19),
        0 <= s < n,
    ensures
        mat_vec(u.zero, ar, recovered_step(u.zero, a, f, n, b_x, lam, s)) == vsub(
            vsub(
                through(u.zero, ar, f.h_inv[s], stage_rhs(b_x, s)),
                mat_vec(
                    u.zero,
                    sandwich(u.zero, ar, f.h_inv[s], a_block(u.zero, a, n, s, s)),
                    lam[s],
                ),
            ),
            mat_vec(
                u.zero,
                sandwich(u.zero, ar, f.h_inv[s], a_block(u.zero, a, n, s + 1, s)),
                lam[s + 1],
            ),
        ),
{
    let z = u.zero;
    let a0 = a_block(z, a, n, s, s);
    let a1 = a_block(z, a, n, s + 1, s);
    lemma_a_block_shaped(z, a, n, s, s);
    lemma_a_block_shaped(z, a, n, s + 1, s);
    let hi = f.h_inv[s];
    assert(shaped(hi, 19, 19));
    assert(lam[s].len() == 7 && lam[s + 1].len() == 7);
    let b = stage_rhs(b_x, s);
    let t0 = mat_t_vec(z, a0, 19, lam[s]);
    let t1 = mat_t_vec(z, a1, 19, lam[s + 1]);
    lemma_through_sub(u, ar, hi, b, t0, t1);
    lemma_sandwich_vec(u, ar, hi, a0, lam[s]);
    lemma_sandwich_vec(u, ar, hi, a1, lam[s + 1]);
}

/// `(0 + m) y == m y`, entry by entry.
proof fn lemma_zero_plus<T: Scalar>(u: Units<T>, m: Seq<Seq<T>>, y: Seq<T>)
    requires
        field(u),
        shaped(m, 7, 7),
        y.len() == 7,
    ensures
        mat_vec(u.zero, madd(filled(u.zero, 7, 7), m), y) == mat_vec(u.zero, m, y),
{
    let zero7 = filled(u.zero, 7, 7);
    assert(shaped(zero7, 7, 7));
    lemma_madd_vec(u, zero7, m, y);
    lemma_zero_mat_vec(u, 7, y);
    let l = mat_vec(u.zero, madd(zero7, m), y);
    let r = mat_vec(u.zero, m, y);
    assert forall|i: int| 0 <= i < 7 implies l[i] == r[i] by {
        lemma_add_zero(u, r[i]);
    }
    assert(l =~= r);
}

/// What the balance lemmas share: shapes, and steps recovered from `lam`.
pub open spec fn balance_setup<T: Scalar>(
    u: Units<T>,
    a: Seq<Seq<T>>,
    f: FactorModel<T>,
    n: int,
    b_x: Seq<T>,
    lam: Seq<Seq<T>>,
    dz: Seq<Seq<T>>,
) -> bool {
    &&& n >= 1
    &&& f.h_inv.len() == n
    &&& all_square(f.h_inv, 19)
    &&& b_x.len() >= 19 * n
    &&& shaped(lam, n + 1, 7)
    &&& dz.len() == n
    &&& forall|k: int|
        0 <= k < n ==> #[trigger] dz[k] == recovered_step(u.zero, a, f, n, b_x, lam, k)
}

/// The initial row block: `A dz == A inv(H) b_x - S lam`.
pub proof fn lemma_balance_initial<T: Scalar>(
    u: Units<T>,
    a: Seq<Seq<T>>,
    f: FactorModel<T>,
    n: int,
    b_x: Seq<T>,
    lam: Seq<Seq<T>>,
    dz: Seq<Seq<T>>,
)
    requires
        field(u),
        balance_setup(u, a, f, n, b_x, lam, dz),
    ensures
        equality_lhs(u, a, n, dz, 0) == vsub(
            projected_rhs(u.zero, a, f, n, b_x, 0),
            tridiag_row(u, a, f.h_inv, n, lam, 0),
        ),
{
    let z = u.zero;
    let ar = a_block(z, a, n, 0, 0);
    let hi = f.h_inv[0];
    assert(lam[0].len() == 7 && lam[1].len() == 7);
    lemma_stage_contribution(u, a, f, n, b_x, lam, ar, 0);
    assert(dz[0] == recovered_step(z, a, f, n, b_x, lam, 0));
    let b0 = through(z, ar, hi, stage_rhs(b_x, 0));
    let own = sandwich(z, ar, hi, ar);
    assert(shaped(own, 7, 7));
    lemma_zero_plus(u, own, lam[0]);
    let owny = mat_vec(z, own, lam[0]);
    let w = mat_vec(z, schur_upper(z, a, f.h_inv, n, 0), lam[1]);
    let lhs = equality_lhs(u, a, n, dz, 0);
    let proj = projected_rhs(z, a, f, n, b_x, 0);
    let row = tridiag_row(u, a, f.h_inv, n, lam, 0);
    assert(lhs == vsub(vsub(b0, owny), w));
    assert(row == vadd(owny, w));
    assert forall|i: int| 0 <= i < 7 implies lhs[i] == minus(proj[i], row[i]) by {
        lemma_sub_sub(u, b0[i], owny[i], w[i]);
        lemma_add_zero(u, b0[i]);
    }
    assert(lhs =~= vsub(proj, row));
}

/// A transition's row block: `A dz == A inv(H) b_x - S lam`.
pub proof fn lemma_balance_transition<T: Scalar>(
    u: Units<T>,
    a: Seq<Seq<T>>,
    f: FactorModel<T>,
    n: int,
    b_x: Seq<T>,
    lam: Seq<Seq<T>>,
    dz: Seq<Seq<T>>,
    rb: int,
)
    requires
        field(u),
        balance_setup(u, a, f, n, b_x, lam, dz),
        0 < rb < n,
    ensures
        equality_lhs(u, a, n, dz, rb) == vsub(
            projected_rhs(u.zero, a, f, n, b_x, rb),
            tridiag_row(u, a, f.h_inv, n, lam, rb),
        ),
{
    let z = u.zero;
    let s = rb - 1;
    let ar = a_block(z, a, n, rb, s);
    let a1 = a_block(z, a, n, rb, rb);
    lemma_a_block_shaped(z, a, n, rb, s);
    lemma_a_block_shaped(z, a, n, rb, rb);
    assert(lam[rb].len() == 7 && lam[s].len() == 7 && lam[rb + 1].len() == 7);
    lemma_stage_contribution(u, a, f, n, b_x, lam, ar, s);
    lemma_stage_contribution(u, a, f, n, b_x, lam, a1, rb);
    assert(dz[s] == recovered_step(z, a, f, n, b_x, lam, s));
    assert(dz[rb] == recovered_step(z, a, f, n, b_x, lam, rb));
    let b0 = through(z, ar, f.h_inv[s], stage_rhs(b_x, s));
    let b1 = through(z, a1, f.h_inv[rb], stage_rhs(b_x, rb));
    let own0 = sandwich(z, ar, f.h_inv[s], ar);
    let own1 = sandwich(z, a1, f.h_inv[rb], a1);
    assert(shaped(own0, 7, 7) && shaped(own1, 7, 7));
    let d0 = madd(filled(z, 7, 7), own0);
    assert(shaped(d0, 7, 7));
    lemma_zero_plus(u, own0, lam[rb]);
    lemma_madd_vec(u, d0, own1, lam[rb]);
    let s0 = mat_vec(z, own0, lam[rb]);
    let s1 = mat_vec(z, own1, lam[rb]);
    let ly = mat_vec(z, schur_lower(z, a, f.h_inv, n, s), lam[s]);
    let w = mat_vec(z, schur_upper(z, a, f.h_inv, n, rb), lam[rb + 1]);
    let lhs = equality_lhs(u, a, n, dz, rb);
    let proj = projected_rhs(z, a, f, n, b_x, rb);
    let row = tridiag_row(u, a, f.h_inv, n, lam, rb);
    assert(lhs == vadd(vsub(vsub(b0, ly), s0), vsub(vsub(b1, s1), w)));
    assert(row == vadd(vadd(ly, vadd(s0, s1)), w));
    assert forall|i: int| 0 <= i < 7 implies lhs[i] == minus(proj[i], row[i]) by {
        lemma_two_stage_balance(u, b0[i], ly[i], s0[i], b1[i], s1[i], w[i]);
        lemma_add_zero(u, b0[i]);
    }
    assert(lhs =~= vsub(proj, row));
}

/// The terminal row block: its six rows balance, and its padding row is zero.
pub proof fn lemma_balance_terminal<T: Scalar>(
    u: Units<T>,
    a: Seq<Seq<T>>,
    f: FactorModel<T>,
    n: int,
    b_x: Seq<T>,
    lam: Seq<Seq<T>>,
    dz: Seq<Seq<T>>,
)
    requires
        field(u),
        balance_setup(u, a, f, n, b_x, lam, dz),
    ensures
        equality_lhs(u, a, n, dz, n).len() == 7,
        forall|i: int|
            0 <= i < 6 ==> #[trigger] equality_lhs(u, a, n, dz, n)[i] == minus(
                projected_rhs(u.zero, a, f, n, b_x, n)[i],
                tridiag_row(u, a, f.h_inv, n, lam, n)[i],
            ),
        equality_lhs(u, a, n, dz, n)[6] == u.zero,
{
    let z = u.zero;
    let s = n - 1;
    let ar = a_block(z, a, n, n, s);
    lemma_a_block_shaped(z, a, n, n, s);
    assert(lam[n].len() == 7 && lam[s].len() == 7);
    lemma_stage_contribution(u, a, f, n, b_x, lam, ar, s);
    assert(dz[s] == recovered_step(z, a, f, n, b_x, lam, s));
    let b0 = through(z, ar, f.h_inv[s], stage_rhs(b_x, s));
    let own = sandwich(z, ar, f.h_inv[s], ar);
    assert(shaped(own, 7, 7));
    lemma_zero_plus(u, own, lam[n]);
    let d0 = madd(filled(z, 7, 7), own);
    let d = schur_diagonal(u, a, f.h_inv, n, n);
    let owny = mat_vec(z, own, lam[n]);
    let d0y = mat_vec(z, d0, lam[n]);
    let dy = mat_vec(z, d, lam[n]);
    let ly = mat_vec(z, schur_lower(z, a, f.h_inv, n, s), lam[s]);
    let lhs = equality_lhs(u, a, n, dz, n);
    let proj = projected_rhs(z, a, f, n, b_x, n);
    let row = tridiag_row(u, a, f.h_inv, n, lam, n);
    assert(lhs == vsub(vsub(b0, ly), owny));
    assert(row == vadd(ly, dy));
    assert forall|i: int| 0 <= i < 6 implies #[trigger] lhs[i] == minus(proj[i], row[i]) by {
        assert(d[i] == d0[i]);
        assert(dy[i] == d0y[i]);
        lemma_sub_sub(u, b0[i], ly[i], owny[i]);
        lemma_add_zero(u, b0[i]);
    }
    assert(ar[6] == constant(z, 19));
    assert(lhs[6] == dot(z, ar[6], dz[s]));
    lemma_dot_zero(u, ar[6], dz[s], 19);
}

pub proof fn lemma_rhs_shaped<T: Scalar>(
    u: Units<T>,
    a: Seq<Seq<T>>,
    f: FactorModel<T>,
    n: int,
    b_x: Seq<T>,
    b_a: Seq<T>,
)
    ensures
        shaped(schur_rhs_all(u.zero, a, f, n, b_x, b_a), n + 1, 7) || n < 0,
{
    let rhs = schur_rhs_all(u.zero, a, f, n, b_x, b_a);
    assert forall|rb: int| 0 <= rb < n + 1 implies (#[trigger] rhs[rb]).len() == 7 by {
        lemma_a_block_shaped(u.zero, a, n, rb, first_stage(rb));
    }
}

pub proof fn lemma_solution_shaped<T: Scalar>(
    u: Units<T>,
    a: Seq<Seq<T>>,
    f: FactorModel<T>,
    n: int,
    rhs: Seq<Seq<T>>,
)
    requires
        f.d_inv.len() == n + 1,
        all_square(f.d_inv, 7),
        shaped(rhs, n + 1, 7),
    ensures
        shaped(tridiag_solution(u.zero, a, f, n, rhs), n + 1, 7),
{
    let lam = tridiag_solution(u.zero, a, f, n, rhs);
    assert forall|k: int| 0 <= k < n + 1 implies (#[trigger] lam[k]).len() == 7 by {
        lemma_forward_len(u, a, f, n, rhs, k);
    }
}

/// The steps recovered from the solved multipliers satisfy every row block of the
/// equalities.
pub proof fn lemma_steps_feasible<T: Scalar>(
    u: Units<T>,
    a: Seq<Seq<T>>,
    h: Seq<Seq<Seq<T>>>,
    f: FactorModel<T>,
    n: int,
    b_x: Seq<T>,
    b_a: Seq<T>,
    dz: Seq<Seq<T>>,
    rb: int,
)
    requires
        field(u),
        exact_factor(u, a, h, f, n),
        b_x.len() >= 19 * n,
        dz.len() == n,
        forall|k: int|
            0 <= k < n ==> #[trigger] dz[k] == recovered_step(
                u.zero,
                a,
                f,
                n,
                b_x,
                tridiag_solution(u.zero, a, f, n, schur_rhs_all(u.zero, a, f, n, b_x, b_a)),
                k,
            ),
        0 <= rb <= n,
    ensures
        equality_lhs(u, a, n, dz, rb) == block_rhs(u.zero, b_a, n, rb),
{
    let z = u.zero;
    let rhs = schur_rhs_all(z, a, f, n, b_x, b_a);
    let lam = tridiag_solution(z, a, f, n, rhs);
    lemma_rhs_shaped(u, a, f, n, b_x, b_a);
    lemma_solution_shaped(u, a, f, n, rhs);
    law_tridiagonal_system_is_solved(u, a, h, f, n, rhs, rb);
    let row = tridiag_row(u, a, f.h_inv, n, lam, rb);
    let ba = block_rhs(z, b_a, n, rb);
    let proj = projected_rhs(z, a, f, n, b_x, rb);
    assert(row == vsub(proj, ba));
    let lhs = equality_lhs(u, a, n, dz, rb);
    assert(balance_setup(u, a, f, n, b_x, lam, dz));
    if rb == 0 {
        lemma_balance_initial(u, a, f, n, b_x, lam, dz);
    } else if rb < n {
        lemma_balance_transition(u, a, f, n, b_x, lam, dz, rb);
    } else {
        lemma_balance_terminal(u, a, f, n, b_x, lam, dz);
    }
    assert forall|i: int| 0 <= i < 7 implies lhs[i] == ba[i] by {
        if rb < n || i < 6 {
            lemma_sub_self(u, proj[i], ba[i]);
        }
    }
    assert(lhs =~= ba);
}

/// In exact arithmetic the step satisfies the equality rows: every row block of
/// `A dz` is that of `b_a`.
pub proof fn law_structured_step_is_feasible<T: Scalar>(
    u: Units<T>,
    a: Seq<Seq<T>>,
    h: Seq<Seq<Seq<T>>>,
    f: FactorModel<T>,
    n: int,
    b_x: Seq<T>,
    b_a: Seq<T>,
    sol: &ReducedKktSolution<T>,
    rb: int,
)
    requires
        field(u),
        exact_factor(u, a, h, f, n),
        b_x.len() >= 19 * n,
        is_application(u.zero, a, f, n, b_x, b_a, sol),
        0 <= rb <= n,
    ensures
        equality_lhs(u, a, n, sol.dz@, rb) == block_rhs(u.zero, b_a, n, rb),
{
    lemma_steps_feasible(u, a, h, f, n, b_x, b_a, sol.dz@, rb);
}

/// The multipliers a solution holds, one row per row block; the terminal one is
/// padded with a zero.
pub open spec fn multipliers<T>(u: Units<T>, sol: &ReducedKktSolution<T>, n: int) -> Seq<Seq<T>> {
    Seq::new(
        (n + 1) as nat,
        |k: int|
            if k == 0 {
                sol.dlam_init@
            } else if k < n {
                sol.dlam_dyn@[k - 1]
            } else {
                sol.dlam_term@.push(u.zero)
            },
    )
}

/// Node `k`'s rows of `H dz + A' lam`.
pub open spec fn stationarity_lhs<T: Scalar>(
    u: Units<T>,
    a: Seq<Seq<T>>,
    h: Seq<Seq<Seq<T>>>,
    n: int,
    dz: Seq<Seq<T>>,
    lam: Seq<Seq<T>>,
    k: int,
) -> Seq<T> {
    vadd(
        vadd(
            mat_vec(u.zero, h[k], dz[k]),
            mat_t_vec(u.zero, a_block(u.zero, a, n, k, k), 19, lam[k]),
        ),
        mat_t_vec(u.zero, a_block(u.zero, a, n, k + 1, k), 19, lam[k + 1]),
    )
}

/// Replacing the padding of the terminal multiplier changes nothing: the
/// terminal block's last row is zero.
proof fn lemma_terminal_padding<T: Scalar>(
    u: Units<T>,
    a: Seq<Seq<T>>,
    n: int,
    v: Seq<T>,
    w: Seq<T>,
)
    requires
        field(u),
        n >= 1,
        v.len() == 7,
        w.len() == 7,
        forall|i: int| 0 <= i < 6 ==> v[i] == w[i],
    ensures
        mat_t_vec(u.zero, a_block(u.zero, a, n, n, n - 1), 19, v) == mat_t_vec(
            u.zero,
            a_block(u.zero, a, n, n, n - 1),
            19,
            w,
        ),
{
    let b = a_block(u.zero, a, n, n, n - 1);
    assert(b.len() == 7);
    assert(b[6] == constant(u.zero, 19));
    assert forall|j: int| 0 <= j < 19 implies dot(u.zero, column(b, j), v) == dot(
        u.zero,
        column(b, j),
        w,
    ) by {
        let c = column(b, j);
        assert(c[6] == u.zero);
        lemma_dot_congruence(u.zero, c, v, c, w, 6);
        lemma_mul_zero(u, v[6]);
        lemma_mul_zero(u, w[6]);
    }
    assert(mat_t_vec(u.zero, b, 19, v) =~= mat_t_vec(u.zero, b, 19, w));
}

/// A step recovered from multipliers balances its node's stationarity rows.
pub proof fn lemma_recovered_balance<T: Scalar>(
    u: Units<T>,
    a: Seq<Seq<T>>,
    h: Seq<Seq<Seq<T>>>,
    f: FactorModel<T>,
    n: int,
    b_x: Seq<T>,
    lam: Seq<Seq<T>>,
    dz: Seq<Seq<T>>,
    k: int,
)
    requires
        field(u),
        exact_factor(u, a, h, f, n),
        b_x.len() >= 19 * n,
        shaped(lam, n + 1, 7),
        0 <= k < n,
        dz[k] == recovered_step(u.zero, a, f, n, b_x, lam, k),
    ensures
        stationarity_lhs(u, a, h, n, dz, lam, k) == stage_rhs(b_x, k),
{
    let z = u.zero;
    assert(lam[k].len() == 7 && lam[k + 1].len() == 7);
    let b = stage_rhs(b_x, k);
    let t0 = mat_t_vec(z, a_block(z, a, n, k, k), 19, lam[k]);
    let t1 = mat_t_vec(z, a_block(z, a, n, k + 1, k), 19, lam[k + 1]);
    let acc = vsub(vsub(b, t0), t1);
    assert(shaped(h[k], 19, 19) && shaped(f.h_inv[k], 19, 19));
    assert(is_right_inverse(u, h[k], f.h_inv[k], 19));
    lemma_right_inverse(u, h[k], f.h_inv[k], acc);
    assert(mat_vec(z, h[k], dz[k]) == acc);
    let lhs = stationarity_lhs(u, a, h, n, dz, lam, k);
    assert forall|i: int| 0 <= i < 19 implies lhs[i] == b[i] by {
        // ((b - t0) - t1) + t0 + t1 == b
        let x = minus(b[i], t0[i]);
        lemma_sub_def(u, x, t1[i]);
        lemma_add_assoc(u, x, negated(t1[i]), t0[i]);
        lemma_add_comm(u, negated(t1[i]), t0[i]);
        lemma_add_assoc(u, x, t0[i], negated(t1[i]));
        lemma_sub_facts(u, b[i], t0[i]);
        lemma_sub_def(u, b[i], t1[i]);
        lemma_sub_facts(u, b[i], t1[i]);
    }
    assert(lhs =~= b);
}

/// In exact arithmetic a step recovered from multipliers satisfies the
/// stationarity rows: for every node,
/// `H_k dz_k + A_k' lam_k + A_{k+1}' lam_{k+1} == b_x_k`.
pub proof fn law_recovered_step_is_stationary<T: Scalar>(
    u: Units<T>,
    a: Seq<Seq<T>>,
    h: Seq<Seq<Seq<T>>>,
    f: FactorModel<T>,
    n: int,
    b_x: Seq<T>,
    lam: Seq<Seq<T>>,
    sol: &ReducedKktSolution<T>,
    k: int,
)
    requires
        field(u),
        exact_factor(u, a, h, f, n),
        b_x.len() >= 19 * n,
        shaped(lam, n + 1, 7),
        holds_solution(u.zero, a, f, n, b_x, lam, sol),
        0 <= k < n,
    ensures
        stationarity_lhs(u, a, h, n, sol.dz@, multipliers(u, sol, n), k) == stage_rhs(b_x, k),
{
    let z = u.zero;
    let mu = multipliers(u, sol, n);
    assert(lam[n].len() == 7);
    assert(sol.dz@[k] == recovered_step(z, a, f, n, b_x, lam, k));
    lemma_recovered_balance(u, a, h, f, n, b_x, lam, sol.dz@, k);
    assert(mu[k] == lam[k]) by {
        if k > 0 {
            assert(sol.dlam_dyn@[k - 1] == lam[k]);
        }
    }
    let a1 = a_block(z, a, n, k + 1, k);
    assert(mat_t_vec(z, a1, 19, mu[k + 1]) == mat_t_vec(z, a1, 19, lam[k + 1])) by {
        if k + 1 < n {
            assert(sol.dlam_dyn@[k] == lam[k + 1]);
        } else {
            lemma_terminal_padding(u, a, n, mu[n], lam[n]);
        }
    }
}

// ---- when a factor is exact ----

/// Where inversion returns a matrix, that matrix is an inverse.
pub open spec fn inversion_exact<T: Scalar, C: Numerics<T>>(u: Units<T>, ops: &C) -> bool {
    forall|m: Seq<Seq<T>>|
        shaped(m, m.len() as int, m.len() as int) ==> (#[trigger] inverse_of(ops, m) matches Some(
            r,
        ) ==> is_right_inverse(u, m, r, m.len() as int))
}

/// With an exact inversion, a factorization that succeeds yields an exact factor.
pub proof fn law_successful_factor_is_exact<T: Scalar, C: Numerics<T>>(
    u: Units<T>,
    ops: &C,
    a: Seq<Seq<T>>,
    h: Seq<Seq<Seq<T>>>,
    n: int,
)
    requires
        field(u),
        inversion_exact(u, ops),
        h.len() == n,
        all_square(h, 19),
        factor_status(u, ops, a, h, n) == ReducedKktStatus::Okay,
        all_square(factor_model(u, ops, a, h, n).h_inv, 19),
        all_square(factor_model(u, ops, a, h, n).d_inv, 7),
    ensures
        exact_factor(u, a, h, factor_model(u, ops, a, h, n), n),
{
    let f = factor_model(u, ops, a, h, n);
    let hv = hessian_inverses(ops, h);
    assert forall|k: int| 0 <= k < n implies is_right_inverse(
        u,
        h[k],
        #[trigger] f.h_inv[k],
        19,
    ) by {
        assert(shaped(h[k], 19, 19));
        assert(inverse_of(ops, h[k]) is Some);
    }
    assert forall|k: int| 0 <= k <= n implies is_right_inverse(
        u,
        pivot_in(u, a, f, n, k),
        #[trigger] f.d_inv[k],
        7,
    ) by {
        let p = pivot(u, ops, a, hv, n, k as nat);
        assert(inverse_of(ops, p) is Some);
        if k > 0 {
            assert(f.d_inv[k - 1] == inverse_of(ops, pivot(u, ops, a, hv, n, (k - 1) as nat))->0);
        }
        assert(pivot_in(u, a, f, n, k) == p);
        lemma_schur_shaped(u, a, hv, n, k);
        let d = schur_diagonal(u, a, hv, n, k);
        assert forall|i: int| 0 <= i < 7 implies (#[trigger] p[i]).len() == 7 by {
            assert(d[i].len() == 7);
        }
        assert(shaped(p, 7, 7));
    }
}

/// A structured solve that succeeds, with an exact inversion, solves the optimality
/// system, whether or not its Hessian blocks are symmetric: every node's
/// stationarity rows and every row block of the equalities hold.
pub proof fn law_structured_solve_satisfies_kkt<T: Scalar, C: Numerics<T>>(
    u: Units<T>,
    ops: &C,
    a: Seq<Seq<T>>,
    h: Seq<Seq<Seq<T>>>,
    n: int,
    b_x: Seq<T>,
    b_a: Seq<T>,
    sol: &ReducedKktSolution<T>,
)
    requires
        field(u),
        inversion_exact(u, ops),
        h.len() == n,
        all_square(h, 19),
        factor_status(u, ops, a, h, n) == ReducedKktStatus::Okay,
        all_square(factor_model(u, ops, a, h, n).h_inv, 19),
        all_square(factor_model(u, ops, a, h, n).d_inv, 7),
        b_x.len() >= 19 * n,
        is_application(u.zero, a, factor_model(u, ops, a, h, n), n, b_x, b_a, sol),
    ensures
        forall|k: int|
            0 <= k < n ==> #[trigger] stationarity_lhs(
                u,
                a,
                h,
                n,
                sol.dz@,
                multipliers(u, sol, n),
                k,
            ) == stage_rhs(b_x, k),
        forall|rb: int|
            0 <= rb <= n ==> #[trigger] equality_lhs(u, a, n, sol.dz@, rb) == block_rhs(
                u.zero,
                b_a,
                n,
                rb,
            ),
{
    let f = factor_model(u, ops, a, h, n);
    law_successful_factor_is_exact(u, ops, a, h, n);
    let rhs = schur_rhs_all(u.zero, a, f, n, b_x, b_a);
    let lam = tridiag_solution(u.zero, a, f, n, rhs);
    lemma_rhs_shaped(u, a, f, n, b_x, b_a);
    lemma_solution_shaped(u, a, f, n, rhs);
    assert forall|k: int| 0 <= k < n implies #[trigger] stationarity_lhs(
        u,
        a,
        h,
        n,
        sol.dz@,
        multipliers(u, sol, n),
        k,
    ) == stage_rhs(b_x, k) by {
        law_recovered_step_is_stationary(u, a, h, f, n, b_x, lam, sol, k);
    }
    assert forall|rb: int| 0 <= rb <= n implies #[trigger] equality_lhs(
        u,
        a,
        n,
        sol.dz@,
        rb,
    ) == block_rhs(u.zero, b_a, n, rb) by {
        law_structured_step_is_feasible(u, a, h, f, n, b_x, b_a, sol, rb);
    }
}

/// What the status of a factorization says: degenerate for fewer than one or more than 63
/// nodes; else not positive definite where a node's block has no inverse; else singular
/// where a pivot has none; else fine.
pub proof fn law_factor_status_says<T: Scalar, C: Numerics<T>>(
    u: Units<T>,
    ops: &C,
    a: Seq<Seq<T>>,
    h: Seq<Seq<Seq<T>>>,
    n: int,
)
    ensures
        ({
            let some_block = exists|k: int|
                0 <= k < h.len() && inverse_of(ops, #[trigger] h[k]) is None;
            let some_pivot = exists|k: nat|
                k <= n && inverse_of(
                    ops,
                    #[trigger] pivot(u, ops, a, hessian_inverses(ops, h), n, k),
                ) is None;
            match factor_status(u, ops, a, h, n) {
                ReducedKktStatus::DegenerateInput => n < 1 || n > 63,
                ReducedKktStatus::HNotPd => 1 <= n <= 63 && some_block,
                ReducedKktStatus::SchurSingular => 1 <= n <= 63 && !some_block && some_pivot,
                ReducedKktStatus::Okay => 1 <= n <= 63 && !some_block && !some_pivot,
            }
        }),
{
}

} // verus!
