//! Exact arithmetic: what follows when a scalar type's operations satisfy the
//! field axioms, as those of the rationals do.
//!
//! The contracts of this crate describe results operation by operation and hold
//! for rounded arithmetic too. The laws that say what a computation achieves (a
//! scaling that leaves a slack alone, a factorization that solves its system)
//! hold where the operations are exact; they take `field` as their hypothesis.
use crate::linalg::{
    column, dot, dot_upto, madd, mat_mul, mat_t_vec, mat_vec, msub, shaped, transpose, vadd, vscale,
    vsub,
};
use crate::scalar::{minus, negated, over, plus, times, Scalar, Units};
use vstd::prelude::*;

verus! {

/// The operations of `T` are those of a field with units `u`.
#[verifier::opaque]
pub open spec fn field<T: Scalar>(u: Units<T>) -> bool {
    &&& forall|a: T, b: T| #[trigger] plus(a, b) == plus(b, a)
    &&& forall|a: T, b: T, c: T| #[trigger] plus(plus(a, b), c) == plus(a, plus(b, c))
    &&& forall|a: T| #[trigger] plus(a, u.zero) == a
    &&& forall|a: T| plus(a, #[trigger] negated(a)) == u.zero
    &&& forall|a: T, b: T| #[trigger] minus(a, b) == plus(a, negated(b))
    &&& forall|a: T, b: T| #[trigger] times(a, b) == times(b, a)
    &&& forall|a: T, b: T, c: T| #[trigger] times(times(a, b), c) == times(a, times(b, c))
    &&& forall|a: T| #[trigger] times(a, u.one) == a
    &&& forall|a: T, b: T, c: T|
        #[trigger] times(a, plus(b, c)) == plus(times(a, b), times(a, c))
    &&& forall|a: T, b: T| b != u.zero ==> times(#[trigger] over(a, b), b) == a
}

pub proof fn lemma_add_comm<T: Scalar>(u: Units<T>, a: T, b: T)
    requires
        field(u),
    ensures
        plus(a, b) == plus(b, a),
{
    reveal(field);
}

pub proof fn lemma_add_assoc<T: Scalar>(u: Units<T>, a: T, b: T, c: T)
    requires
        field(u),
    ensures
        plus(plus(a, b), c) == plus(a, plus(b, c)),
{
    reveal(field);
}

pub proof fn lemma_add_zero<T: Scalar>(u: Units<T>, a: T)
    requires
        field(u),
    ensures
        plus(a, u.zero) == a,
        plus(u.zero, a) == a,
{
    reveal(field);
    assert(plus(u.zero, a) == plus(a, u.zero));
}

pub proof fn lemma_add_neg<T: Scalar>(u: Units<T>, a: T)
    requires
        field(u),
    ensures
        plus(a, negated(a)) == u.zero,
        plus(negated(a), a) == u.zero,
{
    reveal(field);
    assert(plus(negated(a), a) == plus(a, negated(a)));
}

pub proof fn lemma_sub_def<T: Scalar>(u: Units<T>, a: T, b: T)
    requires
        field(u),
    ensures
        minus(a, b) == plus(a, negated(b)),
{
    reveal(field);
}

pub proof fn lemma_mul_comm<T: Scalar>(u: Units<T>, a: T, b: T)
    requires
        field(u),
    ensures
        times(a, b) == times(b, a),
{
    reveal(field);
}

pub proof fn lemma_mul_assoc<T: Scalar>(u: Units<T>, a: T, b: T, c: T)
    requires
        field(u),
    ensures
        times(times(a, b), c) == times(a, times(b, c)),
{
    reveal(field);
}

pub proof fn lemma_mul_one<T: Scalar>(u: Units<T>, a: T)
    requires
        field(u),
    ensures
        times(a, u.one) == a,
        times(u.one, a) == a,
{
    reveal(field);
    assert(times(u.one, a) == times(a, u.one));
}

pub proof fn lemma_distrib<T: Scalar>(u: Units<T>, a: T, b: T, c: T)
    requires
        field(u),
    ensures
        times(a, plus(b, c)) == plus(times(a, b), times(a, c)),
        times(plus(b, c), a) == plus(times(b, a), times(c, a)),
{
    reveal(field);
    lemma_mul_comm(u, plus(b, c), a);
    lemma_mul_comm(u, b, a);
    lemma_mul_comm(u, c, a);
}

pub proof fn lemma_div_cancel<T: Scalar>(u: Units<T>, a: T, b: T)
    requires
        field(u),
        b != u.zero,
    ensures
        times(over(a, b), b) == a,
{
    reveal(field);
}

/// `(a b) / b == a`.
pub proof fn lemma_mul_div<T: Scalar>(u: Units<T>, a: T, b: T)
    requires
        field(u),
        b != u.zero,
    ensures
        over(times(a, b), b) == a,
{
    let q = over(times(a, b), b);
    lemma_div_cancel(u, times(a, b), b);
    // q b == a b; multiply by 1 / b.
    let r = over(u.one, b);
    lemma_div_cancel(u, u.one, b);
    lemma_mul_comm(u, r, b);
    lemma_mul_assoc(u, q, b, r);
    lemma_mul_assoc(u, a, b, r);
    lemma_mul_one(u, q);
    lemma_mul_one(u, a);
}

/// Adding the same value on the left is one-to-one.
pub proof fn lemma_add_cancel<T: Scalar>(u: Units<T>, c: T, a: T, b: T)
    requires
        field(u),
        plus(c, a) == plus(c, b),
    ensures
        a == b,
{
    lemma_add_assoc(u, negated(c), c, a);
    lemma_add_assoc(u, negated(c), c, b);
    lemma_add_neg(u, c);
    lemma_add_zero(u, a);
    lemma_add_zero(u, b);
}

pub proof fn lemma_mul_zero<T: Scalar>(u: Units<T>, a: T)
    requires
        field(u),
    ensures
        times(a, u.zero) == u.zero,
        times(u.zero, a) == u.zero,
{
    lemma_add_zero(u, u.zero);
    lemma_distrib(u, a, u.zero, u.zero);
    lemma_add_zero(u, times(a, u.zero));
    lemma_add_cancel(u, times(a, u.zero), times(a, u.zero), u.zero);
    lemma_mul_comm(u, u.zero, a);
}

pub proof fn lemma_neg_unique<T: Scalar>(u: Units<T>, a: T, b: T)
    requires
        field(u),
        plus(a, b) == u.zero,
    ensures
        b == negated(a),
{
    lemma_add_neg(u, a);
    lemma_add_cancel(u, a, b, negated(a));
}

pub proof fn lemma_neg_mul<T: Scalar>(u: Units<T>, a: T, b: T)
    requires
        field(u),
    ensures
        times(negated(a), b) == negated(times(a, b)),
        times(a, negated(b)) == negated(times(a, b)),
{
    lemma_distrib(u, b, a, negated(a));
    lemma_add_neg(u, a);
    lemma_mul_zero(u, b);
    lemma_neg_unique(u, times(a, b), times(negated(a), b));
    lemma_distrib(u, a, b, negated(b));
    lemma_add_neg(u, b);
    lemma_mul_zero(u, a);
    lemma_neg_unique(u, times(a, b), times(a, negated(b)));
}

/// `(a + b) + (c + d) == (a + c) + (b + d)`.
pub proof fn lemma_add_swap<T: Scalar>(u: Units<T>, a: T, b: T, c: T, d: T)
    requires
        field(u),
    ensures
        plus(plus(a, b), plus(c, d)) == plus(plus(a, c), plus(b, d)),
{
    lemma_add_assoc(u, a, b, plus(c, d));
    lemma_add_assoc(u, b, c, d);
    lemma_add_comm(u, b, c);
    lemma_add_assoc(u, c, b, d);
    lemma_add_assoc(u, a, c, plus(b, d));
}

pub proof fn lemma_neg_add<T: Scalar>(u: Units<T>, a: T, b: T)
    requires
        field(u),
    ensures
        negated(plus(a, b)) == plus(negated(a), negated(b)),
{
    lemma_add_swap(u, a, b, negated(a), negated(b));
    lemma_add_neg(u, a);
    lemma_add_neg(u, b);
    lemma_add_zero(u, u.zero);
    lemma_neg_unique(u, plus(a, b), plus(negated(a), negated(b)));
}

pub proof fn lemma_neg_neg<T: Scalar>(u: Units<T>, a: T)
    requires
        field(u),
    ensures
        negated(negated(a)) == a,
{
    lemma_add_neg(u, a);
    lemma_neg_unique(u, negated(a), a);
}

pub proof fn lemma_neg_zero<T: Scalar>(u: Units<T>)
    requires
        field(u),
    ensures
        negated(u.zero) == u.zero,
{
    lemma_add_zero(u, u.zero);
    lemma_neg_unique(u, u.zero, u.zero);
}

/// Facts about subtraction used throughout.
pub proof fn lemma_sub_facts<T: Scalar>(u: Units<T>, a: T, b: T)
    requires
        field(u),
    ensures
        plus(minus(a, b), b) == a,
        minus(plus(a, b), b) == a,
        minus(a, a) == u.zero,
        minus(a, u.zero) == a,
        minus(u.zero, a) == negated(a),
        minus(a, negated(b)) == plus(a, b),
{
    lemma_sub_def(u, a, b);
    lemma_add_assoc(u, a, negated(b), b);
    lemma_add_neg(u, b);
    lemma_add_zero(u, a);
    lemma_sub_def(u, plus(a, b), b);
    lemma_add_assoc(u, a, b, negated(b));
    lemma_sub_def(u, a, a);
    lemma_add_neg(u, a);
    lemma_sub_def(u, a, u.zero);
    lemma_neg_zero(u);
    lemma_sub_def(u, u.zero, a);
    lemma_add_zero(u, negated(a));
    lemma_sub_def(u, a, negated(b));
    lemma_neg_neg(u, b);
}

/// `(a + b) - (c + d) == (a - c) + (b - d)`.
pub proof fn lemma_sub_pairs<T: Scalar>(u: Units<T>, a: T, b: T, c: T, d: T)
    requires
        field(u),
    ensures
        minus(plus(a, b), plus(c, d)) == plus(minus(a, c), minus(b, d)),
{
    lemma_sub_def(u, plus(a, b), plus(c, d));
    lemma_neg_add(u, c, d);
    lemma_add_swap(u, a, b, negated(c), negated(d));
    lemma_sub_def(u, a, c);
    lemma_sub_def(u, b, d);
}

/// `a * (b - c) == a * b - a * c`.
pub proof fn lemma_mul_sub<T: Scalar>(u: Units<T>, a: T, b: T, c: T)
    requires
        field(u),
    ensures
        times(a, minus(b, c)) == minus(times(a, b), times(a, c)),
        times(minus(b, c), a) == minus(times(b, a), times(c, a)),
{
    lemma_sub_def(u, b, c);
    lemma_distrib(u, a, b, negated(c));
    lemma_neg_mul(u, a, c);
    lemma_sub_def(u, times(a, b), times(a, c));
    lemma_mul_comm(u, minus(b, c), a);
    lemma_mul_comm(u, b, a);
    lemma_mul_comm(u, c, a);
}

// ---- inner products ----

/// An inner product depends on the first `n` entries only.
pub proof fn lemma_dot_congruence<T: Scalar>(
    z: T,
    a: Seq<T>,
    b: Seq<T>,
    a2: Seq<T>,
    b2: Seq<T>,
    n: nat,
)
    requires
        forall|i: int| 0 <= i < n ==> #[trigger] a[i] == a2[i],
        forall|i: int| 0 <= i < n ==> #[trigger] b[i] == b2[i],
    ensures
        dot_upto(z, a, b, n) == dot_upto(z, a2, b2, n),
    decreases n,
{
    if n > 0 {
        lemma_dot_congruence(z, a, b, a2, b2, (n - 1) as nat);
        assert(a[n - 1] == a2[n - 1]);
        assert(b[n - 1] == b2[n - 1]);
    }
}

pub proof fn lemma_dot_comm<T: Scalar>(u: Units<T>, a: Seq<T>, b: Seq<T>, n: nat)
    requires
        field(u),
    ensures
        dot_upto(u.zero, a, b, n) == dot_upto(u.zero, b, a, n),
    decreases n,
{
    if n > 0 {
        lemma_dot_comm(u, a, b, (n - 1) as nat);
        lemma_mul_comm(u, a[n - 1], b[n - 1]);
    }
}

pub proof fn lemma_dot_add<T: Scalar>(u: Units<T>, a: Seq<T>, b: Seq<T>, c: Seq<T>, n: nat)
    requires
        field(u),
        n <= b.len(),
    ensures
        dot_upto(u.zero, a, vadd(b, c), n) == plus(
            dot_upto(u.zero, a, b, n),
            dot_upto(u.zero, a, c, n),
        ),
    decreases n,
{
    if n == 0 {
        lemma_add_zero(u, u.zero);
    } else {
        let m = (n - 1) as nat;
        lemma_dot_add(u, a, b, c, m);
        lemma_distrib(u, a[n - 1], b[n - 1], c[n - 1]);
        lemma_add_swap(
            u,
            dot_upto(u.zero, a, b, m),
            dot_upto(u.zero, a, c, m),
            times(a[n - 1], b[n - 1]),
            times(a[n - 1], c[n - 1]),
        );
    }
}

pub proof fn lemma_dot_sub<T: Scalar>(u: Units<T>, a: Seq<T>, b: Seq<T>, c: Seq<T>, n: nat)
    requires
        field(u),
        n <= b.len(),
    ensures
        dot_upto(u.zero, a, vsub(b, c), n) == minus(
            dot_upto(u.zero, a, b, n),
            dot_upto(u.zero, a, c, n),
        ),
    decreases n,
{
    if n == 0 {
        lemma_sub_facts(u, u.zero, u.zero);
    } else {
        let m = (n - 1) as nat;
        lemma_dot_sub(u, a, b, c, m);
        lemma_mul_sub(u, a[n - 1], b[n - 1], c[n - 1]);
        lemma_sub_pairs(
            u,
            dot_upto(u.zero, a, b, m),
            times(a[n - 1], b[n - 1]),
            dot_upto(u.zero, a, c, m),
            times(a[n - 1], c[n - 1]),
        );
    }
}

pub proof fn lemma_dot_scale<T: Scalar>(u: Units<T>, a: Seq<T>, b: Seq<T>, s: T, n: nat)
    requires
        field(u),
        n <= b.len(),
    ensures
        dot_upto(u.zero, a, vscale(b, s), n) == times(dot_upto(u.zero, a, b, n), s),
    decreases n,
{
    if n == 0 {
        lemma_mul_zero(u, s);
    } else {
        let m = (n - 1) as nat;
        lemma_dot_scale(u, a, b, s, m);
        lemma_mul_assoc(u, a[n - 1], b[n - 1], s);
        lemma_distrib(u, s, dot_upto(u.zero, a, b, m), times(a[n - 1], b[n - 1]));
    }
}

/// An inner product with a vector that vanishes is zero.
pub proof fn lemma_dot_zero<T: Scalar>(u: Units<T>, a: Seq<T>, b: Seq<T>, n: nat)
    requires
        field(u),
        forall|i: int| 0 <= i < n ==> #[trigger] a[i] == u.zero,
    ensures
        dot_upto(u.zero, a, b, n) == u.zero,
    decreases n,
{
    if n > 0 {
        lemma_dot_zero(u, a, b, (n - 1) as nat);
        assert(a[n - 1] == u.zero);
        lemma_mul_zero(u, b[n - 1]);
        lemma_add_zero(u, u.zero);
    }
}

/// The row vector `a m`, over the first `n` rows of `m`.
pub open spec fn row_times<T: Scalar>(z: T, a: Seq<T>, m: Seq<Seq<T>>, c: int, n: nat) -> Seq<T> {
    Seq::new(c as nat, |j: int| dot_upto(z, a, column(m, j), n))
}

/// `a (m v) == (a m) v`.
pub proof fn lemma_dot_mat_vec<T: Scalar>(
    u: Units<T>,
    a: Seq<T>,
    m: Seq<Seq<T>>,
    c: int,
    v: Seq<T>,
    n: nat,
)
    requires
        field(u),
        shaped(m, m.len() as int, c),
        n <= m.len(),
        v.len() == c,
        c >= 0,
    ensures
        dot_upto(u.zero, a, mat_vec(u.zero, m, v), n) == dot_upto(
            u.zero,
            row_times(u.zero, a, m, c, n),
            v,
            c as nat,
        ),
    decreases n,
{
    if n == 0 {
        lemma_dot_zero(u, row_times(u.zero, a, m, c, 0), v, c as nat);
    } else {
        let p = (n - 1) as nat;
        lemma_dot_mat_vec(u, a, m, c, v, p);
        // The new row adds a[p] * m[p] to the row vector.
        let before = row_times(u.zero, a, m, c, p);
        let extra = vscale(m[p as int], a[p as int]);
        let after = row_times(u.zero, a, m, c, n);
        assert(m[p as int].len() == c);
        assert forall|j: int| 0 <= j < c implies #[trigger] after[j] == vadd(before, extra)[j] by {
            lemma_mul_comm(u, a[p as int], m[p as int][j]);
            assert(column(m, j)[p as int] == m[p as int][j]);
        }
        lemma_dot_congruence(u.zero, after, v, vadd(before, extra), v, c as nat);
        lemma_dot_comm(u, vadd(before, extra), v, c as nat);
        lemma_dot_add(u, v, before, extra, c as nat);
        lemma_dot_comm(u, v, before, c as nat);
        lemma_dot_scale(u, v, m[p as int], a[p as int], c as nat);
        lemma_dot_comm(u, v, m[p as int], c as nat);
        lemma_mul_comm(u, dot_upto(u.zero, m[p as int], v, c as nat), a[p as int]);
    }
}

// ---- matrices ----

/// `(a b) v == a (b v)`.
pub proof fn lemma_mat_mul_vec<T: Scalar>(
    u: Units<T>,
    a: Seq<Seq<T>>,
    b: Seq<Seq<T>>,
    c: int,
    v: Seq<T>,
)
    requires
        field(u),
        c >= 0,
        shaped(a, a.len() as int, b.len() as int),
        shaped(b, b.len() as int, c),
        v.len() == c,
    ensures
        mat_vec(u.zero, mat_mul(u.zero, a, b, c), v) == mat_vec(u.zero, a, mat_vec(u.zero, b, v)),
{
    let left = mat_vec(u.zero, mat_mul(u.zero, a, b, c), v);
    let right = mat_vec(u.zero, a, mat_vec(u.zero, b, v));
    assert forall|i: int| 0 <= i < a.len() implies left[i] == right[i] by {
        assert(a[i].len() == b.len());
        lemma_dot_mat_vec(u, a[i], b, c, v, b.len());
        let row = mat_mul(u.zero, a, b, c)[i];
        assert(row =~= row_times(u.zero, a[i], b, c, b.len()));
    }
    assert(left =~= right);
}

pub proof fn lemma_mat_vec_add<T: Scalar>(u: Units<T>, m: Seq<Seq<T>>, a: Seq<T>, b: Seq<T>)
    requires
        field(u),
        shaped(m, m.len() as int, a.len() as int),
        a.len() == b.len(),
    ensures
        mat_vec(u.zero, m, vadd(a, b)) == vadd(mat_vec(u.zero, m, a), mat_vec(u.zero, m, b)),
{
    assert forall|i: int| 0 <= i < m.len() implies mat_vec(u.zero, m, vadd(a, b))[i] == vadd(
        mat_vec(u.zero, m, a),
        mat_vec(u.zero, m, b),
    )[i] by {
        assert(m[i].len() == a.len());
        lemma_dot_add(u, m[i], a, b, a.len());
    }
    assert(mat_vec(u.zero, m, vadd(a, b)) =~= vadd(mat_vec(u.zero, m, a), mat_vec(u.zero, m, b)));
}

pub proof fn lemma_mat_vec_sub<T: Scalar>(u: Units<T>, m: Seq<Seq<T>>, a: Seq<T>, b: Seq<T>)
    requires
        field(u),
        shaped(m, m.len() as int, a.len() as int),
        a.len() == b.len(),
    ensures
        mat_vec(u.zero, m, vsub(a, b)) == vsub(mat_vec(u.zero, m, a), mat_vec(u.zero, m, b)),
{
    assert forall|i: int| 0 <= i < m.len() implies mat_vec(u.zero, m, vsub(a, b))[i] == vsub(
        mat_vec(u.zero, m, a),
        mat_vec(u.zero, m, b),
    )[i] by {
        assert(m[i].len() == a.len());
        lemma_dot_sub(u, m[i], a, b, a.len());
    }
    assert(mat_vec(u.zero, m, vsub(a, b)) =~= vsub(mat_vec(u.zero, m, a), mat_vec(u.zero, m, b)));
}

/// `(a + b) v == a v + b v`.
pub proof fn lemma_madd_vec<T: Scalar>(
    u: Units<T>,
    a: Seq<Seq<T>>,
    b: Seq<Seq<T>>,
    v: Seq<T>,
)
    requires
        field(u),
        shaped(a, a.len() as int, v.len() as int),
        shaped(b, a.len() as int, v.len() as int),
    ensures
        mat_vec(u.zero, madd(a, b), v) == vadd(mat_vec(u.zero, a, v), mat_vec(u.zero, b, v)),
{
    assert forall|i: int| 0 <= i < a.len() implies mat_vec(u.zero, madd(a, b), v)[i] == vadd(
        mat_vec(u.zero, a, v),
        mat_vec(u.zero, b, v),
    )[i] by {
        assert(a[i].len() == v.len() && b[i].len() == v.len());
        lemma_dot_comm(u, vadd(a[i], b[i]), v, v.len());
        lemma_dot_add(u, v, a[i], b[i], v.len());
        lemma_dot_comm(u, v, a[i], v.len());
        lemma_dot_comm(u, v, b[i], v.len());
    }
    assert(mat_vec(u.zero, madd(a, b), v) =~= vadd(mat_vec(u.zero, a, v), mat_vec(u.zero, b, v)));
}

/// `(a - b) v == a v - b v`.
pub proof fn lemma_msub_vec<T: Scalar>(
    u: Units<T>,
    a: Seq<Seq<T>>,
    b: Seq<Seq<T>>,
    v: Seq<T>,
)
    requires
        field(u),
        shaped(a, a.len() as int, v.len() as int),
        shaped(b, a.len() as int, v.len() as int),
    ensures
        mat_vec(u.zero, msub(a, b), v) == vsub(mat_vec(u.zero, a, v), mat_vec(u.zero, b, v)),
{
    assert forall|i: int| 0 <= i < a.len() implies mat_vec(u.zero, msub(a, b), v)[i] == vsub(
        mat_vec(u.zero, a, v),
        mat_vec(u.zero, b, v),
    )[i] by {
        assert(a[i].len() == v.len() && b[i].len() == v.len());
        lemma_dot_comm(u, vsub(a[i], b[i]), v, v.len());
        lemma_dot_sub(u, v, a[i], b[i], v.len());
        lemma_dot_comm(u, v, a[i], v.len());
        lemma_dot_comm(u, v, b[i], v.len());
    }
    assert(mat_vec(u.zero, msub(a, b), v) =~= vsub(mat_vec(u.zero, a, v), mat_vec(u.zero, b, v)));
}

/// Multiplying by the transpose is multiplying with the columns as rows.
pub proof fn lemma_mat_t_vec<T: Scalar>(z: T, m: Seq<Seq<T>>, c: int, v: Seq<T>)
    requires
        c >= 0,
    ensures
        mat_t_vec(z, m, c, v) == mat_vec(z, transpose(m, c), v),
{
    assert(mat_t_vec(z, m, c, v) =~= mat_vec(z, transpose(m, c), v));
}

/// `transpose(a b) == transpose(b) transpose(a)`.
pub proof fn lemma_transpose_mul<T: Scalar>(
    u: Units<T>,
    a: Seq<Seq<T>>,
    b: Seq<Seq<T>>,
    c: int,
)
    requires
        field(u),
        c >= 0,
        shaped(a, a.len() as int, b.len() as int),
        shaped(b, b.len() as int, c),
    ensures
        transpose(mat_mul(u.zero, a, b, c), c) == mat_mul(
            u.zero,
            transpose(b, c),
            transpose(a, b.len() as int),
            a.len() as int,
        ),
{
    let left = transpose(mat_mul(u.zero, a, b, c), c);
    let right = mat_mul(
        u.zero,
        transpose(b, c),
        transpose(a, b.len() as int),
        a.len() as int,
    );
    assert forall|j: int| 0 <= j < c implies left[j] == right[j] by {
        assert forall|i: int| 0 <= i < a.len() implies left[j][i] == right[j][i] by {
            assert(a[i].len() == b.len());
            let at = transpose(a, b.len() as int);
            assert(column(at, i) =~= a[i]) by {
                assert forall|k: int| 0 <= k < b.len() implies column(at, i)[k] == a[i][k] by {
                    assert(at[k] == column(a, k));
                }
            }
            assert(mat_mul(u.zero, a, b, c)[i][j] == dot(u.zero, a[i], column(b, j)));
            lemma_dot_comm(u, a[i], column(b, j), b.len());
            assert(right[j][i] == dot(u.zero, column(b, j), column(at, i)));
        }
        assert(left[j] =~= right[j]);
    }
    assert(left =~= right);
}

} // verus!
