//! What preconditioning leaves alone, where arithmetic is exact.
use crate::algebra::{
    field, lemma_div_cancel, lemma_dot_comm, lemma_dot_scale, lemma_mul_assoc, lemma_mul_comm,
    lemma_mul_div, lemma_mul_one, lemma_mul_sub, lemma_mul_zero,
};
use crate::layout::spec_np;
use crate::linalg::{dot, dot_upto, mat_vec, shaped, vscale, vsub};
use crate::precondition::{
    column_scale, columns_scaled, cone_scale, entry_scaled, hadamard, quotients, row_factor,
    row_scaled,
};
use crate::scalar::{
    at_least, at_most, greater, larger, magnitude, minus, num, over, same, times, units, Real, Scalar, Units,
};
use crate::stage_blocks::{cone_in_stage, cone_touches};
use crate::start_laws::{cones_disjoint, has_row, lemma_larger, lemma_order, ordered_field};
use crate::types::{ConeDesc, PhysicalParams};
use vstd::prelude::*;

verus! {

proof fn lemma_dot_hadamard<T: Scalar>(
    u: Units<T>,
    row: Seq<T>,
    d: Seq<T>,
    x: Seq<T>,
    n: nat,
)
    requires
        field(u),
        n <= row.len(),
        n <= x.len(),
    ensures
        dot_upto(u.zero, hadamard(row, d), x, n) == dot_upto(u.zero, row, hadamard(x, d), n),
    decreases n,
{
    if n > 0 {
        lemma_dot_hadamard(u, row, d, x, (n - 1) as nat);
        lemma_mul_assoc(u, row[n - 1], d[n - 1], x[n - 1]);
        lemma_mul_comm(u, d[n - 1], x[n - 1]);
    }
}

/// Column scaling is a change of variables: at scaled variables `x`, the scaled
/// matrix gives what the matrix gives at `D x`. Equality rows and cone slacks are
/// invariant.
pub proof fn law_column_scaling_changes_variables<T: Scalar>(
    u: Units<T>,
    m: Seq<Seq<T>>,
    d: Seq<T>,
    x: Seq<T>,
    rhs: Seq<T>,
)
    requires
        field(u),
        d.len() == x.len(),
        shaped(m, rhs.len() as int, x.len() as int),
    ensures
        mat_vec(u.zero, columns_scaled(m, d), x) == mat_vec(u.zero, m, hadamard(x, d)),
        vsub(rhs, mat_vec(u.zero, columns_scaled(m, d), x)) == vsub(
            rhs,
            mat_vec(u.zero, m, hadamard(x, d)),
        ),
{
    let l = mat_vec(u.zero, columns_scaled(m, d), x);
    let r = mat_vec(u.zero, m, hadamard(x, d));
    assert forall|i: int| 0 <= i < m.len() implies l[i] == r[i] by {
        assert(m[i].len() == x.len());
        lemma_dot_hadamard(u, m[i], d, x, x.len());
    }
    assert(l =~= r);
}

/// The scaled cost at scaled variables is the cost at the original ones.
pub proof fn law_column_scaling_keeps_cost<T: Scalar>(
    u: Units<T>,
    c: Seq<T>,
    d: Seq<T>,
    x: Seq<T>,
)
    requires
        field(u),
        c.len() == x.len(),
        d.len() == x.len(),
    ensures
        dot(u.zero, hadamard(c, d), x) == dot(u.zero, c, hadamard(x, d)),
{
    lemma_dot_hadamard(u, c, d, x, x.len());
}

/// Every entry of `d` is nonzero.
pub open spec fn all_nonzero<T>(zero: T, d: Seq<T>) -> bool {
    forall|j: int| 0 <= j < d.len() ==> #[trigger] d[j] != zero
}

/// Scaling a warm start and unscaling a solution undo each other.
pub proof fn law_unscaling_inverts_scaling<T: Scalar>(u: Units<T>, x: Seq<T>, d: Seq<T>)
    requires
        field(u),
        x.len() == d.len(),
        all_nonzero(u.zero, d),
    ensures
        hadamard(quotients(x, d), d) == x,
        quotients(hadamard(x, d), d) == x,
{
    assert forall|j: int| 0 <= j < x.len() implies hadamard(quotients(x, d), d)[j] == x[j]
        && quotients(hadamard(x, d), d)[j] == x[j] by {
        assert(d[j] != u.zero);
        lemma_div_cancel(u, x[j], d[j]);
        lemma_mul_div(u, x[j], d[j]);
    }
    assert(hadamard(quotients(x, d), d) =~= x);
    assert(quotients(hadamard(x, d), d) =~= x);
}

proof fn lemma_row_scaled_len<T: Real>(
    row: Seq<T>,
    cones: Seq<ConeDesc>,
    e: Seq<T>,
    r: int,
    c: nat,
)
    ensures
        row_scaled(row, cones, e, r, c).len() == row.len(),
    decreases c,
{
    if c > 0 {
        lemma_row_scaled_len(row, cones, e, r, (c - 1) as nat);
    }
}

/// Row scaling and column scaling commute, row by row.
pub proof fn law_scalings_commute<T: Real>(
    row: Seq<T>,
    d: Seq<T>,
    cones: Seq<ConeDesc>,
    e: Seq<T>,
    r: int,
    c: nat,
)
    requires
        field(units::<T>()),
        d.len() == row.len(),
    ensures
        hadamard(row_scaled(row, cones, e, r, c), d) == row_scaled(
            hadamard(row, d),
            cones,
            e,
            r,
            c,
        ),
    decreases c,
{
    let u = units::<T>();
    if c > 0 {
        let p = (c - 1) as nat;
        law_scalings_commute(row, d, cones, e, r, p);
        lemma_row_scaled_len(row, cones, e, r, p);
        lemma_row_scaled_len(hadamard(row, d), cones, e, r, p);
        let before = row_scaled(row, cones, e, r, p);
        let k = row_factor(e[c - 1]);
        let l = hadamard(vscale(before, k), d);
        let m = vscale(hadamard(before, d), k);
        assert forall|j: int| 0 <= j < row.len() implies l[j] == m[j] by {
            lemma_mul_assoc(u, before[j], k, d[j]);
            lemma_mul_comm(u, k, d[j]);
            lemma_mul_assoc(u, before[j], d[j], k);
        }
        assert(l =~= m);
    }
}

/// Each cone's rows are divided by that cone's scale, and rows of no cone stay: where
/// no two cones share a row, row `r` of cone `k` comes out times `1 / e[k]`, in the
/// matrix and in the right-hand side.
pub proof fn law_cone_rows_are_divided<T: Real>(
    row: Seq<T>,
    h: T,
    cones: Seq<ConeDesc>,
    e: Seq<T>,
    r: int,
    c: nat,
)
    requires
        cones_disjoint(cones),
        c <= cones.len(),
    ensures
        forall|k: int|
            0 <= k < c && has_row(#[trigger] cones[k], r) ==> row_scaled(row, cones, e, r, c)
                == vscale(row, over(num::<T>(1), e[k])) && entry_scaled(h, cones, e, r, c) == times(
                h,
                over(num::<T>(1), e[k]),
            ),
        (forall|k: int| 0 <= k < c ==> !has_row(#[trigger] cones[k], r)) ==> row_scaled(
            row,
            cones,
            e,
            r,
            c,
        ) == row && entry_scaled(h, cones, e, r, c) == h,
    decreases c,
{
    if c > 0 {
        law_cone_rows_are_divided(row, h, cones, e, r, (c - 1) as nat);
        let last = cones[c - 1];
        if has_row(last, r) {
            assert forall|k: int| 0 <= k < c - 1 implies !has_row(#[trigger] cones[k], r) by {
                assert(cones[k].offset + cones[k].dim <= cones[c - 1].offset || cones[c - 1].offset
                    + cones[c - 1].dim <= cones[k].offset);
            }
        }
    }
}

/// Row scaling scales the slack: the slack of a scaled row is the row's slack,
/// scaled by the same factors.
pub proof fn law_row_scaling_scales_slack<T: Real>(
    row: Seq<T>,
    h: T,
    x: Seq<T>,
    cones: Seq<ConeDesc>,
    e: Seq<T>,
    r: int,
    c: nat,
)
    requires
        field(units::<T>()),
        row.len() == x.len(),
    ensures
        minus(
            entry_scaled(h, cones, e, r, c),
            dot(units::<T>().zero, row_scaled(row, cones, e, r, c), x),
        ) == entry_scaled(minus(h, dot(units::<T>().zero, row, x)), cones, e, r, c),
    decreases c,
{
    let u = units::<T>();
    if c > 0 {
        let p = (c - 1) as nat;
        law_row_scaling_scales_slack(row, h, x, cones, e, r, p);
        lemma_row_scaled_len(row, cones, e, r, p);
        let before = row_scaled(row, cones, e, r, p);
        let k = row_factor(e[c - 1]);
        lemma_dot_comm(u, vscale(before, k), x, x.len());
        lemma_dot_scale(u, x, before, k, x.len());
        lemma_dot_comm(u, x, before, x.len());
        lemma_mul_sub(u, k, entry_scaled(h, cones, e, r, p), dot(u.zero, before, x));
    }
}

/// `a` is at least zero.
pub open spec fn nonneg<T: Scalar>(u: Units<T>, a: T) -> bool {
    at_least(a, u.zero)
}

/// `s` lies in the second-order cone: `s[0] >= 0` and
/// `s[0]^2 >= s[1]^2 + s[2]^2 + ...`.
pub open spec fn in_cone<T: Scalar>(u: Units<T>, s: Seq<T>) -> bool {
    &&& nonneg(u, s[0])
    &&& nonneg(u, minus(times(s[0], s[0]), dot(u.zero, s.drop_first(), s.drop_first())))
}

proof fn lemma_cone_one_way<T: Scalar>(u: Units<T>, s: Seq<T>, k: T)
    requires
        field(u),
        s.len() >= 1,
        forall|a: T, b: T| nonneg(u, a) && nonneg(u, b) ==> nonneg(u, #[trigger] times(a, b)),
        nonneg(u, k),
        in_cone(u, s),
    ensures
        in_cone(u, vscale(s, k)),
{
    let t = vscale(s, k);
    let bar = s.drop_first();
    let kk = times(k, k);
    assert(t.drop_first() =~= vscale(bar, k));
    // dot(bar k, bar k) == dot(bar, bar) k k
    let n = bar.len();
    lemma_dot_scale(u, vscale(bar, k), bar, k, n);
    lemma_dot_comm(u, vscale(bar, k), bar, n);
    lemma_dot_scale(u, bar, bar, k, n);
    let q = dot(u.zero, bar, bar);
    lemma_mul_assoc(u, q, k, k);
    // (s0 k)(s0 k) == s0 s0 (k k)
    let s0 = s[0];
    lemma_mul_assoc(u, s0, k, times(s0, k));
    lemma_mul_comm(u, s0, k);
    lemma_mul_assoc(u, k, k, s0);
    lemma_mul_comm(u, kk, s0);
    lemma_mul_assoc(u, s0, s0, kk);
    assert(times(t[0], t[0]) == times(times(s0, s0), kk));
    lemma_mul_sub(u, kk, times(s0, s0), q);
    assert(nonneg(u, kk));
    assert(nonneg(u, times(minus(times(s0, s0), q), kk)));
}

/// A second-order cone is unchanged by a positive factor: `k s` lies in it exactly
/// where `s` does, for factors `k` and `k_inv` that are nonnegative and inverse to
/// each other, where products of nonnegative scalars are nonnegative.
pub proof fn law_positive_factor_keeps_cone<T: Scalar>(u: Units<T>, s: Seq<T>, k: T, k_inv: T)
    requires
        field(u),
        s.len() >= 1,
        forall|a: T, b: T| nonneg(u, a) && nonneg(u, b) ==> nonneg(u, #[trigger] times(a, b)),
        nonneg(u, k),
        nonneg(u, k_inv),
        times(k, k_inv) == u.one,
    ensures
        in_cone(u, vscale(s, k)) <==> in_cone(u, s),
{
    if in_cone(u, s) {
        lemma_cone_one_way(u, s, k);
    }
    if in_cone(u, vscale(s, k)) {
        lemma_cone_one_way(u, vscale(s, k), k_inv);
        let back = vscale(vscale(s, k), k_inv);
        assert forall|i: int| 0 <= i < s.len() implies back[i] == s[i] by {
            lemma_mul_assoc(u, s[i], k, k_inv);
            lemma_mul_one(u, s[i]);
        }
        assert(back =~= s);
    }
}

/// The type's equality is equality.
pub open spec fn equality_faithful<T: Scalar>() -> bool {
    forall|a: T, b: T| #[trigger] same(a, b) <==> a == b
}

proof fn lemma_product_nonzero<T: Scalar>(u: Units<T>, a: T, k: T)
    requires
        field(u),
        k != u.zero,
    ensures
        times(a, k) == u.zero <==> a == u.zero,
{
    if times(a, k) == u.zero {
        lemma_mul_div(u, a, k);
        lemma_mul_div(u, u.zero, k);
        lemma_mul_zero(u, k);
    }
    lemma_mul_zero(u, k);
}

/// Column scaling by nonzero scales keeps the sparsity pattern, and with it the
/// node every cone is found to belong to.
pub proof fn law_column_scaling_keeps_stages<T: Scalar>(
    u: Units<T>,
    g: Seq<Seq<T>>,
    d: Seq<T>,
    cone: ConeDesc,
    k: int,
)
    requires
        field(u),
        equality_faithful::<T>(),
        all_nonzero(u.zero, d),
        shaped(g, g.len() as int, d.len() as int),
        cone.offset + cone.dim <= g.len(),
    ensures
        forall|col: int|
            0 <= col < d.len() ==> (#[trigger] cone_touches(
                u.zero,
                columns_scaled(g, d),
                cone,
                col,
            ) <==> cone_touches(u.zero, g, cone, col)),
        cone_in_stage(u.zero, columns_scaled(g, d), d.len() as int, cone, k) <==> cone_in_stage(
            u.zero,
            g,
            d.len() as int,
            cone,
            k,
        ),
{
    let z = u.zero;
    let sg = columns_scaled(g, d);
    let np = d.len() as int;
    assert forall|col: int| 0 <= col < np implies (#[trigger] cone_touches(z, sg, cone, col)
        <==> cone_touches(z, g, cone, col)) by {
        assert(d[col] != z);
        assert forall|i: int| 0 <= i < cone.dim implies same(#[trigger] sg[cone.offset + i][col], z) == same(
            g[cone.offset + i][col],
            z,
        ) by {
            assert(g[cone.offset + i].len() == np);
            lemma_product_nonzero(u, g[cone.offset + i][col], d[col]);
        }
        if cone_touches(z, sg, cone, col) {
            let i = choose|i: int| 0 <= i < cone.dim && !same(#[trigger] sg[cone.offset + i][col], z);
            assert(!same(g[cone.offset + i][col], z));
        }
        if cone_touches(z, g, cone, col) {
            let i = choose|i: int| 0 <= i < cone.dim && !same(#[trigger] g[cone.offset + i][col], z);
            assert(!same(sg[cone.offset + i][col], z));
        }
    }
    lemma_same_touches(z, sg, g, np, cone, k);
}

/// Cones that touch the same columns lie in the same node.
proof fn lemma_same_touches<T: Scalar>(
    z: T,
    g1: Seq<Seq<T>>,
    g2: Seq<Seq<T>>,
    np: int,
    cone: ConeDesc,
    k: int,
)
    requires
        forall|col: int|
            0 <= col < np ==> (#[trigger] cone_touches(z, g1, cone, col) <==> cone_touches(
                z,
                g2,
                cone,
                col,
            )),
    ensures
        cone_in_stage(z, g1, np, cone, k) <==> cone_in_stage(z, g2, np, cone, k),
{
    if cone_in_stage(z, g1, np, cone, k) {
        let col = choose|col: int| 0 <= col < np && #[trigger] cone_touches(z, g1, cone, col);
        assert(cone_touches(z, g2, cone, col));
        assert forall|c: int| 0 <= c < np && #[trigger] cone_touches(z, g2, cone, c) implies c / 19
            == k by {
            assert(cone_touches(z, g1, cone, c));
        }
    }
    if cone_in_stage(z, g2, np, cone, k) {
        let col = choose|col: int| 0 <= col < np && #[trigger] cone_touches(z, g2, cone, col);
        assert(cone_touches(z, g1, cone, col));
        assert forall|c: int| 0 <= c < np && #[trigger] cone_touches(z, g1, cone, c) implies c / 19
            == k by {
            assert(cone_touches(z, g2, cone, c));
        }
    }
}

proof fn lemma_row_scaled_pattern<T: Real>(
    row: Seq<T>,
    cones: Seq<ConeDesc>,
    e: Seq<T>,
    r: int,
    c: nat,
    col: int,
)
    requires
        field(units::<T>()),
        c <= e.len(),
        forall|i: int|
            0 <= i < e.len() ==> row_factor(#[trigger] e[i]) != units::<T>().zero,
        0 <= col < row.len(),
    ensures
        row_scaled(row, cones, e, r, c)[col] == units::<T>().zero <==> row[col]
            == units::<T>().zero,
    decreases c,
{
    if c > 0 {
        let p = (c - 1) as nat;
        lemma_row_scaled_pattern(row, cones, e, r, p, col);
        lemma_row_scaled_len(row, cones, e, r, p);
        assert(row_factor(e[c - 1]) != units::<T>().zero);
        lemma_product_nonzero(
            units::<T>(),
            row_scaled(row, cones, e, r, p)[col],
            row_factor(e[c - 1]),
        );
    }
}

/// The factor of a nonzero scale is not zero.
proof fn lemma_factor_nonzero<T: Real>(e: T)
    requires
        field(units::<T>()),
        units::<T>().one != units::<T>().zero,
        e != units::<T>().zero,
    ensures
        row_factor(e) != units::<T>().zero,
{
    lemma_div_cancel(units::<T>(), units::<T>().one, e);
    lemma_mul_zero(units::<T>(), e);
}

/// Row scaling by nonzero scales keeps the sparsity pattern, and with it the node
/// every cone is found to belong to.
pub proof fn law_row_scaling_keeps_stages<T: Real>(
    g: Seq<Seq<T>>,
    scaled: Seq<Seq<T>>,
    cones: Seq<ConeDesc>,
    e: Seq<T>,
    np: int,
    cone: ConeDesc,
    k: int,
)
    requires
        field(units::<T>()),
        equality_faithful::<T>(),
        units::<T>().one != units::<T>().zero,
        forall|i: int| 0 <= i < e.len() ==> #[trigger] e[i] != units::<T>().zero,
        shaped(g, g.len() as int, np),
        cone.offset + cone.dim <= g.len(),
        forall|r: int|
            0 <= r < g.len() ==> #[trigger] scaled[r] == row_scaled(g[r], cones, e, r, e.len()),
    ensures
        cone_in_stage(units::<T>().zero, scaled, np, cone, k) <==> cone_in_stage(
            units::<T>().zero,
            g,
            np,
            cone,
            k,
        ),
{
    let z = units::<T>().zero;
    assert forall|i: int| 0 <= i < e.len() implies row_factor(#[trigger] e[i]) != z by {
        lemma_factor_nonzero(e[i]);
    }
    assert forall|col: int| 0 <= col < np implies (#[trigger] cone_touches(z, scaled, cone, col)
        <==> cone_touches(z, g, cone, col)) by {
        assert forall|i: int| 0 <= i < cone.dim implies same(#[trigger] scaled[cone.offset + i][col], z)
            == same(g[cone.offset + i][col], z) by {
            assert(g[cone.offset + i].len() == np);
            assert(scaled[cone.offset + i] == row_scaled(
                g[cone.offset + i],
                cones,
                e,
                cone.offset + i,
                e.len(),
            ));
            lemma_row_scaled_pattern(
                g[cone.offset + i],
                cones,
                e,
                cone.offset + i,
                e.len(),
                col,
            );
        }
        if cone_touches(z, scaled, cone, col) {
            let i = choose|i: int|
                0 <= i < cone.dim && !same(#[trigger] scaled[cone.offset + i][col], z);
            assert(!same(g[cone.offset + i][col], z));
        }
        if cone_touches(z, g, cone, col) {
            let i = choose|i: int| 0 <= i < cone.dim && !same(#[trigger] g[cone.offset + i][col], z);
            assert(!same(scaled[cone.offset + i][col], z));
        }
    }
    lemma_same_touches(z, scaled, g, np, cone, k);
}

/// Every variable scale and every cone scale is one or greater than one.
pub proof fn law_scales_are_at_least_one<T: Real>(
    phys: &PhysicalParams<T>,
    x_init: Seq<T>,
    trust_eta: T,
    n: int,
    j: int,
    c: int,
)
    requires
        same(num::<T>(1), num::<T>(1)),
    ensures
        column_scale(phys, x_init, n, j) == num::<T>(1) || greater(
            column_scale(phys, x_init, n, j),
            num::<T>(1),
        ),
        cone_scale(phys, x_init, trust_eta, n, c) == num::<T>(1) || greater(
            cone_scale(phys, x_init, trust_eta, n, c),
            num::<T>(1),
        ),
{
}

/// Which variables share a scale: those of the same place in every node, thrust and its
/// magnitude, and virtual control with the state it corrects. Log-mass and the norm bound
/// have scale one, and a free final time only appends the scale of the time increment.
pub proof fn law_scales_are_shared<T: Real>(
    phys: &PhysicalParams<T>,
    x_init: Seq<T>,
    n: int,
    k: int,
    l: int,
    i: int,
)
    requires
        0 <= k < n,
        0 <= l < n,
        0 <= i < 19,
    ensures
        column_scale(phys, x_init, n, 19 * k + i) == column_scale(phys, x_init, n, 19 * l + i),
        7 <= i < 10 ==> column_scale(phys, x_init, n, 19 * k + i) == column_scale(
            phys,
            x_init,
            n,
            19 * k + 10,
        ),
        i < 7 ==> column_scale(phys, x_init, n, 19 * k + i) == column_scale(
            phys,
            x_init,
            n,
            19 * k + 11 + i,
        ),
        i == 6 || i == 18 ==> column_scale(phys, x_init, n, 19 * k + i) == num::<T>(1),
        column_scale(phys, x_init, n, 19 * n) == larger(
            minus(phys.tau_hi, phys.tau_lo),
            num::<T>(1),
        ),
        Seq::new(spec_np(n, true) as nat, |j: int| column_scale(phys, x_init, n, j)).subrange(
            0,
            spec_np(n, false),
        ) == Seq::new(spec_np(n, false) as nat, |j: int| column_scale(phys, x_init, n, j)),
{
    assert(Seq::new(
        spec_np(n, true) as nat,
        |j: int| column_scale(phys, x_init, n, j),
    ).subrange(0, spec_np(n, false)) =~= Seq::new(
        spec_np(n, false) as nat,
        |j: int| column_scale(phys, x_init, n, j),
    ));
}

/// No scaled component of the initial state exceeds one: every scale is at least the
/// magnitude of what it scales. Positions are scaled by at least 100 and velocities by at
/// least 10, thrust by its upper bound, and the time increment by the width of its bounds.
pub proof fn law_scales_cover_their_variables<T: Real>(
    phys: &PhysicalParams<T>,
    x_init: Seq<T>,
    n: int,
    k: int,
    i: int,
)
    requires
        ordered_field::<T>(),
        0 <= k < n,
        0 <= i < 19,
    ensures
        ({
            let d = column_scale(phys, x_init, n, 19 * k + i);
            &&& i < 6 ==> at_most(magnitude(num::<T>(0), x_init[i]), d)
            &&& i < 3 ==> at_most(num::<T>(100), d)
            &&& 3 <= i < 6 ==> at_most(num::<T>(10), d)
            &&& 7 <= i < 11 ==> at_most(phys.t_max, d)
            &&& at_most(
                minus(phys.tau_hi, phys.tau_lo),
                column_scale(phys, x_init, n, 19 * n),
            )
        }),
{
    let z = num::<T>(0);
    let one = num::<T>(1);
    assert((19 * k + i) % 19 == i);
    let base: int = if i < 3 {
        0
    } else {
        3
    };
    let floor = if i < 3 {
        num::<T>(100)
    } else {
        num::<T>(10)
    };
    let a = magnitude(z, x_init[base]);
    let b = magnitude(z, x_init[base + 1]);
    let c = magnitude(z, x_init[base + 2]);
    let ab = larger(a, b);
    let abc = larger(ab, c);
    let f = larger(abc, floor);
    let d = larger(f, one);
    lemma_larger(a, b);
    lemma_larger(ab, c);
    lemma_larger(abc, floor);
    lemma_larger(f, one);
    lemma_order(a, ab, abc);
    lemma_order(b, ab, abc);
    lemma_order(a, abc, f);
    lemma_order(b, abc, f);
    lemma_order(c, abc, f);
    lemma_order(a, f, d);
    lemma_order(b, f, d);
    lemma_order(c, f, d);
    lemma_order(floor, f, d);
    lemma_larger(phys.t_max, one);
    lemma_larger(minus(phys.tau_hi, phys.tau_lo), one);
}

} // verus!
