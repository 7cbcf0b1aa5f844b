//! The direction of the self-dual embedding is a Newton step.
//!
//! Where arithmetic is exact, the direction made of the three solves satisfies all
//! six equations of the embedding: equalities, slacks, complementarity of the cones
//! and of the ray, stationarity, and the gap.
use crate::algebra::{
    field, lemma_add_assoc, lemma_add_comm, lemma_add_neg, lemma_add_swap, lemma_add_zero,
    lemma_distrib, lemma_div_cancel, lemma_dot_add, lemma_dot_comm, lemma_dot_mat_vec,
    lemma_dot_scale, lemma_dot_sub, lemma_mat_vec_sub, lemma_mul_assoc, lemma_mul_comm,
    lemma_mul_one, lemma_mul_sub, lemma_neg_add, lemma_neg_neg, lemma_sub_def, lemma_sub_facts,
    row_times,
};
use crate::cones::NtModel;
use crate::dense_laws::curvature_row;
use crate::kkt_backend::{kkt_dl, kkt_dx, KktModel};
use crate::layout::spec_np;
use crate::linalg::{
    column, dot, dot_upto, mat_t_vec, mat_vec, shaped, transpose, vadd, vneg, vscale, vsub,
};
use crate::newton_laws::{
    kkt_setting, law_flat_step_solves_system, lemma_dot_neg_right, lemma_flat_forms,
    lemma_mat_vec_neg, lemma_setting_sizes,
};
use crate::scalar::{minus, negated, num, over, plus, times, units, Real, Scalar, Units};
use crate::structured_hsd::{
    coupling, hsd_cone, hsd_direction, hsd_dual, hsd_equality, hsd_gap, hsd_rhs, Embedded,
};
use crate::structured_socp::{hessian_reg, point_fits};
use crate::types::SocpProblem;
use vstd::prelude::*;

verus! {

// ---- sums of scaled vectors ----

/// `a (b + t c) == a b + t (a c)`.
proof fn lemma_dot_axpy<T: Scalar>(u: Units<T>, a: Seq<T>, b: Seq<T>, c: Seq<T>, t: T, n: nat)
    requires
        field(u),
        n <= b.len(),
        b.len() == c.len(),
    ensures
        dot_upto(u.zero, a, vadd(b, vscale(c, t)), n) == plus(
            dot_upto(u.zero, a, b, n),
            times(dot_upto(u.zero, a, c, n), t),
        ),
{
    lemma_dot_add(u, a, b, vscale(c, t), n);
    lemma_dot_scale(u, a, c, t, n);
}

/// `m (b + t c) == m b + t (m c)`.
proof fn lemma_mat_vec_axpy<T: Scalar>(
    u: Units<T>,
    m: Seq<Seq<T>>,
    b: Seq<T>,
    c: Seq<T>,
    t: T,
)
    requires
        field(u),
        shaped(m, m.len() as int, b.len() as int),
        b.len() == c.len(),
    ensures
        mat_vec(u.zero, m, vadd(b, vscale(c, t))) == vadd(
            mat_vec(u.zero, m, b),
            vscale(mat_vec(u.zero, m, c), t),
        ),
{
    let l = mat_vec(u.zero, m, vadd(b, vscale(c, t)));
    let r = vadd(mat_vec(u.zero, m, b), vscale(mat_vec(u.zero, m, c), t));
    assert forall|i: int| 0 <= i < m.len() implies l[i] == r[i] by {
        assert(m[i].len() == b.len());
        lemma_dot_axpy(u, m[i], b, c, t, b.len());
    }
    assert(l =~= r);
}

// ---- scalar bookkeeping ----

/// `-p - ((-q - v) + w) == v + ((-p + q) - w)`.
proof fn lemma_cone_term<T: Scalar>(u: Units<T>, p: T, q: T, v: T, w: T)
    requires
        field(u),
    ensures
        minus(negated(p), plus(minus(negated(q), v), w)) == plus(
            v,
            plus(plus(negated(p), q), negated(w)),
        ),
{
    let np = negated(p);
    let nw = negated(w);
    lemma_sub_def(u, np, plus(minus(negated(q), v), w));
    lemma_sub_def(u, negated(q), v);
    lemma_neg_add(u, plus(negated(q), negated(v)), w);
    lemma_neg_add(u, negated(q), negated(v));
    lemma_neg_neg(u, q);
    lemma_neg_neg(u, v);
    // np + ((q + v) + nw)
    lemma_add_comm(u, q, v);
    lemma_add_assoc(u, v, q, nw);
    lemma_add_assoc(u, np, v, plus(q, nw));
    lemma_add_comm(u, np, v);
    lemma_add_assoc(u, v, np, plus(q, nw));
    lemma_add_assoc(u, np, q, nw);
}

/// `(((x + p) - q) + (s - c)) + ((-p + q) - s) == x - c`.
proof fn lemma_cancel_all<T: Scalar>(u: Units<T>, x: T, p: T, q: T, s: T, c: T)
    requires
        field(u),
    ensures
        plus(
            plus(minus(plus(x, p), q), minus(s, c)),
            plus(plus(negated(p), q), negated(s)),
        ) == minus(x, c),
{
    let np = negated(p);
    let nq = negated(q);
    let ns = negated(s);
    let nc = negated(c);
    lemma_sub_def(u, plus(x, p), q);
    lemma_sub_def(u, s, c);
    lemma_sub_def(u, x, c);
    lemma_add_swap(u, plus(plus(x, p), nq), plus(s, nc), plus(np, q), ns);
    lemma_add_swap(u, plus(x, p), nq, np, q);
    lemma_add_assoc(u, x, p, np);
    lemma_add_neg(u, p);
    lemma_add_zero(u, x);
    lemma_add_comm(u, nq, q);
    lemma_add_neg(u, q);
    lemma_add_comm(u, s, nc);
    lemma_add_assoc(u, nc, s, ns);
    lemma_add_neg(u, s);
    lemma_add_zero(u, nc);
}

/// `(q + r) + a == (qr + rr + ar) + t (qt + rt + at)`, where each of the three terms
/// is the first part plus `t` times the second.
proof fn lemma_three_axpy<T: Scalar>(u: Units<T>, qr: T, rr: T, ar: T, qt: T, rt: T, at: T, t: T)
    requires
        field(u),
    ensures
        plus(
            plus(plus(qr, times(qt, t)), plus(rr, times(rt, t))),
            plus(ar, times(at, t)),
        ) == plus(plus(plus(qr, rr), ar), times(plus(plus(qt, rt), at), t)),
{
    lemma_add_swap(u, qr, times(qt, t), rr, times(rt, t));
    lemma_add_swap(u, plus(qr, rr), plus(times(qt, t), times(rt, t)), ar, times(at, t));
    lemma_distrib(u, t, qt, rt);
    lemma_distrib(u, t, plus(qt, rt), at);
}

/// Stationarity of one unknown, from the two systems solved for it.
proof fn lemma_stationary<T: Scalar>(
    u: Units<T>,
    qr: T,
    rr: T,
    ar: T,
    qt: T,
    rt: T,
    at: T,
    t: T,
    x: T,
    p: T,
    q: T,
    s: T,
    c: T,
)
    requires
        field(u),
        plus(plus(qr, rr), ar) == minus(plus(negated(x), p), q),
        plus(plus(qt, rt), at) == minus(s, c),
    ensures
        ({
            let v = plus(qr, times(qt, t));
            let g = plus(rr, times(rt, t));
            let a = plus(ar, times(at, t));
            let cone = minus(negated(p), plus(minus(negated(q), v), times(s, t)));
            plus(plus(plus(g, cone), a), times(c, t)) == negated(x)
        }),
{
    let v = plus(qr, times(qt, t));
    let g = plus(rr, times(rt, t));
    let a = plus(ar, times(at, t));
    let st = times(s, t);
    let ct = times(c, t);
    let rest = plus(plus(negated(p), q), negated(st));
    lemma_cone_term(u, p, q, v, st);
    // (g + (v + rest)) + a == ((v + g) + a) + rest
    lemma_add_assoc(u, g, v, rest);
    lemma_add_comm(u, g, v);
    lemma_add_assoc(u, plus(v, g), rest, a);
    lemma_add_comm(u, rest, a);
    lemma_add_assoc(u, plus(v, g), a, rest);
    lemma_three_axpy(u, qr, rr, ar, qt, rt, at, t);
    // t (s - c) == t s - t c
    lemma_mul_comm(u, minus(s, c), t);
    lemma_mul_sub(u, t, s, c);
    lemma_mul_comm(u, t, s);
    lemma_mul_comm(u, t, c);
    lemma_cancel_all(u, negated(x), p, q, st, ct);
    lemma_sub_facts(u, negated(x), ct);
}

/// `(r - k t) / tau == r / tau - t (k / tau)`.
proof fn lemma_ray_step<T: Scalar>(u: Units<T>, r: T, k: T, t: T, tau: T)
    requires
        field(u),
        tau != u.zero,
    ensures
        over(minus(r, times(k, t)), tau) == minus(over(r, tau), times(over(k, tau), t)),
        times(over(minus(r, times(k, t)), tau), tau) == minus(r, times(k, t)),
{
    let a = over(minus(r, times(k, t)), tau);
    let kt = over(k, tau);
    let b = minus(over(r, tau), times(kt, t));
    lemma_div_cancel(u, minus(r, times(k, t)), tau);
    lemma_div_cancel(u, r, tau);
    lemma_div_cancel(u, k, tau);
    // b tau == r - k t
    lemma_mul_comm(u, b, tau);
    lemma_mul_sub(u, tau, over(r, tau), times(kt, t));
    lemma_mul_comm(u, tau, over(r, tau));
    lemma_mul_comm(u, tau, times(kt, t));
    lemma_mul_assoc(u, kt, t, tau);
    lemma_mul_comm(u, t, tau);
    lemma_mul_assoc(u, kt, tau, t);
    // equal products with tau are products of equals
    let inv = over(u.one, tau);
    lemma_div_cancel(u, u.one, tau);
    lemma_mul_comm(u, inv, tau);
    lemma_mul_assoc(u, a, tau, inv);
    lemma_mul_assoc(u, b, tau, inv);
    lemma_mul_one(u, a);
    lemma_mul_one(u, b);
}

/// The gap equation, from the step in `tau` that was chosen to close it.
proof fn lemma_gap_closed<T: Scalar>(
    u: Units<T>,
    dr: T,
    br: T,
    dt: T,
    bt: T,
    t: T,
    wc: T,
    hg: T,
    hh: T,
    r: T,
    k: T,
    gap: T,
    cdx: T,
    hq: T,
)
    requires
        field(u),
        times(t, minus(minus(plus(dt, bt), hh), k)) == minus(
            gap,
            plus(plus(minus(plus(dr, br), wc), hg), r),
        ),
        plus(cdx, hq) == plus(dr, times(dt, t)),
    ensures
        ({
            let cone = minus(negated(wc), plus(minus(negated(hg), hq), times(hh, t)));
            plus(
                plus(plus(minus(r, times(k, t)), cdx), plus(br, times(bt, t))),
                cone,
            ) == gap
        }),
{
    let nw = negated(wc);
    let hht = times(hh, t);
    let kt = times(k, t);
    let dtt = times(dt, t);
    let btt = times(bt, t);
    let rest = plus(plus(minus(plus(dr, br), wc), hg), r);
    let coef = minus(minus(plus(dt, bt), hh), k);
    // t coef == ((dt t + bt t) - hh t) - k t
    lemma_mul_sub(u, t, minus(plus(dt, bt), hh), k);
    lemma_mul_sub(u, t, plus(dt, bt), hh);
    lemma_distrib(u, t, dt, bt);
    lemma_mul_comm(u, t, dt);
    lemma_mul_comm(u, t, bt);
    lemma_mul_comm(u, t, hh);
    lemma_mul_comm(u, t, k);
    let scaled = minus(minus(plus(dtt, btt), hht), kt);
    assert(times(t, coef) == scaled);
    // rest + t coef == gap
    lemma_sub_facts(u, gap, rest);
    lemma_add_comm(u, rest, scaled);
    assert(plus(rest, scaled) == gap);
    // the cone term
    lemma_cone_term(u, wc, hg, hq, hht);
    let tail = plus(plus(nw, hg), negated(hht));
    // gather: (((r - kt) + cdx) + (br + btt)) + (hq + tail)
    let ray = minus(r, kt);
    let b = plus(br, btt);
    lemma_add_assoc(u, ray, cdx, b);
    lemma_add_comm(u, cdx, b);
    lemma_add_assoc(u, ray, b, cdx);
    lemma_add_swap(u, plus(ray, b), cdx, hq, tail);
    lemma_add_comm(u, plus(ray, b), hq);
    lemma_add_assoc(u, plus(plus(ray, b), cdx), hq, tail);
    lemma_add_assoc(u, plus(ray, b), cdx, hq);
    let d = plus(dr, dtt);
    let sum = plus(plus(plus(ray, b), d), tail);
    assert(plus(plus(plus(ray, cdx), b), plus(hq, tail)) == sum);
    // spread both sides over their atoms
    lemma_sub_def(u, r, kt);
    lemma_sub_def(u, plus(dr, br), wc);
    lemma_sub_def(u, plus(dtt, btt), hht);
    lemma_sub_def(u, minus(plus(dtt, btt), hht), kt);
    let nk = negated(kt);
    let nh = negated(hht);
    // left: (((r + nk) + (br + btt)) + (dr + dtt)) + ((nw + hg) + nh)
    lemma_add_swap(u, r, nk, br, btt);
    lemma_add_swap(u, plus(r, br), plus(nk, btt), dr, dtt);
    let first = plus(plus(r, br), dr);
    let second = plus(plus(nk, btt), dtt);
    lemma_add_swap(u, first, second, plus(nw, hg), nh);
    assert(sum == plus(plus(first, plus(nw, hg)), plus(second, nh)));
    // rest == first + (nw + hg)
    lemma_add_comm(u, plus(r, br), dr);
    lemma_add_comm(u, r, br);
    lemma_add_assoc(u, dr, br, r);
    let db = plus(dr, br);
    assert(first == plus(db, r));
    lemma_add_assoc(u, db, r, plus(nw, hg));
    lemma_add_comm(u, r, plus(nw, hg));
    lemma_add_assoc(u, db, plus(nw, hg), r);
    lemma_add_assoc(u, db, nw, hg);
    assert(rest == plus(first, plus(nw, hg)));
    // scaled == second + nh
    lemma_add_comm(u, plus(nk, btt), dtt);
    lemma_add_comm(u, nk, btt);
    lemma_add_assoc(u, dtt, btt, nk);
    let tb = plus(dtt, btt);
    assert(second == plus(tb, nk));
    lemma_add_assoc(u, tb, nk, nh);
    lemma_add_comm(u, nk, nh);
    lemma_add_assoc(u, tb, nh, nk);
    assert(scaled == plus(second, nh));
}

// ---- the direction ----

/// The two systems behind a direction, and what the law on it takes for granted.
pub open spec fn embedding_setting<T: Real>(
    n: int,
    prob: &SocpProblem<T>,
    e: Embedded<T>,
    f: KktModel<T>,
    b: NtModel<T>,
    r_c: Seq<T>,
) -> bool {
    let u = units::<T>();
    let z = num::<T>(0);
    let np = prob.c@.len() as int;
    let nct = prob.h@.len() as int;
    let gw2h = mat_t_vec(z, prob.g_mat@, np, mat_vec(z, b.w2, prob.h@));
    &&& kkt_setting(
        u,
        prob,
        b.w2,
        hessian_reg::<T>(),
        n,
        f,
        hsd_rhs(prob, e, b, r_c),
        vneg(hsd_equality(prob, e)),
    )
    &&& kkt_setting(u, prob, b.w2, hessian_reg::<T>(), n, f, vsub(gw2h, prob.c@), prob.b@)
    &&& point_fits(prob, e.pt)
    &&& shaped(b.w, nct, nct)
    &&& r_c.len() == nct
}

/// What the vectors of a direction are made of.
proof fn lemma_direction_parts<T: Real>(
    n: int,
    prob: &SocpProblem<T>,
    e: Embedded<T>,
    f: KktModel<T>,
    b: NtModel<T>,
    r_c: Seq<T>,
    r6: T,
)
    requires
        embedding_setting(n, prob, e, f, b, r_c),
    ensures
        ({
            let z = num::<T>(0);
            let np = prob.c@.len();
            let k = coupling(n, prob, e, f, b);
            let d = hsd_direction(n, prob, e, f, b, k, r_c, r6);
            let b_x = hsd_rhs(prob, e, b, r_c);
            let b_a = vneg(hsd_equality(prob, e));
            let dx_r = kkt_dx(z, prob.a_mat@, n, f, b_x, b_a);
            let dl_r = kkt_dl(z, prob.a_mat@, n, f, b_x, b_a);
            let g = prob.g_mat@;
            let w2g = |v: Seq<T>| mat_vec(z, b.w2, mat_vec(z, g, v));
            &&& field(units::<T>())
            &&& prob.sized(spec_np(n, f is Free), 7 * n + 6, prob.h@.len() as int)
            &&& shaped(b.w2, prob.h@.len() as int, prob.h@.len() as int)
            &&& dx_r.len() == np && k.dx_t.len() == np
            &&& dl_r.len() == prob.b@.len() && k.dl_t.len() == prob.b@.len()
            &&& d.ds.len() == prob.h@.len()
            &&& w2g(d.dx) == vadd(w2g(dx_r), vscale(w2g(k.dx_t), d.dtau))
            &&& mat_vec(z, b.w2, d.ds) == vadd(
                vsub(vneg(mat_vec(z, b.w2, hsd_cone(prob, e))), w2g(d.dx)),
                vscale(mat_vec(z, b.w2, prob.h@), d.dtau),
            )
        }),
{
    let u = units::<T>();
    let z = num::<T>(0);
    let g = prob.g_mat@;
    let k = coupling(n, prob, e, f, b);
    let d = hsd_direction(n, prob, e, f, b, k, r_c, r6);
    let np = prob.c@.len() as int;
    let reg = hessian_reg::<T>();
    let gw2h = mat_t_vec(z, g, np, mat_vec(z, b.w2, prob.h@));
    let b_x = hsd_rhs(prob, e, b, r_c);
    let b_a = vneg(hsd_equality(prob, e));
    let b_t = vsub(gw2h, prob.c@);
    lemma_flat_forms(u, prob, b.w2, reg, n, f, b_x, b_a);
    lemma_flat_forms(u, prob, b.w2, reg, n, f, b_t, prob.b@);
    lemma_setting_sizes(u, prob, b.w2, reg, n, f, b_x, b_a);
    let dx_r = kkt_dx(z, prob.a_mat@, n, f, b_x, b_a);
    let r_g = hsd_cone(prob, e);
    let gdx = mat_vec(z, g, d.dx);
    lemma_mat_vec_axpy(u, g, dx_r, k.dx_t, d.dtau);
    lemma_mat_vec_axpy(u, b.w2, mat_vec(z, g, dx_r), mat_vec(z, g, k.dx_t), d.dtau);
    let inner = vsub(vneg(r_g), gdx);
    lemma_mat_vec_axpy(u, b.w2, inner, prob.h@, d.dtau);
    lemma_mat_vec_sub(u, b.w2, vneg(r_g), gdx);
    lemma_mat_vec_neg(u, b.w2, r_g);
}

/// `dot(a, cone step)` spread over its parts.
proof fn lemma_cone_dot<T: Real>(
    a: Seq<T>,
    wc: Seq<T>,
    w2r: Seq<T>,
    w2d: Seq<T>,
    w2h: Seq<T>,
    t: T,
)
    requires
        field(units::<T>()),
        a.len() == wc.len(),
        wc.len() == w2r.len(),
        wc.len() == w2d.len(),
        wc.len() == w2h.len(),
    ensures
        ({
            let z = num::<T>(0);
            dot(z, a, vsub(vneg(wc), vadd(vsub(vneg(w2r), w2d), vscale(w2h, t)))) == minus(
                negated(dot(z, a, wc)),
                plus(minus(negated(dot(z, a, w2r)), dot(z, a, w2d)), times(dot(z, a, w2h), t)),
            )
        }),
{
    let u = units::<T>();
    let m = wc.len();
    lemma_dot_sub(u, a, vneg(wc), vadd(vsub(vneg(w2r), w2d), vscale(w2h, t)), m);
    lemma_dot_neg_right(u, a, wc, m);
    lemma_dot_axpy(u, a, vsub(vneg(w2r), w2d), w2h, t, m);
    lemma_dot_sub(u, a, vneg(w2r), w2d, m);
    lemma_dot_neg_right(u, a, w2r, m);
}

/// `A dx - b dtau == -r_a`.
proof fn lemma_embedded_equalities<T: Real>(
    n: int,
    prob: &SocpProblem<T>,
    e: Embedded<T>,
    f: KktModel<T>,
    b: NtModel<T>,
    r_c: Seq<T>,
    r6: T,
)
    requires
        embedding_setting(n, prob, e, f, b, r_c),
    ensures
        ({
            let k = coupling(n, prob, e, f, b);
            let d = hsd_direction(n, prob, e, f, b, k, r_c, r6);
            vsub(mat_vec(num::<T>(0), prob.a_mat@, d.dx), vscale(prob.b@, d.dtau)) == vneg(
                hsd_equality(prob, e),
            )
        }),
{
    let u = units::<T>();
    let z = num::<T>(0);
    let a = prob.a_mat@;
    let k = coupling(n, prob, e, f, b);
    let d = hsd_direction(n, prob, e, f, b, k, r_c, r6);
    let np = prob.c@.len() as int;
    let reg = hessian_reg::<T>();
    let b_x = hsd_rhs(prob, e, b, r_c);
    let b_a = vneg(hsd_equality(prob, e));
    let b_t = vsub(mat_t_vec(z, prob.g_mat@, np, mat_vec(z, b.w2, prob.h@)), prob.c@);
    lemma_direction_parts(n, prob, e, f, b, r_c, r6);
    law_flat_step_solves_system(u, prob, b.w2, reg, n, f, b_x, b_a);
    law_flat_step_solves_system(u, prob, b.w2, reg, n, f, b_t, prob.b@);
    let dx_r = kkt_dx(z, a, n, f, b_x, b_a);
    lemma_mat_vec_axpy(u, a, dx_r, k.dx_t, d.dtau);
    let l = vsub(mat_vec(z, a, d.dx), vscale(prob.b@, d.dtau));
    assert forall|i: int| 0 <= i < prob.b@.len() implies l[i] == b_a[i] by {
        let p = b_a[i];
        let q = times(prob.b@[i], d.dtau);
        lemma_sub_def(u, plus(p, q), q);
        lemma_add_assoc(u, p, q, negated(q));
        lemma_add_neg(u, q);
        lemma_add_zero(u, p);
    }
    assert(l =~= b_a);
}

/// `reg dx + G' dy + A' dl + c dtau == -r_x`.
proof fn lemma_embedded_stationarity<T: Real>(
    n: int,
    prob: &SocpProblem<T>,
    e: Embedded<T>,
    f: KktModel<T>,
    b: NtModel<T>,
    r_c: Seq<T>,
    r6: T,
    j: int,
)
    requires
        embedding_setting(n, prob, e, f, b, r_c),
        0 <= j < prob.c@.len(),
    ensures
        ({
            let z = num::<T>(0);
            let k = coupling(n, prob, e, f, b);
            let d = hsd_direction(n, prob, e, f, b, k, r_c, r6);
            plus(
                plus(
                    plus(
                        times(d.dx[j], hessian_reg::<T>()),
                        dot(z, column(prob.g_mat@, j), d.dy),
                    ),
                    dot(z, column(prob.a_mat@, j), d.dl),
                ),
                times(prob.c@[j], d.dtau),
            ) == negated(hsd_dual(prob, e)[j])
        }),
{
    let u = units::<T>();
    let z = num::<T>(0);
    let a = prob.a_mat@;
    let g = prob.g_mat@;
    let k = coupling(n, prob, e, f, b);
    let d = hsd_direction(n, prob, e, f, b, k, r_c, r6);
    let t = d.dtau;
    let np = prob.c@.len() as int;
    let reg = hessian_reg::<T>();
    let w2h = mat_vec(z, b.w2, prob.h@);
    let b_x = hsd_rhs(prob, e, b, r_c);
    let b_a = vneg(hsd_equality(prob, e));
    let b_t = vsub(mat_t_vec(z, g, np, w2h), prob.c@);
    lemma_direction_parts(n, prob, e, f, b, r_c, r6);
    law_flat_step_solves_system(u, prob, b.w2, reg, n, f, b_x, b_a);
    law_flat_step_solves_system(u, prob, b.w2, reg, n, f, b_t, prob.b@);
    let dx_r = kkt_dx(z, a, n, f, b_x, b_a);
    let dl_r = kkt_dl(z, a, n, f, b_x, b_a);
    let cg = column(g, j);
    let ca = column(a, j);
    let w2r = mat_vec(z, b.w2, mat_vec(z, g, dx_r));
    let w2t = mat_vec(z, b.w2, mat_vec(z, g, k.dx_t));
    let w2d = mat_vec(z, b.w2, mat_vec(z, g, d.dx));
    let w2g = mat_vec(z, b.w2, hsd_cone(prob, e));
    let wc = mat_vec(z, b.w, r_c);
    let qr = dot(z, cg, w2r);
    let qt = dot(z, cg, w2t);
    let rr = times(reg, dx_r[j]);
    let rt = times(reg, k.dx_t[j]);
    let ar = dot(z, ca, dl_r);
    let at = dot(z, ca, k.dl_t);
    assert(curvature_row(z, prob, b.w2, reg, dx_r, j) == plus(qr, rr));
    assert(curvature_row(z, prob, b.w2, reg, k.dx_t, j) == plus(qt, rt));
    let x = hsd_dual(prob, e)[j];
    let p = dot(z, cg, wc);
    let q = dot(z, cg, w2g);
    let s = dot(z, cg, w2h);
    let c = prob.c@[j];
    assert(plus(plus(qr, rr), ar) == minus(plus(negated(x), p), q));
    assert(plus(plus(qt, rt), at) == minus(s, c));
    lemma_stationary(u, qr, rr, ar, qt, rt, at, t, x, p, q, s, c);
    // the parts of the direction
    lemma_dot_axpy(u, cg, w2r, w2t, t, prob.h@.len());
    lemma_cone_dot(cg, wc, w2g, w2d, w2h, t);
    lemma_dot_axpy(u, ca, dl_r, k.dl_t, t, prob.b@.len());
    let dxj = plus(dx_r[j], times(k.dx_t[j], t));
    assert(d.dx[j] == dxj);
    lemma_mul_comm(u, dxj, reg);
    lemma_distrib(u, reg, dx_r[j], times(k.dx_t[j], t));
    lemma_mul_assoc(u, reg, k.dx_t[j], t);
}

/// `dkappa + c dx + b dl + h dy == -gap`.
proof fn lemma_embedded_gap<T: Real>(
    n: int,
    prob: &SocpProblem<T>,
    e: Embedded<T>,
    f: KktModel<T>,
    b: NtModel<T>,
    r_c: Seq<T>,
    r6: T,
)
    requires
        embedding_setting(n, prob, e, f, b, r_c),
        transpose(b.w2, prob.h@.len() as int) == b.w2,
        e.tau != num::<T>(0),
        coupling(n, prob, e, f, b).coef != num::<T>(0),
    ensures
        ({
            let z = num::<T>(0);
            let k = coupling(n, prob, e, f, b);
            let d = hsd_direction(n, prob, e, f, b, k, r_c, r6);
            plus(
                plus(plus(d.dkappa, dot(z, prob.c@, d.dx)), dot(z, prob.b@, d.dl)),
                dot(z, prob.h@, d.dy),
            ) == negated(hsd_gap(prob, e))
        }),
{
    let u = units::<T>();
    let z = num::<T>(0);
    let a = prob.a_mat@;
    let g = prob.g_mat@;
    let h = prob.h@;
    let nct = h.len();
    let np = prob.c@.len();
    let k = coupling(n, prob, e, f, b);
    let d = hsd_direction(n, prob, e, f, b, k, r_c, r6);
    let t = d.dtau;
    let w2h = mat_vec(z, b.w2, h);
    let b_x = hsd_rhs(prob, e, b, r_c);
    let b_a = vneg(hsd_equality(prob, e));
    lemma_direction_parts(n, prob, e, f, b, r_c, r6);
    let dx_r = kkt_dx(z, a, n, f, b_x, b_a);
    let dl_r = kkt_dl(z, a, n, f, b_x, b_a);
    let w2g = mat_vec(z, b.w2, hsd_cone(prob, e));
    let wc = mat_vec(z, b.w, r_c);
    let gdx = mat_vec(z, g, d.dx);
    let w2d = mat_vec(z, b.w2, gdx);
    let gw2h = mat_t_vec(z, g, np as int, w2h);
    // h (W W G dx) == (G' W W h) dx
    lemma_dot_mat_vec(u, h, b.w2, nct as int, gdx, nct);
    let row = row_times(z, h, b.w2, nct as int, nct);
    assert forall|i: int| 0 <= i < nct implies row[i] == w2h[i] by {
        assert(b.w2[i] =~= column(b.w2, i)) by {
            assert(transpose(b.w2, nct as int)[i] == b.w2[i]);
        }
        lemma_dot_comm(u, h, b.w2[i], nct);
    }
    assert(row =~= w2h);
    lemma_dot_mat_vec(u, w2h, g, np as int, d.dx, nct);
    let col = row_times(z, w2h, g, np as int, nct);
    assert forall|j: int| 0 <= j < np implies col[j] == gw2h[j] by {
        lemma_dot_comm(u, w2h, column(g, j), nct);
    }
    assert(col =~= gw2h);
    let hq = dot(z, h, w2d);
    assert(hq == dot(z, gw2h, d.dx));
    // c dx + (G' W W h) dx == d dx
    let cdx = dot(z, prob.c@, d.dx);
    lemma_dot_comm(u, prob.c@, d.dx, np);
    lemma_dot_comm(u, gw2h, d.dx, np);
    lemma_dot_add(u, d.dx, prob.c@, gw2h, np);
    lemma_dot_comm(u, d.dx, k.d, np);
    lemma_dot_axpy(u, k.d, dx_r, k.dx_t, t, np);
    let dr = dot(z, k.d, dx_r);
    let dt = dot(z, k.d, k.dx_t);
    assert(plus(cdx, hq) == plus(dr, times(dt, t)));
    let br = dot(z, prob.b@, dl_r);
    let bt = dot(z, prob.b@, k.dl_t);
    lemma_dot_axpy(u, prob.b@, dl_r, k.dl_t, t, prob.b@.len());
    lemma_cone_dot(h, wc, w2g, w2d, w2h, t);
    lemma_ray_step(u, r6, e.kappa, t, e.tau);
    // the step in tau
    let rest = plus(
        plus(minus(plus(dr, br), dot(z, h, wc)), dot(z, h, w2g)),
        over(r6, e.tau),
    );
    let gap = negated(hsd_gap(prob, e));
    assert(t == over(minus(gap, rest), k.coef));
    lemma_div_cancel(u, minus(gap, rest), k.coef);
    lemma_gap_closed(
        u,
        dr,
        br,
        dt,
        bt,
        t,
        dot(z, h, wc),
        dot(z, h, w2g),
        dot(z, h, w2h),
        over(r6, e.tau),
        over(e.kappa, e.tau),
        gap,
        cdx,
        hq,
    );
}

/// In exact arithmetic the direction of the self-dual embedding satisfies its six
/// Newton equations, for the cone term `r_c` and the ray term `r6`:
/// `A dx - b dtau == -r_a`, `G dx + ds - h dtau == -r_g`, `dy == -W r_c - W W ds`,
/// `tau dkappa + kappa dtau == r6`, `reg dx + G' dy + A' dl + c dtau == -r_x`, and
/// `dkappa + c dx + b dl + h dy == -gap`.
pub proof fn law_embedded_direction_is_newton_step<T: Real>(
    n: int,
    prob: &SocpProblem<T>,
    e: Embedded<T>,
    f: KktModel<T>,
    b: NtModel<T>,
    r_c: Seq<T>,
    r6: T,
)
    requires
        embedding_setting(n, prob, e, f, b, r_c),
        transpose(b.w2, prob.h@.len() as int) == b.w2,
        e.tau != num::<T>(0),
        coupling(n, prob, e, f, b).coef != num::<T>(0),
    ensures
        ({
            let z = num::<T>(0);
            let np = prob.c@.len() as int;
            let k = coupling(n, prob, e, f, b);
            let d = hsd_direction(n, prob, e, f, b, k, r_c, r6);
            &&& vsub(mat_vec(z, prob.a_mat@, d.dx), vscale(prob.b@, d.dtau)) == vneg(
                hsd_equality(prob, e),
            )
            &&& vsub(
                vadd(mat_vec(z, prob.g_mat@, d.dx), d.ds),
                vscale(prob.h@, d.dtau),
            ) == vneg(hsd_cone(prob, e))
            &&& d.dy == vsub(vneg(mat_vec(z, b.w, r_c)), mat_vec(z, b.w2, d.ds))
            &&& plus(times(d.dkappa, e.tau), times(e.kappa, d.dtau)) == r6
            &&& vadd(
                vadd(
                    vadd(
                        vscale(d.dx, hessian_reg::<T>()),
                        mat_t_vec(z, prob.g_mat@, np, d.dy),
                    ),
                    mat_t_vec(z, prob.a_mat@, np, d.dl),
                ),
                vscale(prob.c@, d.dtau),
            ) == vneg(hsd_dual(prob, e))
            &&& plus(
                plus(plus(d.dkappa, dot(z, prob.c@, d.dx)), dot(z, prob.b@, d.dl)),
                dot(z, prob.h@, d.dy),
            ) == negated(hsd_gap(prob, e))
        }),
{
    let u = units::<T>();
    let z = num::<T>(0);
    let np = prob.c@.len() as int;
    let k = coupling(n, prob, e, f, b);
    let d = hsd_direction(n, prob, e, f, b, k, r_c, r6);
    lemma_direction_parts(n, prob, e, f, b, r_c, r6);
    lemma_embedded_equalities(n, prob, e, f, b, r_c, r6);
    lemma_embedded_gap(n, prob, e, f, b, r_c, r6);
    lemma_ray_step(u, r6, e.kappa, d.dtau, e.tau);
    lemma_sub_facts(u, r6, times(e.kappa, d.dtau));
    let gdx = mat_vec(z, prob.g_mat@, d.dx);
    let r_g = hsd_cone(prob, e);
    let slack = vsub(vadd(gdx, d.ds), vscale(prob.h@, d.dtau));
    assert forall|i: int| 0 <= i < prob.h@.len() implies slack[i] == vneg(r_g)[i] by {
        let v = gdx[i];
        let nr = negated(r_g[i]);
        let w = times(prob.h@[i], d.dtau);
        let base = minus(nr, v);
        // v + ((nr - v) + w) - w
        lemma_add_assoc(u, v, base, w);
        lemma_add_comm(u, v, base);
        lemma_sub_facts(u, nr, v);
        lemma_sub_def(u, plus(nr, w), w);
        lemma_add_assoc(u, nr, w, negated(w));
        lemma_add_neg(u, w);
        lemma_add_zero(u, nr);
    }
    assert(slack =~= vneg(r_g));
    let stat = vadd(
        vadd(
            vadd(vscale(d.dx, hessian_reg::<T>()), mat_t_vec(z, prob.g_mat@, np, d.dy)),
            mat_t_vec(z, prob.a_mat@, np, d.dl),
        ),
        vscale(prob.c@, d.dtau),
    );
    assert forall|j: int| 0 <= j < np implies stat[j] == vneg(hsd_dual(prob, e))[j] by {
        lemma_embedded_stationarity(n, prob, e, f, b, r_c, r6, j);
    }
    assert(stat =~= vneg(hsd_dual(prob, e)));
}

} // verus!
