//! What correctors, centering weights, steps along rays, starts and snapshots of the
//! interior-point drivers achieve.
use crate::algebra::{
    field, lemma_add_comm, lemma_add_neg, lemma_div_cancel, lemma_dot_scale, lemma_mat_vec_add,
    lemma_mat_vec_sub, lemma_mul_assoc, lemma_mul_comm, lemma_mul_one, lemma_mul_zero,
    lemma_neg_add, lemma_neg_neg, lemma_sub_def, lemma_sub_facts,
};
use crate::cone_laws::law_identity_by_cones;
use crate::cones::{
    all_finite, cones_within, identity_upto, jordan_upto, part, step_upto, tail_squares, warm_upto,
    ConeOps, NtModel,
};
use crate::dense_laws::{cones_end, tiled};
use crate::driver_laws::meets_slacks;
use crate::linalg::{dot, mat_vec, shaped, vadd, vneg, vscale, vsub};
use crate::newton_laws::lemma_mat_vec_neg;
use crate::numerics::{pow_of, root_of, Numerics};
use crate::scalar::{
    at_least, at_most, finite, greater, larger, less, magnitude, minus, negated, num, over, plus,
    ratio, smaller, times, units, Real, Scalar, Units,
};
use crate::solver_laws::lemma_start_len;
use crate::start_laws::{
    cones_disjoint, has_row, law_start_follows_its_hint, law_tiled_cones_are_disjoint, lemma_order,
    lemma_product_less, ordered_field,
};
use crate::structured_hsd::{
    hsd_alpha, hsd_cone, hsd_corrector_term, hsd_equality, hsd_mu, hsd_optimal, hsd_refreshed,
    hsd_run, hsd_sigma, hsd_step, positive, ray_step, recovered, to_boundary, Embedded, HsdDirection, HsdProgress,
};
use crate::structured_socp::{
    affine_mu, aho_sigma, centered, complementarity, cone_residual, dual_residual,
    equality_residual, moved, moved_residual, norm, nt_corrector_term, nt_sigma, optimal,
    point_fits, refreshed, run, slack_step, starting_point, step, Direction, Driver, Progress,
    Snapshot,
};
use crate::types::{ConeDesc, IpmAlgoParams, IpmStatus, Point, ResultModel, SocpProblem};
use vstd::prelude::*;

verus! {

// ---- correctors ----

proof fn lemma_mat_vec_scale<T: Scalar>(u: Units<T>, m: Seq<Seq<T>>, v: Seq<T>, k: T)
    requires
        field(u),
        shaped(m, m.len() as int, v.len() as int),
    ensures
        mat_vec(u.zero, m, vscale(v, k)) == vscale(mat_vec(u.zero, m, v), k),
{
    let l = mat_vec(u.zero, m, vscale(v, k));
    let r = vscale(mat_vec(u.zero, m, v), k);
    assert forall|i: int| 0 <= i < m.len() implies l[i] == r[i] by {
        assert(m[i].len() == v.len());
        lemma_dot_scale(u, m[i], v, k, v.len());
    }
    assert(l =~= r);
}

/// `l` undoes `inv` on vectors of length `n`.
pub open spec fn undoes<T: Real>(l: Seq<Seq<T>>, inv: Seq<Seq<T>>, n: int) -> bool {
    &&& shaped(l, n, n)
    &&& shaped(inv, n, n)
    &&& forall|v: Seq<T>|
        v.len() == n ==> mat_vec(num::<T>(0), l, #[trigger] mat_vec(num::<T>(0), inv, v)) == v
}

/// `L (a + inv p - k (inv e)) == L a + p - k e`, where `L` undoes `inv`.
proof fn lemma_corrected<T: Real>(
    l: Seq<Seq<T>>,
    inv: Seq<Seq<T>>,
    a: Seq<T>,
    p: Seq<T>,
    e: Seq<T>,
    k: T,
    n: int,
)
    requires
        field(units::<T>()),
        undoes(l, inv, n),
        a.len() == n,
        p.len() == n,
        e.len() == n,
    ensures
        ({
            let z = num::<T>(0);
            mat_vec(
                z,
                l,
                vsub(vadd(a, mat_vec(z, inv, p)), vscale(mat_vec(z, inv, e), k)),
            ) == vsub(vadd(mat_vec(z, l, a), p), vscale(e, k))
        }),
{
    let u = units::<T>();
    let z = num::<T>(0);
    let ip = mat_vec(z, inv, p);
    let ie = mat_vec(z, inv, e);
    lemma_mat_vec_sub(u, l, vadd(a, ip), vscale(ie, k));
    lemma_mat_vec_add(u, l, a, ip);
    lemma_mat_vec_scale(u, l, ie, k);
}

/// The corrector's cone term of a Nesterov-Todd step asks for the complementarity that was
/// aimed at: with `L` the arrow matrix of `W s`, it is `W s` times itself, plus the second
/// order term of the predictor, `(W ds) (-W ds - W s)`, minus the target times the identity.
pub proof fn law_nt_corrector_aims_at_target<T: Real, C: ConeOps<T>>(
    ops: &C,
    prob: &SocpProblem<T>,
    pt: Point<T>,
    b: NtModel<T>,
    aff: Direction<T>,
    target: T,
    l: Seq<Seq<T>>,
)
    requires
        field(units::<T>()),
        prob.sized(prob.c@.len() as int, prob.b@.len() as int, prob.h@.len() as int),
        cones_within(prob.cones@, prob.h@.len() as int),
        cones_disjoint(prob.cones@),
        point_fits(prob, pt),
        undoes(l, b.arrow_inv, prob.h@.len() as int),
        shaped(b.w, prob.h@.len() as int, prob.h@.len() as int),
        b.s_scaled.len() == prob.h@.len(),
        aff.dx.len() == prob.c@.len(),
        aff.ds == slack_step(prob, pt, aff.dx),
    ensures
        ({
            let z = num::<T>(0);
            let nc = prob.cones@.len();
            let wds = mat_vec(z, b.w, aff.ds);
            let e = identity_upto::<T>(prob.h@.len() as int, prob.cones@, nc);
            mat_vec(z, l, nt_corrector_term(ops, prob, pt, b, aff, target)) == vsub(
                vadd(
                    mat_vec(z, l, b.s_scaled),
                    jordan_upto(ops, wds, vsub(vneg(wds), b.s_scaled), prob.cones@, nc),
                ),
                vscale(e, target),
            )
        }),
{
    let u = units::<T>();
    let z = num::<T>(0);
    let n = prob.h@.len() as int;
    let nc = prob.cones@.len();
    let wds = mat_vec(z, b.w, aff.ds);
    let e = identity_upto::<T>(n, prob.cones@, nc);
    let r = moved_residual(prob, pt, aff.dx);
    // r == -ds
    assert forall|i: int| 0 <= i < n implies r[i] == vneg(aff.ds)[i] by {
        let a = cone_residual(prob, pt)[i];
        let g = mat_vec(z, prob.g_mat@, aff.dx)[i];
        lemma_sub_def(u, negated(a), g);
        lemma_neg_add(u, a, g);
        lemma_neg_neg(u, plus(a, g));
    }
    assert(r =~= vneg(aff.ds));
    lemma_mat_vec_neg(u, b.w, aff.ds);
    let second = jordan_upto(ops, wds, vsub(vneg(wds), b.s_scaled), prob.cones@, nc);
    lemma_jordan_len(ops, wds, vsub(vneg(wds), b.s_scaled), prob.cones@, nc);
    if nc > 0 {
        law_identity_by_cones::<T>(n, prob.cones@, nc, 0);
    }
    assert(e.len() == n);
    lemma_corrected(l, b.arrow_inv, b.s_scaled, second, e, target, n);
}

proof fn lemma_jordan_len<T: Real, C: ConeOps<T>>(
    ops: &C,
    a: Seq<T>,
    b: Seq<T>,
    cones: Seq<ConeDesc>,
    c: nat,
)
    ensures
        jordan_upto(ops, a, b, cones, c).len() == a.len(),
    decreases c,
{
    if c > 0 {
        lemma_jordan_len(ops, a, b, cones, (c - 1) as nat);
    }
}

/// The corrector's cone term of a self-dual step asks for the complementarity that was
/// aimed at, as that of a Nesterov-Todd step does.
pub proof fn law_embedded_corrector_aims_at_target<T: Real, C: ConeOps<T>>(
    ops: &C,
    prob: &SocpProblem<T>,
    b: NtModel<T>,
    ds: Seq<T>,
    target: T,
    l: Seq<Seq<T>>,
)
    requires
        field(units::<T>()),
        cones_within(prob.cones@, prob.h@.len() as int),
        cones_disjoint(prob.cones@),
        undoes(l, b.arrow_inv, prob.h@.len() as int),
        shaped(b.w, prob.h@.len() as int, prob.h@.len() as int),
        b.s_scaled.len() == prob.h@.len(),
        ds.len() == prob.h@.len(),
    ensures
        ({
            let z = num::<T>(0);
            let nc = prob.cones@.len();
            let wds = mat_vec(z, b.w, ds);
            let e = identity_upto::<T>(prob.h@.len() as int, prob.cones@, nc);
            mat_vec(z, l, hsd_corrector_term(ops, prob, b, ds, target)) == vsub(
                vadd(
                    mat_vec(z, l, b.s_scaled),
                    jordan_upto(ops, wds, vsub(vneg(b.s_scaled), wds), prob.cones@, nc),
                ),
                vscale(e, target),
            )
        }),
{
    let z = num::<T>(0);
    let n = prob.h@.len() as int;
    let nc = prob.cones@.len();
    let wds = mat_vec(z, b.w, ds);
    let e = identity_upto::<T>(n, prob.cones@, nc);
    let second = jordan_upto(ops, wds, vsub(vneg(b.s_scaled), wds), prob.cones@, nc);
    lemma_jordan_len(ops, wds, vsub(vneg(b.s_scaled), wds), prob.cones@, nc);
    if nc > 0 {
        law_identity_by_cones::<T>(n, prob.cones@, nc, 0);
    }
    lemma_corrected(l, b.arrow_inv, b.s_scaled, second, e, target, n);
}

// ---- centering ----

proof fn lemma_in_unit_range<T: Real>(v: T)
    requires
        ordered_field::<T>(),
        at_most(num::<T>(0), v),
        at_most(v, num::<T>(1)),
    ensures
        centered(v) == v,
{
    let z = num::<T>(0);
    let one = num::<T>(1);
    lemma_order(z, v, one);
    lemma_order(v, z, z);
    lemma_order(v, one, one);
    lemma_order(one, v, v);
    lemma_sub_facts(units::<T>(), v, z);
    lemma_order(z, z, z);
}

/// `r = a / m` lies between zero and one where `a` lies between zero and `m`, and
/// `r r r (m m m) == a a a`.
proof fn lemma_cubed_ratio<T: Real>(a: T, m: T)
    requires
        ordered_field::<T>(),
        less(num::<T>(0), m),
        at_most(num::<T>(0), a),
        at_most(a, m),
    ensures
        ({
            let r = over(a, m);
            let c = times(times(r, r), r);
            &&& at_most(num::<T>(0), c)
            &&& at_most(c, num::<T>(1))
            &&& times(c, times(times(m, m), m)) == times(times(a, a), a)
        }),
{
    let u = units::<T>();
    let z = num::<T>(0);
    let one = num::<T>(1);
    let r = over(a, m);
    lemma_order(z, m, m);
    lemma_order(m, z, z);
    lemma_div_cancel(u, a, m);
    lemma_mul_comm(u, r, m);
    lemma_mul_zero(u, m);
    lemma_mul_one(u, m);
    lemma_order(z, r, r);
    lemma_order(r, z, z);
    lemma_order(r, one, one);
    lemma_order(one, r, r);
    lemma_product_less(m, r, z);
    lemma_product_less(m, one, r);
    lemma_order(a, z, z);
    lemma_order(z, a, a);
    lemma_order(m, a, a);
    lemma_order(a, m, m);
    assert(at_most(z, r) && at_most(r, one));
    lemma_order(z, one, one);
    // powers of what lies between zero and one
    let q = times(r, r);
    let c = times(q, r);
    lemma_order(z, z, z);
    if less(z, r) {
        lemma_product_less(r, r, one);
        lemma_mul_one(u, r);
        lemma_product_less(r, z, r);
        lemma_mul_zero(u, r);
        lemma_order(z, q, r);
        lemma_order(q, r, one);
        lemma_product_less(q, r, one);
        lemma_mul_one(u, q);
        lemma_product_less(q, z, r);
        lemma_mul_zero(u, q);
        lemma_order(z, c, c);
        lemma_order(c, q, one);
    } else {
        lemma_mul_zero(u, z);
        lemma_order(z, c, c);
    }
    // (r r r)(m m m) == (r m)(r m)(r m)
    let mm = times(m, m);
    lemma_mul_assoc(u, q, r, times(mm, m));
    lemma_mul_comm(u, mm, m);
    lemma_mul_assoc(u, r, m, mm);
    assert(times(r, times(mm, m)) == times(a, mm));
    lemma_mul_comm(u, a, mm);
    lemma_mul_assoc(u, q, mm, a);
    lemma_mul_assoc(u, r, r, mm);
    lemma_mul_assoc(u, r, m, m);
    lemma_mul_comm(u, a, m);
    lemma_mul_assoc(u, r, m, a);
    assert(times(r, times(r, mm)) == times(a, a)) by {
        assert(times(r, mm) == times(a, m));
        lemma_mul_comm(u, a, m);
        lemma_mul_assoc(u, r, m, a);
    }
}

/// The weight of the centering in a symmetric or self-dual step is the third power of what
/// the predictor leaves of the complementarity.
pub proof fn law_centering_is_cubic<T: Real>(drv: Driver<T>, mu: T, mu_aff: T)
    requires
        ordered_field::<T>(),
        less(num::<T>(0), mu),
        greater(mu, drv.limits.tiny),
        at_most(num::<T>(0), mu_aff),
        at_most(mu_aff, mu),
    ensures
        times(aho_sigma(drv, mu, mu_aff), times(times(mu, mu), mu)) == times(
            times(mu_aff, mu_aff),
            mu_aff,
        ),
        hsd_sigma(drv.limits, mu, mu_aff) == aho_sigma(drv, mu, mu_aff),
{
    let r = over(mu_aff, mu);
    lemma_cubed_ratio(mu_aff, mu);
    lemma_in_unit_range(times(times(r, r), r));
}

/// Without complementarity to speak of, a symmetric or Nesterov-Todd step only centers, and
/// a self-dual one does not.
pub proof fn law_centering_at_the_end<T: Real, C: Numerics<T>>(
    drv: Driver<T>,
    ops: &C,
    mu: T,
    mu_aff: T,
    a_s: T,
    a_y: T,
)
    requires
        ordered_field::<T>(),
        !greater(mu, drv.limits.tiny),
    ensures
        aho_sigma(drv, mu, mu_aff) == num::<T>(1),
        nt_sigma(drv, ops, mu, mu_aff, a_s, a_y) == num::<T>(1),
        hsd_sigma(drv.limits, mu, mu_aff) == num::<T>(0),
{
    lemma_order(num::<T>(0), num::<T>(1), num::<T>(1));
    lemma_order(num::<T>(1), num::<T>(1), num::<T>(1));
    lemma_in_unit_range(num::<T>(1));
}

/// The weight of the centering in a Nesterov-Todd step is a power of what the predictor
/// leaves of the complementarity: three times the square of the shorter predictor step, but
/// at least one, and one where the complementarity is no more than a millionth.
pub proof fn law_nt_centering_power<T: Real, C: Numerics<T>>(
    drv: Driver<T>,
    ops: &C,
    mu: T,
    mu_aff: T,
    a_s: T,
    a_y: T,
    e: T,
)
    requires
        ordered_field::<T>(),
        greater(mu, drv.limits.tiny),
        ({
            let short = if less(a_s, a_y) {
                a_s
            } else {
                a_y
            };
            let three = times(times(num::<T>(3), short), short);
            e == if greater(mu, ratio::<T>(1, 1_000_000)) && less(num::<T>(1), three) {
                three
            } else {
                num::<T>(1)
            }
        }),
        at_most(num::<T>(0), pow_of(ops, over(mu_aff, mu), e)),
        at_most(pow_of(ops, over(mu_aff, mu), e), num::<T>(1)),
    ensures
        nt_sigma(drv, ops, mu, mu_aff, a_s, a_y) == pow_of(ops, over(mu_aff, mu), e),
{
    let one = num::<T>(1);
    let short = smaller(a_s, a_y);
    let three = times(times(num::<T>(3), short), short);
    lemma_order(a_s, a_y, a_y);
    lemma_order(a_y, a_y, a_y);
    lemma_order(one, three, three);
    lemma_order(three, one, one);
    lemma_order(three, three, three);
    lemma_in_unit_range(pow_of(ops, over(mu_aff, mu), e));
}

/// What the predictor leaves of the complementarity is that of the point it leads to.
pub proof fn law_predictor_is_measured<T: Real>(
    pt: Point<T>,
    d: Direction<T>,
    a_s: T,
    a_y: T,
)
    ensures
        affine_mu(pt, d, a_s, a_y) == complementarity(moved(pt, d, a_s, a_y)),
{
}

// ---- rays ----

/// A ray's step ends at zero, where it goes there.
pub proof fn law_ray_step_reaches_zero<T: Real>(v: T, dv: T)
    requires
        ordered_field::<T>(),
        less(dv, num::<T>(0)),
    ensures
        plus(v, times(ray_step(v, dv), dv)) == num::<T>(0),
{
    let u = units::<T>();
    lemma_order(dv, num::<T>(0), num::<T>(0));
    lemma_div_cancel(u, negated(v), dv);
    lemma_add_neg(u, v);
}

proof fn lemma_smaller<T: Real>(a: T, b: T)
    requires
        ordered_field::<T>(),
    ensures
        at_most(smaller(a, b), a),
        at_most(smaller(a, b), b),
{
    lemma_order(a, b, b);
    lemma_order(b, a, a);
    lemma_order(a, a, a);
    lemma_order(b, b, b);
}

/// A self-dual step goes no farther than the cones of slacks and multipliers and the two
/// rays allow, each.
pub proof fn law_embedded_step_stops_short<T: Real, C: ConeOps<T>>(
    ops: &C,
    prob: &SocpProblem<T>,
    e: Embedded<T>,
    d: HsdDirection<T>,
)
    requires
        ordered_field::<T>(),
    ensures
        at_most(num::<T>(0), hsd_alpha(ops, prob, e, d)),
        at_most(hsd_alpha(ops, prob, e, d), num::<T>(1)),
        ({
            let nc = prob.cones@.len();
            let a = hsd_alpha(ops, prob, e, d);
            let k = ratio::<T>(99, 100);
            at_most(num::<T>(0), to_boundary(ops, prob, e, d)) ==> {
                &&& at_most(a, times(k, step_upto(ops, e.pt.s, d.ds, prob.cones@, nc)))
                &&& at_most(a, times(k, step_upto(ops, e.pt.y, d.dy, prob.cones@, nc)))
                &&& at_most(a, times(k, ray_step(e.tau, d.dtau)))
                &&& at_most(a, times(k, ray_step(e.kappa, d.dkappa)))
            }
        }),
{
    let u = units::<T>();
    let z = num::<T>(0);
    let one = num::<T>(1);
    let nc = prob.cones@.len();
    let k = ratio::<T>(99, 100);
    let s1 = step_upto(ops, e.pt.s, d.ds, prob.cones@, nc);
    let s2 = step_upto(ops, e.pt.y, d.dy, prob.cones@, nc);
    let s3 = ray_step(e.tau, d.dtau);
    let s4 = ray_step(e.kappa, d.dkappa);
    let m12 = smaller(s1, s2);
    let m3 = smaller(m12, s3);
    let all = to_boundary(ops, prob, e, d);
    lemma_smaller(s1, s2);
    lemma_smaller(m12, s3);
    lemma_smaller(m3, s4);
    lemma_order(all, m3, m12);
    lemma_order(all, m3, s3);
    lemma_order(all, m12, s1);
    lemma_order(all, m12, s2);
    lemma_order(z, one, one);
    assert(less(ratio::<T>(0, 1), k)) by {
        reveal(ordered_field);
    }
    lemma_div_cancel(u, z, one);
    lemma_mul_one(u, ratio::<T>(0, 1));
    lemma_product_less(k, all, s1);
    lemma_product_less(k, all, s2);
    lemma_product_less(k, all, s3);
    lemma_product_less(k, all, s4);
    lemma_product_less(k, z, all);
    lemma_mul_zero(u, k);
    let v = times(k, all);
    let a = hsd_alpha(ops, prob, e, d);
    lemma_order(v, v, v);
    lemma_order(v, one, one);
    lemma_order(one, v, v);
    lemma_order(v, z, z);
    lemma_order(z, v, v);
    lemma_order(z, z, z);
    lemma_order(one, one, one);
    lemma_order(z, v, one);
    if at_most(z, all) {
        assert(at_most(a, v));
        lemma_order(a, v, times(k, s1));
        lemma_order(a, v, times(k, s2));
        lemma_order(a, v, times(k, s3));
        lemma_order(a, v, times(k, s4));
    }
}

/// The complementarity of an embedded point is the mean over its cones and its ray.
pub proof fn law_embedded_complementarity<T: Real>(prob: &SocpProblem<T>, e: Embedded<T>)
    requires
        field(units::<T>()),
        num::<T>((prob.cones@.len() + 1) as u32) != num::<T>(0),
    ensures
        times(hsd_mu(prob, e), num::<T>((prob.cones@.len() + 1) as u32)) == plus(
            dot(num::<T>(0), e.pt.s, e.pt.y),
            times(e.tau, e.kappa),
        ),
{
    lemma_div_cancel(
        units::<T>(),
        plus(dot(num::<T>(0), e.pt.s, e.pt.y), times(e.tau, e.kappa)),
        num::<T>((prob.cones@.len() + 1) as u32),
    );
}

// ---- starts ----

/// A warm start whose slacks lie safely inside their cones starts with exactly these: the
/// cone rows hold from the start.
pub proof fn law_warm_start_keeps_safe_slacks<T: Real, C: Numerics<T>>(
    ops: &C,
    prob: &SocpProblem<T>,
    pt: Point<T>,
)
    requires
        field(units::<T>()),
        prob.sized(prob.c@.len() as int, prob.b@.len() as int, prob.h@.len() as int),
        point_fits(prob, pt),
        cones_within(prob.cones@, prob.h@.len() as int),
        tiled(prob.cones@, prob.h@.len() as int),
        forall|k: int|
            0 <= k < prob.cones@.len() ==> safely_inside(
                ops,
                part(
                    Seq::new(
                        prob.h@.len(),
                        |r: int| minus(prob.h@[r], dot(num::<T>(0), prob.g_mat@[r], pt.x)),
                    ),
                    #[trigger] prob.cones@[k],
                ),
            ),
    ensures
        ({
            let p = starting_point(ops, prob, true, pt);
            &&& p.x == pt.x
            &&& p.lambda == pt.lambda
            &&& meets_slacks(prob, p.x, p.s)
        }),
{
    let u = units::<T>();
    let z = num::<T>(0);
    let nct = prob.h@.len() as int;
    let cones = prob.cones@;
    let hint = vsub(prob.h@, mat_vec(z, prob.g_mat@, pt.x));
    let same_hint = Seq::new(prob.h@.len(), |r: int| minus(prob.h@[r], dot(z, prob.g_mat@[r], pt.x)));
    assert(hint =~= same_hint);
    law_tiled_cones_are_disjoint(cones, nct);
    let p = starting_point(ops, prob, true, pt);
    let v = warm_upto(ops, hint, cones, cones.len());
    lemma_start_len(ops, hint, cones, cones.len());
    assert forall|r: int| 0 <= r < nct implies plus(
        dot(z, #[trigger] prob.g_mat@[r], p.x),
        p.s[r],
    ) == prob.h@[r] by {
        let k = lemma_row_has_cone(cones, nct, cones.len() as int, r);
        law_start_follows_its_hint(ops, hint, cones, k);
        assert(safely_inside(ops, part(same_hint, cones[k])));
        let i = r - cones[k].offset;
        assert(part(v, cones[k])[i] == part(hint, cones[k])[i]);
        assert(p.s[r] == hint[r]);
        let g = dot(z, prob.g_mat@[r], pt.x);
        lemma_sub_facts(u, prob.h@[r], g);
        lemma_add_comm(u, g, minus(prob.h@[r], g));
    }
}

/// The hint is finite and inside its cone by more than a twentieth of its size.
pub open spec fn safely_inside<T: Real, C: Numerics<T>>(ops: &C, hint: Seq<T>) -> bool {
    let bar = root_of(ops, tail_squares(hint, hint.len()));
    let size = larger(larger(magnitude(num::<T>(0), hint[0]), bar), num::<T>(1));
    all_finite(hint) && finite(num::<T>(0), size) && greater(
        minus(hint[0], bar),
        times(ratio::<T>(5, 100), size),
    )
}

/// Every row belongs to a cone, where cones follow one another.
proof fn lemma_row_has_cone(cones: Seq<ConeDesc>, nct: int, c: int, r: int) -> (k: int)
    requires
        tiled(cones, nct),
        0 <= c <= cones.len(),
        0 <= r < cones_end(cones, c),
    ensures
        0 <= k < c,
        has_row(cones[k], r),
    decreases c,
{
    if c > 0 {
        let last = cones[c - 1];
        assert(last.offset == cones_end(cones, c - 1));
        if r < last.offset {
            lemma_row_has_cone(cones, nct, c - 1, r)
        } else {
            c - 1
        }
    } else {
        0
    }
}

// ---- snapshots ----

/// A snapshot is only ever replaced by a point with less complementarity whose residuals
/// are below the loose tolerances, and by every such point.
pub proof fn law_snapshot_keeps_the_best<T: Real, C: Numerics<T>>(
    ops: &C,
    prob: &SocpProblem<T>,
    params: IpmAlgoParams<T>,
    pt: Point<T>,
    best: Snapshot<T>,
)
    ensures
        ({
            let z = num::<T>(0);
            let mu = complementarity(pt);
            let kept = refreshed(ops, prob, params, pt, Some(best));
            let close = less(
                plus(norm(ops, equality_residual(prob, pt)), norm(ops, cone_residual(prob, pt))),
                loose_bound(ops, params.tol_primal),
            ) && less(
                norm(ops, dual_residual(prob, pt)),
                loose_bound(ops, params.tol_dual),
            ) && finite(z, mu) && at_least(mu, z);
            kept == Some(
                if close && less(mu, best.mu) {
                    Snapshot { pt, mu }
                } else {
                    best
                },
            )
        }),
{
}

/// The result of a solve that settled for its snapshot.
pub open spec fn settled_for<T>(best: Snapshot<T>, iter: u32) -> ResultModel<T> {
    ResultModel { point: best.pt, status: IpmStatus::BestFeasible, iters: iter }
}

/// When a solve settles for its snapshot: a direct driver after its third iteration, or
/// after its first where neither variables nor cone multipliers move by a billionth any
/// more; a self-dual one after its third iteration, where the complementarity has also
/// grown to more than four times the snapshot's. The snapshot's complementarity has to be
/// below the square root of its tolerance, but for that last case.
pub proof fn law_solve_settles_for_its_snapshot<T: Real, C: ConeOps<T>>(
    drv: Driver<T>,
    ops: &C,
    prob: &SocpProblem<T>,
    params: IpmAlgoParams<T>,
    st: Progress<T>,
    est: HsdProgress<T>,
    iter: u32,
    cap: u32,
)
    requires
        iter < cap,
        !optimal(ops, prob, params, st.pt),
        !hsd_optimal(ops, prob, params, est.e),
        positive(est.e.tau),
        positive(est.e.kappa),
    ensures
        match refreshed(ops, prob, params, st.pt, st.best) {
            Some(best) => {
                let tiny = ratio::<T>(1, 1_000_000_000);
                let still = less(norm(ops, vsub(st.pt.x, st.prev_x)), tiny) && less(
                    norm(ops, vsub(st.pt.y, st.prev_y)),
                    tiny,
                );
                (iter > 2 || (iter > 0 && still)) && less(
                    best.mu,
                    loose_bound(ops, params.tol_mu),
                ) ==> run(drv, ops, prob, params, st, iter, cap).result == settled_for(best, iter)
            },
            None => true,
        },
        match hsd_refreshed(ops, prob, params, est.e, est.best) {
            Some(best) => iter > 2 && (less(best.mu, loose_bound(ops, params.tol_mu)) || greater(
                hsd_mu(prob, est.e),
                times(num::<T>(4), best.mu),
            )) ==> hsd_run(drv, ops, prob, params, est, iter, cap).result == settled_for(
                best,
                iter,
            ),
            None => true,
        },
{
}

/// A solve does not settle early: without a snapshot to settle for, or before its time, it
/// goes on from where its step leads.
pub proof fn law_solve_goes_on<T: Real, C: ConeOps<T>>(
    drv: Driver<T>,
    ops: &C,
    prob: &SocpProblem<T>,
    params: IpmAlgoParams<T>,
    st: Progress<T>,
    est: HsdProgress<T>,
    iter: u32,
    cap: u32,
)
    requires
        iter < cap,
        !optimal(ops, prob, params, st.pt),
        !hsd_optimal(ops, prob, params, est.e),
        positive(est.e.tau),
        positive(est.e.kappa),
        step(drv, ops, prob, st.pt).go is On,
        hsd_step(drv, ops, prob, est.e).go is On,
    ensures
        ({
            let best = refreshed(ops, prob, params, st.pt, st.best);
            let tiny = ratio::<T>(1, 1_000_000_000);
            let still = less(norm(ops, vsub(st.pt.x, st.prev_x)), tiny) && less(
                norm(ops, vsub(st.pt.y, st.prev_y)),
                tiny,
            );
            best is None || iter == 0 || (iter <= 2 && !still) || !less(
                best->0.mu,
                loose_bound(ops, params.tol_mu),
            ) ==> run(drv, ops, prob, params, st, iter, cap) == run(
                drv,
                ops,
                prob,
                params,
                (Progress {
                    pt: step(drv, ops, prob, st.pt).pt,
                    prev_x: st.pt.x,
                    prev_y: st.pt.y,
                    best,
                }),
                (iter + 1) as u32,
                cap,
            )
        }),
        ({
            let best = hsd_refreshed(ops, prob, params, est.e, est.best);
            best is None || iter <= 2 || !(less(best->0.mu, loose_bound(ops, params.tol_mu))
                || greater(hsd_mu(prob, est.e), times(num::<T>(4), best->0.mu))) ==> hsd_run(
                drv,
                ops,
                prob,
                params,
                est,
                iter,
                cap,
            ) == hsd_run(
                drv,
                ops,
                prob,
                params,
                (HsdProgress {
                    e: hsd_step(drv, ops, prob, est.e).e,
                    shown: recovered(est.e),
                    best,
                }),
                (iter + 1) as u32,
                cap,
            )
        }),
{
}

/// A self-dual snapshot is only ever replaced by what an embedded point with less
/// complementarity and a nearly feasible primal stands for, and by every such point.
pub proof fn law_embedded_snapshot_keeps_the_best<T: Real, C: Numerics<T>>(
    ops: &C,
    prob: &SocpProblem<T>,
    params: IpmAlgoParams<T>,
    e: Embedded<T>,
    best: Snapshot<T>,
)
    ensures
        ({
            let z = num::<T>(0);
            let mu = hsd_mu(prob, e);
            let inv = over(num::<T>(1), e.tau);
            let close = less(
                times(
                    plus(norm(ops, hsd_equality(prob, e)), norm(ops, hsd_cone(prob, e))),
                    inv,
                ),
                loose_bound(ops, params.tol_primal),
            ) && finite(z, mu) && at_least(mu, z);
            let shown = Point {
                x: vscale(e.pt.x, inv),
                lambda: vscale(e.pt.lambda, inv),
                s: vscale(e.pt.s, inv),
                y: vscale(e.pt.y, inv),
            };
            hsd_refreshed(ops, prob, params, e, Some(best)) == Some(
                if close && less(mu, best.mu) {
                    Snapshot { pt: shown, mu }
                } else {
                    best
                },
            )
        }),
{
}

/// A cold start is at the origin without multipliers of the equalities, and its slacks and
/// cone multipliers are both the starting point of `h`.
pub proof fn law_cold_start<T: Real, C: Numerics<T>>(
    ops: &C,
    prob: &SocpProblem<T>,
    pt: Point<T>,
)
    ensures
        ({
            let p = starting_point(ops, prob, false, pt);
            let h = warm_upto(ops, prob.h@, prob.cones@, prob.cones@.len());
            &&& p.x.len() == prob.c@.len() && forall|j: int|
                0 <= j < p.x.len() ==> #[trigger] p.x[j] == num::<T>(0)
            &&& p.lambda.len() == prob.b@.len() && forall|j: int|
                0 <= j < p.lambda.len() ==> #[trigger] p.lambda[j] == num::<T>(0)
            &&& p.s == h
            &&& p.y == h
        }),
{
}

/// The square root of a tolerance, but at least a hundred-thousandth.
pub open spec fn loose_bound<T: Real, C: Numerics<T>>(ops: &C, tol: T) -> T {
    larger(root_of(ops, larger(tol, num::<T>(0))), ratio::<T>(1, 100_000))
}

} // verus!
