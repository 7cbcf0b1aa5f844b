//! The homogeneous self-dual driver on the structured optimality system.
//!
//! The program is embedded with two more unknowns, `tau` and `kappa`, so that a
//! central starting point always exists. An embedded point stands for the point
//! that is left when everything is divided by `tau`. Each iteration factors the
//! structured system once and applies it three times: to the column of `tau`, to
//! the predictor and to the corrector.
use crate::cones::{
    all_cones_interior, all_finite, build_per_cone_nt_blocks, clip01, clipped, cones_repeatable,
    cones_within, identity_upto, interior, is_all_finite, jordan_per_cone, jordan_upto,
    max_step_all_cones, nt_upto, per_cone_e, step_upto, unbounded, ConeOps, NtBlocks, NtModel,
};
use crate::kkt_backend::{
    kkt_apply, kkt_dl, kkt_dx, kkt_factor, kkt_factor_model, KktFactor, KktModel,
};
use crate::linalg::{
    constant, copy_vec, dot, dot_product, fill_vec, mat_t_times_vec, mat_t_vec, mat_times_vec,
    mat_vec, vadd, vec_add, vec_neg, vec_scale, vec_sub, vneg, vscale, vsub,
};
use crate::numerics::{functions_repeatable, Numerics};
use crate::scalar::{
    abs, at_least, at_most, finite, fraction, greater, is_finite, larger, less, magnitude, max, min,
    minus, negated, num, number, over, plus, real_ops, smaller, times, units, units_of, Limits,
    Real,
};
use crate::structured_socp::{
    amax_of, backoff, best_mu, center, centered, copy_point, fits, give_up, give_up_at, hessian_reg,
    iteration_cap, loose, loosened, norm, norm_of, point_amax, point_fits, result_at, snapshot_view,
    Driver, Go, Outcome, Snapshot, SnapshotVecs,
};
use crate::types::{
    IpmAlgoParams, IpmStatus, Point, ResultModel, SocpProblem, SocpResult, SocpWorkspace,
};
use vstd::prelude::*;

verus! {

/// A point of the embedded program.
#[verifier::ext_equal]
pub struct Embedded<T> {
    pub pt: Point<T>,
    pub tau: T,
    pub kappa: T,
}

/// A point of the embedded program.
pub struct EmbeddedVecs<T> {
    pub ws: SocpWorkspace<T>,
    pub tau: T,
    pub kappa: T,
}

impl<T> View for EmbeddedVecs<T> {
    type V = Embedded<T>;

    open spec fn view(&self) -> Embedded<T> {
        Embedded { pt: self.ws@, tau: self.tau, kappa: self.kappa }
    }
}

/// The central starting point.
pub open spec fn central<T: Real>(prob: &SocpProblem<T>) -> Embedded<T> {
    let z = num::<T>(0);
    let e = identity_upto::<T>(prob.h@.len() as int, prob.cones@, prob.cones@.len());
    Embedded {
        pt: Point {
            x: constant(z, prob.c@.len() as int),
            lambda: constant(z, prob.b@.len() as int),
            s: e,
            y: e,
        },
        tau: num::<T>(1),
        kappa: num::<T>(1),
    }
}

fn central_start<T: Real>(prob: &SocpProblem<T>) -> (e: EmbeddedVecs<T>)
    requires
        real_ops::<T>(),
        cones_within(prob.cones@, prob.h@.len() as int),
    ensures
        e@ == central(prob),
        point_fits(prob, e@.pt),
{
    let z: T = number(0);
    let s: Vec<T> = per_cone_e(prob.h.len(), &prob.cones);
    let y: Vec<T> = copy_vec(&s);
    EmbeddedVecs {
        ws: SocpWorkspace { x: fill_vec(z, prob.c.len()), lambda: fill_vec(z, prob.b.len()), s, y },
        tau: number(1),
        kappa: number(1),
    }
}

/// The point that an embedded point stands for.
pub open spec fn recovered<T: Real>(e: Embedded<T>) -> Point<T> {
    let inv = over(num::<T>(1), e.tau);
    Point {
        x: vscale(e.pt.x, inv),
        lambda: vscale(e.pt.lambda, inv),
        s: vscale(e.pt.s, inv),
        y: vscale(e.pt.y, inv),
    }
}

fn recover<T: Real>(e: &EmbeddedVecs<T>) -> (ws: SocpWorkspace<T>)
    requires
        real_ops::<T>(),
    ensures
        ws@ == recovered(e@),
{
    let one: T = number(1);
    let inv: T = one / e.tau;
    SocpWorkspace {
        x: vec_scale(&e.ws.x, inv),
        lambda: vec_scale(&e.ws.lambda, inv),
        s: vec_scale(&e.ws.s, inv),
        y: vec_scale(&e.ws.y, inv),
    }
}

// ---- residuals ----

/// `c tau + A' lambda + G' y`.
pub open spec fn hsd_dual<T: Real>(prob: &SocpProblem<T>, e: Embedded<T>) -> Seq<T> {
    let z = num::<T>(0);
    let np = prob.c@.len() as int;
    vadd(
        vadd(vscale(prob.c@, e.tau), mat_t_vec(z, prob.a_mat@, np, e.pt.lambda)),
        mat_t_vec(z, prob.g_mat@, np, e.pt.y),
    )
}

/// `A x - b tau`.
pub open spec fn hsd_equality<T: Real>(prob: &SocpProblem<T>, e: Embedded<T>) -> Seq<T> {
    vsub(mat_vec(num::<T>(0), prob.a_mat@, e.pt.x), vscale(prob.b@, e.tau))
}

/// `G x + s - h tau`.
pub open spec fn hsd_cone<T: Real>(prob: &SocpProblem<T>, e: Embedded<T>) -> Seq<T> {
    vsub(vadd(mat_vec(num::<T>(0), prob.g_mat@, e.pt.x), e.pt.s), vscale(prob.h@, e.tau))
}

/// `kappa + c x + b lambda + h y`.
pub open spec fn hsd_gap<T: Real>(prob: &SocpProblem<T>, e: Embedded<T>) -> T {
    let z = num::<T>(0);
    plus(
        plus(plus(e.kappa, dot(z, prob.c@, e.pt.x)), dot(z, prob.b@, e.pt.lambda)),
        dot(z, prob.h@, e.pt.y),
    )
}

/// Number of cones, with the ray of `tau` and `kappa`.
pub open spec fn degree<T: Real>(prob: &SocpProblem<T>) -> T {
    num::<T>((prob.cones@.len() + 1) as u32)
}

/// Mean complementarity of the embedded point.
pub open spec fn hsd_mu<T: Real>(prob: &SocpProblem<T>, e: Embedded<T>) -> T {
    over(
        plus(dot(num::<T>(0), e.pt.s, e.pt.y), times(e.tau, e.kappa)),
        degree(prob),
    )
}

/// The recovered point's primal residual.
pub open spec fn hsd_primal_norm<T: Real, C: Numerics<T>>(
    ops: &C,
    prob: &SocpProblem<T>,
    e: Embedded<T>,
) -> T {
    times(
        plus(norm(ops, hsd_equality(prob, e)), norm(ops, hsd_cone(prob, e))),
        over(num::<T>(1), e.tau),
    )
}

/// The recovered point's dual residual.
pub open spec fn hsd_dual_norm<T: Real, C: Numerics<T>>(
    ops: &C,
    prob: &SocpProblem<T>,
    e: Embedded<T>,
) -> T {
    times(norm(ops, hsd_dual(prob, e)), over(num::<T>(1), e.tau))
}

struct HsdResiduals<T> {
    r_x: Vec<T>,
    r_a: Vec<T>,
    r_g: Vec<T>,
    r_t: T,
    mu: T,
}

impl<T: Real> HsdResiduals<T> {
    spec fn of(&self, prob: &SocpProblem<T>, e: Embedded<T>) -> bool {
        &&& self.r_x@ == hsd_dual(prob, e)
        &&& self.r_a@ == hsd_equality(prob, e)
        &&& self.r_g@ == hsd_cone(prob, e)
        &&& self.r_t == hsd_gap(prob, e)
        &&& self.mu == hsd_mu(prob, e)
        &&& self.r_x@.len() == prob.c@.len()
        &&& self.r_a@.len() == prob.b@.len()
        &&& self.r_g@.len() == prob.h@.len()
    }
}

/// The problem has the sizes of the driver's layout, and few enough cones to count.
pub open spec fn hsd_fits<T>(drv: Driver<T>, prob: &SocpProblem<T>) -> bool {
    fits(drv, prob) && prob.cones@.len() < u32::MAX
}

fn hsd_residuals_of<T: Real>(
    drv: Driver<T>,
    prob: &SocpProblem<T>,
    e: &EmbeddedVecs<T>,
) -> (r: HsdResiduals<T>)
    requires
        real_ops::<T>(),
        hsd_fits(drv, prob),
        point_fits(prob, e@.pt),
    ensures
        r.of(prob, e@),
{
    let z: T = number(0);
    let np: usize = prob.c.len();
    let ct: Vec<T> = vec_scale(&prob.c, e.tau);
    let atl: Vec<T> = mat_t_times_vec(z, &prob.a_mat, np, &e.ws.lambda);
    let gty: Vec<T> = mat_t_times_vec(z, &prob.g_mat, np, &e.ws.y);
    let cl: Vec<T> = vec_add(&ct, &atl);
    let r_x: Vec<T> = vec_add(&cl, &gty);
    let ax: Vec<T> = mat_times_vec(z, &prob.a_mat, &e.ws.x);
    let bt: Vec<T> = vec_scale(&prob.b, e.tau);
    let r_a: Vec<T> = vec_sub(&ax, &bt);
    let gx: Vec<T> = mat_times_vec(z, &prob.g_mat, &e.ws.x);
    let gxs: Vec<T> = vec_add(&gx, &e.ws.s);
    let ht: Vec<T> = vec_scale(&prob.h, e.tau);
    let r_g: Vec<T> = vec_sub(&gxs, &ht);
    let cx: T = dot_product(z, &prob.c, &e.ws.x);
    let bl: T = dot_product(z, &prob.b, &e.ws.lambda);
    let hy: T = dot_product(z, &prob.h, &e.ws.y);
    let r_t: T = e.kappa + cx + bl + hy;
    let deg: T = number((prob.cones.len() + 1) as u32);
    let mu: T = (dot_product(z, &e.ws.s, &e.ws.y) + e.tau * e.kappa) / deg;
    HsdResiduals { r_x, r_a, r_g, r_t, mu }
}

// ---- directions ----

/// What an iteration's three solves share: the solution for the column of `tau`,
/// and the coefficients of the gap equation.
#[verifier::ext_equal]
pub struct Coupling<T> {
    pub dx_t: Seq<T>,
    pub dl_t: Seq<T>,
    pub d: Seq<T>,
    pub coef: T,
}

struct CouplingVecs<T> {
    dx_t: Vec<T>,
    dl_t: Vec<T>,
    d: Vec<T>,
    coef: T,
}

impl<T> CouplingVecs<T> {
    spec fn model(&self) -> Coupling<T> {
        Coupling { dx_t: self.dx_t@, dl_t: self.dl_t@, d: self.d@, coef: self.coef }
    }

    spec fn fits(&self, prob: &SocpProblem<T>) -> bool {
        &&& self.dx_t@.len() == prob.c@.len()
        &&& self.dl_t@.len() == prob.b@.len()
        &&& self.d@.len() == prob.c@.len()
    }
}

/// The coupling of the embedded unknowns with `tau`: `dx_t` and `dl_t` solve the
/// system for `[G' W W h - c; b]`, and
/// `coef = (c + G' W W h) dx_t + b dl_t - h W W h - kappa / tau`.
pub open spec fn coupling<T: Real>(
    n: int,
    prob: &SocpProblem<T>,
    e: Embedded<T>,
    f: KktModel<T>,
    b: NtModel<T>,
) -> Coupling<T> {
    let z = num::<T>(0);
    let w2h = mat_vec(z, b.w2, prob.h@);
    let gw2h = mat_t_vec(z, prob.g_mat@, prob.c@.len() as int, w2h);
    let b_x = vsub(gw2h, prob.c@);
    let dx_t = kkt_dx(z, prob.a_mat@, n, f, b_x, prob.b@);
    let dl_t = kkt_dl(z, prob.a_mat@, n, f, b_x, prob.b@);
    let d = vadd(prob.c@, gw2h);
    Coupling {
        dx_t,
        dl_t,
        d,
        coef: minus(
            minus(plus(dot(z, d, dx_t), dot(z, prob.b@, dl_t)), dot(z, prob.h@, w2h)),
            over(e.kappa, e.tau),
        ),
    }
}

fn coupling_of<T: Real>(
    drv: Driver<T>,
    prob: &SocpProblem<T>,
    e: &EmbeddedVecs<T>,
    f: &KktFactor<T>,
    b: &NtBlocks<T>,
) -> (c: CouplingVecs<T>)
    requires
        real_ops::<T>(),
        hsd_fits(drv, prob),
        1 <= drv.n < crate::reduced_kkt::RB_MAX,
        f.belongs_to(num::<T>(0), prob.a_mat@, drv.n as int, drv.free_tf),
        b.sized(prob.h@.len() as int),
    ensures
        c.model() == coupling(drv.n as int, prob, e@, f@, b@),
        c.fits(prob),
{
    let z: T = number(0);
    let w2h: Vec<T> = mat_times_vec(z, &b.w2, &prob.h);
    let gw2h: Vec<T> = mat_t_times_vec(z, &prob.g_mat, prob.c.len(), &w2h);
    let b_x: Vec<T> = vec_sub(&gw2h, &prob.c);
    let (dx_t, dl_t): (Vec<T>, Vec<T>) = kkt_apply(
        units_of(),
        prob,
        drv.n,
        drv.free_tf,
        f,
        &b_x,
        &prob.b,
    );
    let d: Vec<T> = vec_add(&prob.c, &gw2h);
    let dd: T = dot_product(z, &d, &dx_t);
    let bd: T = dot_product(z, &prob.b, &dl_t);
    let hw: T = dot_product(z, &prob.h, &w2h);
    let coef: T = dd + bd - hw - e.kappa / e.tau;
    CouplingVecs { dx_t, dl_t, d, coef }
}

/// A step in all embedded unknowns.
#[verifier::ext_equal]
pub struct HsdDirection<T> {
    pub dx: Seq<T>,
    pub dl: Seq<T>,
    pub ds: Seq<T>,
    pub dy: Seq<T>,
    pub dtau: T,
    pub dkappa: T,
}

struct HsdStepVecs<T> {
    dx: Vec<T>,
    dl: Vec<T>,
    ds: Vec<T>,
    dy: Vec<T>,
    dtau: T,
    dkappa: T,
}

impl<T> HsdStepVecs<T> {
    spec fn model(&self) -> HsdDirection<T> {
        HsdDirection {
            dx: self.dx@,
            dl: self.dl@,
            ds: self.ds@,
            dy: self.dy@,
            dtau: self.dtau,
            dkappa: self.dkappa,
        }
    }

    spec fn fits(&self, prob: &SocpProblem<T>) -> bool {
        &&& self.dx@.len() == prob.c@.len()
        &&& self.dl@.len() == prob.b@.len()
        &&& self.ds@.len() == prob.h@.len()
        &&& self.dy@.len() == prob.h@.len()
    }
}

/// The right-hand side `-r_x + G' (W r_c) - G' (W W r_g)`.
pub open spec fn hsd_rhs<T: Real>(
    prob: &SocpProblem<T>,
    e: Embedded<T>,
    b: NtModel<T>,
    r_c: Seq<T>,
) -> Seq<T> {
    let z = num::<T>(0);
    let np = prob.c@.len() as int;
    vsub(
        vadd(vneg(hsd_dual(prob, e)), mat_t_vec(z, prob.g_mat@, np, mat_vec(z, b.w, r_c))),
        mat_t_vec(z, prob.g_mat@, np, mat_vec(z, b.w2, hsd_cone(prob, e))),
    )
}

/// The step in `tau` for the residual solve `(dx_r, dl_r)`: the one that closes the
/// gap equation.
pub open spec fn hsd_dtau<T: Real>(
    prob: &SocpProblem<T>,
    e: Embedded<T>,
    b: NtModel<T>,
    k: Coupling<T>,
    dx_r: Seq<T>,
    dl_r: Seq<T>,
    r_c: Seq<T>,
    r6: T,
) -> T {
    let z = num::<T>(0);
    let rest = plus(
        plus(
            minus(
                plus(dot(z, k.d, dx_r), dot(z, prob.b@, dl_r)),
                dot(z, prob.h@, mat_vec(z, b.w, r_c)),
            ),
            dot(z, prob.h@, mat_vec(z, b.w2, hsd_cone(prob, e))),
        ),
        over(r6, e.tau),
    );
    over(minus(negated(hsd_gap(prob, e)), rest), k.coef)
}

/// The direction for the cone term `r_c` and the ray term `r6`.
pub open spec fn hsd_direction<T: Real>(
    n: int,
    prob: &SocpProblem<T>,
    e: Embedded<T>,
    f: KktModel<T>,
    b: NtModel<T>,
    k: Coupling<T>,
    r_c: Seq<T>,
    r6: T,
) -> HsdDirection<T> {
    let z = num::<T>(0);
    let b_x = hsd_rhs(prob, e, b, r_c);
    let b_a = vneg(hsd_equality(prob, e));
    let dx_r = kkt_dx(z, prob.a_mat@, n, f, b_x, b_a);
    let dl_r = kkt_dl(z, prob.a_mat@, n, f, b_x, b_a);
    let dtau = hsd_dtau(prob, e, b, k, dx_r, dl_r, r_c, r6);
    let dx = vadd(dx_r, vscale(k.dx_t, dtau));
    let ds = vadd(
        vsub(vneg(hsd_cone(prob, e)), mat_vec(z, prob.g_mat@, dx)),
        vscale(prob.h@, dtau),
    );
    HsdDirection {
        dx,
        dl: vadd(dl_r, vscale(k.dl_t, dtau)),
        ds,
        dy: vsub(vneg(mat_vec(z, b.w, r_c)), mat_vec(z, b.w2, ds)),
        dtau,
        dkappa: over(minus(r6, times(e.kappa, dtau)), e.tau),
    }
}

fn hsd_direction_of<T: Real>(
    drv: Driver<T>,
    prob: &SocpProblem<T>,
    e: &EmbeddedVecs<T>,
    res: &HsdResiduals<T>,
    f: &KktFactor<T>,
    b: &NtBlocks<T>,
    k: &CouplingVecs<T>,
    r_c: &Vec<T>,
    r6: T,
) -> (d: HsdStepVecs<T>)
    requires
        real_ops::<T>(),
        hsd_fits(drv, prob),
        res.of(prob, e@),
        1 <= drv.n < crate::reduced_kkt::RB_MAX,
        f.belongs_to(num::<T>(0), prob.a_mat@, drv.n as int, drv.free_tf),
        b.sized(prob.h@.len() as int),
        k.fits(prob),
        r_c@.len() == prob.h@.len(),
    ensures
        d.model() == hsd_direction(drv.n as int, prob, e@, f@, b@, k.model(), r_c@, r6),
        d.fits(prob),
{
    let z: T = number(0);
    let np: usize = prob.c.len();
    let wr: Vec<T> = mat_times_vec(z, &b.w, r_c);
    let gwr: Vec<T> = mat_t_times_vec(z, &prob.g_mat, np, &wr);
    let w2g: Vec<T> = mat_times_vec(z, &b.w2, &res.r_g);
    let gw2g: Vec<T> = mat_t_times_vec(z, &prob.g_mat, np, &w2g);
    let nrx: Vec<T> = vec_neg(&res.r_x);
    let t: Vec<T> = vec_add(&nrx, &gwr);
    let b_x: Vec<T> = vec_sub(&t, &gw2g);
    let b_a: Vec<T> = vec_neg(&res.r_a);
    let (dx_r, dl_r): (Vec<T>, Vec<T>) = kkt_apply(
        units_of(),
        prob,
        drv.n,
        drv.free_tf,
        f,
        &b_x,
        &b_a,
    );
    let dd: T = dot_product(z, &k.d, &dx_r);
    let bd: T = dot_product(z, &prob.b, &dl_r);
    let hw: T = dot_product(z, &prob.h, &wr);
    let hg: T = dot_product(z, &prob.h, &w2g);
    let rest: T = dd + bd - hw + hg + r6 / e.tau;
    let dtau: T = (res.r_t.neg() - rest) / k.coef;
    let dxt: Vec<T> = vec_scale(&k.dx_t, dtau);
    let dx: Vec<T> = vec_add(&dx_r, &dxt);
    let dlt: Vec<T> = vec_scale(&k.dl_t, dtau);
    let dl: Vec<T> = vec_add(&dl_r, &dlt);
    let gdx: Vec<T> = mat_times_vec(z, &prob.g_mat, &dx);
    let nrg: Vec<T> = vec_neg(&res.r_g);
    let s0: Vec<T> = vec_sub(&nrg, &gdx);
    let ht: Vec<T> = vec_scale(&prob.h, dtau);
    let ds: Vec<T> = vec_add(&s0, &ht);
    let nwr: Vec<T> = vec_neg(&wr);
    let w2s: Vec<T> = mat_times_vec(z, &b.w2, &ds);
    let dy: Vec<T> = vec_sub(&nwr, &w2s);
    let dkappa: T = (r6 - e.kappa * dtau) / e.tau;
    HsdStepVecs { dx, dl, ds, dy, dtau, dkappa }
}

// ---- one iteration ----

/// The step along which a positive scalar stays positive.
pub open spec fn ray_step<T: Real>(v: T, dv: T) -> T {
    if less(dv, num::<T>(0)) {
        over(negated(v), dv)
    } else {
        unbounded::<T>()
    }
}

fn ray_step_of<T: Real>(v: T, dv: T) -> (r: T)
    requires
        real_ops::<T>(),
    ensures
        r == ray_step(v, dv),
{
    let zero: T = number(0);
    if dv < zero {
        v.neg() / dv
    } else {
        fraction(1, 0)
    }
}

/// The largest step along a direction that stays in all cones.
pub open spec fn to_boundary<T: Real, C: ConeOps<T>>(
    ops: &C,
    prob: &SocpProblem<T>,
    e: Embedded<T>,
    d: HsdDirection<T>,
) -> T {
    let nc = prob.cones@.len();
    smaller(
        smaller(
            smaller(
                step_upto(ops, e.pt.s, d.ds, prob.cones@, nc),
                step_upto(ops, e.pt.y, d.dy, prob.cones@, nc),
            ),
            ray_step(e.tau, d.dtau),
        ),
        ray_step(e.kappa, d.dkappa),
    )
}

/// The step length taken.
pub open spec fn hsd_alpha<T: Real, C: ConeOps<T>>(
    ops: &C,
    prob: &SocpProblem<T>,
    e: Embedded<T>,
    d: HsdDirection<T>,
) -> T {
    clipped(times(backoff::<T>(), to_boundary(ops, prob, e, d)))
}

fn hsd_alpha_of<T: Real, C: ConeOps<T>>(
    ops: &C,
    prob: &SocpProblem<T>,
    e: &EmbeddedVecs<T>,
    d: &HsdStepVecs<T>,
) -> (r: T)
    requires
        real_ops::<T>(),
        cones_repeatable(ops),
        cones_within(prob.cones@, prob.h@.len() as int),
        point_fits(prob, e@.pt),
        d.fits(prob),
    ensures
        r == hsd_alpha(ops, prob, e@, d.model()),
{
    let a_s: T = max_step_all_cones(ops, &e.ws.s, &d.ds, &prob.cones);
    let a_y: T = max_step_all_cones(ops, &e.ws.y, &d.dy, &prob.cones);
    let a_t: T = ray_step_of(e.tau, d.dtau);
    let a_k: T = ray_step_of(e.kappa, d.dkappa);
    let raw: T = min(min(min(a_s, a_y), a_t), a_k);
    let b: T = fraction(99, 100);
    clip01(b * raw)
}

/// Complementarity after the affine step.
pub open spec fn hsd_affine_mu<T: Real>(
    prob: &SocpProblem<T>,
    e: Embedded<T>,
    d: HsdDirection<T>,
    alpha: T,
) -> T {
    over(
        plus(
            dot(
                num::<T>(0),
                vadd(e.pt.s, vscale(d.ds, alpha)),
                vadd(e.pt.y, vscale(d.dy, alpha)),
            ),
            times(plus(e.tau, times(d.dtau, alpha)), plus(e.kappa, times(d.dkappa, alpha))),
        ),
        degree(prob),
    )
}

/// Centering: the cube of the affine reduction, none at vanishing complementarity.
pub open spec fn hsd_sigma<T: Real>(limits: Limits<T>, mu: T, mu_aff: T) -> T {
    let r = over(mu_aff, mu);
    if greater(mu, limits.tiny) {
        centered(times(times(r, r), r))
    } else {
        num::<T>(0)
    }
}

fn hsd_sigma_of<T: Real>(
    limits: Limits<T>,
    prob: &SocpProblem<T>,
    e: &EmbeddedVecs<T>,
    d: &HsdStepVecs<T>,
    mu: T,
    alpha: T,
) -> (r: T)
    requires
        real_ops::<T>(),
        point_fits(prob, e@.pt),
        d.fits(prob),
        prob.cones@.len() < u32::MAX,
    ensures
        r == hsd_sigma(limits, mu, hsd_affine_mu(prob, e@, d.model(), alpha)),
{
    let z: T = number(0);
    let ts: Vec<T> = vec_scale(&d.ds, alpha);
    let s: Vec<T> = vec_add(&e.ws.s, &ts);
    let ty: Vec<T> = vec_scale(&d.dy, alpha);
    let y: Vec<T> = vec_add(&e.ws.y, &ty);
    let tau: T = e.tau + d.dtau * alpha;
    let kappa: T = e.kappa + d.dkappa * alpha;
    let deg: T = number((prob.cones.len() + 1) as u32);
    let mu_aff: T = (dot_product(z, &s, &y) + tau * kappa) / deg;
    if mu > limits.tiny {
        let r: T = mu_aff / mu;
        center(r * r * r)
    } else {
        z
    }
}

/// The scaled cone term of the corrector.
pub open spec fn hsd_corrector_term<T: Real, C: ConeOps<T>>(
    ops: &C,
    prob: &SocpProblem<T>,
    b: NtModel<T>,
    ds: Seq<T>,
    sigma_mu: T,
) -> Seq<T> {
    let z = num::<T>(0);
    let nc = prob.cones@.len();
    let wds = mat_vec(z, b.w, ds);
    let second = jordan_upto(ops, wds, vsub(vneg(b.s_scaled), wds), prob.cones@, nc);
    vsub(
        vadd(b.s_scaled, mat_vec(z, b.arrow_inv, second)),
        vscale(
            mat_vec(z, b.arrow_inv, identity_upto::<T>(prob.h@.len() as int, prob.cones@, nc)),
            sigma_mu,
        ),
    )
}

fn hsd_corrector_term_of<T: Real, C: ConeOps<T>>(
    drv: Driver<T>,
    ops: &C,
    prob: &SocpProblem<T>,
    b: &NtBlocks<T>,
    ds: &Vec<T>,
    sigma_mu: T,
) -> (r: Vec<T>)
    requires
        real_ops::<T>(),
        cones_repeatable(ops),
        hsd_fits(drv, prob),
        b.sized(prob.h@.len() as int),
        ds@.len() == prob.h@.len(),
    ensures
        r@ == hsd_corrector_term(ops, prob, b@, ds@, sigma_mu),
        r@.len() == prob.h@.len(),
{
    let z: T = number(0);
    let wds: Vec<T> = mat_times_vec(z, &b.w, ds);
    let ns: Vec<T> = vec_neg(&b.s_scaled);
    let wdy: Vec<T> = vec_sub(&ns, &wds);
    let second: Vec<T> = jordan_per_cone(ops, &wds, &wdy, &prob.cones);
    let inv_second: Vec<T> = mat_times_vec(z, &b.arrow_inv, &second);
    let e: Vec<T> = per_cone_e(prob.h.len(), &prob.cones);
    let inv_e: Vec<T> = mat_times_vec(z, &b.arrow_inv, &e);
    let t: Vec<T> = vec_add(&b.s_scaled, &inv_second);
    let c: Vec<T> = vec_scale(&inv_e, sigma_mu);
    vec_sub(&t, &c)
}

/// An embedded point moved along a direction.
pub open spec fn hsd_moved<T: Real>(e: Embedded<T>, d: HsdDirection<T>, alpha: T) -> Embedded<T> {
    Embedded {
        pt: Point {
            x: vadd(e.pt.x, vscale(d.dx, alpha)),
            lambda: vadd(e.pt.lambda, vscale(d.dl, alpha)),
            s: vadd(e.pt.s, vscale(d.ds, alpha)),
            y: vadd(e.pt.y, vscale(d.dy, alpha)),
        },
        tau: plus(e.tau, times(d.dtau, alpha)),
        kappa: plus(e.kappa, times(d.dkappa, alpha)),
    }
}

/// The largest magnitude in an embedded point.
pub open spec fn hsd_amax<T: Real>(e: Embedded<T>) -> T {
    let z = num::<T>(0);
    larger(larger(point_amax(e.pt), magnitude(z, e.tau)), magnitude(z, e.kappa))
}

/// Whether the loop can go on from an embedded point just moved to.
pub open spec fn hsd_sound<T: Real, C: ConeOps<T>>(
    limits: Limits<T>,
    ops: &C,
    prob: &SocpProblem<T>,
    e: Embedded<T>,
) -> bool {
    &&& interior(ops, e.pt.s, prob.cones@)
    &&& interior(ops, e.pt.y, prob.cones@)
    &&& !at_most(e.tau, num::<T>(0))
    &&& !at_most(e.kappa, num::<T>(0))
    &&& finite(num::<T>(0), hsd_amax(e))
    &&& !greater(hsd_amax(e), limits.huge)
}

fn hsd_move<T: Real, C: ConeOps<T>>(
    limits: Limits<T>,
    ops: &C,
    prob: &SocpProblem<T>,
    e: &mut EmbeddedVecs<T>,
    d: &HsdStepVecs<T>,
    alpha: T,
) -> (go: Go)
    requires
        real_ops::<T>(),
        cones_repeatable(ops),
        cones_within(prob.cones@, prob.h@.len() as int),
        point_fits(prob, old(e)@.pt),
        d.fits(prob),
    ensures
        final(e)@ == hsd_moved(old(e)@, d.model(), alpha),
        point_fits(prob, final(e)@.pt),
        go == (if hsd_sound(limits, ops, prob, final(e)@) {
            Go::On
        } else {
            Go::ExitAfter
        }),
{
    let tx: Vec<T> = vec_scale(&d.dx, alpha);
    let x: Vec<T> = vec_add(&e.ws.x, &tx);
    let tl: Vec<T> = vec_scale(&d.dl, alpha);
    let lambda: Vec<T> = vec_add(&e.ws.lambda, &tl);
    let ts: Vec<T> = vec_scale(&d.ds, alpha);
    let s: Vec<T> = vec_add(&e.ws.s, &ts);
    let ty: Vec<T> = vec_scale(&d.dy, alpha);
    let y: Vec<T> = vec_add(&e.ws.y, &ty);
    e.ws = SocpWorkspace { x, lambda, s, y };
    e.tau = e.tau + d.dtau * alpha;
    e.kappa = e.kappa + d.dkappa * alpha;
    let zero: T = number(0);
    if !all_cones_interior(ops, &e.ws.s, &prob.cones) || !all_cones_interior(
        ops,
        &e.ws.y,
        &prob.cones,
    ) || e.tau <= zero || e.kappa <= zero {
        return Go::ExitAfter;
    }
    let m: T = max(amax_of(&e.ws.x), amax_of(&e.ws.s));
    let m: T = max(m, amax_of(&e.ws.y));
    let m: T = max(m, amax_of(&e.ws.lambda));
    let m: T = max(m, abs(zero, e.tau));
    let m: T = max(m, abs(zero, e.kappa));
    if !is_finite(zero, m) || m > limits.huge {
        return Go::ExitAfter;
    }
    Go::On
}

/// The embedded point after an iteration, and what it leads to.
#[verifier::ext_equal]
pub struct HsdStepModel<T> {
    pub e: Embedded<T>,
    pub go: Go,
}

/// The corrector direction from the predictor `aff`.
pub open spec fn hsd_corrector<T: Real, C: ConeOps<T>>(
    drv: Driver<T>,
    ops: &C,
    prob: &SocpProblem<T>,
    e: Embedded<T>,
    f: KktModel<T>,
    b: NtModel<T>,
    k: Coupling<T>,
    aff: HsdDirection<T>,
) -> HsdDirection<T> {
    let mu = hsd_mu(prob, e);
    let sigma = hsd_sigma(
        drv.limits,
        mu,
        hsd_affine_mu(prob, e, aff, hsd_alpha(ops, prob, e, aff)),
    );
    hsd_direction(
        drv.n as int,
        prob,
        e,
        f,
        b,
        k,
        hsd_corrector_term(ops, prob, b, aff.ds, times(sigma, mu)),
        minus(minus(times(sigma, mu), times(e.tau, e.kappa)), times(aff.dtau, aff.dkappa)),
    )
}

/// What follows the factor: coupling, predictor, corrector and the move.
#[verifier::opaque]
pub open spec fn hsd_factored_step<T: Real, C: ConeOps<T>>(
    drv: Driver<T>,
    ops: &C,
    prob: &SocpProblem<T>,
    e: Embedded<T>,
    f: KktModel<T>,
    b: NtModel<T>,
) -> HsdStepModel<T> {
    let z = num::<T>(0);
    let n = drv.n as int;
    let k = coupling(n, prob, e, f, b);
    let aff = hsd_direction(n, prob, e, f, b, k, b.s_scaled, times(negated(e.tau), e.kappa));
    let d = hsd_corrector(drv, ops, prob, e, f, b, k, aff);
    let alpha = hsd_alpha(ops, prob, e, d);
    let next = hsd_moved(e, d, alpha);
    if !finite(z, k.coef) || less(magnitude(z, k.coef), drv.limits.tiny) {
        HsdStepModel { e, go: Go::ExitBefore }
    } else if !(all_finite(aff.ds) && all_finite(aff.dy) && finite(z, aff.dtau) && finite(
        z,
        aff.dkappa,
    )) {
        HsdStepModel { e, go: Go::ExitAfter }
    } else if !(all_finite(d.dx) && all_finite(d.dl) && all_finite(d.ds) && all_finite(d.dy)
        && finite(z, d.dtau) && finite(z, d.dkappa)) {
        HsdStepModel { e, go: Go::ExitAfter }
    } else if at_most(alpha, z) {
        HsdStepModel { e, go: Go::ExitAfter }
    } else if hsd_sound(drv.limits, ops, prob, next) {
        HsdStepModel { e: next, go: Go::On }
    } else {
        HsdStepModel { e: next, go: Go::ExitAfter }
    }
}

/// One iteration from an embedded point.
pub open spec fn hsd_step<T: Real, C: ConeOps<T>>(
    drv: Driver<T>,
    ops: &C,
    prob: &SocpProblem<T>,
    e: Embedded<T>,
) -> HsdStepModel<T> {
    match nt_upto(ops, e.pt.s, e.pt.y, prob.cones@, prob.cones@.len()) {
        None => HsdStepModel { e, go: Go::ExitBefore },
        Some(b) => match kkt_factor_model(
            units::<T>(),
            drv.limits,
            ops,
            prob,
            drv.n as int,
            drv.free_tf,
            b.w2,
            hessian_reg::<T>(),
        ) {
            None => HsdStepModel { e, go: Go::ExitBefore },
            Some(f) => hsd_factored_step(drv, ops, prob, e, f, b),
        },
    }
}

fn take_factored_step<T: Real, C: ConeOps<T>>(
    drv: Driver<T>,
    ops: &C,
    prob: &SocpProblem<T>,
    e: &mut EmbeddedVecs<T>,
    res: &HsdResiduals<T>,
    f: &KktFactor<T>,
    b: &NtBlocks<T>,
) -> (go: Go)
    requires
        real_ops::<T>(),
        cones_repeatable(ops),
        hsd_fits(drv, prob),
        point_fits(prob, old(e)@.pt),
        res.of(prob, old(e)@),
        1 <= drv.n < crate::reduced_kkt::RB_MAX,
        f.belongs_to(num::<T>(0), prob.a_mat@, drv.n as int, drv.free_tf),
        b.sized(prob.h@.len() as int),
    ensures
        (HsdStepModel { e: final(e)@, go }) == hsd_factored_step(drv, ops, prob, old(e)@, f@, b@),
        point_fits(prob, final(e)@.pt),
{
    reveal(hsd_factored_step);
    let z: T = number(0);
    let k: CouplingVecs<T> = coupling_of(drv, prob, e, f, b);
    if !is_finite(z, k.coef) || abs(z, k.coef) < drv.limits.tiny {
        return Go::ExitBefore;
    }
    let r6: T = e.tau.neg() * e.kappa;
    let aff: HsdStepVecs<T> = hsd_direction_of(drv, prob, e, res, f, b, &k, &b.s_scaled, r6);
    if !(is_all_finite(&aff.ds) && is_all_finite(&aff.dy) && is_finite(z, aff.dtau) && is_finite(
        z,
        aff.dkappa,
    )) {
        return Go::ExitAfter;
    }
    let alpha_a: T = hsd_alpha_of(ops, prob, e, &aff);
    let sigma: T = hsd_sigma_of(drv.limits, prob, e, &aff, res.mu, alpha_a);
    let sm: T = sigma * res.mu;
    let r_c: Vec<T> = hsd_corrector_term_of(drv, ops, prob, b, &aff.ds, sm);
    let r6c: T = sm - e.tau * e.kappa - aff.dtau * aff.dkappa;
    let d: HsdStepVecs<T> = hsd_direction_of(drv, prob, e, res, f, b, &k, &r_c, r6c);
    if !(is_all_finite(&d.dx) && is_all_finite(&d.dl) && is_all_finite(&d.ds) && is_all_finite(
        &d.dy,
    ) && is_finite(z, d.dtau) && is_finite(z, d.dkappa)) {
        return Go::ExitAfter;
    }
    let alpha: T = hsd_alpha_of(ops, prob, e, &d);
    if alpha <= z {
        return Go::ExitAfter;
    }
    hsd_move(drv.limits, ops, prob, e, &d, alpha)
}

fn take_hsd_step<T: Real, C: ConeOps<T>>(
    drv: Driver<T>,
    ops: &C,
    prob: &SocpProblem<T>,
    e: &mut EmbeddedVecs<T>,
    res: &HsdResiduals<T>,
) -> (go: Go)
    requires
        real_ops::<T>(),
        cones_repeatable(ops),
        hsd_fits(drv, prob),
        point_fits(prob, old(e)@.pt),
        res.of(prob, old(e)@),
    ensures
        (HsdStepModel { e: final(e)@, go }) == hsd_step(drv, ops, prob, old(e)@),
        point_fits(prob, final(e)@.pt),
{
    let b: NtBlocks<T> = match build_per_cone_nt_blocks(ops, &e.ws.s, &e.ws.y, &prob.cones) {
        Some(b) => b,
        None => {
            return Go::ExitBefore;
        },
    };
    let reg: T = fraction(1, 100_000_000);
    match kkt_factor(units_of(), drv.limits, ops, prob, drv.n, drv.free_tf, &b.w2, reg) {
        Some(f) => take_factored_step(drv, ops, prob, e, res, &f, &b),
        None => Go::ExitBefore,
    }
}

// ---- the loop ----

/// Where a solve stands at the start of an iteration.
#[verifier::ext_equal]
pub struct HsdProgress<T> {
    pub e: Embedded<T>,
    /// The point in the workspace.
    pub shown: Point<T>,
    pub best: Option<Snapshot<T>>,
}

/// A positive finite number.
pub open spec fn positive<T: Real>(v: T) -> bool {
    finite(num::<T>(0), v) && greater(v, num::<T>(0))
}

fn is_positive<T: Real>(v: T) -> (r: bool)
    requires
        real_ops::<T>(),
    ensures
        r == positive(v),
{
    let zero: T = number(0);
    is_finite(zero, v) && v > zero
}

/// The recovered point meets all three tolerances.
pub open spec fn hsd_optimal<T: Real, C: Numerics<T>>(
    ops: &C,
    prob: &SocpProblem<T>,
    params: IpmAlgoParams<T>,
    e: Embedded<T>,
) -> bool {
    &&& less(hsd_mu(prob, e), params.tol_mu)
    &&& less(hsd_primal_norm(ops, prob, e), params.tol_primal)
    &&& less(hsd_dual_norm(ops, prob, e), params.tol_dual)
}

/// The snapshot after looking at `e`: its recovered point where that is nearly
/// primal feasible and its complementarity is finite, not negative and smaller.
pub open spec fn hsd_refreshed<T: Real, C: Numerics<T>>(
    ops: &C,
    prob: &SocpProblem<T>,
    params: IpmAlgoParams<T>,
    e: Embedded<T>,
    best: Option<Snapshot<T>>,
) -> Option<Snapshot<T>> {
    let mu = hsd_mu(prob, e);
    if less(hsd_primal_norm(ops, prob, e), loose(ops, params.tol_primal)) && finite(
        num::<T>(0),
        mu,
    ) && at_least(mu, num::<T>(0)) && less(mu, best_mu(best)) {
        Some(Snapshot { pt: recovered(e), mu })
    } else {
        best
    }
}

/// The snapshot is good enough, or the iteration has moved away from it.
pub open spec fn hsd_settled<T: Real, C: Numerics<T>>(
    ops: &C,
    params: IpmAlgoParams<T>,
    mu: T,
    best: Option<Snapshot<T>>,
) -> bool {
    &&& best is Some
    &&& less(best_mu(best), loose(ops, params.tol_mu)) || greater(
        mu,
        times(num::<T>(4), best_mu(best)),
    )
}

/// What a solve returns from iteration `iter` on.
pub open spec fn hsd_run<T: Real, C: ConeOps<T>>(
    drv: Driver<T>,
    ops: &C,
    prob: &SocpProblem<T>,
    params: IpmAlgoParams<T>,
    st: HsdProgress<T>,
    iter: u32,
    cap: u32,
) -> Outcome<T>
    decreases cap - iter,
{
    let shown = recovered(st.e);
    let best = hsd_refreshed(ops, prob, params, st.e, st.best);
    let after = (iter + 1) as u32;
    let s = hsd_step(drv, ops, prob, st.e);
    if iter >= cap {
        give_up(st.best, st.shown, IpmStatus::IterCap, cap)
    } else if !positive(st.e.tau) || !positive(st.e.kappa) {
        give_up(st.best, st.shown, IpmStatus::NumericalError, iter)
    } else if hsd_optimal(ops, prob, params, st.e) {
        Outcome {
            result: ResultModel { point: shown, status: IpmStatus::Optimal, iters: iter },
            pt: shown,
        }
    } else if iter > 2 && hsd_settled(ops, params, hsd_mu(prob, st.e), best) {
        give_up(best, shown, IpmStatus::BestFeasible, iter)
    } else {
        match s.go {
            Go::ExitBefore => give_up(best, shown, IpmStatus::NumericalError, iter),
            Go::ExitAfter => give_up(best, shown, IpmStatus::NumericalError, after),
            Go::On => hsd_run(
                drv,
                ops,
                prob,
                params,
                HsdProgress { e: s.e, shown, best },
                after,
                cap,
            ),
        }
    }
}

/// What a whole solve returns.
pub open spec fn hsd_solved<T: Real, C: ConeOps<T>>(
    drv: Driver<T>,
    ops: &C,
    prob: &SocpProblem<T>,
    params: IpmAlgoParams<T>,
    pt: Point<T>,
) -> Outcome<T> {
    hsd_run(
        drv,
        ops,
        prob,
        params,
        HsdProgress { e: central(prob), shown: pt, best: None },
        0,
        iteration_cap(params.max_iters, drv.hard_max_iters),
    )
}

/// Tolerances, with those that make a snapshot.
struct HsdBounds<T> {
    tol_mu: T,
    tol_primal: T,
    tol_dual: T,
    loose_mu: T,
    loose_primal: T,
}

impl<T: Real> HsdBounds<T> {
    spec fn of<C: Numerics<T>>(&self, ops: &C, params: IpmAlgoParams<T>) -> bool {
        &&& self.tol_mu == params.tol_mu
        &&& self.tol_primal == params.tol_primal
        &&& self.tol_dual == params.tol_dual
        &&& self.loose_mu == loose(ops, params.tol_mu)
        &&& self.loose_primal == loose(ops, params.tol_primal)
    }
}

/// How the termination tests turned out.
#[derive(Clone, Copy, PartialEq, Eq, Structural)]
enum Verdict {
    Optimal,
    Settled,
    Open,
}

/// Replaces the snapshot where the recovered point is better, and runs the
/// termination tests.
fn judge<T: Real, C: Numerics<T>>(
    ops: &C,
    prob: &SocpProblem<T>,
    Ghost(params): Ghost<IpmAlgoParams<T>>,
    b: &HsdBounds<T>,
    e: &EmbeddedVecs<T>,
    res: &HsdResiduals<T>,
    shown: &SocpWorkspace<T>,
    iter: u32,
    best: &mut Option<SnapshotVecs<T>>,
) -> (v: Verdict)
    requires
        real_ops::<T>(),
        functions_repeatable(ops),
        b.of(ops, params),
        res.of(prob, e@),
        shown@ == recovered(e@),
    ensures
        (v == Verdict::Optimal) == hsd_optimal(ops, prob, params, e@),
        v != Verdict::Optimal ==> snapshot_view(*final(best)) == hsd_refreshed(
            ops,
            prob,
            params,
            e@,
            snapshot_view(*old(best)),
        ),
        v != Verdict::Optimal ==> (v == Verdict::Settled) == (iter > 2 && hsd_settled(
            ops,
            params,
            hsd_mu(prob, e@),
            snapshot_view(*final(best)),
        )),
{
    let zero: T = number(0);
    let one: T = number(1);
    let inv: T = one / e.tau;
    let primal: T = (norm_of(ops, &res.r_a) + norm_of(ops, &res.r_g)) * inv;
    let dual: T = norm_of(ops, &res.r_x) * inv;
    let mu: T = res.mu;
    if mu < b.tol_mu && primal < b.tol_primal && dual < b.tol_dual {
        return Verdict::Optimal;
    }
    let known: T = match &*best {
        Some(b) => b.mu,
        None => fraction(1, 0),
    };
    if primal < b.loose_primal && is_finite(zero, mu) && mu >= zero && mu < known {
        *best = Some(SnapshotVecs { ws: copy_point(shown), mu });
    }
    let settled: bool = match &*best {
        Some(s) => {
            let four: T = number(4);
            s.mu < b.loose_mu || mu > four * s.mu
        },
        None => false,
    };
    if iter > 2 && settled {
        Verdict::Settled
    } else {
        Verdict::Open
    }
}

/// A solve through the embedding by the driver described.
pub fn solve_hsd_with<T: Real, C: ConeOps<T>>(
    drv: Driver<T>,
    ops: &C,
    prob: &SocpProblem<T>,
    params: &IpmAlgoParams<T>,
    ws: &mut SocpWorkspace<T>,
) -> (r: SocpResult<T>)
    requires
        real_ops::<T>(),
        cones_repeatable(ops),
        hsd_fits(drv, prob),
        point_fits(prob, old(ws)@),
    ensures
        r@ == hsd_solved(drv, ops, prob, *params, old(ws)@).result,
        final(ws)@ == hsd_solved(drv, ops, prob, *params, old(ws)@).pt,
        point_fits(prob, final(ws)@),
        point_fits(prob, r@.point),
{
    let b: HsdBounds<T> = HsdBounds {
        tol_mu: params.tol_mu,
        tol_primal: params.tol_primal,
        tol_dual: params.tol_dual,
        loose_mu: loosened(ops, params.tol_mu),
        loose_primal: loosened(ops, params.tol_primal),
    };
    let cap: u32 = if params.max_iters < drv.hard_max_iters {
        params.max_iters
    } else {
        drv.hard_max_iters
    };
    let mut e: EmbeddedVecs<T> = central_start(prob);
    let mut best: Option<SnapshotVecs<T>> = None;
    let ghost goal = hsd_solved(drv, ops, prob, *params, ws@);
    let mut iter: u32 = 0;
    while iter < cap
        invariant
            real_ops::<T>(),
            cones_repeatable(ops),
            hsd_fits(drv, prob),
            point_fits(prob, ws@),
            point_fits(prob, e@.pt),
            snapshot_view(best) matches Some(s) ==> point_fits(prob, s.pt),
            b.of(ops, *params),
            iter <= cap,
            goal == hsd_solved(drv, ops, prob, *params, old(ws)@),
            goal == hsd_run(
                drv,
                ops,
                prob,
                *params,
                HsdProgress { e: e@, shown: ws@, best: snapshot_view(best) },
                iter,
                cap,
            ),
        decreases cap - iter,
    {
        if !is_positive(e.tau) || !is_positive(e.kappa) {
            return give_up_at(best, ws, IpmStatus::NumericalError, iter);
        }
        let res: HsdResiduals<T> = hsd_residuals_of(drv, prob, &e);
        let shown: SocpWorkspace<T> = recover(&e);
        let v: Verdict = judge(
            ops,
            prob,
            Ghost(*params),
            &b,
            &e,
            &res,
            &shown,
            iter,
            &mut best,
        );
        *ws = shown;
        match v {
            Verdict::Optimal => {
                let at: SocpWorkspace<T> = copy_point(ws);
                return result_at(at, IpmStatus::Optimal, iter);
            },
            Verdict::Settled => {
                return give_up_at(best, ws, IpmStatus::BestFeasible, iter);
            },
            Verdict::Open => {},
        }
        match take_hsd_step(drv, ops, prob, &mut e, &res) {
            Go::ExitBefore => {
                return give_up_at(best, ws, IpmStatus::NumericalError, iter);
            },
            Go::ExitAfter => {
                return give_up_at(best, ws, IpmStatus::NumericalError, iter + 1);
            },
            Go::On => {
                iter = iter + 1;
            },
        }
    }
    give_up_at(best, ws, IpmStatus::IterCap, cap)
}

/// Solves the fixed-time cone program through the homogeneous self-dual embedding.
pub fn solve_socp_structured_hsd<T: Real, C: ConeOps<T>>(
    limits: Limits<T>,
    hard_max_iters: u32,
    ops: &C,
    n: usize,
    prob: &SocpProblem<T>,
    params: &IpmAlgoParams<T>,
    ws: &mut SocpWorkspace<T>,
) -> (r: SocpResult<T>)
    requires
        real_ops::<T>(),
        cones_repeatable(ops),
        hsd_fits((Driver { n, free_tf: false, nt: true, limits, hard_max_iters }), prob),
        point_fits(prob, old(ws)@),
    ensures
        (Outcome { result: r@, pt: final(ws)@ }) == hsd_solved(
            (Driver { n, free_tf: false, nt: true, limits, hard_max_iters }),
            ops,
            prob,
            *params,
            old(ws)@,
        ),
        point_fits(prob, final(ws)@),
        point_fits(prob, r@.point),
{
    solve_hsd_with(
        Driver { n, free_tf: false, nt: true, limits, hard_max_iters },
        ops,
        prob,
        params,
        ws,
    )
}

/// Solves the free-time cone program through the homogeneous self-dual embedding.
pub fn solve_socp_structured_hsd_free_tf<T: Real, C: ConeOps<T>>(
    limits: Limits<T>,
    hard_max_iters: u32,
    ops: &C,
    n: usize,
    prob: &SocpProblem<T>,
    params: &IpmAlgoParams<T>,
    ws: &mut SocpWorkspace<T>,
) -> (r: SocpResult<T>)
    requires
        real_ops::<T>(),
        cones_repeatable(ops),
        hsd_fits((Driver { n, free_tf: true, nt: true, limits, hard_max_iters }), prob),
        point_fits(prob, old(ws)@),
    ensures
        (Outcome { result: r@, pt: final(ws)@ }) == hsd_solved(
            (Driver { n, free_tf: true, nt: true, limits, hard_max_iters }),
            ops,
            prob,
            *params,
            old(ws)@,
        ),
        point_fits(prob, final(ws)@),
        point_fits(prob, r@.point),
{
    solve_hsd_with(
        Driver { n, free_tf: true, nt: true, limits, hard_max_iters },
        ops,
        prob,
        params,
        ws,
    )
}

} // verus!
