//! Primal-dual interior-point drivers on the structured optimality system.
//!
//! Each driver runs a predictor-corrector loop: residuals, termination tests, a
//! snapshot of the best nearly feasible iterate, one factorization, and two
//! applications of it. The drivers differ in the direction (the symmetric product
//! `arrow(s)^-1 arrow(y)`, or Nesterov-Todd scaling) and in the final time (fixed,
//! or free).
//!
//! `run` says what a driver returns: it unrolls the loop as a recursive function
//! of the iterate, the snapshot and the iteration count.
use crate::cones::{
    all_cones_interior, all_finite, arrows_upto, build_per_cone_arrow_blocks,
    build_per_cone_nt_blocks, clip01, clipped, cones_repeatable, cones_within, identity_upto,
    init_per_cone_warm_start, interior, is_all_finite, jordan_per_cone, jordan_upto,
    max_step_all_cones, nt_upto, per_cone_e, step_upto, unbounded, warm_upto, ArrowBlocks,
    ArrowModel, ConeOps, NtBlocks, NtModel,
};
use crate::kkt_backend::{
    kkt_apply, kkt_dl, kkt_dx, kkt_factor, kkt_factor_model, KktFactor, KktModel,
};
use crate::layout::spec_np;
use crate::linalg::{
    constant, copy_vec, dot, dot_product, fill_vec, mat_t_times_vec, mat_t_vec, mat_times_vec,
    mat_vec, shaped, vadd, vec_add, vec_neg, vec_scale, vec_sub, vneg, vscale, vsub, Mat,
};
use crate::numerics::{functions_repeatable, pow_of, pow_with, root_of, sqrt_with, Numerics};
use crate::scalar::{
    abs, at_least, clamp, clamped, finite, fraction, greater, is_finite, larger, less, magnitude,
    max, min, negated, num, number, over, plus, ratio, real_ops, smaller, times, units, units_of,
    Limits, Real,
};
use crate::types::{
    IpmAlgoParams, IpmStatus, Point, ResultModel, SocpProblem, SocpResult, SocpWorkspace,
};
use vstd::prelude::*;

verus! {

/// What distinguishes one driver from another, and the limits it runs under.
pub struct Driver<T> {
    /// Number of nodes.
    pub n: usize,
    /// The problem has a time increment.
    pub free_tf: bool,
    /// Use Nesterov-Todd scaling.
    pub nt: bool,
    pub limits: Limits<T>,
    /// Iteration bound no setting can exceed.
    pub hard_max_iters: u32,
}

impl<T: Copy> Clone for Driver<T> {
    fn clone(&self) -> (r: Self)
        ensures
            r == *self,
    {
        *self
    }
}

impl<T: Copy> Copy for Driver<T> {

}

/// The problem has the sizes of the driver's layout.
pub open spec fn fits<T>(drv: Driver<T>, prob: &SocpProblem<T>) -> bool {
    &&& 19 * drv.n + 1 <= usize::MAX
    &&& prob.sized(spec_np(drv.n as int, drv.free_tf), 7 * drv.n + 6, prob.h@.len() as int)
    &&& prob.h@.len() <= u32::MAX
    &&& cones_within(prob.cones@, prob.h@.len() as int)
}

/// The point has the sizes of the problem.
pub open spec fn point_fits<T>(prob: &SocpProblem<T>, pt: Point<T>) -> bool {
    pt.sized(prob.c@.len() as int, prob.b@.len() as int, prob.h@.len() as int)
}

// ---- residuals ----

/// `c + A' lambda + G' y`.
pub open spec fn dual_residual<T: Real>(prob: &SocpProblem<T>, pt: Point<T>) -> Seq<T> {
    let z = num::<T>(0);
    let np = prob.c@.len() as int;
    vadd(
        vadd(prob.c@, mat_t_vec(z, prob.a_mat@, np, pt.lambda)),
        mat_t_vec(z, prob.g_mat@, np, pt.y),
    )
}

/// `A x - b`.
pub open spec fn equality_residual<T: Real>(prob: &SocpProblem<T>, pt: Point<T>) -> Seq<T> {
    vsub(mat_vec(num::<T>(0), prob.a_mat@, pt.x), prob.b@)
}

/// `G x + s - h`.
pub open spec fn cone_residual<T: Real>(prob: &SocpProblem<T>, pt: Point<T>) -> Seq<T> {
    vsub(vadd(mat_vec(num::<T>(0), prob.g_mat@, pt.x), pt.s), prob.h@)
}

/// Euclidean norm.
pub open spec fn norm<T: Real, C: Numerics<T>>(ops: &C, v: Seq<T>) -> T {
    root_of(ops, dot(num::<T>(0), v, v))
}

/// Euclidean norm.
pub fn norm_of<T: Real, C: Numerics<T>>(ops: &C, v: &Vec<T>) -> (r: T)
    requires
        real_ops::<T>(),
        functions_repeatable(ops),
    ensures
        r == norm(ops, v@),
{
    sqrt_with(ops, dot_product(number(0), v, v))
}

/// Mean complementarity `s y / nct`.
pub open spec fn complementarity<T: Real>(pt: Point<T>) -> T {
    over(dot(num::<T>(0), pt.s, pt.y), num::<T>(pt.s.len() as u32))
}

/// The largest magnitude among the first `n` entries of `v`.
pub open spec fn amax_upto<T: Real>(v: Seq<T>, n: nat) -> T
    decreases n,
{
    if n == 0 {
        num::<T>(0)
    } else if n == 1 {
        magnitude(num::<T>(0), v[0])
    } else {
        larger(amax_upto(v, (n - 1) as nat), magnitude(num::<T>(0), v[n - 1]))
    }
}

/// The largest magnitude in `v`.
pub fn amax_of<T: Real>(v: &Vec<T>) -> (r: T)
    requires
        real_ops::<T>(),
    ensures
        r == amax_upto(v@, v@.len()),
{
    let z: T = number(0);
    if v.len() == 0 {
        return z;
    }
    let mut m: T = abs(z, v[0]);
    let mut i: usize = 1;
    while i < v.len()
        invariant
            real_ops::<T>(),
            z == num::<T>(0),
            1 <= i <= v@.len(),
            m == amax_upto(v@, i as nat),
        decreases v.len() - i,
    {
        m = max(m, abs(z, v[i]));
        i = i + 1;
    }
    m
}

/// The largest magnitude in a point.
pub open spec fn point_amax<T: Real>(pt: Point<T>) -> T {
    larger(
        larger(
            larger(amax_upto(pt.x, pt.x.len()), amax_upto(pt.s, pt.s.len())),
            amax_upto(pt.y, pt.y.len()),
        ),
        amax_upto(pt.lambda, pt.lambda.len()),
    )
}

// ---- steps ----

/// Fraction of the largest step that is taken.
pub open spec fn backoff<T: Real>() -> T {
    ratio::<T>(99, 100)
}

/// Tikhonov term on the reduced Hessian.
pub open spec fn hessian_reg<T: Real>() -> T {
    ratio::<T>(1, 100_000_000)
}

/// A step in all unknowns.
#[verifier::ext_equal]
pub struct Direction<T> {
    pub dx: Seq<T>,
    pub dl: Seq<T>,
    pub ds: Seq<T>,
    pub dy: Seq<T>,
}

/// A step in all unknowns.
pub struct StepVecs<T> {
    pub dx: Vec<T>,
    pub dl: Vec<T>,
    pub ds: Vec<T>,
    pub dy: Vec<T>,
}

impl<T> View for StepVecs<T> {
    type V = Direction<T>;

    open spec fn view(&self) -> Direction<T> {
        Direction { dx: self.dx@, dl: self.dl@, ds: self.ds@, dy: self.dy@ }
    }
}

impl<T> StepVecs<T> {
    /// The step has the sizes of the problem.
    pub open spec fn fits(&self, prob: &SocpProblem<T>) -> bool {
        &&& self.dx@.len() == prob.c@.len()
        &&& self.dl@.len() == prob.b@.len()
        &&& self.ds@.len() == prob.h@.len()
        &&& self.dy@.len() == prob.h@.len()
    }
}

/// The primal right-hand side `-r_x - G' (m r_g) + G' (p r_c)`.
pub open spec fn primal_rhs<T: Real>(
    prob: &SocpProblem<T>,
    pt: Point<T>,
    m: Seq<Seq<T>>,
    p: Seq<Seq<T>>,
    r_c: Seq<T>,
) -> Seq<T> {
    let z = num::<T>(0);
    let np = prob.c@.len() as int;
    vadd(
        vsub(
            vneg(dual_residual(prob, pt)),
            mat_t_vec(z, prob.g_mat@, np, mat_vec(z, m, cone_residual(prob, pt))),
        ),
        mat_t_vec(z, prob.g_mat@, np, mat_vec(z, p, r_c)),
    )
}

/// The flat primal and multiplier steps for the cone term `r_c`.
pub open spec fn kkt_step<T: Real>(
    drv: Driver<T>,
    prob: &SocpProblem<T>,
    pt: Point<T>,
    f: KktModel<T>,
    m: Seq<Seq<T>>,
    p: Seq<Seq<T>>,
    r_c: Seq<T>,
) -> (Seq<T>, Seq<T>) {
    let z = num::<T>(0);
    let b_x = primal_rhs(prob, pt, m, p, r_c);
    let b_a = vneg(equality_residual(prob, pt));
    (
        kkt_dx(z, prob.a_mat@, drv.n as int, f, b_x, b_a),
        kkt_dl(z, prob.a_mat@, drv.n as int, f, b_x, b_a),
    )
}

/// `r_g + G dx`.
pub open spec fn moved_residual<T: Real>(
    prob: &SocpProblem<T>,
    pt: Point<T>,
    dx: Seq<T>,
) -> Seq<T> {
    vadd(cone_residual(prob, pt), mat_vec(num::<T>(0), prob.g_mat@, dx))
}

/// The slack step `-r_g - G dx`.
pub open spec fn slack_step<T: Real>(prob: &SocpProblem<T>, pt: Point<T>, dx: Seq<T>) -> Seq<T> {
    vsub(vneg(cone_residual(prob, pt)), mat_vec(num::<T>(0), prob.g_mat@, dx))
}

/// The direction of the symmetric product for the cone term `r_c`:
/// `dy = arrow(s)^-1 (arrow(y) (r_g + G dx) - r_c)`.
pub open spec fn aho_direction<T: Real>(
    drv: Driver<T>,
    prob: &SocpProblem<T>,
    pt: Point<T>,
    f: KktModel<T>,
    b: ArrowModel<T>,
    r_c: Seq<T>,
) -> Direction<T> {
    let z = num::<T>(0);
    let (dx, dl) = kkt_step(drv, prob, pt, f, b.m, b.s_inv, r_c);
    Direction {
        dx,
        dl,
        ds: slack_step(prob, pt, dx),
        dy: mat_vec(
            z,
            b.s_inv,
            vsub(mat_vec(z, b.y, moved_residual(prob, pt, dx)), r_c),
        ),
    }
}

/// The Nesterov-Todd direction for the scaled cone term `r_c`:
/// `dy = -W r_c + W W (r_g + G dx)`.
pub open spec fn nt_direction<T: Real>(
    drv: Driver<T>,
    prob: &SocpProblem<T>,
    pt: Point<T>,
    f: KktModel<T>,
    b: NtModel<T>,
    r_c: Seq<T>,
) -> Direction<T> {
    let z = num::<T>(0);
    let (dx, dl) = kkt_step(drv, prob, pt, f, b.w2, b.w, r_c);
    Direction {
        dx,
        dl,
        ds: slack_step(prob, pt, dx),
        dy: vadd(
            vneg(mat_vec(z, b.w, r_c)),
            mat_vec(z, b.w2, moved_residual(prob, pt, dx)),
        ),
    }
}

/// Residuals of the current point, computed once per iteration.
struct Residuals<T> {
    r_x: Vec<T>,
    r_a: Vec<T>,
    r_g: Vec<T>,
}

impl<T: Real> Residuals<T> {
    spec fn of(&self, prob: &SocpProblem<T>, pt: Point<T>) -> bool {
        &&& self.r_x@ == dual_residual(prob, pt)
        &&& self.r_a@ == equality_residual(prob, pt)
        &&& self.r_g@ == cone_residual(prob, pt)
        &&& self.r_x@.len() == prob.c@.len()
        &&& self.r_a@.len() == prob.b@.len()
        &&& self.r_g@.len() == prob.h@.len()
    }
}

fn residuals_of<T: Real>(
    drv: Driver<T>,
    prob: &SocpProblem<T>,
    ws: &SocpWorkspace<T>,
) -> (r: Residuals<T>)
    requires
        real_ops::<T>(),
        fits(drv, prob),
        point_fits(prob, ws@),
    ensures
        r.of(prob, ws@),
{
    let z: T = number(0);
    let np: usize = prob.c.len();
    let atl: Vec<T> = mat_t_times_vec(z, &prob.a_mat, np, &ws.lambda);
    let gty: Vec<T> = mat_t_times_vec(z, &prob.g_mat, np, &ws.y);
    let cl: Vec<T> = vec_add(&prob.c, &atl);
    let r_x: Vec<T> = vec_add(&cl, &gty);
    let ax: Vec<T> = mat_times_vec(z, &prob.a_mat, &ws.x);
    let r_a: Vec<T> = vec_sub(&ax, &prob.b);
    let gx: Vec<T> = mat_times_vec(z, &prob.g_mat, &ws.x);
    let gxs: Vec<T> = vec_add(&gx, &ws.s);
    let r_g: Vec<T> = vec_sub(&gxs, &prob.h);
    Residuals { r_x, r_a, r_g }
}

fn kkt_step_of<T: Real>(
    drv: Driver<T>,
    prob: &SocpProblem<T>,
    Ghost(pt): Ghost<Point<T>>,
    res: &Residuals<T>,
    f: &KktFactor<T>,
    m: &Mat<T>,
    p: &Mat<T>,
    r_c: &Vec<T>,
) -> (r: (Vec<T>, Vec<T>))
    requires
        real_ops::<T>(),
        fits(drv, prob),
        res.of(prob, pt),
        1 <= drv.n < crate::reduced_kkt::RB_MAX,
        f.belongs_to(num::<T>(0), prob.a_mat@, drv.n as int, drv.free_tf),
        shaped(m@, prob.h@.len() as int, prob.h@.len() as int),
        shaped(p@, prob.h@.len() as int, prob.h@.len() as int),
        r_c@.len() == prob.h@.len(),
    ensures
        (r.0@, r.1@) == kkt_step(drv, prob, pt, f@, m@, p@, r_c@),
        r.0@.len() == prob.c@.len(),
        r.1@.len() == prob.b@.len(),
{
    let z: T = number(0);
    let np: usize = prob.c.len();
    let mr: Vec<T> = mat_times_vec(z, m, &res.r_g);
    let gmr: Vec<T> = mat_t_times_vec(z, &prob.g_mat, np, &mr);
    let pr: Vec<T> = mat_times_vec(z, p, r_c);
    let gpr: Vec<T> = mat_t_times_vec(z, &prob.g_mat, np, &pr);
    let nrx: Vec<T> = vec_neg(&res.r_x);
    let t: Vec<T> = vec_sub(&nrx, &gmr);
    let b_x: Vec<T> = vec_add(&t, &gpr);
    let b_a: Vec<T> = vec_neg(&res.r_a);
    kkt_apply(units_of(), prob, drv.n, drv.free_tf, f, &b_x, &b_a)
}

fn aho_direction_of<T: Real>(
    drv: Driver<T>,
    prob: &SocpProblem<T>,
    Ghost(pt): Ghost<Point<T>>,
    res: &Residuals<T>,
    f: &KktFactor<T>,
    b: &ArrowBlocks<T>,
    r_c: &Vec<T>,
) -> (d: StepVecs<T>)
    requires
        real_ops::<T>(),
        fits(drv, prob),
        res.of(prob, pt),
        1 <= drv.n < crate::reduced_kkt::RB_MAX,
        f.belongs_to(num::<T>(0), prob.a_mat@, drv.n as int, drv.free_tf),
        b.sized(prob.h@.len() as int),
        r_c@.len() == prob.h@.len(),
    ensures
        d@ == aho_direction(drv, prob, pt, f@, b@, r_c@),
        d.fits(prob),
{
    let z: T = number(0);
    let (dx, dl): (Vec<T>, Vec<T>) = kkt_step_of(
        drv,
        prob,
        Ghost(pt),
        res,
        f,
        &b.m,
        &b.s_inv,
        r_c,
    );
    let gdx: Vec<T> = mat_times_vec(z, &prob.g_mat, &dx);
    let nrg: Vec<T> = vec_neg(&res.r_g);
    let ds: Vec<T> = vec_sub(&nrg, &gdx);
    let moved: Vec<T> = vec_add(&res.r_g, &gdx);
    let ym: Vec<T> = mat_times_vec(z, &b.y, &moved);
    let t: Vec<T> = vec_sub(&ym, r_c);
    let dy: Vec<T> = mat_times_vec(z, &b.s_inv, &t);
    StepVecs { dx, dl, ds, dy }
}

fn nt_direction_of<T: Real>(
    drv: Driver<T>,
    prob: &SocpProblem<T>,
    Ghost(pt): Ghost<Point<T>>,
    res: &Residuals<T>,
    f: &KktFactor<T>,
    b: &NtBlocks<T>,
    r_c: &Vec<T>,
) -> (d: StepVecs<T>)
    requires
        real_ops::<T>(),
        fits(drv, prob),
        res.of(prob, pt),
        1 <= drv.n < crate::reduced_kkt::RB_MAX,
        f.belongs_to(num::<T>(0), prob.a_mat@, drv.n as int, drv.free_tf),
        b.sized(prob.h@.len() as int),
        r_c@.len() == prob.h@.len(),
    ensures
        d@ == nt_direction(drv, prob, pt, f@, b@, r_c@),
        d.fits(prob),
{
    let z: T = number(0);
    let (dx, dl): (Vec<T>, Vec<T>) = kkt_step_of(
        drv,
        prob,
        Ghost(pt),
        res,
        f,
        &b.w2,
        &b.w,
        r_c,
    );
    let gdx: Vec<T> = mat_times_vec(z, &prob.g_mat, &dx);
    let nrg: Vec<T> = vec_neg(&res.r_g);
    let ds: Vec<T> = vec_sub(&nrg, &gdx);
    let moved: Vec<T> = vec_add(&res.r_g, &gdx);
    let wr: Vec<T> = mat_times_vec(z, &b.w, r_c);
    let nwr: Vec<T> = vec_neg(&wr);
    let wm: Vec<T> = mat_times_vec(z, &b.w2, &moved);
    let dy: Vec<T> = vec_add(&nwr, &wm);
    StepVecs { dx, dl, ds, dy }
}

/// What an iteration leads to.
#[derive(Clone, Copy, PartialEq, Eq, Structural)]
pub enum Go {
    /// The next iteration.
    On,
    /// An exit, counting the iterations before this one.
    ExitBefore,
    /// An exit, counting this iteration too.
    ExitAfter,
}

/// The point after an iteration, and what it leads to.
#[verifier::ext_equal]
pub struct StepModel<T> {
    pub pt: Point<T>,
    pub go: Go,
}

/// `pt` moved by `alpha_s` in `x` and `s`, by `alpha_y` in `lambda` and `y`.
pub open spec fn moved<T: Real>(pt: Point<T>, d: Direction<T>, alpha_s: T, alpha_y: T) -> Point<T> {
    Point {
        x: vadd(pt.x, vscale(d.dx, alpha_s)),
        lambda: vadd(pt.lambda, vscale(d.dl, alpha_y)),
        s: vadd(pt.s, vscale(d.ds, alpha_s)),
        y: vadd(pt.y, vscale(d.dy, alpha_y)),
    }
}

/// Whether the loop can go on from a point just moved to: strictly inside all
/// cones, finite and not diverged.
pub open spec fn sound<T: Real, C: ConeOps<T>>(
    drv: Driver<T>,
    ops: &C,
    prob: &SocpProblem<T>,
    pt: Point<T>,
) -> bool {
    &&& interior(ops, pt.s, prob.cones@)
    &&& interior(ops, pt.y, prob.cones@)
    &&& finite(num::<T>(0), point_amax(pt))
    &&& !greater(point_amax(pt), drv.limits.huge)
}

fn move_point<T: Real, C: ConeOps<T>>(
    drv: Driver<T>,
    ops: &C,
    prob: &SocpProblem<T>,
    ws: &mut SocpWorkspace<T>,
    d: &StepVecs<T>,
    alpha_s: T,
    alpha_y: T,
) -> (go: Go)
    requires
        real_ops::<T>(),
        cones_repeatable(ops),
        fits(drv, prob),
        point_fits(prob, old(ws)@),
        d.fits(prob),
    ensures
        final(ws)@ == moved(old(ws)@, d@, alpha_s, alpha_y),
        point_fits(prob, final(ws)@),
        go == (if sound(drv, ops, prob, final(ws)@) {
            Go::On
        } else {
            Go::ExitAfter
        }),
{
    let tx: Vec<T> = vec_scale(&d.dx, alpha_s);
    let x: Vec<T> = vec_add(&ws.x, &tx);
    ws.x = x;
    let tl: Vec<T> = vec_scale(&d.dl, alpha_y);
    let lambda: Vec<T> = vec_add(&ws.lambda, &tl);
    ws.lambda = lambda;
    let ts: Vec<T> = vec_scale(&d.ds, alpha_s);
    let s: Vec<T> = vec_add(&ws.s, &ts);
    ws.s = s;
    let ty: Vec<T> = vec_scale(&d.dy, alpha_y);
    let y: Vec<T> = vec_add(&ws.y, &ty);
    ws.y = y;
    if !all_cones_interior(ops, &ws.s, &prob.cones) || !all_cones_interior(
        ops,
        &ws.y,
        &prob.cones,
    ) {
        return Go::ExitAfter;
    }
    let m: T = max(amax_of(&ws.x), amax_of(&ws.s));
    let m: T = max(m, amax_of(&ws.y));
    let m: T = max(m, amax_of(&ws.lambda));
    let zero: T = number(0);
    if !is_finite(zero, m) || m > drv.limits.huge {
        return Go::ExitAfter;
    }
    Go::On
}

/// Step length along one cone variable.
pub open spec fn step_length<T: Real, C: ConeOps<T>>(
    ops: &C,
    prob: &SocpProblem<T>,
    z: Seq<T>,
    dz: Seq<T>,
) -> T {
    clipped(times(backoff::<T>(), step_upto(ops, z, dz, prob.cones@, prob.cones@.len())))
}

fn step_length_of<T: Real, C: ConeOps<T>>(
    ops: &C,
    prob: &SocpProblem<T>,
    z: &Vec<T>,
    dz: &Vec<T>,
) -> (r: T)
    requires
        real_ops::<T>(),
        cones_repeatable(ops),
        z@.len() == dz@.len(),
        cones_within(prob.cones@, z@.len() as int),
    ensures
        r == step_length(ops, prob, z@, dz@),
{
    let a: T = max_step_all_cones(ops, z, dz, &prob.cones);
    let b: T = fraction(99, 100);
    clip01(b * a)
}

/// Complementarity after the affine step.
pub open spec fn affine_mu<T: Real>(pt: Point<T>, d: Direction<T>, alpha_s: T, alpha_y: T) -> T {
    over(
        dot(num::<T>(0), vadd(pt.s, vscale(d.ds, alpha_s)), vadd(pt.y, vscale(d.dy, alpha_y))),
        num::<T>(pt.s.len() as u32),
    )
}

fn affine_mu_of<T: Real>(
    ws: &SocpWorkspace<T>,
    d: &StepVecs<T>,
    alpha_s: T,
    alpha_y: T,
) -> (r: T)
    requires
        real_ops::<T>(),
        ws@.s.len() == d@.ds.len(),
        ws@.y.len() == d@.dy.len(),
        ws@.s.len() == ws@.y.len(),
        ws@.s.len() <= u32::MAX,
    ensures
        r == affine_mu(ws@, d@, alpha_s, alpha_y),
{
    let ts: Vec<T> = vec_scale(&d.ds, alpha_s);
    let s: Vec<T> = vec_add(&ws.s, &ts);
    let ty: Vec<T> = vec_scale(&d.dy, alpha_y);
    let y: Vec<T> = vec_add(&ws.y, &ty);
    let n: T = number(ws.s.len() as u32);
    dot_product(number(0), &s, &y) / n
}

/// `raw` in `[0, 1]`, or one half where it is not finite.
pub open spec fn centered<T: Real>(raw: T) -> T {
    if finite(num::<T>(0), raw) {
        clamped(raw, num::<T>(0), num::<T>(1))
    } else {
        ratio::<T>(1, 2)
    }
}

/// `raw` in `[0, 1]`, or one half where it is not finite.
pub fn center<T: Real>(raw: T) -> (r: T)
    requires
        real_ops::<T>(),
    ensures
        r == centered(raw),
{
    let zero: T = number(0);
    if is_finite(zero, raw) {
        clamp(raw, zero, number(1))
    } else {
        fraction(1, 2)
    }
}

/// Centering of the symmetric direction: the cube of the affine reduction.
pub open spec fn aho_sigma<T: Real>(drv: Driver<T>, mu: T, mu_aff: T) -> T {
    let r = over(mu_aff, mu);
    centered(
        if greater(mu, drv.limits.tiny) {
            times(times(r, r), r)
        } else {
            num::<T>(1)
        },
    )
}

fn aho_sigma_of<T: Real>(drv: Driver<T>, mu: T, mu_aff: T) -> (s: T)
    requires
        real_ops::<T>(),
    ensures
        s == aho_sigma(drv, mu, mu_aff),
{
    if mu > drv.limits.tiny {
        let r: T = mu_aff / mu;
        center(r * r * r)
    } else {
        center(number(1))
    }
}

/// One iteration with the symmetric direction, from a point with complementarity
/// `mu`.
#[verifier::opaque]
pub open spec fn aho_step<T: Real, C: ConeOps<T>>(
    drv: Driver<T>,
    ops: &C,
    prob: &SocpProblem<T>,
    pt: Point<T>,
    mu: T,
) -> StepModel<T> {
    let cones = prob.cones@;
    let nc = cones.len();
    match arrows_upto(ops, pt.s, pt.y, cones, nc) {
        None => StepModel { pt, go: Go::ExitBefore },
        Some(b) => match kkt_factor_model(
            units::<T>(),
            drv.limits,
            ops,
            prob,
            drv.n as int,
            drv.free_tf,
            b.m,
            hessian_reg::<T>(),
        ) {
            None => StepModel { pt, go: Go::ExitBefore },
            Some(f) => {
                let r_aff = jordan_upto(ops, pt.y, pt.s, cones, nc);
                let aff = aho_direction(drv, prob, pt, f, b, r_aff);
                let a_s = step_length(ops, prob, pt.s, aff.ds);
                let a_y = step_length(ops, prob, pt.y, aff.dy);
                let sigma = aho_sigma(drv, mu, affine_mu(pt, aff, a_s, a_y));
                let r_c = vsub(
                    vadd(r_aff, jordan_upto(ops, aff.dy, aff.ds, cones, nc)),
                    vscale(identity_upto::<T>(pt.s.len() as int, cones, nc), times(sigma, mu)),
                );
                let d = aho_direction(drv, prob, pt, f, b, r_c);
                let next = moved(
                    pt,
                    d,
                    step_length(ops, prob, pt.s, d.ds),
                    step_length(ops, prob, pt.y, d.dy),
                );
                if !(all_finite(aff.ds) && all_finite(aff.dy) && all_finite(aff.dx)) {
                    StepModel { pt, go: Go::ExitAfter }
                } else if !direction_finite(d) {
                    StepModel { pt, go: Go::ExitAfter }
                } else if sound(drv, ops, prob, next) {
                    StepModel { pt: next, go: Go::On }
                } else {
                    StepModel { pt: next, go: Go::ExitAfter }
                }
            },
        },
    }
}

/// Every entry of a step is finite.
pub open spec fn direction_finite<T: Real>(d: Direction<T>) -> bool {
    all_finite(d.dx) && all_finite(d.dl) && all_finite(d.ds) && all_finite(d.dy)
}

fn is_direction_finite<T: Real>(d: &StepVecs<T>) -> (r: bool)
    requires
        real_ops::<T>(),
    ensures
        r == direction_finite(d@),
{
    is_all_finite(&d.dx) && is_all_finite(&d.dl) && is_all_finite(&d.ds) && is_all_finite(&d.dy)
}

fn take_aho_step<T: Real, C: ConeOps<T>>(
    drv: Driver<T>,
    ops: &C,
    prob: &SocpProblem<T>,
    ws: &mut SocpWorkspace<T>,
    res: &Residuals<T>,
    mu: T,
) -> (go: Go)
    requires
        real_ops::<T>(),
        cones_repeatable(ops),
        fits(drv, prob),
        prob.cones_fit(prob.h@.len() as int),
        point_fits(prob, old(ws)@),
        res.of(prob, old(ws)@),
    ensures
        (StepModel { pt: final(ws)@, go }) == aho_step(drv, ops, prob, old(ws)@, mu),
        point_fits(prob, final(ws)@),
{
    reveal(aho_step);
    let ghost pt = ws@;
    let b: ArrowBlocks<T> = match build_per_cone_arrow_blocks(ops, &ws.s, &ws.y, &prob.cones) {
        Some(b) => b,
        None => {
            return Go::ExitBefore;
        },
    };
    let reg: T = fraction(1, 100_000_000);
    let f: KktFactor<T> = match kkt_factor(
        units_of(),
        drv.limits,
        ops,
        prob,
        drv.n,
        drv.free_tf,
        &b.m,
        reg,
    ) {
        Some(f) => f,
        None => {
            return Go::ExitBefore;
        },
    };
    let r_aff: Vec<T> = jordan_per_cone(ops, &ws.y, &ws.s, &prob.cones);
    let aff: StepVecs<T> = aho_direction_of(drv, prob, Ghost(pt), res, &f, &b, &r_aff);
    if !(is_all_finite(&aff.ds) && is_all_finite(&aff.dy) && is_all_finite(&aff.dx)) {
        return Go::ExitAfter;
    }
    let a_s: T = step_length_of(ops, prob, &ws.s, &aff.ds);
    let a_y: T = step_length_of(ops, prob, &ws.y, &aff.dy);
    let mu_aff: T = affine_mu_of(ws, &aff, a_s, a_y);
    let sigma: T = aho_sigma_of(drv, mu, mu_aff);
    let second: Vec<T> = jordan_per_cone(ops, &aff.dy, &aff.ds, &prob.cones);
    let e: Vec<T> = per_cone_e(ws.s.len(), &prob.cones);
    let es: Vec<T> = vec_scale(&e, sigma * mu);
    let rs: Vec<T> = vec_add(&r_aff, &second);
    let r_c: Vec<T> = vec_sub(&rs, &es);
    let d: StepVecs<T> = aho_direction_of(drv, prob, Ghost(pt), res, &f, &b, &r_c);
    if !is_direction_finite(&d) {
        return Go::ExitAfter;
    }
    let alpha_s: T = step_length_of(ops, prob, &ws.s, &d.ds);
    let alpha_y: T = step_length_of(ops, prob, &ws.y, &d.dy);
    move_point(drv, ops, prob, ws, &d, alpha_s, alpha_y)
}

/// Centering of the Nesterov-Todd direction: the affine reduction to a power that
/// grows with the affine step lengths.
pub open spec fn nt_sigma<T: Real, C: Numerics<T>>(
    drv: Driver<T>,
    ops: &C,
    mu: T,
    mu_aff: T,
    alpha_s: T,
    alpha_y: T,
) -> T {
    let am = smaller(alpha_s, alpha_y);
    let e = if greater(mu, ratio::<T>(1, 1_000_000)) {
        larger(num::<T>(1), times(times(num::<T>(3), am), am))
    } else {
        num::<T>(1)
    };
    if greater(mu, drv.limits.tiny) {
        centered(pow_of(ops, over(mu_aff, mu), e))
    } else {
        num::<T>(1)
    }
}

fn nt_sigma_of<T: Real, C: Numerics<T>>(
    drv: Driver<T>,
    ops: &C,
    mu: T,
    mu_aff: T,
    alpha_s: T,
    alpha_y: T,
) -> (s: T)
    requires
        real_ops::<T>(),
        functions_repeatable(ops),
    ensures
        s == nt_sigma(drv, ops, mu, mu_aff, alpha_s, alpha_y),
{
    let one: T = number(1);
    if mu > drv.limits.tiny {
        let r: T = mu_aff / mu;
        let am: T = min(alpha_s, alpha_y);
        let three: T = number(3);
        let bound: T = fraction(1, 1_000_000);
        let e: T = if mu > bound {
            max(one, three * am * am)
        } else {
            one
        };
        center(pow_with(ops, r, e))
    } else {
        one
    }
}

/// The vector `omega` of the way from `a` to `c`.
pub open spec fn blended<T: Real>(a: Seq<T>, c: Seq<T>, omega: T) -> Seq<T> {
    vadd(a, vscale(vsub(c, a), omega))
}

fn blend<T: Real>(a: &Vec<T>, c: &Vec<T>, omega: T) -> (r: Vec<T>)
    requires
        real_ops::<T>(),
        a@.len() == c@.len(),
    ensures
        r@ == blended(a@, c@, omega),
        r@.len() == a@.len(),
{
    let d: Vec<T> = vec_sub(c, a);
    let t: Vec<T> = vec_scale(&d, omega);
    vec_add(a, &t)
}

/// The direction `omega` of the way from the predictor to the corrector.
pub open spec fn blended_direction<T: Real>(
    a: Direction<T>,
    c: Direction<T>,
    omega: T,
) -> Direction<T> {
    Direction {
        dx: blended(a.dx, c.dx, omega),
        dl: blended(a.dl, c.dl, omega),
        ds: blended(a.ds, c.ds, omega),
        dy: blended(a.dy, c.dy, omega),
    }
}

/// A corrector weight with the steps to the boundary that it allows.
pub struct Weight<T> {
    pub omega: T,
    /// The smaller of the two steps.
    pub obj: T,
    pub raw_s: T,
    pub raw_y: T,
}

/// The best of the weights `0/5, 1/5, ..` below `k/5`: the first with the largest
/// finite step to the boundary, weight one with no step where there is none.
pub open spec fn weight_upto<T: Real, C: ConeOps<T>>(
    ops: &C,
    prob: &SocpProblem<T>,
    pt: Point<T>,
    a: Direction<T>,
    c: Direction<T>,
    k: nat,
) -> Weight<T>
    decreases k,
{
    if k == 0 {
        Weight {
            omega: num::<T>(1),
            obj: negated(unbounded::<T>()),
            raw_s: num::<T>(0),
            raw_y: num::<T>(0),
        }
    } else {
        let prev = weight_upto(ops, prob, pt, a, c, (k - 1) as nat);
        let omega = ratio::<T>((k - 1) as u32, 5);
        let nc = prob.cones@.len();
        let raw_s = step_upto(ops, pt.s, blended(a.ds, c.ds, omega), prob.cones@, nc);
        let raw_y = step_upto(ops, pt.y, blended(a.dy, c.dy, omega), prob.cones@, nc);
        let obj = smaller(raw_s, raw_y);
        if finite(num::<T>(0), obj) && greater(obj, prev.obj) {
            Weight { omega, obj, raw_s, raw_y }
        } else {
            prev
        }
    }
}

fn best_weight<T: Real, C: ConeOps<T>>(
    ops: &C,
    prob: &SocpProblem<T>,
    ws: &SocpWorkspace<T>,
    a: &StepVecs<T>,
    c: &StepVecs<T>,
) -> (w: Weight<T>)
    requires
        real_ops::<T>(),
        cones_repeatable(ops),
        cones_within(prob.cones@, prob.h@.len() as int),
        point_fits(prob, ws@),
        a.fits(prob),
        c.fits(prob),
    ensures
        w == weight_upto(ops, prob, ws@, a@, c@, 6),
{
    let zero: T = number(0);
    let inf: T = fraction(1, 0);
    let mut w: Weight<T> = Weight { omega: number(1), obj: inf.neg(), raw_s: zero, raw_y: zero };
    let mut k: u32 = 0;
    while k < 6
        invariant
            real_ops::<T>(),
            cones_repeatable(ops),
            cones_within(prob.cones@, prob.h@.len() as int),
            point_fits(prob, ws@),
            a.fits(prob),
            c.fits(prob),
            zero == num::<T>(0),
            k <= 6,
            w == weight_upto(ops, prob, ws@, a@, c@, k as nat),
        decreases 6 - k,
    {
        let omega: T = fraction(k, 5);
        let ds: Vec<T> = blend(&a.ds, &c.ds, omega);
        let dy: Vec<T> = blend(&a.dy, &c.dy, omega);
        let raw_s: T = max_step_all_cones(ops, &ws.s, &ds, &prob.cones);
        let raw_y: T = max_step_all_cones(ops, &ws.y, &dy, &prob.cones);
        let obj: T = min(raw_s, raw_y);
        if is_finite(zero, obj) && obj > w.obj {
            w = Weight { omega, obj, raw_s, raw_y };
        }
        k = k + 1;
    }
    w
}

/// Fraction of the step to the boundary that is taken: between nine tenths and the
/// fixed fraction.
pub open spec fn adaptive_backoff<T: Real>(raw_s: T, raw_y: T) -> T {
    smaller(
        plus(ratio::<T>(9, 10), times(ratio::<T>(9, 100), smaller(raw_s, raw_y))),
        backoff::<T>(),
    )
}

/// The scaled cone term of the corrector.
pub open spec fn nt_corrector_term<T: Real, C: ConeOps<T>>(
    ops: &C,
    prob: &SocpProblem<T>,
    pt: Point<T>,
    b: NtModel<T>,
    aff: Direction<T>,
    sigma_mu: T,
) -> Seq<T> {
    let z = num::<T>(0);
    let nc = prob.cones@.len();
    let second = jordan_upto(
        ops,
        mat_vec(z, b.w, aff.ds),
        vsub(mat_vec(z, b.w, moved_residual(prob, pt, aff.dx)), b.s_scaled),
        prob.cones@,
        nc,
    );
    vsub(
        vadd(b.s_scaled, mat_vec(z, b.arrow_inv, second)),
        vscale(
            mat_vec(z, b.arrow_inv, identity_upto::<T>(pt.s.len() as int, prob.cones@, nc)),
            sigma_mu,
        ),
    )
}

fn nt_corrector_term_of<T: Real, C: ConeOps<T>>(
    drv: Driver<T>,
    ops: &C,
    prob: &SocpProblem<T>,
    Ghost(pt): Ghost<Point<T>>,
    res: &Residuals<T>,
    b: &NtBlocks<T>,
    aff: &StepVecs<T>,
    sigma_mu: T,
) -> (r: Vec<T>)
    requires
        real_ops::<T>(),
        cones_repeatable(ops),
        fits(drv, prob),
        point_fits(prob, pt),
        res.of(prob, pt),
        b.sized(prob.h@.len() as int),
        aff.fits(prob),
    ensures
        r@ == nt_corrector_term(ops, prob, pt, b@, aff@, sigma_mu),
        r@.len() == prob.h@.len(),
{
    let z: T = number(0);
    let ds: Vec<T> = mat_times_vec(z, &b.w, &aff.ds);
    let gdx: Vec<T> = mat_times_vec(z, &prob.g_mat, &aff.dx);
    let moved: Vec<T> = vec_add(&res.r_g, &gdx);
    let wm: Vec<T> = mat_times_vec(z, &b.w, &moved);
    let dy: Vec<T> = vec_sub(&wm, &b.s_scaled);
    let second: Vec<T> = jordan_per_cone(ops, &ds, &dy, &prob.cones);
    let inv_second: Vec<T> = mat_times_vec(z, &b.arrow_inv, &second);
    let e: Vec<T> = per_cone_e(prob.h.len(), &prob.cones);
    let inv_e: Vec<T> = mat_times_vec(z, &b.arrow_inv, &e);
    let t: Vec<T> = vec_add(&b.s_scaled, &inv_second);
    let c: Vec<T> = vec_scale(&inv_e, sigma_mu);
    vec_sub(&t, &c)
}

/// One iteration with the Nesterov-Todd direction, from a point with
/// complementarity `mu`.
#[verifier::opaque]
pub open spec fn nt_step<T: Real, C: ConeOps<T>>(
    drv: Driver<T>,
    ops: &C,
    prob: &SocpProblem<T>,
    pt: Point<T>,
    mu: T,
) -> StepModel<T> {
    let cones = prob.cones@;
    let nc = cones.len();
    match nt_upto(ops, pt.s, pt.y, cones, nc) {
        None => StepModel { pt, go: Go::ExitBefore },
        Some(b) => match kkt_factor_model(
            units::<T>(),
            drv.limits,
            ops,
            prob,
            drv.n as int,
            drv.free_tf,
            b.w2,
            hessian_reg::<T>(),
        ) {
            None => StepModel { pt, go: Go::ExitBefore },
            Some(f) => {
                let aff = nt_direction(drv, prob, pt, f, b, b.s_scaled);
                let a_s = step_length(ops, prob, pt.s, aff.ds);
                let a_y = step_length(ops, prob, pt.y, aff.dy);
                let sigma = nt_sigma(drv, ops, mu, affine_mu(pt, aff, a_s, a_y), a_s, a_y);
                let r_c = nt_corrector_term(ops, prob, pt, b, aff, times(sigma, mu));
                let cor = nt_direction(drv, prob, pt, f, b, r_c);
                let w = weight_upto(ops, prob, pt, aff, cor, 6);
                let gamma = adaptive_backoff(w.raw_s, w.raw_y);
                let next = moved(
                    pt,
                    blended_direction(aff, cor, w.omega),
                    clipped(times(gamma, w.raw_s)),
                    clipped(times(gamma, w.raw_y)),
                );
                if !direction_finite(aff) {
                    StepModel { pt, go: Go::ExitAfter }
                } else if !direction_finite(cor) {
                    StepModel { pt, go: Go::ExitAfter }
                } else if sound(drv, ops, prob, next) {
                    StepModel { pt: next, go: Go::On }
                } else {
                    StepModel { pt: next, go: Go::ExitAfter }
                }
            },
        },
    }
}

fn take_nt_step<T: Real, C: ConeOps<T>>(
    drv: Driver<T>,
    ops: &C,
    prob: &SocpProblem<T>,
    ws: &mut SocpWorkspace<T>,
    res: &Residuals<T>,
    mu: T,
) -> (go: Go)
    requires
        real_ops::<T>(),
        cones_repeatable(ops),
        fits(drv, prob),
        prob.cones_fit(prob.h@.len() as int),
        point_fits(prob, old(ws)@),
        res.of(prob, old(ws)@),
    ensures
        (StepModel { pt: final(ws)@, go }) == nt_step(drv, ops, prob, old(ws)@, mu),
        point_fits(prob, final(ws)@),
{
    reveal(nt_step);
    let ghost pt = ws@;
    let b: NtBlocks<T> = match build_per_cone_nt_blocks(ops, &ws.s, &ws.y, &prob.cones) {
        Some(b) => b,
        None => {
            return Go::ExitBefore;
        },
    };
    let reg: T = fraction(1, 100_000_000);
    let f: KktFactor<T> = match kkt_factor(
        units_of(),
        drv.limits,
        ops,
        prob,
        drv.n,
        drv.free_tf,
        &b.w2,
        reg,
    ) {
        Some(f) => f,
        None => {
            return Go::ExitBefore;
        },
    };
    let aff: StepVecs<T> = nt_direction_of(drv, prob, Ghost(pt), res, &f, &b, &b.s_scaled);
    if !is_direction_finite(&aff) {
        return Go::ExitAfter;
    }
    let a_s: T = step_length_of(ops, prob, &ws.s, &aff.ds);
    let a_y: T = step_length_of(ops, prob, &ws.y, &aff.dy);
    let mu_aff: T = affine_mu_of(ws, &aff, a_s, a_y);
    let sigma: T = nt_sigma_of(drv, ops, mu, mu_aff, a_s, a_y);
    let r_c: Vec<T> = nt_corrector_term_of(
        drv,
        ops,
        prob,
        Ghost(pt),
        res,
        &b,
        &aff,
        sigma * mu,
    );
    let cor: StepVecs<T> = nt_direction_of(drv, prob, Ghost(pt), res, &f, &b, &r_c);
    if !is_direction_finite(&cor) {
        return Go::ExitAfter;
    }
    let w: Weight<T> = best_weight(ops, prob, ws, &aff, &cor);
    let d: StepVecs<T> = StepVecs {
        dx: blend(&aff.dx, &cor.dx, w.omega),
        dl: blend(&aff.dl, &cor.dl, w.omega),
        ds: blend(&aff.ds, &cor.ds, w.omega),
        dy: blend(&aff.dy, &cor.dy, w.omega),
    };
    let base: T = fraction(9, 10);
    let gain: T = fraction(9, 100);
    let gamma: T = min(base + gain * min(w.raw_s, w.raw_y), fraction(99, 100));
    let alpha_s: T = clip01(gamma * w.raw_s);
    let alpha_y: T = clip01(gamma * w.raw_y);
    move_point(drv, ops, prob, ws, &d, alpha_s, alpha_y)
}

// ---- the loop ----

/// The tolerance below which a snapshot counts as nearly feasible: the square root
/// of the tolerance asked for, and at least `1e-5`.
pub open spec fn loose<T: Real, C: Numerics<T>>(ops: &C, tol: T) -> T {
    larger(root_of(ops, larger(tol, num::<T>(0))), ratio::<T>(1, 100_000))
}

/// The tolerance below which a snapshot counts as nearly feasible.
pub fn loosened<T: Real, C: Numerics<T>>(ops: &C, tol: T) -> (r: T)
    requires
        real_ops::<T>(),
        functions_repeatable(ops),
    ensures
        r == loose(ops, tol),
{
    let zero: T = number(0);
    max(sqrt_with(ops, max(tol, zero)), fraction(1, 100_000))
}

/// Entries that are not finite replaced by zero.
pub open spec fn scrubbed<T: Real>(v: Seq<T>) -> Seq<T> {
    Seq::new(
        v.len(),
        |i: int|
            if finite(num::<T>(0), v[i]) {
                v[i]
            } else {
                num::<T>(0)
            },
    )
}

fn scrub<T: Real>(v: &Vec<T>) -> (r: Vec<T>)
    requires
        real_ops::<T>(),
    ensures
        r@ == scrubbed(v@),
{
    let z: T = number(0);
    let mut r: Vec<T> = Vec::new();
    let mut i: usize = 0;
    while i < v.len()
        invariant
            real_ops::<T>(),
            z == num::<T>(0),
            i <= v@.len(),
            r@.len() == i,
            forall|k: int| 0 <= k < i ==> r@[k] == #[trigger] scrubbed(v@)[k],
        decreases v.len() - i,
    {
        let x: T = v[i];
        r.push(
            if is_finite(z, x) {
                x
            } else {
                z
            },
        );
        i = i + 1;
    }
    assert(r@ =~= scrubbed(v@));
    r
}

/// Every entry of a point is finite.
pub open spec fn point_finite<T: Real>(pt: Point<T>) -> bool {
    all_finite(pt.x) && all_finite(pt.lambda) && all_finite(pt.s) && all_finite(pt.y)
}

/// What is returned of a point that is no solution: its finite part, with a
/// numerical error where that is not all of it.
pub open spec fn exit_result<T: Real>(pt: Point<T>, status: IpmStatus, iter: u32) -> ResultModel<
    T,
> {
    ResultModel {
        point: Point {
            x: scrubbed(pt.x),
            lambda: scrubbed(pt.lambda),
            s: scrubbed(pt.s),
            y: scrubbed(pt.y),
        },
        status: if point_finite(pt) {
            status
        } else {
            IpmStatus::NumericalError
        },
        iters: iter,
    }
}

/// The finite part of the point a solve gave up at.
pub fn numerical_exit<T: Real>(
    ws: &SocpWorkspace<T>,
    status: IpmStatus,
    iter: u32,
) -> (r: SocpResult<T>)
    requires
        real_ops::<T>(),
    ensures
        r@ == exit_result(ws@, status, iter),
{
    let clean: bool = is_all_finite(&ws.x) && is_all_finite(&ws.lambda) && is_all_finite(&ws.s)
        && is_all_finite(&ws.y);
    SocpResult {
        x: scrub(&ws.x),
        lambda: scrub(&ws.lambda),
        s: scrub(&ws.s),
        y: scrub(&ws.y),
        status: if clean {
            status
        } else {
            IpmStatus::NumericalError
        },
        iters: iter,
    }
}

/// A nearly feasible iterate with its complementarity.
#[verifier::ext_equal]
pub struct Snapshot<T> {
    pub pt: Point<T>,
    pub mu: T,
}

/// A nearly feasible iterate with its complementarity.
pub struct SnapshotVecs<T> {
    pub ws: SocpWorkspace<T>,
    pub mu: T,
}

/// The snapshot held, if any.
pub open spec fn snapshot_view<T>(best: Option<SnapshotVecs<T>>) -> Option<Snapshot<T>> {
    match best {
        Some(b) => Some(Snapshot { pt: b.ws@, mu: b.mu }),
        None => None,
    }
}

/// A copy of a point.
pub fn copy_point<T: Copy>(ws: &SocpWorkspace<T>) -> (r: SocpWorkspace<T>)
    ensures
        r@ == ws@,
{
    SocpWorkspace {
        x: copy_vec(&ws.x),
        lambda: copy_vec(&ws.lambda),
        s: copy_vec(&ws.s),
        y: copy_vec(&ws.y),
    }
}

/// A point returned as a result.
pub fn result_at<T>(ws: SocpWorkspace<T>, status: IpmStatus, iters: u32) -> (r: SocpResult<T>)
    ensures
        r@ == (ResultModel { point: ws@, status, iters }),
{
    SocpResult { x: ws.x, lambda: ws.lambda, s: ws.s, y: ws.y, status, iters }
}

/// The complementarity a new snapshot has to beat.
pub open spec fn best_mu<T: Real>(best: Option<Snapshot<T>>) -> T {
    match best {
        Some(b) => b.mu,
        None => unbounded::<T>(),
    }
}

/// The snapshot exists and its complementarity is below `bound`.
pub open spec fn good_enough<T: Real>(best: Option<Snapshot<T>>, bound: T) -> bool {
    best is Some && less(best_mu(best), bound)
}

/// What a solve returned, with the point it left in the workspace.
#[verifier::ext_equal]
pub struct Outcome<T> {
    pub result: ResultModel<T>,
    pub pt: Point<T>,
}

/// The end of a solve that goes no further: the snapshot where there is one, else
/// the finite part of the current point with the status given.
pub open spec fn give_up<T: Real>(
    best: Option<Snapshot<T>>,
    pt: Point<T>,
    status: IpmStatus,
    iter: u32,
) -> Outcome<T> {
    Outcome {
        result: match best {
            Some(b) => ResultModel { point: b.pt, status: IpmStatus::BestFeasible, iters: iter },
            None => exit_result(pt, status, iter),
        },
        pt,
    }
}

/// The end of a solve that goes no further.
pub fn give_up_at<T: Real>(
    best: Option<SnapshotVecs<T>>,
    ws: &SocpWorkspace<T>,
    status: IpmStatus,
    iter: u32,
) -> (r: SocpResult<T>)
    requires
        real_ops::<T>(),
    ensures
        r@ == give_up(snapshot_view(best), ws@, status, iter).result,
{
    match best {
        Some(b) => result_at(b.ws, IpmStatus::BestFeasible, iter),
        None => numerical_exit(ws, status, iter),
    }
}

/// Where a solve stands at the start of an iteration.
#[verifier::ext_equal]
pub struct Progress<T> {
    pub pt: Point<T>,
    /// The point of the iteration before.
    pub prev_x: Seq<T>,
    pub prev_y: Seq<T>,
    pub best: Option<Snapshot<T>>,
}

/// Primal residual: the norms of both primal residuals added.
pub open spec fn primal_norm<T: Real, C: Numerics<T>>(
    ops: &C,
    prob: &SocpProblem<T>,
    pt: Point<T>,
) -> T {
    plus(norm(ops, equality_residual(prob, pt)), norm(ops, cone_residual(prob, pt)))
}

/// All three tolerances are met.
pub open spec fn optimal<T: Real, C: Numerics<T>>(
    ops: &C,
    prob: &SocpProblem<T>,
    params: IpmAlgoParams<T>,
    pt: Point<T>,
) -> bool {
    &&& less(complementarity(pt), params.tol_mu)
    &&& less(primal_norm(ops, prob, pt), params.tol_primal)
    &&& less(norm(ops, dual_residual(prob, pt)), params.tol_dual)
}

/// The snapshot after looking at `pt`: `pt` itself where it is nearly feasible and
/// its complementarity is finite, not negative and smaller.
pub open spec fn refreshed<T: Real, C: Numerics<T>>(
    ops: &C,
    prob: &SocpProblem<T>,
    params: IpmAlgoParams<T>,
    pt: Point<T>,
    best: Option<Snapshot<T>>,
) -> Option<Snapshot<T>> {
    let mu = complementarity(pt);
    if less(norm(ops, dual_residual(prob, pt)), loose(ops, params.tol_dual)) && less(
        primal_norm(ops, prob, pt),
        loose(ops, params.tol_primal),
    ) && finite(num::<T>(0), mu) && at_least(mu, num::<T>(0)) && less(mu, best_mu(best)) {
        Some(Snapshot { pt, mu })
    } else {
        best
    }
}

/// The point did not move in the last iteration.
pub open spec fn stalled<T: Real, C: Numerics<T>>(ops: &C, st: Progress<T>) -> bool {
    &&& less(norm(ops, vsub(st.pt.x, st.prev_x)), ratio::<T>(1, 1_000_000_000))
    &&& less(norm(ops, vsub(st.pt.y, st.prev_y)), ratio::<T>(1, 1_000_000_000))
}

/// One iteration of the driver's direction.
pub open spec fn step<T: Real, C: ConeOps<T>>(
    drv: Driver<T>,
    ops: &C,
    prob: &SocpProblem<T>,
    pt: Point<T>,
) -> StepModel<T> {
    if drv.nt {
        nt_step(drv, ops, prob, pt, complementarity(pt))
    } else {
        aho_step(drv, ops, prob, pt, complementarity(pt))
    }
}

/// What a solve returns from iteration `iter` on.
pub open spec fn run<T: Real, C: ConeOps<T>>(
    drv: Driver<T>,
    ops: &C,
    prob: &SocpProblem<T>,
    params: IpmAlgoParams<T>,
    st: Progress<T>,
    iter: u32,
    cap: u32,
) -> Outcome<T>
    decreases cap - iter,
{
    if iter >= cap {
        give_up(st.best, st.pt, IpmStatus::IterCap, cap)
    } else if optimal(ops, prob, params, st.pt) {
        Outcome {
            result: ResultModel { point: st.pt, status: IpmStatus::Optimal, iters: iter },
            pt: st.pt,
        }
    } else {
        let best = refreshed(ops, prob, params, st.pt, st.best);
        let after = (iter + 1) as u32;
        let s = step(drv, ops, prob, st.pt);
        if (iter > 2 || (iter > 0 && stalled(ops, st))) && good_enough(
            best,
            loose(ops, params.tol_mu),
        ) {
            give_up(best, st.pt, IpmStatus::BestFeasible, iter)
        } else {
            match s.go {
                Go::ExitBefore => give_up(best, s.pt, IpmStatus::NumericalError, iter),
                Go::ExitAfter => give_up(best, s.pt, IpmStatus::NumericalError, after),
                Go::On => run(
                    drv,
                    ops,
                    prob,
                    params,
                    Progress { pt: s.pt, prev_x: st.pt.x, prev_y: st.pt.y, best },
                    after,
                    cap,
                ),
            }
        }
    }
}

/// The point a solve starts from: the origin with slacks and multipliers made of
/// `h`, or the given `x` and `lambda` with slacks made of `h - G x`.
pub open spec fn starting_point<T: Real, C: Numerics<T>>(
    ops: &C,
    prob: &SocpProblem<T>,
    warm: bool,
    pt: Point<T>,
) -> Point<T> {
    let z = num::<T>(0);
    let nc = prob.cones@.len();
    let hy = warm_upto(ops, prob.h@, prob.cones@, nc);
    if warm {
        Point {
            x: pt.x,
            lambda: pt.lambda,
            s: warm_upto(ops, vsub(prob.h@, mat_vec(z, prob.g_mat@, pt.x)), prob.cones@, nc),
            y: hy,
        }
    } else {
        Point {
            x: constant(z, prob.c@.len() as int),
            lambda: constant(z, prob.b@.len() as int),
            s: hy,
            y: hy,
        }
    }
}

/// Moves the workspace to the point a solve starts from.
pub fn start<T: Real, C: Numerics<T>>(
    ops: &C,
    prob: &SocpProblem<T>,
    warm: bool,
    ws: &mut SocpWorkspace<T>,
)
    requires
        real_ops::<T>(),
        functions_repeatable(ops),
        shaped(prob.g_mat@, prob.h@.len() as int, prob.c@.len() as int),
        cones_within(prob.cones@, prob.h@.len() as int),
        warm ==> old(ws)@.x.len() == prob.c@.len(),
    ensures
        final(ws)@ == starting_point(ops, prob, warm, old(ws)@),
        !warm || old(ws)@.lambda.len() == prob.b@.len() ==> point_fits(prob, final(ws)@),
{
    let z: T = number(0);
    if warm {
        let gx: Vec<T> = mat_times_vec(z, &prob.g_mat, &ws.x);
        let target: Vec<T> = vec_sub(&prob.h, &gx);
        ws.s = init_per_cone_warm_start(ops, &target, &prob.cones);
    } else {
        ws.x = fill_vec(z, prob.c.len());
        ws.lambda = fill_vec(z, prob.b.len());
        ws.s = init_per_cone_warm_start(ops, &prob.h, &prob.cones);
    }
    ws.y = init_per_cone_warm_start(ops, &prob.h, &prob.cones);
}

/// The iteration cap in force.
pub open spec fn iteration_cap(asked: u32, hard: u32) -> u32 {
    if asked < hard {
        asked
    } else {
        hard
    }
}

/// What a whole solve returns.
pub open spec fn solved<T: Real, C: ConeOps<T>>(
    drv: Driver<T>,
    ops: &C,
    prob: &SocpProblem<T>,
    params: IpmAlgoParams<T>,
    pt: Point<T>,
) -> Outcome<T> {
    let from = starting_point(ops, prob, params.warm_start_x, pt);
    run(
        drv,
        ops,
        prob,
        params,
        Progress { pt: from, prev_x: from.x, prev_y: from.y, best: None },
        0,
        iteration_cap(params.max_iters, drv.hard_max_iters),
    )
}

/// The tolerances of a solve, with those that make a snapshot.
struct Bounds<T> {
    tol_mu: T,
    tol_primal: T,
    tol_dual: T,
    loose_mu: T,
    loose_primal: T,
    loose_dual: T,
}

impl<T: Real> Bounds<T> {
    spec fn of<C: Numerics<T>>(&self, ops: &C, params: IpmAlgoParams<T>) -> bool {
        &&& self.tol_mu == params.tol_mu
        &&& self.tol_primal == params.tol_primal
        &&& self.tol_dual == params.tol_dual
        &&& self.loose_mu == loose(ops, params.tol_mu)
        &&& self.loose_primal == loose(ops, params.tol_primal)
        &&& self.loose_dual == loose(ops, params.tol_dual)
    }
}

fn bounds_of<T: Real, C: Numerics<T>>(ops: &C, params: &IpmAlgoParams<T>) -> (b: Bounds<T>)
    requires
        real_ops::<T>(),
        functions_repeatable(ops),
    ensures
        b.of(ops, *params),
{
    Bounds {
        tol_mu: params.tol_mu,
        tol_primal: params.tol_primal,
        tol_dual: params.tol_dual,
        loose_mu: loosened(ops, params.tol_mu),
        loose_primal: loosened(ops, params.tol_primal),
        loose_dual: loosened(ops, params.tol_dual),
    }
}

/// The measures the termination tests look at.
struct Measures<T> {
    mu: T,
    primal: T,
    dual: T,
}

impl<T: Real> Measures<T> {
    spec fn of<C: Numerics<T>>(&self, ops: &C, prob: &SocpProblem<T>, pt: Point<T>) -> bool {
        &&& self.mu == complementarity(pt)
        &&& self.primal == primal_norm(ops, prob, pt)
        &&& self.dual == norm(ops, dual_residual(prob, pt))
    }
}

fn measures_of<T: Real, C: Numerics<T>>(
    ops: &C,
    prob: &SocpProblem<T>,
    ws: &SocpWorkspace<T>,
    res: &Residuals<T>,
) -> (m: Measures<T>)
    requires
        real_ops::<T>(),
        functions_repeatable(ops),
        point_fits(prob, ws@),
        prob.h@.len() <= u32::MAX,
        res.of(prob, ws@),
    ensures
        m.of(ops, prob, ws@),
{
    let zero: T = number(0);
    let count: T = number(ws.s.len() as u32);
    Measures {
        mu: dot_product(zero, &ws.s, &ws.y) / count,
        primal: norm_of(ops, &res.r_a) + norm_of(ops, &res.r_g),
        dual: norm_of(ops, &res.r_x),
    }
}

/// Replaces the snapshot where the current point is better.
fn refresh<T: Real, C: Numerics<T>>(
    Ghost(ops): Ghost<&C>,
    Ghost(prob): Ghost<&SocpProblem<T>>,
    Ghost(params): Ghost<IpmAlgoParams<T>>,
    b: &Bounds<T>,
    m: &Measures<T>,
    ws: &SocpWorkspace<T>,
    best: &mut Option<SnapshotVecs<T>>,
)
    requires
        real_ops::<T>(),
        b.of(ops, params),
        m.of(ops, prob, ws@),
    ensures
        snapshot_view(*final(best)) == refreshed(ops, prob, params, ws@, snapshot_view(*old(best))),
{
    let zero: T = number(0);
    let known: T = match &*best {
        Some(b) => b.mu,
        None => fraction(1, 0),
    };
    if m.dual < b.loose_dual && m.primal < b.loose_primal && is_finite(zero, m.mu) && m.mu >= zero
        && m.mu < known {
        *best = Some(SnapshotVecs { ws: copy_point(ws), mu: m.mu });
    }
}

fn is_stalled<T: Real, C: Numerics<T>>(
    ops: &C,
    ws: &SocpWorkspace<T>,
    prev_x: &Vec<T>,
    prev_y: &Vec<T>,
    Ghost(st): Ghost<Progress<T>>,
) -> (r: bool)
    requires
        real_ops::<T>(),
        functions_repeatable(ops),
        st.pt == ws@,
        st.prev_x == prev_x@,
        st.prev_y == prev_y@,
        ws@.x.len() == prev_x@.len(),
        ws@.y.len() == prev_y@.len(),
    ensures
        r == stalled(ops, st),
{
    let tick: T = fraction(1, 1_000_000_000);
    let dx: Vec<T> = vec_sub(&ws.x, prev_x);
    let dy: Vec<T> = vec_sub(&ws.y, prev_y);
    norm_of(ops, &dx) < tick && norm_of(ops, &dy) < tick
}

fn is_good_enough<T: Real>(best: &Option<SnapshotVecs<T>>, bound: T) -> (r: bool)
    requires
        real_ops::<T>(),
    ensures
        r == good_enough(snapshot_view(*best), bound),
{
    match best {
        Some(b) => b.mu < bound,
        None => false,
    }
}

/// A solve by the driver described.
pub fn solve_with<T: Real, C: ConeOps<T>>(
    drv: Driver<T>,
    ops: &C,
    prob: &SocpProblem<T>,
    params: &IpmAlgoParams<T>,
    ws: &mut SocpWorkspace<T>,
) -> (r: SocpResult<T>)
    requires
        real_ops::<T>(),
        cones_repeatable(ops),
        fits(drv, prob),
        point_fits(prob, old(ws)@),
    ensures
        r@ == solved(drv, ops, prob, *params, old(ws)@).result,
        final(ws)@ == solved(drv, ops, prob, *params, old(ws)@).pt,
        point_fits(prob, final(ws)@),
        point_fits(prob, r@.point),
{
    start(ops, prob, params.warm_start_x, ws);
    let b: Bounds<T> = bounds_of(ops, params);
    let cap: u32 = if params.max_iters < drv.hard_max_iters {
        params.max_iters
    } else {
        drv.hard_max_iters
    };
    let mut best: Option<SnapshotVecs<T>> = None;
    let mut prev_x: Vec<T> = copy_vec(&ws.x);
    let mut prev_y: Vec<T> = copy_vec(&ws.y);
    let ghost goal = solved(drv, ops, prob, *params, old(ws)@);
    let mut iter: u32 = 0;
    while iter < cap
        invariant
            real_ops::<T>(),
            cones_repeatable(ops),
            fits(drv, prob),
            point_fits(prob, ws@),
            snapshot_view(best) matches Some(s) ==> point_fits(prob, s.pt),
            b.of(ops, *params),
            prev_x@.len() == prob.c@.len(),
            prev_y@.len() == prob.h@.len(),
            iter <= cap,
            goal == solved(drv, ops, prob, *params, old(ws)@),
            goal == run(
                drv,
                ops,
                prob,
                *params,
                Progress {
                    pt: ws@,
                    prev_x: prev_x@,
                    prev_y: prev_y@,
                    best: snapshot_view(best),
                },
                iter,
                cap,
            ),
        decreases cap - iter,
    {
        let ghost st = Progress {
            pt: ws@,
            prev_x: prev_x@,
            prev_y: prev_y@,
            best: snapshot_view(best),
        };
        let res: Residuals<T> = residuals_of(drv, prob, ws);
        let m: Measures<T> = measures_of(ops, prob, ws, &res);
        if m.mu < b.tol_mu && m.primal < b.tol_primal && m.dual < b.tol_dual {
            let at: SocpWorkspace<T> = copy_point(ws);
            return result_at(at, IpmStatus::Optimal, iter);
        }
        refresh::<T, C>(Ghost(ops), Ghost(prob), Ghost(*params), &b, &m, ws, &mut best);
        let still: bool = is_stalled(ops, ws, &prev_x, &prev_y, Ghost(st));
        if (iter > 2 || (iter > 0 && still)) && is_good_enough(&best, b.loose_mu) {
            return give_up_at(best, ws, IpmStatus::BestFeasible, iter);
        }
        prev_x = copy_vec(&ws.x);
        prev_y = copy_vec(&ws.y);
        let go: Go = if drv.nt {
            take_nt_step(drv, ops, prob, ws, &res, m.mu)
        } else {
            take_aho_step(drv, ops, prob, ws, &res, m.mu)
        };
        match go {
            Go::ExitBefore => {
                return give_up_at(best, ws, IpmStatus::NumericalError, iter);
            },
            Go::ExitAfter => {
                return give_up_at(best, ws, IpmStatus::NumericalError, iter + 1);
            },
            Go::On => {
                iter = iter + 1;
            },
        }
    }
    give_up_at(best, ws, IpmStatus::IterCap, cap)
}

/// Solves the fixed-time cone program with the symmetric direction.
pub fn solve_socp_structured<T: Real, C: ConeOps<T>>(
    limits: Limits<T>,
    hard_max_iters: u32,
    ops: &C,
    n: usize,
    prob: &SocpProblem<T>,
    params: &IpmAlgoParams<T>,
    ws: &mut SocpWorkspace<T>,
) -> (r: SocpResult<T>)
    requires
        real_ops::<T>(),
        cones_repeatable(ops),
        fits((Driver { n, free_tf: false, nt: false, limits, hard_max_iters }), prob),
        point_fits(prob, old(ws)@),
    ensures
        (Outcome { result: r@, pt: final(ws)@ }) == solved(
            (Driver { n, free_tf: false, nt: false, limits, hard_max_iters }),
            ops,
            prob,
            *params,
            old(ws)@,
        ),
        point_fits(prob, final(ws)@),
        point_fits(prob, r@.point),
{
    solve_with(
        Driver { n, free_tf: false, nt: false, limits, hard_max_iters },
        ops,
        prob,
        params,
        ws,
    )
}

/// Solves the free-time cone program with the symmetric direction.
pub fn solve_socp_structured_free_tf<T: Real, C: ConeOps<T>>(
    limits: Limits<T>,
    hard_max_iters: u32,
    ops: &C,
    n: usize,
    prob: &SocpProblem<T>,
    params: &IpmAlgoParams<T>,
    ws: &mut SocpWorkspace<T>,
) -> (r: SocpResult<T>)
    requires
        real_ops::<T>(),
        cones_repeatable(ops),
        fits((Driver { n, free_tf: true, nt: false, limits, hard_max_iters }), prob),
        point_fits(prob, old(ws)@),
    ensures
        (Outcome { result: r@, pt: final(ws)@ }) == solved(
            (Driver { n, free_tf: true, nt: false, limits, hard_max_iters }),
            ops,
            prob,
            *params,
            old(ws)@,
        ),
        point_fits(prob, final(ws)@),
        point_fits(prob, r@.point),
{
    solve_with(
        Driver { n, free_tf: true, nt: false, limits, hard_max_iters },
        ops,
        prob,
        params,
        ws,
    )
}

/// Solves the fixed-time cone program with the Nesterov-Todd direction.
pub fn solve_socp_structured_nt<T: Real, C: ConeOps<T>>(
    limits: Limits<T>,
    hard_max_iters: u32,
    ops: &C,
    n: usize,
    prob: &SocpProblem<T>,
    params: &IpmAlgoParams<T>,
    ws: &mut SocpWorkspace<T>,
) -> (r: SocpResult<T>)
    requires
        real_ops::<T>(),
        cones_repeatable(ops),
        fits((Driver { n, free_tf: false, nt: true, limits, hard_max_iters }), prob),
        point_fits(prob, old(ws)@),
    ensures
        (Outcome { result: r@, pt: final(ws)@ }) == solved(
            (Driver { n, free_tf: false, nt: true, limits, hard_max_iters }),
            ops,
            prob,
            *params,
            old(ws)@,
        ),
        point_fits(prob, final(ws)@),
        point_fits(prob, r@.point),
{
    solve_with(
        Driver { n, free_tf: false, nt: true, limits, hard_max_iters },
        ops,
        prob,
        params,
        ws,
    )
}

/// Solves the free-time cone program with the Nesterov-Todd direction.
pub fn solve_socp_structured_nt_free_tf<T: Real, C: ConeOps<T>>(
    limits: Limits<T>,
    hard_max_iters: u32,
    ops: &C,
    n: usize,
    prob: &SocpProblem<T>,
    params: &IpmAlgoParams<T>,
    ws: &mut SocpWorkspace<T>,
) -> (r: SocpResult<T>)
    requires
        real_ops::<T>(),
        cones_repeatable(ops),
        fits((Driver { n, free_tf: true, nt: true, limits, hard_max_iters }), prob),
        point_fits(prob, old(ws)@),
    ensures
        (Outcome { result: r@, pt: final(ws)@ }) == solved(
            (Driver { n, free_tf: true, nt: true, limits, hard_max_iters }),
            ops,
            prob,
            *params,
            old(ws)@,
        ),
        point_fits(prob, final(ws)@),
        point_fits(prob, r@.point),
{
    solve_with(
        Driver { n, free_tf: true, nt: true, limits, hard_max_iters },
        ops,
        prob,
        params,
        ws,
    )
}

} // verus!
