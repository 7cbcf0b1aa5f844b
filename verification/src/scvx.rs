//! The successive-convexification loop.
//!
//! Each outer iteration linearizes about the reference, assembles the cone program,
//! scales it, solves it, and weighs the candidate against the true dynamics: it
//! becomes the reference or is refused, and the trust radius follows.
//!
//! Linearization, propagation and the dense inner drivers belong to the vehicle
//! and come in through `Plant`. Nothing is promised about what they return, so the
//! contract of `solve_scvx` is a trace: a sequence of workspaces, one per
//! iteration, each of which follows from the one before by `iteration`, whatever
//! the plant returned.
use crate::algebra::field;
use crate::assemble::{assemble_scvx_socp, is_scvx_socp, scvx_cone_dim, scvx_cone_offset};
use crate::cones::{cones_repeatable, cones_within, is_all_finite, unbounded, ConeOps};
use crate::descent_laws::{inner_solves_exact, joins};
use crate::judgement_laws::{lemma_solve_summary, settled_at, spends_at_most, stays_within};
use crate::layout::{
    spec_ncones, spec_nct, spec_ne, spec_np, workspace_ncones, workspace_nct, workspace_ne,
    workspace_np,
};
use crate::linalg::{
    constant, copy_vec, dot, dot_product, fill_mat, fill_vec, filled, shaped, Mat,
};
use crate::merit::{
    controls_in, copy_trajectory, defect_upto, extract_candidate, extract_controls, fuel_only_cost,
    fuel_upto, holds_candidate, seed_warm_start, seeded, step_norm, step_squares,
    trajectory_defect_l1, virtual_control_norm, virtual_squares,
};
use crate::numerics::{log_of, log_with, root_of};
use crate::precondition::{
    build_cone_scale_diagonal, build_scaling_diagonal, column_scale, columns_scaled, cone_scale,
    entry_scaled, hadamard, quotients, row_scaled, scale_cone_rows_in_place, scale_socp_in_place,
    scale_warm_start_in_place, unscale_solution,
};
use crate::scalar::{
    at_most, clamp, clamped, finite, fraction, greater, is_finite, less, num, number, plus, ratio,
    real_ops, times, units, units_of, Limits, Real,
};
use crate::structured_hsd::{
    hsd_solved, solve_socp_structured_hsd, solve_socp_structured_hsd_free_tf,
};
use crate::structured_socp::{
    copy_point, fits, point_fits, solve_socp_structured, solve_socp_structured_free_tf,
    solve_socp_structured_nt, solve_socp_structured_nt_free_tf, solved, Driver, Outcome,
};
use crate::trust::{
    accepted, at_floor, merit_ratio, next_ceiling, next_trust, rho_ratio, shrink_after_failure,
    shrunk_trust, update_ceiling, update_trust, Ceiling,
};
use crate::types::{
    ConeDesc, IpmAlgoParams, IpmStatus, LinearizedDynamics, PhysicalParams, Point, ResultModel,
    ScvxAlgoParams, ScvxIterRecord, SocpProblem, SocpResult, SocpWorkspace, SolverStatus,
    TerminalCondition, Trajectory,
};
use vstd::prelude::*;

verus! {

/// Integration steps per interval.
pub const RK4_SUBSTEPS: u32 = 4;

/// The vehicle's dynamics, and inner drivers that do not use the problem's
/// structure.
pub trait Plant<T>: ConeOps<T> {
    /// Linearizes the dynamics about `reference`, by first-order hold.
    fn discretize(
        &self,
        reference: &Trajectory<T>,
        phys: &PhysicalParams<T>,
        substeps: u32,
    ) -> LinearizedDynamics<T>;

    /// Integrates the true dynamics from `x0` under the controls `u`; a row per node.
    fn propagate(
        &self,
        x0: &Vec<T>,
        u: &Mat<T>,
        tau: T,
        phys: &PhysicalParams<T>,
        substeps: u32,
    ) -> Mat<T>;

    /// Dense driver with the symmetric direction. Returns the point it leaves, too.
    fn solve_socp(
        &self,
        prob: &SocpProblem<T>,
        params: &IpmAlgoParams<T>,
        ws: SocpWorkspace<T>,
    ) -> (SocpResult<T>, SocpWorkspace<T>);

    /// Dense driver with the Nesterov-Todd direction.
    fn solve_socp_nt(
        &self,
        prob: &SocpProblem<T>,
        params: &IpmAlgoParams<T>,
        ws: SocpWorkspace<T>,
    ) -> (SocpResult<T>, SocpWorkspace<T>);

    /// Dense driver of the homogeneous self-dual embedding.
    fn solve_socp_hsd(
        &self,
        prob: &SocpProblem<T>,
        params: &IpmAlgoParams<T>,
        ws: SocpWorkspace<T>,
    ) -> (SocpResult<T>, SocpWorkspace<T>);
}

/// A dense inner driver.
#[derive(Clone, Copy, PartialEq, Eq, Debug, Structural)]
pub enum Method {
    Symmetric,
    NesterovTodd,
    SelfDual,
}

/// The dense driver `m` can return `o`.
pub open spec fn dense_call<T, P: Plant<T>>(
    plant: &P,
    m: Method,
    prob: &SocpProblem<T>,
    params: &IpmAlgoParams<T>,
    ws: SocpWorkspace<T>,
    o: (SocpResult<T>, SocpWorkspace<T>),
) -> bool {
    match m {
        Method::Symmetric => call_ensures(P::solve_socp, (plant, prob, params, ws), o),
        Method::NesterovTodd => call_ensures(P::solve_socp_nt, (plant, prob, params, ws), o),
        Method::SelfDual => call_ensures(P::solve_socp_hsd, (plant, prob, params, ws), o),
    }
}

/// The dense driver `m`, started from `from`, can return `r` and leave `to`.
pub open spec fn dense_may<T, P: Plant<T>>(
    plant: &P,
    m: Method,
    prob: &SocpProblem<T>,
    params: IpmAlgoParams<T>,
    from: Point<T>,
    r: ResultModel<T>,
    to: Point<T>,
) -> bool {
    exists|ws: SocpWorkspace<T>, o: (SocpResult<T>, SocpWorkspace<T>)|
        #[trigger] dense_call(plant, m, prob, &params, ws, o) && ws@ == from && o.0@ == r && o.1@
            == to
}

/// Two points have the same sizes.
pub open spec fn same_sizes<T>(a: Point<T>, b: Point<T>) -> bool {
    a.sized(b.x.len() as int, b.lambda.len() as int, b.s.len() as int) && b.s.len() == b.y.len()
}

/// What the plant returns has the sizes that its arguments ask for.
pub open spec fn well_shaped<T, P: Plant<T>>(plant: &P) -> bool {
    &&& forall|t: Trajectory<T>, ph: PhysicalParams<T>, s: u32, lin: LinearizedDynamics<T>, n: int|
        #[trigger] call_ensures(P::discretize, (plant, &t, &ph, s), lin) && #[trigger] t.sized(n)
            && n >= 1 ==> lin.covers(n - 1)
    &&& forall|x0: Vec<T>, u: Mat<T>, tau: T, ph: PhysicalParams<T>, s: u32, xa: Mat<T>|
        #[trigger] call_ensures(P::propagate, (plant, &x0, &u, tau, &ph, s), xa) ==> shaped(
            xa@,
            u@.len() as int,
            7,
        )
    &&& forall|
        m: Method,
        prob: SocpProblem<T>,
        params: IpmAlgoParams<T>,
        ws: SocpWorkspace<T>,
        o: (SocpResult<T>, SocpWorkspace<T>),
    |
        #[trigger] dense_call(plant, m, &prob, &params, ws, o) && ws@.s.len() == ws@.y.len()
            ==> same_sizes(o.0@.point, ws@) && same_sizes(o.1@, ws@)
}

/// Sizes a workspace is made for.
#[derive(Clone, Copy, PartialEq, Eq, Debug, Structural)]
pub struct Dims {
    /// Nodes.
    pub n: usize,
    /// Unknowns.
    pub np: usize,
    /// Equality rows.
    pub ne: usize,
    /// Cone rows.
    pub nct: usize,
    /// Cones.
    pub ncones: usize,
    /// Room for outer iterations.
    pub max_outer: usize,
}

/// What the outer loop works on.
pub struct ScvxWorkspace<T> {
    pub dims: Dims,
    pub reference: Trajectory<T>,
    pub candidate: Trajectory<T>,
    pub lin: LinearizedDynamics<T>,
    pub prob: SocpProblem<T>,
    pub ipm_ws: SocpWorkspace<T>,
    pub trust_eta: T,
    pub iter: u32,
    pub history: Vec<ScvxIterRecord<T>>,
    /// The candidate's controls applied to the true dynamics.
    pub x_actual: Mat<T>,
    /// Merit of the last accepted iterate.
    pub j_prev: T,
    /// Scale of each unknown.
    pub scale_diag: Vec<T>,
    /// The inner solution in original units.
    pub x_unscaled: Vec<T>,
    /// Scale of each cone.
    pub cone_scales: Vec<T>,
    /// Outer iterations in which the structured driver was given up for the dense one.
    pub structured_fallbacks: u32,
    /// Estimate of the merit ratio that steps can achieve.
    pub rho_ceiling: T,
    /// An accepted step has set the estimate.
    pub adaptive_seeded: bool,
}

/// Everything one call of `solve_scvx` is given beside its workspace.
pub struct Task<'a, T, P> {
    pub limits: Limits<T>,
    /// Bound on inner iterations that no setting can exceed.
    pub hard_max_iters: u32,
    pub plant: &'a P,
    pub phys: &'a PhysicalParams<T>,
    pub algo: &'a ScvxAlgoParams<T>,
    pub ipm: &'a IpmAlgoParams<T>,
    pub initial_state: &'a Vec<T>,
    pub terminal: &'a TerminalCondition<T>,
}

// ---- input ----

/// The workspace's parts have the sizes it was made for.
pub open spec fn well_sized<T>(w: &ScvxWorkspace<T>) -> bool {
    &&& w.reference.sized(w.dims.n as int)
    &&& w.ipm_ws@.sized(w.dims.np as int, w.dims.ne as int, w.dims.nct as int)
    &&& w.history@.len() == w.dims.max_outer
}

/// The sizes are those of `n` nodes with fixed or free final time.
pub open spec fn dims_match(d: Dims, free_tf: bool) -> bool {
    &&& d.np == spec_np(d.n as int, free_tf)
    &&& d.ne == spec_ne(d.n as int)
    &&& d.nct == spec_nct(d.n as int, free_tf)
    &&& d.ncones == spec_ncones(d.n as int, free_tf)
}

/// Cap on outer iterations.
pub open spec fn outer_cap(asked: u32, room: usize) -> int {
    if asked < room {
        asked as int
    } else {
        room as int
    }
}

/// Trust-region settings that can be worked with.
pub open spec fn algo_admissible<T: Real>(algo: &ScvxAlgoParams<T>) -> bool {
    let z = num::<T>(0);
    let one = num::<T>(1);
    &&& finite(z, algo.trust_eta_min)
    &&& finite(z, algo.trust_eta_max)
    &&& finite(z, algo.trust_eta0)
    &&& !less(algo.trust_eta_min, z)
    &&& !less(algo.trust_eta_max, algo.trust_eta_min)
    &&& finite(z, algo.trust_alpha)
    &&& finite(z, algo.trust_beta)
    &&& !at_most(algo.trust_alpha, one)
    &&& !less(algo.trust_beta, one)
    &&& finite(z, algo.virt_weight)
    &&& !less(algo.virt_weight, z)
}

fn is_algo_admissible<T: Real>(algo: &ScvxAlgoParams<T>) -> (r: bool)
    requires
        real_ops::<T>(),
    ensures
        r == algo_admissible(algo),
{
    let z: T = number(0);
    let one: T = number(1);
    is_finite(z, algo.trust_eta_min) && is_finite(z, algo.trust_eta_max) && is_finite(
        z,
        algo.trust_eta0,
    ) && !(algo.trust_eta_min < z) && !(algo.trust_eta_max < algo.trust_eta_min) && is_finite(
        z,
        algo.trust_alpha,
    ) && is_finite(z, algo.trust_beta) && !(algo.trust_alpha <= one) && !(algo.trust_beta < one)
        && is_finite(z, algo.virt_weight) && !(algo.virt_weight < z)
}

/// The boundary states are finite.
pub open spec fn boundary_admissible<T: Real>(x0: Seq<T>, terminal: &TerminalCondition<T>) -> bool {
    let z = num::<T>(0);
    &&& forall|i: int| 0 <= i < 7 ==> finite(z, #[trigger] x0[i])
    &&& forall|i: int| 0 <= i < 3 ==> finite(z, #[trigger] terminal.r@[i])
    &&& forall|i: int| 0 <= i < 3 ==> finite(z, #[trigger] terminal.v@[i])
}

fn is_boundary_admissible<T: Real>(x0: &Vec<T>, terminal: &TerminalCondition<T>) -> (r: bool)
    requires
        real_ops::<T>(),
        x0@.len() == 7,
    ensures
        r == boundary_admissible(x0@, terminal),
{
    let z: T = number(0);
    if !is_all_finite(x0) {
        return false;
    }
    let mut i: usize = 0;
    while i < 3
        invariant
            real_ops::<T>(),
            z == num::<T>(0),
            i <= 3,
            forall|k: int| 0 <= k < i ==> finite(z, #[trigger] terminal.r@[k]),
            forall|k: int| 0 <= k < i ==> finite(z, #[trigger] terminal.v@[k]),
        decreases 3 - i,
    {
        if !is_finite(z, terminal.r[i]) || !is_finite(z, terminal.v[i]) {
            return false;
        }
        i = i + 1;
    }
    true
}

/// A time of flight that can be worked with: finite and positive, and within
/// proper bounds where it is free.
pub open spec fn time_admissible<T: Real>(tau: T, phys: &PhysicalParams<T>, free_tf: bool) -> bool {
    let z = num::<T>(0);
    &&& finite(z, tau)
    &&& !at_most(tau, z)
    &&& free_tf ==> {
        &&& finite(z, phys.tau_lo)
        &&& finite(z, phys.tau_hi)
        &&& !at_most(phys.tau_lo, z)
        &&& !at_most(phys.tau_hi, phys.tau_lo)
        &&& !less(tau, phys.tau_lo)
        &&& !greater(tau, phys.tau_hi)
    }
}

fn is_time_admissible<T: Real>(tau: T, phys: &PhysicalParams<T>, free_tf: bool) -> (r: bool)
    requires
        real_ops::<T>(),
    ensures
        r == time_admissible(tau, phys, free_tf),
{
    let z: T = number(0);
    if !is_finite(z, tau) || tau <= z {
        return false;
    }
    if free_tf && (!is_finite(z, phys.tau_lo) || !is_finite(z, phys.tau_hi) || phys.tau_lo <= z
        || phys.tau_hi <= phys.tau_lo || tau < phys.tau_lo || tau > phys.tau_hi) {
        return false;
    }
    true
}

/// Physical parameters that can be worked with.
pub open spec fn phys_admissible<T: Real>(phys: &PhysicalParams<T>) -> bool {
    let z = num::<T>(0);
    &&& finite(z, phys.isp)
    &&& finite(z, phys.g0)
    &&& !at_most(phys.isp, z)
    &&& !at_most(phys.g0, z)
    &&& forall|i: int| 0 <= i < 3 ==> finite(z, #[trigger] phys.g@[i])
    &&& finite(z, phys.m_dry)
    &&& !at_most(phys.m_dry, z)
    &&& finite(z, phys.rho)
    &&& !less(phys.rho, z)
    &&& finite(z, phys.cd_a)
    &&& !less(phys.cd_a, z)
    &&& finite(z, phys.cos_theta_max)
    &&& !less(phys.cos_theta_max, z)
    &&& !greater(phys.cos_theta_max, num::<T>(1))
    &&& finite(z, phys.tan_gamma_gs)
    &&& !less(phys.tan_gamma_gs, z)
    &&& finite(z, phys.t_min)
    &&& !less(phys.t_min, z)
    &&& finite(z, phys.t_max)
    &&& !at_most(phys.t_max, phys.t_min)
}

fn is_phys_admissible<T: Real>(phys: &PhysicalParams<T>) -> (r: bool)
    requires
        real_ops::<T>(),
    ensures
        r == phys_admissible(phys),
{
    let z: T = number(0);
    let one: T = number(1);
    let g_ok: bool = is_finite(z, phys.g[0]) && is_finite(z, phys.g[1]) && is_finite(z, phys.g[2]);
    proof {
        if g_ok {
            assert forall|i: int| 0 <= i < 3 implies finite(z, #[trigger] phys.g@[i]) by {
                assert(i == 0 || i == 1 || i == 2);
            }
        } else {
            assert(!finite(z, phys.g@[0]) || !finite(z, phys.g@[1]) || !finite(z, phys.g@[2]));
        }
    }
    if !is_finite(z, phys.isp) || !is_finite(z, phys.g0) || phys.isp <= z || phys.g0 <= z || !g_ok {
        return false;
    }
    if !is_finite(z, phys.m_dry) || phys.m_dry <= z || !is_finite(z, phys.rho) || phys.rho < z
        || !is_finite(z, phys.cd_a) || phys.cd_a < z {
        return false;
    }
    if !is_finite(z, phys.cos_theta_max) || phys.cos_theta_max < z || phys.cos_theta_max > one
        || !is_finite(z, phys.tan_gamma_gs) || phys.tan_gamma_gs < z {
        return false;
    }
    !(!is_finite(z, phys.t_min) || phys.t_min < z || !is_finite(z, phys.t_max) || phys.t_max
        <= phys.t_min)
}

/// Input on which the loop runs. All other input is refused.
pub open spec fn admissible<T: Real, P: Plant<T>>(task: Task<T, P>, w: &ScvxWorkspace<T>) -> bool {
    &&& algo_admissible(task.algo)
    &&& outer_cap(task.algo.max_outer_iters, w.dims.max_outer) > 0
    &&& boundary_admissible(task.initial_state@, task.terminal)
    &&& time_admissible(w.reference.tau, task.phys, task.algo.use_free_tf)
    &&& phys_admissible(task.phys)
    &&& w.dims.n != 0
    &&& dims_match(w.dims, task.algo.use_free_tf)
}

/// Input the loop accepted, with the workspace's sizes as they have to be.
pub open spec fn ready<T: Real, P: Plant<T>>(task: Task<T, P>, w: &ScvxWorkspace<T>) -> bool {
    &&& task.initial_state@.len() == 7
    &&& w.dims.n >= 1
    &&& 30 * w.dims.n + 30 <= u32::MAX
    &&& dims_match(w.dims, task.algo.use_free_tf)
    &&& well_sized(w)
    &&& w.scale_diag@.len() == w.dims.np
}

// ---- one iteration: the subproblem ----

/// `p1` is `p0` with its variables scaled by `d`.
pub open spec fn variables_scaled<T: Real>(
    p0: &SocpProblem<T>,
    p1: &SocpProblem<T>,
    d: Seq<T>,
) -> bool {
    &&& p1.c@ == hadamard(p0.c@, d)
    &&& p1.a_mat@ == columns_scaled(p0.a_mat@, d)
    &&& p1.g_mat@ == columns_scaled(p0.g_mat@, d)
    &&& p1.b@ == p0.b@
    &&& p1.h@ == p0.h@
    &&& p1.cones@ == p0.cones@
}

/// `p1` is `p0` with its cones scaled by `e`.
pub open spec fn cones_scaled<T: Real>(
    p0: &SocpProblem<T>,
    p1: &SocpProblem<T>,
    e: Seq<T>,
) -> bool {
    &&& p1.c@ == p0.c@
    &&& p1.a_mat@ == p0.a_mat@
    &&& p1.b@ == p0.b@
    &&& p1.cones@ == p0.cones@
    &&& p1.g_mat@.len() == p0.g_mat@.len()
    &&& p1.h@.len() == p0.h@.len()
    &&& forall|r: int|
        0 <= r < p0.h@.len() ==> #[trigger] p1.g_mat@[r] == row_scaled(
            p0.g_mat@[r],
            p0.cones@,
            e,
            r,
            e.len(),
        )
    &&& forall|r: int|
        0 <= r < p0.h@.len() ==> #[trigger] p1.h@[r] == entry_scaled(
            p0.h@[r],
            p0.cones@,
            e,
            r,
            e.len(),
        )
}

/// `p1` is `p0` with its variables scaled, or `p0` where scaling is off.
pub open spec fn column_stage<T: Real>(
    on: bool,
    p0: &SocpProblem<T>,
    p1: &SocpProblem<T>,
    d: Seq<T>,
) -> bool {
    if on {
        variables_scaled(p0, p1, d)
    } else {
        *p1 == *p0
    }
}

/// `p1` is `p0` with its cones scaled, or `p0` where scaling is off.
pub open spec fn row_stage<T: Real>(
    on: bool,
    p0: &SocpProblem<T>,
    p1: &SocpProblem<T>,
    e: Seq<T>,
) -> bool {
    if on {
        cones_scaled(p0, p1, e)
    } else {
        *p1 == *p0
    }
}

/// `prob` is the cone program at `w`'s reference and trust radius, before scaling.
pub open spec fn is_subproblem<T: Real, P: Plant<T>>(
    task: Task<T, P>,
    w: &ScvxWorkspace<T>,
    lin: &LinearizedDynamics<T>,
    prob: &SocpProblem<T>,
) -> bool {
    is_scvx_socp(
        units::<T>(),
        &w.reference,
        lin,
        task.phys,
        log_of(task.plant, task.phys.m_dry),
        task.initial_state@,
        task.terminal,
        w.trust_eta,
        task.algo.virt_weight,
        task.algo.use_free_tf,
        w.dims.n as int,
        prob,
    )
}

/// The scales of the cones at trust radius `eta`.
pub open spec fn cone_scales_at<T: Real, P: Plant<T>>(task: Task<T, P>, n: int, eta: T) -> Seq<T> {
    Seq::new(
        spec_ncones(n, task.algo.use_free_tf) as nat,
        |c: int| cone_scale(task.phys, task.initial_state@, eta, n, c),
    )
}

/// `prob` is the subproblem, scaled as the settings ask: its variables by `w`'s
/// scales, then its cones by `scales`.
pub open spec fn is_scaled_subproblem<T: Real, P: Plant<T>>(
    task: Task<T, P>,
    w: &ScvxWorkspace<T>,
    lin: &LinearizedDynamics<T>,
    prob: &SocpProblem<T>,
    scales: Seq<T>,
) -> bool {
    exists|p0: SocpProblem<T>, p1: SocpProblem<T>|
        {
            &&& is_subproblem(task, w, lin, &p0)
            &&& #[trigger] column_stage(task.ipm.use_preconditioning, &p0, &p1, w.scale_diag@)
            &&& row_stage(task.ipm.use_cone_row_scaling, &p1, prob, scales)
        }
}

/// The point the inner solve starts from in its unknowns: the reference, in the
/// units of the subproblem.
pub open spec fn warm_x<T: Real, P: Plant<T>>(task: Task<T, P>, w: &ScvxWorkspace<T>) -> Seq<T> {
    let x = seeded(&w.reference, w.dims.n as int, w.dims.np as int);
    if task.ipm.use_preconditioning {
        quotients(x, w.scale_diag@)
    } else {
        x
    }
}

fn warm_x_of<T: Real, P: Plant<T>>(task: &Task<T, P>, w: &ScvxWorkspace<T>) -> (x: Vec<T>)
    requires
        real_ops::<T>(),
        ready(*task, w),
    ensures
        x@ == warm_x(*task, w),
        x@.len() == w.dims.np,
{
    let mut x: Vec<T> = seed_warm_start(&w.reference, w.dims.n, w.dims.np);
    if task.ipm.use_preconditioning {
        scale_warm_start_in_place(&mut x, &w.scale_diag);
    }
    x
}

/// `w1` is `w0` with the subproblem at its reference, and the inner solve's unknowns
/// at that reference.
pub open spec fn prepared<T: Real, P: Plant<T>>(
    task: Task<T, P>,
    w0: ScvxWorkspace<T>,
    w1: ScvxWorkspace<T>,
) -> bool {
    &&& w1 == (ScvxWorkspace {
        lin: w1.lin,
        prob: w1.prob,
        cone_scales: w1.cone_scales,
        ipm_ws: w1.ipm_ws,
        ..w0
    })
    &&& call_ensures(
        P::discretize,
        (task.plant, &w0.reference, task.phys, RK4_SUBSTEPS),
        w1.lin,
    )
    &&& if task.ipm.use_cone_row_scaling {
        w1.cone_scales@ == cone_scales_at(task, w0.dims.n as int, w0.trust_eta)
    } else {
        w1.cone_scales == w0.cone_scales
    }
    &&& is_scaled_subproblem(task, &w0, &w1.lin, &w1.prob, w1.cone_scales@)
    &&& w1.ipm_ws@ == (Point { x: warm_x(task, &w0), ..w0.ipm_ws@ })
}

/// The driver that a structured solve uses.
pub open spec fn inner_driver<T: Real, P: Plant<T>>(task: Task<T, P>, n: usize) -> Driver<T> {
    Driver {
        n,
        free_tf: task.algo.use_free_tf,
        nt: task.ipm.use_hsd || task.ipm.use_nt_scaling,
        limits: task.limits,
        hard_max_iters: task.hard_max_iters,
    }
}

/// The cones of an assembled program lie one after the other among its rows.
proof fn lemma_assembled_cones_within<T: Real, P: Plant<T>>(
    task: Task<T, P>,
    w: &ScvxWorkspace<T>,
    lin: &LinearizedDynamics<T>,
    prob: &SocpProblem<T>,
)
    requires
        is_subproblem(task, w, lin, prob),
    ensures
        cones_within(prob.cones@, spec_nct(w.dims.n as int, task.algo.use_free_tf)),
        prob.cones_fit(spec_nct(w.dims.n as int, task.algo.use_free_tf)),
{
    let n = w.dims.n as int;
    assert forall|c: int| 0 <= c < prob.cones@.len() implies (#[trigger] prob.cones@[c]).dim >= 1
        && prob.cones@[c].offset + prob.cones@[c].dim <= spec_nct(
        n,
        task.algo.use_free_tf,
    ) by {
        assert(prob.cones@[c].offset == scvx_cone_offset(n, c));
        assert(prob.cones@[c].dim == scvx_cone_dim(n, c));
    }
}

fn prepare<T: Real, P: Plant<T>>(task: &Task<T, P>, w: &mut ScvxWorkspace<T>)
    requires
        real_ops::<T>(),
        cones_repeatable(task.plant),
        well_shaped(task.plant),
        ready(*task, old(w)),
    ensures
        prepared(*task, *old(w), *final(w)),
        ready(*task, final(w)),
        fits(inner_driver(*task, final(w).dims.n), &final(w).prob),
        point_fits(&final(w).prob, final(w).ipm_ws@),
        final(w).prob.cones@.len() == final(w).dims.ncones,
{
    let n: usize = w.dims.n;
    w.lin = task.plant.discretize(&w.reference, task.phys, RK4_SUBSTEPS);
    let log_m: T = log_with(task.plant, task.phys.m_dry);
    assemble_scvx_socp(
        units_of(),
        n,
        &w.reference,
        &w.lin,
        task.phys,
        log_m,
        task.initial_state,
        task.terminal,
        w.trust_eta,
        task.algo.virt_weight,
        task.algo.use_free_tf,
        &mut w.prob,
    );
    let ghost p0 = w.prob;
    proof {
        assert(is_subproblem(*task, old(w), &w.lin, &p0));
        lemma_assembled_cones_within(*task, old(w), &w.lin, &p0);
    }
    if task.ipm.use_preconditioning {
        scale_socp_in_place(&mut w.prob, &w.scale_diag);
    }
    let ghost p1 = w.prob;
    assert(column_stage(task.ipm.use_preconditioning, &p0, &p1, w.scale_diag@));
    if task.ipm.use_cone_row_scaling {
        w.cone_scales = build_cone_scale_diagonal(
            n,
            task.phys,
            task.initial_state,
            w.trust_eta,
            task.algo.use_free_tf,
        );
        scale_cone_rows_in_place(&mut w.prob, &w.cone_scales);
    }
    assert(row_stage(task.ipm.use_cone_row_scaling, &p1, &w.prob, w.cone_scales@));
    w.ipm_ws.x = warm_x_of(task, w);
}

// ---- one iteration: the inner solve ----

/// The inner settings, with the start taken from the workspace.
pub open spec fn warm_params<T>(ipm: &IpmAlgoParams<T>) -> IpmAlgoParams<T> {
    IpmAlgoParams { warm_start_x: true, ..*ipm }
}

/// An inner status whose point can be used.
pub open spec fn usable(s: IpmStatus) -> bool {
    s == IpmStatus::Optimal || s == IpmStatus::BestFeasible
}

fn is_usable(s: IpmStatus) -> (r: bool)
    ensures
        r == usable(s),
{
    s == IpmStatus::Optimal || s == IpmStatus::BestFeasible
}

/// The dense driver of the direction that the settings ask for.
pub open spec fn dense_method<T>(ipm: &IpmAlgoParams<T>) -> Method {
    if ipm.use_hsd {
        Method::SelfDual
    } else if ipm.use_nt_scaling {
        Method::NesterovTodd
    } else {
        Method::Symmetric
    }
}

/// What the structured driver of the direction that the settings ask for returns.
pub open spec fn structured_outcome<T: Real, P: Plant<T>>(
    task: Task<T, P>,
    w: &ScvxWorkspace<T>,
) -> Outcome<T> {
    let drv = inner_driver(task, w.dims.n);
    let params = warm_params(task.ipm);
    if task.ipm.use_hsd {
        hsd_solved(drv, task.plant, &w.prob, params, w.ipm_ws@)
    } else {
        solved(drv, task.plant, &w.prob, params, w.ipm_ws@)
    }
}

/// The inner solve of `w0` can return `r` and lead to `w1`: the structured driver's
/// result where it is asked for and usable, else the dense driver's. After a
/// structured attempt the dense driver starts again from the reference, without
/// multipliers.
pub open spec fn inner_solved<T: Real, P: Plant<T>>(
    task: Task<T, P>,
    w0: ScvxWorkspace<T>,
    w1: ScvxWorkspace<T>,
    r: ResultModel<T>,
) -> bool {
    let params = warm_params(task.ipm);
    let o = structured_outcome(task, &w0);
    let structured = task.algo.use_structured_solve;
    let again = Point {
        x: warm_x(task, &w0),
        lambda: constant(num::<T>(0), w0.dims.ne as int),
        s: o.pt.s,
        y: o.pt.y,
    };
    let m = dense_method(task.ipm);
    if structured && usable(o.result.status) {
        &&& w1 == (ScvxWorkspace { ipm_ws: w1.ipm_ws, ..w0 })
        &&& r == o.result
        &&& w1.ipm_ws@ == o.pt
    } else if structured {
        &&& w1 == (ScvxWorkspace {
            ipm_ws: w1.ipm_ws,
            structured_fallbacks: (w0.structured_fallbacks + 1) as u32,
            ..w0
        })
        &&& dense_may(task.plant, m, &w0.prob, params, again, r, w1.ipm_ws@)
    } else {
        &&& w1 == (ScvxWorkspace { ipm_ws: w1.ipm_ws, ..w0 })
        &&& dense_may(task.plant, m, &w0.prob, params, w0.ipm_ws@, r, w1.ipm_ws@)
    }
}

fn solve_dense<T: Real, P: Plant<T>>(
    task: &Task<T, P>,
    params: &IpmAlgoParams<T>,
    w: &mut ScvxWorkspace<T>,
) -> (r: SocpResult<T>)
    requires
        well_shaped(task.plant),
        ready(*task, old(w)),
    ensures
        *final(w) == (ScvxWorkspace { ipm_ws: final(w).ipm_ws, ..*old(w) }),
        dense_may(
            task.plant,
            dense_method(task.ipm),
            &old(w).prob,
            *params,
            old(w).ipm_ws@,
            r@,
            final(w).ipm_ws@,
        ),
        same_sizes(r@.point, old(w).ipm_ws@),
        ready(*task, final(w)),
{
    let from: SocpWorkspace<T> = copy_point(&w.ipm_ws);
    let ghost ws = from;
    let ghost m = dense_method(task.ipm);
    let o: (SocpResult<T>, SocpWorkspace<T>) = if task.ipm.use_hsd {
        task.plant.solve_socp_hsd(&w.prob, params, from)
    } else if task.ipm.use_nt_scaling {
        task.plant.solve_socp_nt(&w.prob, params, from)
    } else {
        task.plant.solve_socp(&w.prob, params, from)
    };
    assert(dense_call(task.plant, m, &w.prob, params, ws, o));
    w.ipm_ws = o.1;
    o.0
}

/// The structured driver of the direction that the settings ask for.
fn solve_structured<T: Real, P: Plant<T>>(
    task: &Task<T, P>,
    params: &IpmAlgoParams<T>,
    w: &mut ScvxWorkspace<T>,
) -> (r: SocpResult<T>)
    requires
        real_ops::<T>(),
        cones_repeatable(task.plant),
        ready(*task, old(w)),
        *params == warm_params(task.ipm),
        fits(inner_driver(*task, old(w).dims.n), &old(w).prob),
        point_fits(&old(w).prob, old(w).ipm_ws@),
        old(w).prob.cones@.len() == old(w).dims.ncones,
    ensures
        *final(w) == (ScvxWorkspace { ipm_ws: final(w).ipm_ws, ..*old(w) }),
        r@ == structured_outcome(*task, old(w)).result,
        final(w).ipm_ws@ == structured_outcome(*task, old(w)).pt,
        point_fits(&old(w).prob, final(w).ipm_ws@),
        point_fits(&old(w).prob, r@.point),
{
    let n: usize = w.dims.n;
    if task.ipm.use_hsd {
        return if task.algo.use_free_tf {
            solve_socp_structured_hsd_free_tf(
                task.limits,
                task.hard_max_iters,
                task.plant,
                n,
                &w.prob,
                params,
                &mut w.ipm_ws,
            )
        } else {
            solve_socp_structured_hsd(
                task.limits,
                task.hard_max_iters,
                task.plant,
                n,
                &w.prob,
                params,
                &mut w.ipm_ws,
            )
        };
    }
    match (task.ipm.use_nt_scaling, task.algo.use_free_tf) {
        (true, true) => solve_socp_structured_nt_free_tf(
            task.limits,
            task.hard_max_iters,
            task.plant,
            n,
            &w.prob,
            params,
            &mut w.ipm_ws,
        ),
        (true, false) => solve_socp_structured_nt(
            task.limits,
            task.hard_max_iters,
            task.plant,
            n,
            &w.prob,
            params,
            &mut w.ipm_ws,
        ),
        (false, true) => solve_socp_structured_free_tf(
            task.limits,
            task.hard_max_iters,
            task.plant,
            n,
            &w.prob,
            params,
            &mut w.ipm_ws,
        ),
        (false, false) => solve_socp_structured(
            task.limits,
            task.hard_max_iters,
            task.plant,
            n,
            &w.prob,
            params,
            &mut w.ipm_ws,
        ),
    }
}

fn solve_inner<T: Real, P: Plant<T>>(task: &Task<T, P>, w: &mut ScvxWorkspace<T>) -> (r: SocpResult<
    T,
>)
    requires
        real_ops::<T>(),
        cones_repeatable(task.plant),
        well_shaped(task.plant),
        ready(*task, old(w)),
        fits(inner_driver(*task, old(w).dims.n), &old(w).prob),
        point_fits(&old(w).prob, old(w).ipm_ws@),
        old(w).prob.cones@.len() == old(w).dims.ncones,
        old(w).structured_fallbacks < u32::MAX,
    ensures
        inner_solved(*task, *old(w), *final(w), r@),
        r@.point.x.len() == old(w).dims.np,
        ready(*task, final(w)),
        final(w).structured_fallbacks <= old(w).structured_fallbacks + 1,
{
    let params: IpmAlgoParams<T> = IpmAlgoParams { warm_start_x: true, ..*task.ipm };
    if !task.algo.use_structured_solve {
        return solve_dense(task, &params, w);
    }
    let first: SocpResult<T> = solve_structured(task, &params, w);
    if is_usable(first.status) {
        return first;
    }
    w.structured_fallbacks = w.structured_fallbacks + 1;
    w.ipm_ws.x = warm_x_of(task, w);
    w.ipm_ws.lambda = fill_vec(number(0), w.dims.ne);
    solve_dense(task, &params, w)
}

// ---- one iteration: what follows the inner solve ----

/// What an iteration leads to.
#[derive(Clone, Copy, PartialEq, Eq, Debug, Structural)]
pub enum Next {
    /// The next iteration.
    On,
    /// The end.
    Stop(SolverStatus),
}

/// The history with the record of iteration `k`.
pub open spec fn recorded<T>(
    history: Seq<ScvxIterRecord<T>>,
    k: int,
    rec: ScvxIterRecord<T>,
) -> Seq<ScvxIterRecord<T>> {
    if 0 <= k < history.len() {
        history.update(k, rec)
    } else {
        history
    }
}

fn record_iter<T>(history: &mut Vec<ScvxIterRecord<T>>, k: usize, rec: ScvxIterRecord<T>)
    ensures
        final(history)@ == recorded(old(history)@, k as int, rec),
{
    if k < history.len() {
        history[k] = rec;
    }
}

/// A value that is not a number.
pub open spec fn undefined<T: Real>() -> T {
    ratio::<T>(0, 0)
}

/// `w1` follows from `w0` where the inner solve returned no usable point: the record
/// says so, and the trust radius shrinks for another try at the same reference. At
/// the smallest radius the loop ends.
pub open spec fn retried<T: Real, P: Plant<T>>(
    task: Task<T, P>,
    k: u32,
    w0: ScvxWorkspace<T>,
    w1: ScvxWorkspace<T>,
    r: ResultModel<T>,
    next: Next,
) -> bool {
    let floor = at_floor(task.algo, w0.trust_eta);
    &&& w1 == (ScvxWorkspace {
        history: w1.history,
        trust_eta: if floor {
            w0.trust_eta
        } else {
            shrunk_trust(task.algo, w0.trust_eta)
        },
        ..w0
    })
    &&& w1.history@ == recorded(
        w0.history@,
        k as int,
        ScvxIterRecord {
            iter: k,
            cost: undefined::<T>(),
            trust_eta: w0.trust_eta,
            virt_l1: undefined::<T>(),
            rho_ratio: undefined::<T>(),
            accepted: false,
            ipm_status: r.status,
            ipm_iters: r.iters,
        },
    )
    &&& next == if floor {
        Next::Stop(SolverStatus::InnerFailure)
    } else {
        Next::On
    }
}

/// Takes the loop past an inner solve without a usable point.
pub fn retry<T: Real, P: Plant<T>>(
    task: &Task<T, P>,
    k: u32,
    w: &mut ScvxWorkspace<T>,
    result: &SocpResult<T>,
) -> (next: Next)
    requires
        real_ops::<T>(),
    ensures
        retried(*task, k, *old(w), *final(w), result@, next),
{
    let nan: T = fraction(0, 0);
    record_iter(
        &mut w.history,
        k as usize,
        ScvxIterRecord {
            iter: k,
            cost: nan,
            trust_eta: w.trust_eta,
            virt_l1: nan,
            rho_ratio: nan,
            accepted: false,
            ipm_status: result.status,
            ipm_iters: result.iters,
        },
    );
    match shrink_after_failure(task.algo, w.trust_eta) {
        None => Next::Stop(SolverStatus::InnerFailure),
        Some(eta) => {
            w.trust_eta = eta;
            Next::On
        },
    }
}

/// The inner solution in original units.
pub open spec fn original_units<T: Real, P: Plant<T>>(
    task: Task<T, P>,
    diag: Seq<T>,
    x: Seq<T>,
) -> Seq<T> {
    if task.ipm.use_preconditioning {
        hadamard(x, diag)
    } else {
        x
    }
}

/// The candidate's time of flight: the reference's, plus the increment within the
/// bounds where the final time is free.
pub open spec fn candidate_tau<T: Real, P: Plant<T>>(
    task: Task<T, P>,
    tau: T,
    x: Seq<T>,
    n: int,
) -> T {
    if task.algo.use_free_tf {
        clamped(plus(tau, x[19 * n]), task.phys.tau_lo, task.phys.tau_hi)
    } else {
        tau
    }
}

/// What a candidate is judged by.
pub struct Quality<T> {
    /// Size of the virtual control.
    pub virt: T,
    /// Size of the step from the reference.
    pub step: T,
    /// Cost by the subproblem, the predicted merit.
    pub cost: T,
    /// Fuel cost with the penalty on the defect, the actual merit.
    pub actual: T,
}

/// The quality of the candidate `x`, whose inner solution is `x_inner` and whose
/// controls lead to the states `xa`.
pub open spec fn quality<T: Real, P: Plant<T>>(
    task: Task<T, P>,
    w: &ScvxWorkspace<T>,
    x_inner: Seq<T>,
    x: Seq<T>,
    xa: Seq<Seq<T>>,
) -> Quality<T> {
    let n = w.dims.n as nat;
    Quality {
        virt: root_of(task.plant, virtual_squares(x, 7 * n)),
        step: root_of(task.plant, step_squares(x, &w.reference, 10 * n)),
        cost: dot(num::<T>(0), w.prob.c@, x_inner),
        actual: plus(
            fuel_upto(x, n),
            times(task.algo.virt_weight, defect_upto(task.plant, xa, x, n)),
        ),
    }
}

/// All measures are finite.
pub open spec fn quality_sound<T: Real>(q: Quality<T>) -> bool {
    let z = num::<T>(0);
    finite(z, q.virt) && finite(z, q.step) && finite(z, q.cost) && finite(z, q.actual)
}

/// The verdict on a candidate.
pub struct Judgement<T> {
    pub rho: T,
    pub accept: bool,
    pub ceiling: Ceiling<T>,
    /// The trust radius from here on.
    pub eta: T,
}

/// The verdict on a candidate of quality `q` in iteration `k`.
pub open spec fn judgement<T: Real>(
    algo: &ScvxAlgoParams<T>,
    k: u32,
    w: &ScvxWorkspace<T>,
    q: Quality<T>,
) -> Judgement<T> {
    let rho = merit_ratio(k == 0, w.j_prev, q.cost, q.actual);
    let accept = accepted(k == 0, quality_sound(q), rho, algo.rho_reject);
    let ceiling = next_ceiling(
        algo.use_adaptive_trust,
        accept,
        k == 0,
        rho,
        Ceiling { rho: w.rho_ceiling, seeded: w.adaptive_seeded },
    );
    Judgement {
        rho,
        accept,
        ceiling,
        eta: next_trust(algo, ceiling.rho, accept, rho, w.trust_eta),
    }
}

/// `w1` follows from `w0` where the inner solve returned a usable point `r` and the
/// propagated states are `xa`.
pub open spec fn concluded<T: Real, P: Plant<T>>(
    task: Task<T, P>,
    k: u32,
    w0: ScvxWorkspace<T>,
    w1: ScvxWorkspace<T>,
    r: ResultModel<T>,
    xa: Mat<T>,
    next: Next,
) -> bool {
    let n = w0.dims.n as int;
    let x = original_units(task, w0.scale_diag@, r.point.x);
    let tau = candidate_tau(task, w0.reference.tau, x, n);
    let q = quality(task, &w0, r.point.x, x, xa@);
    let j = judgement(task.algo, k, &w0, q);
    &&& w1 == (ScvxWorkspace {
        reference: w1.reference,
        candidate: w1.candidate,
        x_unscaled: w1.x_unscaled,
        x_actual: xa,
        history: w1.history,
        j_prev: if j.accept {
            q.actual
        } else {
            w0.j_prev
        },
        rho_ceiling: j.ceiling.rho,
        adaptive_seeded: j.ceiling.seeded,
        trust_eta: j.eta,
        ..w0
    })
    &&& w1.x_unscaled@ == x
    &&& x.len() == w0.dims.np
    &&& if j.accept {
        holds_candidate(&w1.candidate, x, n, tau) && holds_candidate(&w1.reference, x, n, tau)
    } else {
        w1.candidate == w0.candidate && w1.reference == w0.reference
    }
    &&& w1.history@ == recorded(
        w0.history@,
        k as int,
        ScvxIterRecord {
            iter: k,
            cost: q.cost,
            trust_eta: j.eta,
            virt_l1: q.virt,
            rho_ratio: j.rho,
            accepted: j.accept,
            ipm_status: r.status,
            ipm_iters: r.iters,
        },
    )
    &&& next == if j.accept && less(q.step, task.algo.conv_tol_x) && less(
        q.virt,
        task.algo.conv_tol_virt,
    ) {
        Next::Stop(SolverStatus::Converged)
    } else {
        Next::On
    }
}

/// The inner solution in original units.
fn unscaled<T: Real, P: Plant<T>>(
    task: &Task<T, P>,
    w: &ScvxWorkspace<T>,
    result: &SocpResult<T>,
) -> (x: Vec<T>)
    requires
        real_ops::<T>(),
        ready(*task, w),
        result@.point.x.len() == w.dims.np,
    ensures
        x@ == original_units(*task, w.scale_diag@, result@.point.x),
        x@.len() == w.dims.np,
{
    let mut x: Vec<T> = copy_vec(&result.x);
    if task.ipm.use_preconditioning {
        unscale_solution(&result.x, &w.scale_diag, &mut x);
    }
    x
}

/// The candidate's time of flight.
fn candidate_time<T: Real, P: Plant<T>>(task: &Task<T, P>, w: &ScvxWorkspace<T>, x: &Vec<T>) -> (r:
    T)
    requires
        real_ops::<T>(),
        ready(*task, w),
        x@.len() == w.dims.np,
    ensures
        r == candidate_tau(*task, w.reference.tau, x@, w.dims.n as int),
{
    if task.algo.use_free_tf {
        let d: T = x[19 * w.dims.n];
        clamp(w.reference.tau + d, task.phys.tau_lo, task.phys.tau_hi)
    } else {
        w.reference.tau
    }
}

/// Judges the candidate in `result`, whose controls lead to the states `xa`, and
/// takes the loop to the next iteration or its end.
pub fn conclude<T: Real, P: Plant<T>>(
    task: &Task<T, P>,
    k: u32,
    w: &mut ScvxWorkspace<T>,
    result: &SocpResult<T>,
    xa: Mat<T>,
) -> (next: Next)
    requires
        real_ops::<T>(),
        cones_repeatable(task.plant),
        ready(*task, old(w)),
        old(w).prob.c@.len() == old(w).dims.np,
        result@.point.x.len() == old(w).dims.np,
        shaped(xa@, old(w).dims.n as int, 7),
    ensures
        concluded(*task, k, *old(w), *final(w), result@, xa, next),
        ready(*task, final(w)),
{
    let n: usize = w.dims.n;
    let zero: T = number(0);
    let x: Vec<T> = unscaled(task, w, result);
    let tau: T = candidate_time(task, w, &x);
    let virt: T = virtual_control_norm(task.plant, &x, n);
    let step: T = step_norm(task.plant, &x, &w.reference, n);
    let cost: T = dot_product(zero, &w.prob.c, &result.x);
    let fuel: T = fuel_only_cost(&x, n);
    let defect: T = trajectory_defect_l1(task.plant, &xa, &x, n);
    let actual: T = fuel + task.algo.virt_weight * defect;
    let ghost q = Quality { virt, step, cost, actual };
    assert(q == quality(*task, w, result@.point.x, x@, xa@));
    let first: bool = k == 0;
    let rho: T = rho_ratio(first, w.j_prev, cost, actual);
    let sound: bool = is_finite(zero, virt) && is_finite(zero, step) && is_finite(zero, cost)
        && is_finite(zero, actual);
    let accept: bool = sound && (first || rho > task.algo.rho_reject);
    let ceiling: Ceiling<T> = update_ceiling(
        task.algo.use_adaptive_trust,
        accept,
        first,
        rho,
        Ceiling { rho: w.rho_ceiling, seeded: w.adaptive_seeded },
    );
    let eta: T = update_trust(task.algo, ceiling.rho, accept, rho, w.trust_eta);
    if accept {
        w.candidate = extract_candidate(&x, n, tau);
        w.reference = copy_trajectory(&w.candidate);
        w.j_prev = actual;
    }
    w.x_unscaled = x;
    w.x_actual = xa;
    w.rho_ceiling = ceiling.rho;
    w.adaptive_seeded = ceiling.seeded;
    w.trust_eta = eta;
    record_iter(
        &mut w.history,
        k as usize,
        ScvxIterRecord {
            iter: k,
            cost,
            trust_eta: eta,
            virt_l1: virt,
            rho_ratio: rho,
            accepted: accept,
            ipm_status: result.status,
            ipm_iters: result.iters,
        },
    );
    if accept && step < task.algo.conv_tol_x && virt < task.algo.conv_tol_virt {
        Next::Stop(SolverStatus::Converged)
    } else {
        Next::On
    }
}

/// The plant's propagation of the candidate `x` can return `xa`.
pub open spec fn propagated<T: Real, P: Plant<T>>(
    task: Task<T, P>,
    w: &ScvxWorkspace<T>,
    x: Seq<T>,
    xa: Mat<T>,
) -> bool {
    exists|u: Mat<T>|
        u@ == controls_in(x, w.dims.n as int) && #[trigger] call_ensures(
            P::propagate,
            (
                task.plant,
                task.initial_state,
                &u,
                candidate_tau(task, w.reference.tau, x, w.dims.n as int),
                task.phys,
                RK4_SUBSTEPS,
            ),
            xa,
        )
}

/// `w1` follows from `w0` by what comes after the inner solve.
pub open spec fn finished<T: Real, P: Plant<T>>(
    task: Task<T, P>,
    k: u32,
    w0: ScvxWorkspace<T>,
    w1: ScvxWorkspace<T>,
    r: ResultModel<T>,
    next: Next,
) -> bool {
    if usable(r.status) {
        &&& propagated(
            task,
            &w0,
            original_units(task, w0.scale_diag@, r.point.x),
            w1.x_actual,
        )
        &&& concluded(task, k, w0, w1, r, w1.x_actual, next)
    } else {
        retried(task, k, w0, w1, r, next)
    }
}

/// `w0` can lead to `w1` in iteration `k`: a subproblem, an inner solve, and what
/// follows.
#[verifier::opaque]
pub open spec fn iteration<T: Real, P: Plant<T>>(
    task: Task<T, P>,
    k: u32,
    w0: ScvxWorkspace<T>,
    w1: ScvxWorkspace<T>,
    next: Next,
) -> bool {
    exists|wp: ScvxWorkspace<T>, wi: ScvxWorkspace<T>, r: ResultModel<T>|
        {
            &&& prepared(task, ScvxWorkspace { iter: k, ..w0 }, wp)
            &&& #[trigger] inner_solved(task, wp, wi, r)
            &&& #[trigger] finished(task, k, wi, w1, r, next)
        }
}

fn iterate<T: Real, P: Plant<T>>(task: &Task<T, P>, k: u32, w: &mut ScvxWorkspace<T>) -> (next: Next)
    requires
        real_ops::<T>(),
        cones_repeatable(task.plant),
        well_shaped(task.plant),
        ready(*task, old(w)),
        old(w).structured_fallbacks < u32::MAX,
    ensures
        iteration(*task, k, *old(w), *final(w), next),
        next != Next::Stop(SolverStatus::BadInput),
        ready(*task, final(w)),
        final(w).structured_fallbacks <= old(w).structured_fallbacks + 1,
        final(w).dims == old(w).dims,
{
    reveal(iteration);
    w.iter = k;
    prepare(task, w);
    let ghost wp = *w;
    let r: SocpResult<T> = solve_inner(task, w);
    let ghost wi = *w;
    assert(inner_solved(*task, wp, wi, r@));
    if !is_usable(r.status) {
        let next: Next = retry(task, k, w, &r);
        assert(finished(*task, k, wi, *w, r@, next));
        return next;
    }
    let x: Vec<T> = unscaled(task, w, &r);
    let tau: T = candidate_time(task, w, &x);
    let u: Mat<T> = extract_controls(&x, w.dims.n);
    let xa: Mat<T> = task.plant.propagate(task.initial_state, &u, tau, task.phys, RK4_SUBSTEPS);
    assert(propagated(*task, &wi, x@, xa));
    let next: Next = conclude(task, k, w, &r, xa);
    assert(finished(*task, k, wi, *w, r@, next));
    next
}

// ---- the loop ----

/// `w` is what the loop starts from.
pub open spec fn started<T: Real, P: Plant<T>>(
    task: Task<T, P>,
    w0: ScvxWorkspace<T>,
    w: ScvxWorkspace<T>,
) -> bool {
    &&& w == (ScvxWorkspace {
        trust_eta: clamped(task.algo.trust_eta0, task.algo.trust_eta_min, task.algo.trust_eta_max),
        iter: 0,
        structured_fallbacks: 0,
        rho_ceiling: num::<T>(1),
        adaptive_seeded: false,
        j_prev: unbounded::<T>(),
        scale_diag: w.scale_diag,
        ..w0
    })
    &&& w.scale_diag@ == Seq::new(
        spec_np(w0.dims.n as int, task.algo.use_free_tf) as nat,
        |j: int| column_scale(task.phys, task.initial_state@, w0.dims.n as int, j),
    )
}

/// Iteration `i` of the trace leads on.
pub open spec fn linked<T: Real, P: Plant<T>>(
    task: Task<T, P>,
    trace: Seq<ScvxWorkspace<T>>,
    i: int,
) -> bool {
    iteration(task, i as u32, trace[i], trace[i + 1], Next::On)
}

/// The trace is a run of the loop from `w0` to `w1` that ends with `status`: every
/// iteration but the last leads on, and the last ends the loop or is the last that
/// the cap allows.
pub open spec fn traced<T: Real, P: Plant<T>>(
    task: Task<T, P>,
    w0: ScvxWorkspace<T>,
    trace: Seq<ScvxWorkspace<T>>,
    w1: ScvxWorkspace<T>,
    status: SolverStatus,
) -> bool {
    let m = trace.len() - 1;
    let cap = outer_cap(task.algo.max_outer_iters, w0.dims.max_outer);
    &&& 1 <= m <= cap
    &&& started(task, w0, trace[0])
    &&& forall|i: int| 0 <= i < m - 1 ==> #[trigger] linked(task, trace, i)
    &&& {
        ||| status == SolverStatus::OuterIterCap && m == cap && linked(task, trace, m - 1)
        ||| iteration(task, (m - 1) as u32, trace[m - 1], trace[m], Next::Stop(status))
    }
    &&& w1 == trace[m]
}

fn initialize<T: Real, P: Plant<T>>(task: &Task<T, P>, w: &mut ScvxWorkspace<T>)
    requires
        real_ops::<T>(),
        task.initial_state@.len() == 7,
        30 * old(w).dims.n + 30 <= u32::MAX,
        well_sized(old(w)),
        dims_match(old(w).dims, task.algo.use_free_tf),
        old(w).dims.n >= 1,
    ensures
        started(*task, *old(w), *final(w)),
        ready(*task, final(w)),
{
    w.trust_eta = clamp(task.algo.trust_eta0, task.algo.trust_eta_min, task.algo.trust_eta_max);
    w.iter = 0;
    w.structured_fallbacks = 0;
    w.rho_ceiling = number(1);
    w.adaptive_seeded = false;
    w.j_prev = fraction(1, 0);
    w.scale_diag = build_scaling_diagonal(
        w.dims.n,
        task.phys,
        task.initial_state,
        task.algo.use_free_tf,
    );
}

/// The loop can take `w0` to `w1` and end with `status`.
///
/// Input that cannot be worked with, and no other, is refused and leaves the
/// workspace as it was. On all other input there is a run of at least one iteration.
pub open spec fn outcome<T: Real, P: Plant<T>>(
    task: Task<T, P>,
    w0: ScvxWorkspace<T>,
    w1: ScvxWorkspace<T>,
    status: SolverStatus,
) -> bool {
    if admissible(task, &w0) {
        &&& status != SolverStatus::BadInput
        &&& exists|trace: Seq<ScvxWorkspace<T>>| #[trigger] traced(task, w0, trace, w1, status)
    } else {
        status == SolverStatus::BadInput && w1 == w0
    }
}

fn run<T: Real, P: Plant<T>>(task: &Task<T, P>, w: &mut ScvxWorkspace<T>) -> (status: SolverStatus)
    requires
        real_ops::<T>(),
        cones_repeatable(task.plant),
        well_shaped(task.plant),
        task.initial_state@.len() == 7,
        30 * old(w).dims.n + 30 <= u32::MAX,
        well_sized(old(w)),
    ensures
        outcome(*task, *old(w), *final(w), status),
{
    let d: Dims = w.dims;
    let cap: usize = if (task.algo.max_outer_iters as usize) < d.max_outer {
        task.algo.max_outer_iters as usize
    } else {
        d.max_outer
    };
    let free: bool = task.algo.use_free_tf;
    if !is_algo_admissible(task.algo) || cap == 0 || !is_boundary_admissible(
        task.initial_state,
        task.terminal,
    ) || !is_time_admissible(w.reference.tau, task.phys, free) || !is_phys_admissible(task.phys)
        || d.n == 0 || d.np != workspace_np(d.n, free) || d.nct != workspace_nct(d.n, free)
        || d.ncones != workspace_ncones(d.n, free) || d.ne != workspace_ne(d.n) {
        return SolverStatus::BadInput;
    }
    initialize(task, w);
    let ghost mut trace: Seq<ScvxWorkspace<T>> = seq![*w];
    let mut k: usize = 0;
    while k < cap
        invariant
            real_ops::<T>(),
            cones_repeatable(task.plant),
            well_shaped(task.plant),
            admissible(*task, old(w)),
            cap == outer_cap(task.algo.max_outer_iters, old(w).dims.max_outer),
            cap > 0,
            k <= cap,
            ready(*task, w),
            w.structured_fallbacks <= k,
            trace.len() == k + 1,
            trace[k as int] == *w,
            started(*task, *old(w), trace[0]),
            forall|i: int| 0 <= i < k ==> #[trigger] linked(*task, trace, i),
        decreases cap - k,
    {
        let ghost before = trace;
        let ghost w0 = *w;
        let next: Next = iterate(task, k as u32, w);
        proof {
            trace = before.push(*w);
            assert(trace[k as int] == w0 && trace[k + 1] == *w);
            assert forall|i: int| 0 <= i < k implies #[trigger] linked(*task, trace, i) by {
                assert(linked(*task, before, i));
                assert(trace[i] == before[i] && trace[i + 1] == before[i + 1]);
            }
        }
        match next {
            Next::Stop(status) => {
                assert(traced(*task, *old(w), trace, *w, status));
                return status;
            },
            Next::On => {
                assert(linked(*task, trace, k as int));
            },
        }
        k = k + 1;
    }
    assert(traced(*task, *old(w), trace, *w, SolverStatus::OuterIterCap));
    SolverStatus::OuterIterCap
}

/// Runs the successive-convexification loop from the reference in the workspace.
///
/// After `Converged` the workspace's reference is the converged trajectory, after
/// `OuterIterCap` the last one that was accepted.
pub fn solve_scvx<T: Real, P: Plant<T>>(
    limits: Limits<T>,
    hard_max_iters: u32,
    plant: &P,
    workspace: &mut ScvxWorkspace<T>,
    phys: &PhysicalParams<T>,
    algo: &ScvxAlgoParams<T>,
    ipm: &IpmAlgoParams<T>,
    initial_state: &Vec<T>,
    terminal: &TerminalCondition<T>,
) -> (status: SolverStatus)
    requires
        real_ops::<T>(),
        cones_repeatable(plant),
        well_shaped(plant),
        initial_state@.len() == 7,
        30 * old(workspace).dims.n + 30 <= u32::MAX,
        well_sized(old(workspace)),
    ensures
        outcome(
            (Task { limits, hard_max_iters, plant, phys, algo, ipm, initial_state, terminal }),
            *old(workspace),
            *final(workspace),
            status,
        ),
        status != SolverStatus::BadInput ==> final(workspace).iter < algo.max_outer_iters,
        status != SolverStatus::BadInput && !algo.use_free_tf ==> final(workspace).reference.tau
            == old(workspace).reference.tau,
        status != SolverStatus::BadInput ==> stays_within(
            plant,
            algo.trust_eta_min,
            algo.trust_eta_max,
            algo.use_free_tf,
            phys.tau_lo,
            phys.tau_hi,
            final(workspace),
        ) && spends_at_most(plant, ipm.max_iters, hard_max_iters, final(workspace)),
        status == SolverStatus::Converged ==> settled_at(
            plant,
            algo.conv_tol_x,
            algo.conv_tol_virt,
            final(workspace),
        ),
        status == SolverStatus::Converged && field(units::<T>()) && inner_solves_exact(
            (Task { limits, hard_max_iters, plant, phys, algo, ipm, initial_state, terminal }),
        ) ==> joins(
            &final(workspace).reference,
            old(workspace).dims.n as int,
            initial_state@,
            terminal,
        ),
{
    let task: Task<T, P> = Task {
        limits,
        hard_max_iters,
        plant,
        phys,
        algo,
        ipm,
        initial_state,
        terminal,
    };
    let status: SolverStatus = run(&task, workspace);
    proof {
        lemma_solve_summary(task, *old(workspace), *workspace, status);
    }
    status
}

/// A trajectory of `n` nodes at the origin, of unit duration.
pub open spec fn is_blank<T: Real>(t: &Trajectory<T>, n: int) -> bool {
    let z = num::<T>(0);
    &&& t.x@ == filled(z, n, 7)
    &&& t.u@ == filled(z, n, 3)
    &&& t.sigma@ == constant(z, n)
    &&& t.tau == num::<T>(1)
}

fn blank_trajectory<T: Real>(n: usize) -> (t: Trajectory<T>)
    requires
        real_ops::<T>(),
    ensures
        is_blank(&t, n as int),
        t.sized(n as int),
{
    let z: T = number(0);
    Trajectory {
        x: fill_mat(z, n, 7),
        u: fill_mat(z, n, 3),
        sigma: fill_vec(z, n),
        tau: number(1),
    }
}

/// A linearization of `n` zero intervals.
pub open spec fn is_blank_dynamics<T: Real>(lin: &LinearizedDynamics<T>, n: int) -> bool {
    let z = num::<T>(0);
    &&& lin.a@.len() == n
    &&& lin.b_minus@.len() == n
    &&& lin.b_plus@.len() == n
    &&& lin.c@.len() == n
    &&& lin.s@.len() == n
    &&& forall|k: int| 0 <= k < n ==> (#[trigger] lin.a@[k])@ == filled(z, 7, 7)
    &&& forall|k: int| 0 <= k < n ==> (#[trigger] lin.b_minus@[k])@ == filled(z, 7, 3)
    &&& forall|k: int| 0 <= k < n ==> (#[trigger] lin.b_plus@[k])@ == filled(z, 7, 3)
    &&& forall|k: int| 0 <= k < n ==> (#[trigger] lin.c@[k])@ == constant(z, 7)
    &&& forall|k: int| 0 <= k < n ==> (#[trigger] lin.s@[k])@ == constant(z, 7)
}

fn blank_dynamics<T: Real>(n: usize) -> (lin: LinearizedDynamics<T>)
    requires
        real_ops::<T>(),
    ensures
        is_blank_dynamics(&lin, n as int),
{
    let z: T = number(0);
    let mut lin: LinearizedDynamics<T> = LinearizedDynamics {
        a: Vec::new(),
        b_minus: Vec::new(),
        b_plus: Vec::new(),
        c: Vec::new(),
        s: Vec::new(),
    };
    let mut k: usize = 0;
    while k < n
        invariant
            real_ops::<T>(),
            z == num::<T>(0),
            k <= n,
            is_blank_dynamics(&lin, k as int),
        decreases n - k,
    {
        lin.a.push(fill_mat(z, 7, 7));
        lin.b_minus.push(fill_mat(z, 7, 3));
        lin.b_plus.push(fill_mat(z, 7, 3));
        lin.c.push(fill_vec(z, 7));
        lin.s.push(fill_vec(z, 7));
        k = k + 1;
    }
    lin
}

/// A cone program of zeros, with cones of no rows.
pub open spec fn is_blank_problem<T: Real>(prob: &SocpProblem<T>, d: Dims) -> bool {
    let z = num::<T>(0);
    &&& prob.c@ == constant(z, d.np as int)
    &&& prob.a_mat@ == filled(z, d.ne as int, d.np as int)
    &&& prob.b@ == constant(z, d.ne as int)
    &&& prob.g_mat@ == filled(z, d.nct as int, d.np as int)
    &&& prob.h@ == constant(z, d.nct as int)
    &&& prob.cones@ == constant(ConeDesc { offset: 0, dim: 0 }, d.ncones as int)
}

fn blank_problem<T: Real>(d: Dims) -> (prob: SocpProblem<T>)
    requires
        real_ops::<T>(),
    ensures
        is_blank_problem(&prob, d),
{
    let z: T = number(0);
    SocpProblem {
        c: fill_vec(z, d.np),
        a_mat: fill_mat(z, d.ne, d.np),
        b: fill_vec(z, d.ne),
        g_mat: fill_mat(z, d.nct, d.np),
        h: fill_vec(z, d.nct),
        cones: fill_vec(ConeDesc { offset: 0, dim: 0 }, d.ncones),
    }
}

/// The record of no iteration: zeros throughout.
pub open spec fn blank_record<T: Real>() -> ScvxIterRecord<T> {
    let z = num::<T>(0);
    ScvxIterRecord {
        iter: 0,
        cost: z,
        trust_eta: z,
        virt_l1: z,
        rho_ratio: z,
        accepted: false,
        ipm_status: IpmStatus::Optimal,
        ipm_iters: 0,
    }
}

impl<T: Real> ScvxWorkspace<T> {
    /// An empty workspace of the given sizes.
    pub fn new(dims: Dims) -> (w: Self)
        requires
            real_ops::<T>(),
        ensures
            w.dims == dims,
            well_sized(&w),
            is_blank(&w.reference, dims.n as int),
            is_blank(&w.candidate, dims.n as int),
            w.ipm_ws@ == (Point {
                x: constant(num::<T>(0), dims.np as int),
                lambda: constant(num::<T>(0), dims.ne as int),
                s: constant(num::<T>(0), dims.nct as int),
                y: constant(num::<T>(0), dims.nct as int),
            }),
            w.trust_eta == num::<T>(1),
            w.iter == 0,
            w.j_prev == unbounded::<T>(),
            w.scale_diag@ == constant(num::<T>(0), dims.np as int),
            w.x_unscaled@ == constant(num::<T>(0), dims.np as int),
            w.cone_scales@ == constant(num::<T>(0), dims.ncones as int),
            w.x_actual@ == filled(num::<T>(0), dims.n as int, 7),
            is_blank_problem(&w.prob, dims),
            is_blank_dynamics(&w.lin, dims.n as int),
            w.structured_fallbacks == 0,
            w.rho_ceiling == num::<T>(1),
            !w.adaptive_seeded,
            forall|i: int|
                0 <= i < dims.max_outer ==> #[trigger] w.history@[i] == blank_record::<T>(),
    {
        let z: T = number(0);
        let mut history: Vec<ScvxIterRecord<T>> = Vec::new();
        while history.len() < dims.max_outer
            invariant
                z == num::<T>(0),
                history@.len() <= dims.max_outer,
                forall|i: int|
                    0 <= i < history@.len() ==> #[trigger] history@[i] == blank_record::<T>(),
            decreases dims.max_outer - history.len(),
        {
            history.push(
                ScvxIterRecord {
                    iter: 0,
                    cost: z,
                    trust_eta: z,
                    virt_l1: z,
                    rho_ratio: z,
                    accepted: false,
                    ipm_status: IpmStatus::Optimal,
                    ipm_iters: 0,
                },
            );
        }
        ScvxWorkspace {
            dims,
            reference: blank_trajectory(dims.n),
            candidate: blank_trajectory(dims.n),
            lin: blank_dynamics(dims.n),
            prob: blank_problem(dims),
            ipm_ws: SocpWorkspace {
                x: fill_vec(z, dims.np),
                lambda: fill_vec(z, dims.ne),
                s: fill_vec(z, dims.nct),
                y: fill_vec(z, dims.nct),
            },
            trust_eta: number(1),
            iter: 0,
            history,
            x_actual: fill_mat(z, dims.n, 7),
            j_prev: fraction(1, 0),
            scale_diag: fill_vec(z, dims.np),
            x_unscaled: fill_vec(z, dims.np),
            cone_scales: fill_vec(z, dims.ncones),
            structured_fallbacks: 0,
            rho_ceiling: number(1),
            adaptive_seeded: false,
        }
    }
}

} // verus!
