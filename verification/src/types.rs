//! The data the solver works on: physical parameters, trajectories, the
//! linearized dynamics, the cone program and the algorithms' settings.
use crate::linalg::{shaped, Mat};
use vstd::prelude::*;

verus! {

/// Vehicle, environment and constraint parameters.
pub struct PhysicalParams<T> {
    /// Gravity vector.
    pub g: [T; 3],
    /// Dry mass.
    pub m_dry: T,
    /// Wet mass.
    pub m_wet: T,
    /// Specific impulse.
    pub isp: T,
    /// Standard gravity, the divisor that goes with `isp`.
    pub g0: T,
    /// Lower thrust bound.
    pub t_min: T,
    /// Upper thrust bound.
    pub t_max: T,
    /// Cosine of the largest pointing angle.
    pub cos_theta_max: T,
    /// Tangent of the glide-slope angle.
    pub tan_gamma_gs: T,
    /// Air density.
    pub rho: T,
    /// Drag coefficient times reference area.
    pub cd_a: T,
    /// Lower bound on the time of flight.
    pub tau_lo: T,
    /// Upper bound on the time of flight.
    pub tau_hi: T,
}

/// Soft-landing target: terminal position and velocity. Terminal mass is free.
pub struct TerminalCondition<T> {
    pub r: [T; 3],
    pub v: [T; 3],
}

/// A sampled trajectory. Row `k` of `x` and of `u` is node `k`.
pub struct Trajectory<T> {
    pub x: Mat<T>,
    pub u: Mat<T>,
    pub sigma: Vec<T>,
    pub tau: T,
}

impl<T> Trajectory<T> {
    /// The trajectory has `n` nodes.
    pub open spec fn sized(&self, n: int) -> bool {
        &&& shaped(self.x@, n, 7)
        &&& shaped(self.u@, n, 3)
        &&& self.sigma@.len() == n
    }
}

/// First-order-hold linearization: for each interval `k`,
/// `x[k+1] = a[k] x[k] + b_minus[k] u[k] + b_plus[k] u[k+1] + s[k] tau + c[k]`.
pub struct LinearizedDynamics<T> {
    pub a: Vec<Mat<T>>,
    pub b_minus: Vec<Mat<T>>,
    pub b_plus: Vec<Mat<T>>,
    pub c: Vec<Vec<T>>,
    pub s: Vec<Vec<T>>,
}

impl<T> LinearizedDynamics<T> {
    /// The linearization covers `m` intervals.
    pub open spec fn covers(&self, m: int) -> bool {
        &&& self.a@.len() >= m
        &&& self.b_minus@.len() >= m
        &&& self.b_plus@.len() >= m
        &&& self.c@.len() >= m
        &&& self.s@.len() >= m
        &&& forall|k: int| 0 <= k < m ==> shaped((#[trigger] self.a@[k])@, 7, 7)
        &&& forall|k: int| 0 <= k < m ==> shaped((#[trigger] self.b_minus@[k])@, 7, 3)
        &&& forall|k: int| 0 <= k < m ==> shaped((#[trigger] self.b_plus@[k])@, 7, 3)
        &&& forall|k: int| 0 <= k < m ==> (#[trigger] self.c@[k])@.len() == 7
        &&& forall|k: int| 0 <= k < m ==> (#[trigger] self.s@[k])@.len() == 7
    }
}

/// One second-order cone of the product: `dim` consecutive rows from `offset`.
#[derive(Clone, Copy, PartialEq, Eq, Debug, Structural)]
pub struct ConeDesc {
    pub offset: usize,
    pub dim: usize,
}

/// The cone program
/// `minimize c x  subject to  a_mat x = b,  h - g_mat x in cones`.
pub struct SocpProblem<T> {
    pub c: Vec<T>,
    pub a_mat: Mat<T>,
    pub b: Vec<T>,
    pub g_mat: Mat<T>,
    pub h: Vec<T>,
    pub cones: Vec<ConeDesc>,
}

impl<T> SocpProblem<T> {
    /// `np` variables, `ne` equality rows and `nct` cone rows.
    pub open spec fn sized(&self, np: int, ne: int, nct: int) -> bool {
        &&& self.c@.len() == np
        &&& shaped(self.a_mat@, ne, np)
        &&& self.b@.len() == ne
        &&& shaped(self.g_mat@, nct, np)
        &&& self.h@.len() == nct
    }

    /// Every cone's rows lie among the `nct` cone rows.
    pub open spec fn cones_fit(&self, nct: int) -> bool {
        forall|c: int|
            0 <= c < self.cones@.len() ==> (#[trigger] self.cones@[c]).offset + self.cones@[c].dim
                <= nct
    }
}

/// Settings of the interior-point method.
pub struct IpmAlgoParams<T> {
    /// Iteration cap.
    pub max_iters: u32,
    /// Tolerance on the complementarity measure.
    pub tol_mu: T,
    /// Tolerance on the primal residual.
    pub tol_primal: T,
    /// Tolerance on the dual residual.
    pub tol_dual: T,
    /// Tolerance on the duality gap.
    pub tol_gap: T,
    /// Scale the variables before solving.
    pub use_preconditioning: bool,
    /// Scale the cone rows before solving.
    pub use_cone_row_scaling: bool,
    /// Use the Nesterov-Todd direction.
    pub use_nt_scaling: bool,
    /// Use the homogeneous self-dual embedding.
    pub use_hsd: bool,
    /// Grow the regularization with the Hessian.
    pub use_adaptive_regularization: bool,
    /// Start from the point in the workspace.
    pub warm_start_x: bool,
}

impl<T: Copy> Clone for IpmAlgoParams<T> {
    fn clone(&self) -> (r: Self)
        ensures
            r == *self,
    {
        *self
    }
}

impl<T: Copy> Copy for IpmAlgoParams<T> {

}

/// Settings of the successive-convexification loop.
pub struct ScvxAlgoParams<T> {
    /// Cap on outer iterations.
    pub max_outer_iters: u32,
    /// First trust radius, and its bounds.
    pub trust_eta0: T,
    pub trust_eta_min: T,
    pub trust_eta_max: T,
    /// Divisor of the trust radius where a step was poor.
    pub trust_alpha: T,
    /// Factor on the trust radius where a step was good.
    pub trust_beta: T,
    /// Penalty on virtual control.
    pub virt_weight: T,
    /// Merit ratios: at or below the first a step is refused, below the second the
    /// trust radius shrinks, above the third it grows.
    pub rho_reject: T,
    pub rho_shrink: T,
    pub rho_grow: T,
    /// Convergence tolerances on the step and on virtual control.
    pub conv_tol_x: T,
    pub conv_tol_virt: T,
    /// Optimize the time of flight.
    pub use_free_tf: bool,
    /// Use the structured inner drivers.
    pub use_structured_solve: bool,
    /// Let the merit-ratio thresholds follow the ratios that are achieved.
    pub use_adaptive_trust: bool,
}

impl<T: Copy> Clone for ScvxAlgoParams<T> {
    fn clone(&self) -> (r: Self)
        ensures
            r == *self,
    {
        *self
    }
}

impl<T: Copy> Copy for ScvxAlgoParams<T> {

}

/// How the successive-convexification loop ended.
#[derive(Clone, Copy, PartialEq, Eq, Debug, Structural)]
pub enum SolverStatus {
    /// The step and the virtual control are below their tolerances.
    Converged,
    /// The cap on outer iterations was reached.
    OuterIterCap,
    /// The inner problem could not be solved at the smallest trust radius.
    InnerFailure,
    /// The problem has no solution. The loop itself never reports this.
    Infeasible,
    /// The input was refused.
    BadInput,
}

/// One outer iteration's record.
pub struct ScvxIterRecord<T> {
    pub iter: u32,
    pub cost: T,
    pub trust_eta: T,
    pub virt_l1: T,
    pub rho_ratio: T,
    pub accepted: bool,
    pub ipm_status: IpmStatus,
    pub ipm_iters: u32,
}

/// How an interior-point solve ended.
#[derive(Clone, Copy, PartialEq, Eq, Debug, Structural)]
pub enum IpmStatus {
    /// All tolerances were met.
    Optimal,
    /// The best nearly feasible iterate was returned.
    BestFeasible,
    /// The program has no solution. Only a plant's own driver can find this out.
    Infeasible,
    /// A numerical breakdown happened without one.
    NumericalError,
    /// The iteration cap was reached without one.
    IterCap,
}

/// A primal-dual point.
#[verifier::ext_equal]
pub struct Point<T> {
    pub x: Seq<T>,
    pub lambda: Seq<T>,
    pub s: Seq<T>,
    pub y: Seq<T>,
}

impl<T> Point<T> {
    /// `np` variables, `ne` equality multipliers, `nct` slacks and cone
    /// multipliers.
    pub open spec fn sized(self, np: int, ne: int, nct: int) -> bool {
        self.x.len() == np && self.lambda.len() == ne && self.s.len() == nct && self.y.len() == nct
    }
}

/// The primal-dual point an interior-point method works on.
pub struct SocpWorkspace<T> {
    pub x: Vec<T>,
    pub lambda: Vec<T>,
    pub s: Vec<T>,
    pub y: Vec<T>,
}

impl<T> View for SocpWorkspace<T> {
    type V = Point<T>;

    open spec fn view(&self) -> Point<T> {
        Point { x: self.x@, lambda: self.lambda@, s: self.s@, y: self.y@ }
    }
}

/// What an interior-point solve returned.
#[verifier::ext_equal]
pub struct ResultModel<T> {
    pub point: Point<T>,
    pub status: IpmStatus,
    pub iters: u32,
}

/// What an interior-point solve returned.
pub struct SocpResult<T> {
    pub x: Vec<T>,
    pub lambda: Vec<T>,
    pub s: Vec<T>,
    pub y: Vec<T>,
    pub status: IpmStatus,
    pub iters: u32,
}

impl<T> View for SocpResult<T> {
    type V = ResultModel<T>;

    open spec fn view(&self) -> ResultModel<T> {
        ResultModel {
            point: Point { x: self.x@, lambda: self.lambda@, s: self.s@, y: self.y@ },
            status: self.status,
            iters: self.iters,
        }
    }
}

} // verus!
