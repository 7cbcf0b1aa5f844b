//! Where each variable, equality row and cone of the subproblem sits.
//!
//! Two layouts are in use. The lossless one has 11 variables and 6 cones per
//! node; the successive-convexification one adds virtual control and its norm
//! bound, for 19 variables and 8 cones per node, and optionally one global
//! time increment with two bound cones after all nodes.
use vstd::prelude::*;

verus! {

/// State dimension: position, velocity, log-mass.
pub const NX: usize = 7;

/// Control dimension.
pub const NU: usize = 3;

/// Thrust-magnitude slack dimension.
pub const NSIGMA: usize = 1;

/// Variables per node in the lossless layout.
pub const N_VARS_PER_NODE: usize = 11;

/// Cone rows per node in the lossless layout.
pub const N_CONE_DIM_PER_NODE: usize = 11;

/// Cones per node in the lossless layout.
pub const N_CONES_PER_NODE: usize = 6;

/// Rows that pin the initial state.
pub const N_EQ_INITIAL: usize = 7;

/// Rows per dynamics transition.
pub const N_EQ_PER_DYN: usize = 7;

/// Rows that pin the terminal position and velocity; terminal mass is free.
pub const N_EQ_TERMINAL: usize = 6;

/// Virtual-control dimension.
pub const NNU: usize = 7;

/// Dimension of the bound on the virtual control's norm.
pub const NW: usize = 1;

/// Variables per node in the successive-convexification layout.
pub const N_VARS_PER_NODE_SCVX: usize = 19;

/// Cones per node in the successive-convexification layout.
pub const N_CONES_PER_NODE_SCVX: usize = 8;

/// Cone rows per node in the successive-convexification layout.
pub const N_CONE_DIM_PER_NODE_SCVX: usize = 30;

/// First state column of node `k`, lossless layout.
pub fn x_idx(k: usize) -> (r: usize)
    requires
        k * N_VARS_PER_NODE <= usize::MAX,
    ensures
        r == 11 * k,
{
    k * N_VARS_PER_NODE
}

/// First control column of node `k`, lossless layout.
pub fn u_idx(k: usize) -> (r: usize)
    requires
        k * N_VARS_PER_NODE + NX <= usize::MAX,
    ensures
        r == 11 * k + 7,
{
    k * N_VARS_PER_NODE + NX
}

/// Thrust-magnitude column of node `k`, lossless layout.
pub fn sigma_idx(k: usize) -> (r: usize)
    requires
        k * N_VARS_PER_NODE + NX + NU <= usize::MAX,
    ensures
        r == 11 * k + 10,
{
    k * N_VARS_PER_NODE + NX + NU
}

/// First state column of node `k`.
pub fn x_idx_scvx(k: usize) -> (r: usize)
    requires
        k * N_VARS_PER_NODE_SCVX <= usize::MAX,
    ensures
        r == 19 * k,
{
    k * N_VARS_PER_NODE_SCVX
}

/// First control column of node `k`.
pub fn u_idx_scvx(k: usize) -> (r: usize)
    requires
        k * N_VARS_PER_NODE_SCVX + NX <= usize::MAX,
    ensures
        r == 19 * k + 7,
{
    k * N_VARS_PER_NODE_SCVX + NX
}

/// Thrust-magnitude column of node `k`.
pub fn sigma_idx_scvx(k: usize) -> (r: usize)
    requires
        k * N_VARS_PER_NODE_SCVX + NX + NU <= usize::MAX,
    ensures
        r == 19 * k + 10,
{
    k * N_VARS_PER_NODE_SCVX + NX + NU
}

/// First virtual-control column of node `k`.
pub fn nu_idx_scvx(k: usize) -> (r: usize)
    requires
        k * N_VARS_PER_NODE_SCVX + NX + NU + NSIGMA <= usize::MAX,
    ensures
        r == 19 * k + 11,
{
    k * N_VARS_PER_NODE_SCVX + NX + NU + NSIGMA
}

/// Column of the virtual-control norm bound of node `k`.
pub fn w_idx_scvx(k: usize) -> (r: usize)
    requires
        k * N_VARS_PER_NODE_SCVX + NX + NU + NSIGMA + NNU <= usize::MAX,
    ensures
        r == 19 * k + 18,
{
    k * N_VARS_PER_NODE_SCVX + NX + NU + NSIGMA + NNU
}

/// Column of the global time increment, after all per-node columns.
pub fn delta_tau_idx_scvx<const N: usize>() -> (r: usize)
    requires
        N * N_VARS_PER_NODE_SCVX <= usize::MAX,
    ensures
        r == 19 * N,
{
    N * N_VARS_PER_NODE_SCVX
}

/// Number of variables with a free final time.
pub fn np_scvx_free_tf(n: usize) -> (r: usize)
    requires
        n * N_VARS_PER_NODE_SCVX + 1 <= usize::MAX,
    ensures
        r == 19 * n + 1,
{
    n * N_VARS_PER_NODE_SCVX + 1
}

/// Number of cone rows with a free final time.
pub fn nct_scvx_free_tf(n: usize) -> (r: usize)
    requires
        n * N_CONE_DIM_PER_NODE_SCVX + 2 <= usize::MAX,
    ensures
        r == 30 * n + 2,
{
    n * N_CONE_DIM_PER_NODE_SCVX + 2
}

/// Number of cones with a free final time.
pub fn ncones_scvx_free_tf(n: usize) -> (r: usize)
    requires
        n * N_CONES_PER_NODE_SCVX + 2 <= usize::MAX,
    ensures
        r == 8 * n + 2,
{
    n * N_CONES_PER_NODE_SCVX + 2
}

/// Number of variables for `n` nodes.
pub fn workspace_np(n: usize, use_free_tf: bool) -> (r: usize)
    requires
        n * N_VARS_PER_NODE_SCVX + 1 <= usize::MAX,
    ensures
        r == spec_np(n as int, use_free_tf),
{
    if use_free_tf {
        np_scvx_free_tf(n)
    } else {
        n * N_VARS_PER_NODE_SCVX
    }
}

/// Number of equality rows for `n` nodes. A free final time adds none: the time
/// increment enters the dynamics rows that are there anyway.
pub fn workspace_ne(n: usize) -> (r: usize)
    requires
        n * N_EQ_PER_DYN + N_EQ_TERMINAL <= usize::MAX,
    ensures
        r == spec_ne(n as int),
{
    n * N_EQ_PER_DYN + N_EQ_TERMINAL
}

/// Number of cone rows for `n` nodes.
pub fn workspace_nct(n: usize, use_free_tf: bool) -> (r: usize)
    requires
        n * N_CONE_DIM_PER_NODE_SCVX + 2 <= usize::MAX,
    ensures
        r == spec_nct(n as int, use_free_tf),
{
    if use_free_tf {
        nct_scvx_free_tf(n)
    } else {
        n * N_CONE_DIM_PER_NODE_SCVX
    }
}

/// Number of cones for `n` nodes.
pub fn workspace_ncones(n: usize, use_free_tf: bool) -> (r: usize)
    requires
        n * N_CONES_PER_NODE_SCVX + 2 <= usize::MAX,
    ensures
        r == spec_ncones(n as int, use_free_tf),
{
    if use_free_tf {
        ncones_scvx_free_tf(n)
    } else {
        n * N_CONES_PER_NODE_SCVX
    }
}

/// Number of variables for `n` nodes.
pub open spec fn spec_np(n: int, free_tf: bool) -> int {
    if free_tf {
        19 * n + 1
    } else {
        19 * n
    }
}

/// Number of equality rows for `n` nodes.
pub open spec fn spec_ne(n: int) -> int {
    7 * n + 6
}

/// Number of cone rows for `n` nodes.
pub open spec fn spec_nct(n: int, free_tf: bool) -> int {
    if free_tf {
        30 * n + 2
    } else {
        30 * n
    }
}

/// Number of cones for `n` nodes.
pub open spec fn spec_ncones(n: int, free_tf: bool) -> int {
    if free_tf {
        8 * n + 2
    } else {
        8 * n
    }
}

} // verus!
