//! Sizes and positions of the discretized problem.
use scvx_solver::layout::{
    delta_tau_idx_scvx, ncones_scvx_free_tf, nct_scvx_free_tf, np_scvx_free_tf, nu_idx_scvx,
    sigma_idx, sigma_idx_scvx, u_idx, u_idx_scvx, w_idx_scvx, workspace_ncones, workspace_nct,
    workspace_ne, workspace_np, x_idx, x_idx_scvx,
};

#[test]
fn workspace_dim_helpers_match_layout_constants() {
    // N=5 fixed-tf
    assert_eq!(workspace_np(5, false), 95);
    assert_eq!(workspace_ne(5), 41);
    assert_eq!(workspace_nct(5, false), 150);
    assert_eq!(workspace_ncones(5, false), 40);
    // N=5 free-tf
    assert_eq!(workspace_np(5, true), 96);
    assert_eq!(workspace_ne(5), 41);
    assert_eq!(workspace_nct(5, true), 152);
    assert_eq!(workspace_ncones(5, true), 42);
}

#[test]
fn node_entries_follow_one_another() {
    for k in 0..4 {
        assert_eq!(x_idx(k), 11 * k);
        assert_eq!(u_idx(k), 11 * k + 7);
        assert_eq!(sigma_idx(k), 11 * k + 10);
        assert_eq!(x_idx_scvx(k), 19 * k);
        assert_eq!(u_idx_scvx(k), 19 * k + 7);
        assert_eq!(sigma_idx_scvx(k), 19 * k + 10);
        assert_eq!(nu_idx_scvx(k), 19 * k + 11);
        assert_eq!(w_idx_scvx(k), 19 * k + 18);
    }
    assert_eq!(delta_tau_idx_scvx::<3>(), 57);
    assert_eq!((np_scvx_free_tf(3), nct_scvx_free_tf(3), ncones_scvx_free_tf(3)), (58, 92, 26));
}
