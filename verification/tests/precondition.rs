//! Scales of unknowns and cones, and what scaling does to a program.
use scvx_solver::linalg::Mat;
use scvx_solver::precondition::{
    build_cone_scale_diagonal, build_scaling_diagonal, scale_cone_rows_in_place,
    scale_socp_in_place, scale_warm_start_in_place, unscale_solution,
};
use scvx_solver::types::{ConeDesc, PhysicalParams, SocpProblem};

fn mars_params() -> PhysicalParams<f64> {
    PhysicalParams {
        g: [0.0, 0.0, -3.7114],
        m_dry: 200.0,
        m_wet: 1000.0,
        isp: 225.0,
        g0: 9.80665,
        t_min: 1000.0,
        t_max: 6000.0,
        cos_theta_max: 0.7660444,
        tan_gamma_gs: 1.0,
        rho: 0.0,
        cd_a: 0.0,
        tau_lo: 5.0,
        tau_hi: 50.0,
    }
}

fn mat(rows: &[&[f64]]) -> Mat<f64> {
    Mat { rows: rows.iter().map(|r| r.to_vec()).collect() }
}

#[test]
fn diagonal_is_strictly_positive() {
    let x_init = vec![0.0, 0.0, 500.0, 0.0, 0.0, -20.0, (800.0_f64).ln()];
    let d = build_scaling_diagonal(3, &mars_params(), &x_init, false);
    assert_eq!(d.len(), 57);
    for v in &d {
        assert!(*v > 0.0);
        assert!(v.is_finite());
    }
}

#[test]
fn diagonal_matches_documented_scale_table() {
    let phys = mars_params();
    let d = build_scaling_diagonal(2, &phys, &vec![0.0; 7], false);
    for k in 0..2 {
        let base = k * 19;
        for i in 0..3 {
            assert_eq!(d[base + i], 100.0, "position {i} of node {k}");
        }
        for i in 0..3 {
            assert_eq!(d[base + 3 + i], 10.0, "velocity {i} of node {k}");
        }
        assert_eq!(d[base + 6], 1.0);
        for i in 0..3 {
            assert_eq!(d[base + 7 + i], phys.t_max, "thrust {i} of node {k}");
        }
        assert_eq!(d[base + 10], phys.t_max);
        for i in 0..3 {
            assert_eq!(d[base + 11 + i], 100.0, "virtual control {i} of node {k}");
        }
        for i in 0..3 {
            assert_eq!(d[base + 14 + i], 10.0, "virtual control {i} of node {k}");
        }
        assert_eq!(d[base + 17], 1.0);
        assert_eq!(d[base + 18], 1.0);
    }
}

#[test]
fn diagonal_uses_x_init_when_large() {
    let x_init = vec![0.0, 0.0, 5000.0, -250.0, 0.0, 0.0, 0.0];
    let d = build_scaling_diagonal(1, &mars_params(), &x_init, false);
    for i in 0..3 {
        assert_eq!(d[i], 5000.0);
    }
    for i in 0..3 {
        assert_eq!(d[3 + i], 250.0);
    }
}

#[test]
fn diagonal_free_tf_appends_dtau_scale() {
    let phys = mars_params();
    let x_init = vec![0.0; 7];
    let fixed = build_scaling_diagonal(2, &phys, &x_init, false);
    let free = build_scaling_diagonal(2, &phys, &x_init, true);
    for i in 0..38 {
        assert_eq!(fixed[i], free[i]);
    }
    let want = (phys.tau_hi - phys.tau_lo).max(1.0);
    assert!((free[38] - want).abs() < 1e-15);
}

#[test]
fn diagonal_free_tf_dtau_scale_floors_to_min_scale() {
    let phys = PhysicalParams { tau_lo: 10.0, tau_hi: 10.5, ..mars_params() };
    let d = build_scaling_diagonal(1, &phys, &vec![0.0; 7], true);
    assert_eq!(d[19], 1.0);
}

#[test]
fn cone_scale_free_tf_appends_bound_cone_scales() {
    let phys = mars_params();
    let x_init = vec![0.0; 7];
    let fixed = build_cone_scale_diagonal(2, &phys, &x_init, 5.0, false);
    let free = build_cone_scale_diagonal(2, &phys, &x_init, 5.0, true);
    for i in 0..16 {
        assert_eq!(fixed[i], free[i]);
    }
    let want = (phys.tau_hi - phys.tau_lo).max(1.0);
    assert!((free[16] - want).abs() < 1e-15);
    assert!((free[17] - want).abs() < 1e-15);
}

#[test]
fn scale_socp_in_place_matches_column_scaling() {
    let c = vec![1.0, 2.0, 3.0, 4.0];
    let a = mat(&[&[1.0, 2.0, 3.0, 4.0], &[5.0, 6.0, 7.0, 8.0]]);
    let b = vec![10.0, 20.0];
    let g = mat(&[&[-1.0, 0.0, 0.0, 0.0], &[0.0, -2.0, 0.0, 0.0], &[0.0, 0.0, -3.0, 0.0]]);
    let h = vec![0.5, 1.5, 2.5];
    let mut prob = SocpProblem {
        c: c.clone(),
        a_mat: Mat { rows: a.rows.clone() },
        b: b.clone(),
        g_mat: Mat { rows: g.rows.clone() },
        h: h.clone(),
        cones: vec![ConeDesc { offset: 0, dim: 3 }],
    };
    let d = vec![10.0, 100.0, 1000.0, 0.1];
    scale_socp_in_place(&mut prob, &d);
    for j in 0..4 {
        assert!((prob.c[j] - c[j] * d[j]).abs() < 1e-15);
    }
    for i in 0..2 {
        for j in 0..4 {
            assert!((prob.a_mat.rows[i][j] - a.rows[i][j] * d[j]).abs() < 1e-15);
        }
    }
    for i in 0..3 {
        for j in 0..4 {
            assert!((prob.g_mat.rows[i][j] - g.rows[i][j] * d[j]).abs() < 1e-15);
        }
    }
    for i in 0..2 {
        assert_eq!(prob.b[i], b[i]);
    }
    for i in 0..3 {
        assert_eq!(prob.h[i], h[i]);
    }
}

#[test]
fn unscale_inverts_warm_start_scaling() {
    let d = vec![1.0, 10.0, 100.0, 1.0, 1000.0];
    let x: Vec<f64> = vec![3.0, 50.0, 250.0, -2.0, 7500.0];
    let mut scaled: Vec<f64> = x.clone();
    scale_warm_start_in_place(&mut scaled, &d);
    for j in 0..5 {
        assert!((scaled[j] - x[j] / d[j]).abs() < 1e-15);
    }
    let mut back: Vec<f64> = vec![0.0; 5];
    unscale_solution(&scaled, &d, &mut back);
    for j in 0..5 {
        assert!((back[j] - x[j]).abs() < 1e-12);
    }
}

#[test]
fn cone_scale_diagonal_is_strictly_positive() {
    let x_init = vec![0.0, 0.0, 500.0, 0.0, 0.0, -20.0, 0.0];
    let e = build_cone_scale_diagonal(3, &mars_params(), &x_init, 5.0, false);
    assert_eq!(e.len(), 24);
    for v in &e {
        assert!(*v > 0.0);
        assert!(v.is_finite());
    }
}

#[test]
fn cone_scale_matches_documented_table() {
    let phys = mars_params();
    let trust_eta = 5.0;
    let e = build_cone_scale_diagonal(2, &phys, &vec![0.0; 7], trust_eta, false);
    for k in 0..2 {
        let base = k * 8;
        assert_eq!(e[base], phys.t_max);
        assert_eq!(e[base + 1], phys.t_max);
        assert_eq!(e[base + 2], 1.0);
        assert_eq!(e[base + 3], 100.0);
        assert_eq!(e[base + 4], phys.t_max);
        assert_eq!(e[base + 5], phys.t_max);
        assert_eq!(e[base + 6], trust_eta);
        assert_eq!(e[base + 7], 1.0);
    }
}

#[test]
fn cone_scale_clamps_trust_eta_to_min_scale() {
    let phys = mars_params();
    let x_init = vec![0.0; 7];
    let zero = build_cone_scale_diagonal(1, &phys, &x_init, 0.0, false);
    assert_eq!(zero[6], 1.0);
    let negative = build_cone_scale_diagonal(1, &phys, &x_init, -100.0, false);
    assert_eq!(negative[6], 1.0);
}

#[test]
fn scale_cone_rows_matches_per_cone_row_division() {
    let c = vec![1.0, 2.0, 3.0, 4.0];
    let a = mat(&[&[1.0, 2.0, 3.0, 4.0], &[5.0, 6.0, 7.0, 8.0]]);
    let b = vec![10.0, 20.0];
    let g = mat(&[
        &[-1.0, 0.0, 0.0, 0.0],
        &[0.0, -2.0, 0.0, 0.0],
        &[0.0, 0.0, -3.0, 0.0],
        &[0.0, 0.0, 0.0, -4.0],
        &[0.0, 0.0, 0.0, -5.0],
    ]);
    let h = vec![1.0, 2.0, 3.0, 4.0, 5.0];
    let mut prob = SocpProblem {
        c: c.clone(),
        a_mat: Mat { rows: a.rows.clone() },
        b: b.clone(),
        g_mat: Mat { rows: g.rows.clone() },
        h: h.clone(),
        cones: vec![ConeDesc { offset: 0, dim: 3 }, ConeDesc { offset: 3, dim: 2 }],
    };
    scale_cone_rows_in_place(&mut prob, &vec![10.0, 100.0]);
    for j in 0..4 {
        assert_eq!(prob.c[j], c[j]);
    }
    for i in 0..2 {
        for j in 0..4 {
            assert_eq!(prob.a_mat.rows[i][j], a.rows[i][j]);
        }
        assert_eq!(prob.b[i], b[i]);
    }
    for r in 0..3 {
        for j in 0..4 {
            assert!((prob.g_mat.rows[r][j] - g.rows[r][j] / 10.0).abs() < 1e-15);
        }
        assert!((prob.h[r] - h[r] / 10.0).abs() < 1e-15);
    }
    for r in 3..5 {
        for j in 0..4 {
            assert!((prob.g_mat.rows[r][j] - g.rows[r][j] / 100.0).abs() < 1e-15);
        }
        assert!((prob.h[r] - h[r] / 100.0).abs() < 1e-15);
    }
}

#[test]
fn cone_rows_are_divided_by_scales_below_one_too() {
    let mut prob = SocpProblem {
        c: vec![1.0],
        a_mat: mat(&[&[1.0]]),
        b: vec![0.0],
        g_mat: mat(&[&[-1.0]]),
        h: vec![1.0],
        cones: vec![ConeDesc { offset: 0, dim: 1 }],
    };
    scale_cone_rows_in_place(&mut prob, &vec![0.5]);
    assert_eq!(prob.g_mat.rows[0][0], -2.0);
    assert_eq!(prob.h[0], 2.0);
}

#[test]
fn scaling_preserves_feasibility() {
    let mut prob = SocpProblem {
        c: vec![1.0, 0.0, 0.0],
        a_mat: mat(&[&[0.0, 1.0, 1.0]]),
        b: vec![1.0],
        g_mat: mat(&[&[-1.0, 0.0, 0.0], &[0.0, -1.0, 0.0], &[0.0, 0.0, -1.0]]),
        h: vec![0.0; 3],
        cones: vec![ConeDesc { offset: 0, dim: 3 }],
    };
    let apply = |m: &Mat<f64>, x: &[f64]| -> Vec<f64> {
        m.rows.iter().map(|r| r.iter().zip(x).map(|(a, b)| a * b).sum()).collect()
    };
    let slack = |p: &SocpProblem<f64>, x: &[f64]| -> Vec<f64> {
        apply(&p.g_mat, x).iter().zip(&p.h).map(|(g, h)| h - g).collect()
    };
    let x = vec![(0.5_f64).sqrt(), 0.5, 0.5];
    let s = slack(&prob, &x);
    assert!((apply(&prob.a_mat, &x)[0] - prob.b[0]).abs() < 1e-12);
    assert!(s[0] >= (s[1].powi(2) + s[2].powi(2)).sqrt() - 1e-12);

    let d = vec![10.0, 100.0, 1000.0];
    scale_socp_in_place(&mut prob, &d);
    let mut scaled: Vec<f64> = x.clone();
    scale_warm_start_in_place(&mut scaled, &d);
    assert!((apply(&prob.a_mat, &scaled)[0] - prob.b[0]).abs() < 1e-12);
    let t = slack(&prob, &scaled);
    for i in 0..3 {
        assert!((t[i] - s[i]).abs() < 1e-12);
    }
}
