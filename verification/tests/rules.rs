//! The small rules: scalar helpers, merit ratio, trust radius, merit sums, the first
//! reference, and how degenerate systems are refused.
use scvx_solver::cones::{
    clip01, init_per_cone_warm_start, is_all_finite, per_cone_e,
};
use scvx_solver::linalg::Mat;
use scvx_solver::merit::{
    extract_candidate, extract_controls, fuel_only_cost, seed_warm_start, step_norm,
    trajectory_defect_l1, virtual_control_norm,
};
use scvx_solver::numerics::Numerics;
use scvx_solver::reduced_kkt::{
    factor_reduced_kkt_scvx_block_m, ReducedKktFactor, ReducedKktStatus,
};
use scvx_solver::scalar::{abs, clamp, fraction, is_finite, max, min, number, Units};
use scvx_solver::trust::{
    rho_ratio, shrink_after_failure, update_ceiling, update_trust, Ceiling,
};
use scvx_solver::types::{ConeDesc, ScvxAlgoParams, SocpProblem, Trajectory};

struct Plain;

impl Numerics<f64> for Plain {
    fn invert(&self, _m: &Mat<f64>) -> Option<Mat<f64>> {
        None
    }

    fn sqrt(&self, x: f64) -> f64 {
        libm::sqrt(x)
    }

    fn log(&self, x: f64) -> f64 {
        libm::log(x)
    }

    fn exp(&self, x: f64) -> f64 {
        libm::exp(x)
    }

    fn pow(&self, x: f64, y: f64) -> f64 {
        libm::pow(x, y)
    }
}

fn algo() -> ScvxAlgoParams<f64> {
    ScvxAlgoParams {
        max_outer_iters: 20,
        trust_eta0: 1.0,
        trust_eta_min: 0.5,
        trust_eta_max: 10.0,
        trust_alpha: 2.0,
        trust_beta: 3.0,
        virt_weight: 1.0e5,
        rho_reject: 0.0,
        rho_shrink: 0.25,
        rho_grow: 0.7,
        conv_tol_x: 1.0e-3,
        conv_tol_virt: 1.0e-7,
        use_free_tf: false,
        use_structured_solve: false,
        use_adaptive_trust: true,
    }
}

#[test]
fn scalar_helpers_handle_what_is_not_a_number() {
    assert_eq!(number::<f64>(7), 7.0);
    assert_eq!(fraction::<f64>(1, 4), 0.25);
    assert_eq!(fraction::<f64>(1, 0), f64::INFINITY);
    assert!(fraction::<f64>(0, 0).is_nan());
    assert!(is_finite(0.0, 3.0) && !is_finite(0.0, f64::INFINITY) && !is_finite(0.0, f64::NAN));
    assert_eq!((max(1.0, 2.0), max(f64::NAN, 2.0), max(1.0, f64::NAN)), (2.0, 2.0, 1.0));
    assert_eq!((min(1.0, 2.0), min(f64::NAN, 2.0), min(1.0, f64::NAN)), (1.0, 2.0, 1.0));
    assert_eq!((clamp(-1.0, 0.0, 1.0), clamp(0.5, 0.0, 1.0), clamp(9.0, 0.0, 1.0)), (0.0, 0.5, 1.0));
    // Bounds the wrong way round: no panic, the upper one holds.
    assert_eq!(clamp(5.0, 2.0, 1.0), 1.0);
    assert!(clamp(f64::NAN, 0.0, 1.0).is_nan());
    assert_eq!((abs(0.0, -3.0), abs(0.0, 3.0)), (3.0, 3.0));
    assert_eq!((clip01(-0.5), clip01(0.25), clip01(7.0)), (0.0, 0.25, 1.0));
    assert!(is_all_finite(&vec![1.0, -2.0]) && !is_all_finite(&vec![1.0, f64::NAN]));
}

#[test]
fn merit_ratio_compares_actual_with_predicted_reduction() {
    assert_eq!(rho_ratio(true, f64::INFINITY, 5.0, 6.0), 1.0);
    assert_eq!(rho_ratio(false, 10.0, 6.0, 8.0), 0.5);
    assert_eq!(rho_ratio(false, 10.0, 9.0, 50.0), -10.0);
    assert_eq!(rho_ratio(false, 10.0, 9.0, -50.0), 10.0);
    assert_eq!(rho_ratio(false, 10.0, 10.0, 10.0), 1.0);
    assert_eq!(rho_ratio(false, 10.0, 10.0, 11.0), 0.0);
    assert_eq!(rho_ratio(false, 10.0, 12.0, 8.0), 0.0);
    assert_eq!(rho_ratio(false, 10.0, 6.0, f64::NAN), 0.0);
}

#[test]
fn ceiling_follows_accepted_steps() {
    let start = Ceiling { rho: 1.0, seeded: false };
    let kept = update_ceiling(true, false, false, 0.2, start);
    assert_eq!((kept.rho, kept.seeded), (1.0, false));
    let first = update_ceiling(true, true, true, 0.2, start);
    assert_eq!((first.rho, first.seeded), (1.0, false));
    let off = update_ceiling(false, true, false, 0.2, start);
    assert_eq!((off.rho, off.seeded), (1.0, false));
    let seen = update_ceiling(true, true, false, 0.2, start);
    assert_eq!((seen.rho, seen.seeded), (0.2, true));
    let next = update_ceiling(true, true, false, 7.0, Ceiling { rho: 0.5, seeded: true });
    assert_eq!((next.rho, next.seeded), (0.75, true));
}

#[test]
fn trust_radius_follows_the_merit_ratio() {
    let a = algo();
    assert_eq!(update_trust(&a, 1.0, false, 0.9, 4.0), 2.0);
    assert_eq!(update_trust(&a, 1.0, true, 0.2, 4.0), 2.0);
    assert_eq!(update_trust(&a, 1.0, true, 0.5, 4.0), 4.0);
    assert_eq!(update_trust(&a, 1.0, true, 0.9, 2.0), 6.0);
    assert_eq!(update_trust(&a, 1.0, true, 0.9, 4.0), 10.0);
    assert_eq!(update_trust(&a, 1.0, false, 0.9, 0.75), 0.5);
    // A low ceiling lowers both thresholds: 0.2 is now a good step.
    assert_eq!(update_trust(&a, 0.2, true, 0.2, 2.0), 6.0);
    // A ceiling at the shrink setting changes neither.
    assert_eq!(update_trust(&a, 0.25, true, 0.2, 2.0), 1.0);
    assert_eq!(update_trust(&a, 0.25, true, 0.6, 2.0), 2.0);
    let fixed = ScvxAlgoParams { use_adaptive_trust: false, ..a };
    assert_eq!(update_trust(&fixed, 0.2, true, 0.2, 2.0), 1.0);
}

#[test]
fn failure_shrinks_the_trust_radius_to_its_floor() {
    let a = algo();
    assert_eq!(shrink_after_failure(&a, 4.0), Some(2.0));
    assert_eq!(shrink_after_failure(&a, 0.75), Some(0.5));
    assert_eq!(shrink_after_failure(&a, 0.5), None);
}

fn unknowns() -> Vec<f64> {
    (0..38).map(|i| i as f64).collect()
}

#[test]
fn merit_sums_read_the_right_entries() {
    let x = unknowns();
    assert_eq!(fuel_only_cost(&x, 2), 10.0 + 29.0);
    let virt: f64 = (11..18).chain(30..37).map(|i| (i * i) as f64).sum();
    assert_eq!(virtual_control_norm(&Plain, &x, 2), virt.sqrt());
    let t = extract_candidate(&x, 2, 9.0);
    assert_eq!(t.x.rows[1], (19..26).map(|i| i as f64).collect::<Vec<f64>>());
    assert_eq!(t.u.rows[0], vec![7.0, 8.0, 9.0]);
    assert_eq!((t.sigma.clone(), t.tau), (vec![10.0, 29.0], 9.0));
    assert_eq!(extract_controls(&x, 2).rows[1], vec![26.0, 27.0, 28.0]);
    assert_eq!(step_norm(&Plain, &x, &t, 2), 0.0);
    let mut moved = x.clone();
    moved[19] += 3.0;
    moved[28] -= 4.0;
    assert_eq!(step_norm(&Plain, &moved, &t, 2), 5.0);
    assert_eq!(trajectory_defect_l1(&Plain, &t.x, &x, 2), 0.0);
    let mut flown = t.x.rows.clone();
    flown[0][0] += 3.0;
    flown[0][1] -= 4.0;
    flown[1][6] += 2.0;
    assert_eq!(trajectory_defect_l1(&Plain, &Mat { rows: flown }, &x, 2), 7.0);
}

#[test]
fn seeded_unknowns_hold_the_trajectory() {
    let t = Trajectory {
        x: Mat { rows: vec![vec![1.0; 7], vec![2.0; 7]] },
        u: Mat { rows: vec![vec![3.0; 3], vec![4.0; 3]] },
        sigma: vec![5.0, 6.0],
        tau: 7.0,
    };
    let x = seed_warm_start(&t, 2, 39);
    assert_eq!(x.len(), 39);
    assert_eq!((x[0], x[7], x[10], x[11], x[18]), (1.0, 3.0, 5.0, 0.0, 0.0));
    assert_eq!((x[19], x[26], x[29], x[38]), (2.0, 4.0, 6.0, 0.0));
    let back = extract_candidate(&x, 2, 7.0);
    assert_eq!((back.x.rows, back.u.rows, back.sigma), (t.x.rows, t.u.rows, t.sigma));
}

#[test]
fn starting_points_lie_inside_their_cones() {
    let cones = vec![ConeDesc { offset: 0, dim: 3 }, ConeDesc { offset: 3, dim: 1 }];
    assert_eq!(per_cone_e::<f64>(4, &cones), vec![1.0, 0.0, 0.0, 1.0]);
    let v = init_per_cone_warm_start(&Plain, &vec![0.0, 3.0, -4.0, -2.0], &cones);
    assert!(v[0] > libm::sqrt(v[1] * v[1] + v[2] * v[2]));
    assert!(v[3] > 0.0);
}

#[test]
fn starting_points_follow_their_hints_and_settle() {
    let cones = vec![
        ConeDesc { offset: 0, dim: 3 },
        ConeDesc { offset: 3, dim: 3 },
        ConeDesc { offset: 6, dim: 3 },
        ConeDesc { offset: 9, dim: 2 },
    ];
    // Safely inside, barely inside, outside, and not finite.
    let h = vec![10.0, 3.0, -4.0, 5.1, 3.0, -4.0, 1.0, 3.0, -4.0, f64::NAN, 2.0];
    let v = init_per_cone_warm_start(&Plain, &h, &cones);
    assert_eq!(v[..3], h[..3]);
    let expected = [0.9 * 5.1 + 0.1 * 5.1, 0.9 * 3.0, -0.9 * 4.0];
    for i in 0..3 {
        assert!((v[3 + i] - expected[i]).abs() < 1.0e-12);
    }
    assert_eq!(v[6..9], [5.0, 0.0, 0.0]);
    assert_eq!(v[9..], [1.0, 0.0]);
    for c in &cones {
        let tail: f64 = v[c.offset + 1..c.offset + c.dim].iter().map(|x| x * x).sum();
        assert!(v[c.offset] > libm::sqrt(tail));
    }
    assert_eq!(init_per_cone_warm_start(&Plain, &v, &cones), v);
}

#[test]
fn starting_points_of_hints_that_are_not_finite_settle() {
    let cones = vec![
        ConeDesc { offset: 0, dim: 1 },
        ConeDesc { offset: 1, dim: 3 },
        ConeDesc { offset: 4, dim: 3 },
        ConeDesc { offset: 7, dim: 3 },
    ];
    let inf = f64::INFINITY;
    // Not a number, infinite, and finite with a size that overflows.
    let h = vec![f64::NAN, 4.0, -inf, 0.0, inf, 1.0, 2.0, 1.0, 1.0e200, -1.0e200];
    let v = init_per_cone_warm_start(&Plain, &h, &cones);
    assert_eq!(v, vec![1.0, 1.0, 0.0, 0.0, 1.0, 0.0, 0.0, 1.0, 0.0, 0.0]);
    assert_eq!(init_per_cone_warm_start(&Plain, &v, &cones), v);
}

#[test]
fn degenerate_systems_are_refused() {
    let units = Units { zero: 0.0, one: 1.0 };
    let empty = |n: usize| SocpProblem {
        c: vec![0.0; 19 * n],
        a_mat: Mat { rows: vec![vec![0.0; 19 * n]; 7 * n + 6] },
        b: vec![0.0; 7 * n + 6],
        g_mat: Mat { rows: vec![] },
        h: vec![],
        cones: vec![],
    };
    let none = Mat { rows: vec![] };
    let mut f = ReducedKktFactor::new();
    let st = factor_reduced_kkt_scvx_block_m(units, &Plain, &empty(0), 0, 0, &none, 1.0, &mut f);
    assert_eq!(st, ReducedKktStatus::DegenerateInput);
    let st = factor_reduced_kkt_scvx_block_m(units, &Plain, &empty(64), 64, 1216, &none, 1.0, &mut f);
    assert_eq!(st, ReducedKktStatus::DegenerateInput);
    assert_eq!(f.nrb, 0);
    // Nothing can be inverted: the first node's block is refused.
    let st = factor_reduced_kkt_scvx_block_m(units, &Plain, &empty(1), 1, 19, &none, 1.0, &mut f);
    assert_eq!(st, ReducedKktStatus::HNotPd);
    assert_eq!((f.nrb, f.h_inv.len()), (2, 0));
    let codes: Vec<u32> = [
        ReducedKktStatus::Okay,
        ReducedKktStatus::HNotPd,
        ReducedKktStatus::SchurSingular,
        ReducedKktStatus::DegenerateInput,
    ]
    .iter()
    .map(|s| s.as_u32())
    .collect();
    assert_eq!(codes, vec![0, 1, 2, 3]);
}
