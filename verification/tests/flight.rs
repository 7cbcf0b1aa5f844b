//! Whole solves in double precision: the structured system against dense
//! elimination, the drivers against dense drivers and against optima that other
//! solvers found, and the outer loop on descents to Mars and to the Moon.
use nalgebra::{DMatrix, DVector};
use scvx_solver::api::{solve_powered_descent, PoweredDescentOptions};
use scvx_solver::assemble::{assemble_lcvx_socp, assemble_scvx_socp};
use scvx_solver::cones::{
    all_cones_interior, build_per_cone_arrow_blocks, build_per_cone_nt_blocks, clip01,
    init_per_cone_warm_start, jordan_per_cone, max_step_all_cones, per_cone_e, ConeOps,
};
use scvx_solver::layout::{
    sigma_idx, u_idx, workspace_ncones, workspace_nct, workspace_ne, workspace_np, x_idx,
    N_CONES_PER_NODE, N_CONE_DIM_PER_NODE, N_VARS_PER_NODE, NX,
};
use scvx_solver::linalg::Mat;
use scvx_solver::merit::seed_warm_start;
use scvx_solver::numerics::Numerics;
use scvx_solver::precondition::{
    build_cone_scale_diagonal, build_scaling_diagonal, scale_cone_rows_in_place,
    scale_socp_in_place, scale_warm_start_in_place, unscale_solution,
};
use scvx_solver::reduced_kkt::{
    factor_reduced_kkt_scvx_block_m, solve_reduced_kkt_scvx, solve_reduced_kkt_scvx_block_m,
    solve_reduced_kkt_scvx_with_factor, ReducedKktFactor, ReducedKktSolution, ReducedKktStatus,
};
use scvx_solver::reduced_kkt_free_tf::{
    factor_reduced_kkt_scvx_block_m_free_tf, solve_reduced_kkt_scvx_with_factor_free_tf,
    ReducedKktFactorFreeTf, ReducedKktSolutionFreeTf,
};
use scvx_solver::scalar::{Limits, Units};
use scvx_solver::scvx::{solve_scvx, Dims, Plant, ScvxWorkspace};
use scvx_solver::structured_hsd::{solve_socp_structured_hsd, solve_socp_structured_hsd_free_tf};
use scvx_solver::structured_socp::{
    solve_socp_structured, solve_socp_structured_free_tf, solve_socp_structured_nt,
    solve_socp_structured_nt_free_tf,
};
use scvx_solver::types::{
    ConeDesc, IpmAlgoParams, IpmStatus, LinearizedDynamics, PhysicalParams, ScvxAlgoParams,
    SocpProblem, SocpResult, SocpWorkspace, SolverStatus, TerminalCondition, Trajectory,
};
use std::cell::RefCell;

const RK4_SUBSTEPS: u32 = 4;
const HARD_MAX_ITERS: u32 = 64;

const LIMITS: Limits<f64> = Limits { tiny: 1.0e-300, huge: 1.0e50 };
const UNITS: Units<f64> = Units { zero: 0.0, one: 1.0 };

// ---- number routines ----

struct Soc;

fn tail_norm(v: &[f64]) -> f64 {
    v[1..].iter().map(|a| a * a).sum::<f64>().sqrt()
}

impl Numerics<f64> for Soc {
    fn invert(&self, m: &Mat<f64>) -> Option<Mat<f64>> {
        let n = m.rows.len();
        let d = DMatrix::from_fn(n, n, |i, j| m.rows[i][j]);
        let inv = d.try_inverse()?;
        Some(Mat { rows: (0..n).map(|i| (0..n).map(|j| inv[(i, j)]).collect()).collect() })
    }

    fn sqrt(&self, x: f64) -> f64 {
        libm::sqrt(x)
    }

    fn log(&self, x: f64) -> f64 {
        libm::log(x)
    }

    fn exp(&self, x: f64) -> f64 {
        libm::exp(x)
    }

    fn pow(&self, x: f64, y: f64) -> f64 {
        libm::pow(x, y)
    }
}

impl ConeOps<f64> for Soc {
    fn jordan(&self, u: &Vec<f64>, v: &Vec<f64>) -> Vec<f64> {
        let mut r = vec![0.0; u.len()];
        r[0] = u.iter().zip(v).map(|(a, b)| a * b).sum();
        for i in 1..u.len() {
            r[i] = u[0] * v[i] + v[0] * u[i];
        }
        r
    }

    fn arrow(&self, v: &Vec<f64>) -> Mat<f64> {
        let d = v.len();
        let mut rows = vec![vec![0.0; d]; d];
        for i in 0..d {
            rows[i][i] = v[0];
            rows[0][i] = v[i];
            rows[i][0] = v[i];
        }
        Mat { rows }
    }

    fn in_interior(&self, v: &Vec<f64>) -> bool {
        v[0] > tail_norm(v)
    }

    fn max_step(&self, z: &Vec<f64>, dz: &Vec<f64>) -> f64 {
        let q = |a: &[f64], b: &[f64]| -> f64 {
            a[0] * b[0] - a[1..].iter().zip(&b[1..]).map(|(x, y)| x * y).sum::<f64>()
        };
        let mut best = f64::INFINITY;
        if dz[0] < 0.0 {
            best = -z[0] / dz[0];
        }
        let (a, b, c) = (q(dz, dz), q(z, dz), q(z, z));
        let disc = b * b - a * c;
        if disc >= 0.0 {
            let r = disc.sqrt();
            let t = -(b + if b >= 0.0 { r } else { -r });
            for root in [t / a, c / t] {
                if root.is_finite() && root > 0.0 && root < best {
                    best = root;
                }
            }
        }
        best
    }

    fn nt_scaling_exact(&self, s: &Vec<f64>, y: &Vec<f64>) -> Option<Mat<f64>> {
        let d = s.len();
        let det = |v: &[f64]| (v[0] - tail_norm(v)) * (v[0] + tail_norm(v));
        let (ds, dy) = (det(s), det(y));
        if !(s[0] > 0.0 && y[0] > 0.0 && ds > 0.0 && dy > 0.0) {
            return None;
        }
        let (rs, ry) = (ds.sqrt(), dy.sqrt());
        let sb: Vec<f64> = s.iter().map(|v| v / rs).collect();
        let yb: Vec<f64> = y.iter().map(|v| v / ry).collect();
        let dot: f64 = sb.iter().zip(&yb).map(|(a, b)| a * b).sum();
        let gamma = ((1.0 + dot) / 2.0).sqrt();
        let mut w = vec![0.0; d];
        w[0] = (yb[0] + sb[0]) / (2.0 * gamma);
        for i in 1..d {
            w[i] = (yb[i] - sb[i]) / (2.0 * gamma);
        }
        let eta = (dy / ds).sqrt().sqrt();
        let mut rows = vec![vec![0.0; d]; d];
        for i in 0..d {
            for j in 0..d {
                rows[i][j] = eta
                    * if i == 0 {
                        w[j]
                    } else if j == 0 {
                        w[i]
                    } else {
                        w[i] * w[j] / (1.0 + w[0]) + if i == j { 1.0 } else { 0.0 }
                    };
            }
        }
        Some(Mat { rows })
    }

    fn nt_scaling_mean(&self, _s: &Vec<f64>, _y: &Vec<f64>) -> Option<Mat<f64>> {
        None
    }
}

// ---- dynamics ----

/// A number with its derivatives by state, both controls and duration.
#[derive(Clone, Copy)]
struct Dual {
    v: f64,
    d: [f64; 14],
}

impl Dual {
    fn con(v: f64) -> Dual {
        Dual { v, d: [0.0; 14] }
    }

    fn var(v: f64, i: usize) -> Dual {
        let mut r = Dual::con(v);
        r.d[i] = 1.0;
        r
    }

    fn chain(self, v: f64, slope: f64) -> Dual {
        let mut r = Dual::con(v);
        for i in 0..14 {
            r.d[i] = slope * self.d[i];
        }
        r
    }

    fn plus(self, o: Dual) -> Dual {
        let mut r = Dual::con(self.v + o.v);
        for i in 0..14 {
            r.d[i] = self.d[i] + o.d[i];
        }
        r
    }

    fn times(self, o: Dual) -> Dual {
        let mut r = Dual::con(self.v * o.v);
        for i in 0..14 {
            r.d[i] = self.d[i] * o.v + self.v * o.d[i];
        }
        r
    }

    fn by(self, k: f64) -> Dual {
        self.times(Dual::con(k))
    }
}

fn flow_rate(x: &[Dual; 7], u: &[Dual; 3], phys: &PhysicalParams<f64>) -> [Dual; 7] {
    let inv_m = x[6].chain((-x[6].v).exp(), -(-x[6].v).exp());
    let uu = u[0].times(u[0]).plus(u[1].times(u[1])).plus(u[2].times(u[2]));
    let un = uu.v.sqrt();
    let norm_u = uu.chain(un, if un > 0.0 { 0.5 / un } else { 0.0 });
    let vv = x[3].times(x[3]).plus(x[4].times(x[4])).plus(x[5].times(x[5]));
    let vn = vv.v.sqrt();
    let norm_v = vv.chain(vn, if vn > 0.0 { 0.5 / vn } else { 0.0 });
    let drag = norm_v.times(inv_m).by(-0.5 * phys.rho * phys.cd_a);
    let mut f = [Dual::con(0.0); 7];
    for i in 0..3 {
        f[i] = x[3 + i];
        f[3 + i] = u[i].times(inv_m).plus(Dual::con(phys.g[i])).plus(drag.times(x[3 + i]));
    }
    f[6] = norm_u.times(inv_m).by(-1.0 / (phys.isp * phys.g0));
    f
}

fn flow(
    x0: [Dual; 7],
    u0: [Dual; 3],
    u1: [Dual; 3],
    tau: Dual,
    phys: &PhysicalParams<f64>,
    n: usize,
    substeps: u32,
) -> [Dual; 7] {
    let h = 1.0 / substeps as f64;
    let scale = tau.by(1.0 / (n - 1) as f64);
    let rate = |t: f64, x: &[Dual; 7]| -> [Dual; 7] {
        let mut u = [Dual::con(0.0); 3];
        for i in 0..3 {
            u[i] = u0[i].by(1.0 - t).plus(u1[i].by(t));
        }
        let mut f = flow_rate(x, &u, phys);
        for v in f.iter_mut() {
            *v = v.times(scale);
        }
        f
    };
    let axpy = |x: &[Dual; 7], k: &[Dual; 7], a: f64| -> [Dual; 7] {
        let mut r = *x;
        for i in 0..7 {
            r[i] = r[i].plus(k[i].by(a));
        }
        r
    };
    let mut x = x0;
    for s in 0..substeps {
        let t = s as f64 * h;
        let k1 = rate(t, &x);
        let k2 = rate(t + 0.5 * h, &axpy(&x, &k1, 0.5 * h));
        let k3 = rate(t + 0.5 * h, &axpy(&x, &k2, 0.5 * h));
        let k4 = rate(t + h, &axpy(&x, &k3, h));
        for i in 0..7 {
            let sum = k1[i].plus(k2[i].by(2.0)).plus(k3[i].by(2.0)).plus(k4[i]);
            x[i] = x[i].plus(sum.by(h / 6.0));
        }
    }
    x
}

fn discretize_foh(
    reference: &Trajectory<f64>,
    phys: &PhysicalParams<f64>,
    substeps: u32,
) -> LinearizedDynamics<f64> {
    let n = reference.sigma.len();
    let mut lin = LinearizedDynamics {
        a: vec![],
        b_minus: vec![],
        b_plus: vec![],
        c: vec![],
        s: vec![],
    };
    for k in 0..n - 1 {
        let mut x = [Dual::con(0.0); 7];
        let mut u0 = [Dual::con(0.0); 3];
        let mut u1 = [Dual::con(0.0); 3];
        for i in 0..7 {
            x[i] = Dual::var(reference.x.rows[k][i], i);
        }
        for i in 0..3 {
            u0[i] = Dual::var(reference.u.rows[k][i], 7 + i);
            u1[i] = Dual::var(reference.u.rows[k + 1][i], 10 + i);
        }
        let tau = Dual::var(reference.tau, 13);
        let end = flow(x, u0, u1, tau, phys, n, substeps);
        let block = |from: usize, w: usize| -> Mat<f64> {
            Mat { rows: (0..7).map(|i| end[i].d[from..from + w].to_vec()).collect() }
        };
        let mut c = vec![0.0; 7];
        let mut s = vec![0.0; 7];
        for i in 0..7 {
            s[i] = end[i].d[13];
            c[i] = end[i].v - s[i] * reference.tau;
            for j in 0..7 {
                c[i] -= end[i].d[j] * reference.x.rows[k][j];
            }
            for j in 0..3 {
                c[i] -= end[i].d[7 + j] * reference.u.rows[k][j];
                c[i] -= end[i].d[10 + j] * reference.u.rows[k + 1][j];
            }
        }
        lin.a.push(block(0, 7));
        lin.b_minus.push(block(7, 3));
        lin.b_plus.push(block(10, 3));
        lin.c.push(c);
        lin.s.push(s);
    }
    lin
}

// ---- dense drivers ----

fn dm(m: &Mat<f64>, cols: usize) -> DMatrix<f64> {
    DMatrix::from_fn(m.rows.len(), cols, |i, j| m.rows[i][j])
}

fn dv(v: &[f64]) -> DVector<f64> {
    DVector::from_column_slice(v)
}

fn vs(v: &DVector<f64>) -> Vec<f64> {
    v.iter().copied().collect()
}

/// `G' M G + reg I`, where `M` is block-diagonal by cones.
fn curvature(prob: &SocpProblem<f64>, m: &DMatrix<f64>, reg: f64) -> DMatrix<f64> {
    let np = prob.c.len();
    let g = &prob.g_mat.rows;
    let used: Vec<Vec<usize>> =
        g.iter().map(|r| (0..np).filter(|j| r[*j] != 0.0).collect()).collect();
    let mut h = DMatrix::identity(np, np) * reg;
    for cone in &prob.cones {
        for p in cone.offset..cone.offset + cone.dim {
            for q in cone.offset..cone.offset + cone.dim {
                for i in &used[p] {
                    for j in &used[q] {
                        h[(*i, *j)] += g[p][*i] * m[(p, q)] * g[q][*j];
                    }
                }
            }
        }
    }
    h
}

/// The optimality system `[H A'; A 0]`, eliminated with row exchanges.
struct Newton {
    k: Vec<Vec<f64>>,
    lu: Vec<Vec<f64>>,
    order: Vec<usize>,
    np: usize,
}

impl Newton {
    fn new(prob: &SocpProblem<f64>, m: &DMatrix<f64>, reg: f64) -> Option<Newton> {
        let (np, ne) = (prob.c.len(), prob.b.len());
        let h = curvature(prob, m, reg);
        let mut k = vec![vec![0.0; np + ne]; np + ne];
        for i in 0..np {
            for j in 0..np {
                k[i][j] = h[(i, j)];
            }
        }
        for r in 0..ne {
            for j in 0..np {
                k[np + r][j] = prob.a_mat.rows[r][j];
                k[j][np + r] = prob.a_mat.rows[r][j];
            }
        }
        let mut lu = k.clone();
        let mut order: Vec<usize> = (0..np + ne).collect();
        for c in 0..np + ne {
            let mut p = c;
            for i in c + 1..np + ne {
                if lu[i][c].abs() > lu[p][c].abs() {
                    p = i;
                }
            }
            if lu[p][c] == 0.0 || !lu[p][c].is_finite() {
                return None;
            }
            lu.swap(c, p);
            order.swap(c, p);
            let pivot = lu[c].clone();
            for i in c + 1..np + ne {
                let f = lu[i][c] / pivot[c];
                if f != 0.0 {
                    for (x, y) in lu[i][c + 1..].iter_mut().zip(&pivot[c + 1..]) {
                        *x -= f * y;
                    }
                }
                lu[i][c] = f;
            }
        }
        Some(Newton { k, lu, order, np })
    }

    fn substitute(&self, b: &[f64]) -> Vec<f64> {
        let n = b.len();
        let mut x: Vec<f64> = self.order.iter().map(|i| b[*i]).collect();
        for i in 0..n {
            for j in 0..i {
                x[i] -= self.lu[i][j] * x[j];
            }
        }
        for i in (0..n).rev() {
            for j in i + 1..n {
                x[i] -= self.lu[i][j] * x[j];
            }
            x[i] /= self.lu[i][i];
        }
        x
    }

    fn solve(&self, b_x: &DVector<f64>, b_a: &DVector<f64>) -> (DVector<f64>, DVector<f64>) {
        let b: Vec<f64> = b_x.iter().chain(b_a.iter()).copied().collect();
        let mut x = self.substitute(&b);
        for _ in 0..2 {
            let left: Vec<f64> = (0..b.len())
                .map(|i| b[i] - self.k[i].iter().zip(&x).map(|(p, q)| p * q).sum::<f64>())
                .collect();
            for (v, d) in x.iter_mut().zip(self.substitute(&left)) {
                *v += d;
            }
        }
        (dv(&x[..self.np]), dv(&x[self.np..]))
    }
}

struct Step {
    dx: DVector<f64>,
    dl: DVector<f64>,
    ds: DVector<f64>,
    dy: DVector<f64>,
}

impl Step {
    fn finite(&self) -> bool {
        let ok = |v: &DVector<f64>| v.iter().all(|x| x.is_finite());
        ok(&self.dx) && ok(&self.dl) && ok(&self.ds) && ok(&self.dy)
    }

    fn blend(&self, o: &Step, w: f64) -> Step {
        let mix = |a: &DVector<f64>, c: &DVector<f64>| a + (c - a) * w;
        Step {
            dx: mix(&self.dx, &o.dx),
            dl: mix(&self.dl, &o.dl),
            ds: mix(&self.ds, &o.ds),
            dy: mix(&self.dy, &o.dy),
        }
    }
}

/// A solve by dense elimination, with the symmetric or the Nesterov-Todd direction.
fn solve_dense(
    nt: bool,
    prob: &SocpProblem<f64>,
    params: &IpmAlgoParams<f64>,
    from: SocpWorkspace<f64>,
) -> (SocpResult<f64>, SocpWorkspace<f64>) {
    let np = prob.c.len();
    let nct = prob.h.len();
    let (g, a) = (dm(&prob.g_mat, np), dm(&prob.a_mat, np));
    let (c, b, h) = (dv(&prob.c), dv(&prob.b), dv(&prob.h));
    let cones = &prob.cones;
    let mut x = if params.warm_start_x { dv(&from.x) } else { DVector::zeros(np) };
    let mut l = if params.warm_start_x { dv(&from.lambda) } else { DVector::zeros(b.len()) };
    let mut s = dv(&init_per_cone_warm_start(&Soc, &vs(&(&h - &g * &x)), cones));
    let mut y = dv(&init_per_cone_warm_start(&Soc, &prob.h, cones));
    let loose = |t: f64| t.max(0.0).sqrt().max(1.0e-5);
    let cap = params.max_iters.min(HARD_MAX_ITERS);
    let mut best: Option<(f64, [DVector<f64>; 4])> = None;
    let mut prev = (x.clone(), y.clone());
    let mut iter = 0;
    let mut failed = None;
    while iter < cap {
        let r_x = &c + a.transpose() * &l + g.transpose() * &y;
        let r_a = &a * &x - &b;
        let r_g = &g * &x + &s - &h;
        let mu = s.dot(&y) / nct as f64;
        let primal = r_a.norm() + r_g.norm();
        if mu < params.tol_mu && primal < params.tol_primal && r_x.norm() < params.tol_dual {
            let ws = SocpWorkspace { x: vs(&x), lambda: vs(&l), s: vs(&s), y: vs(&y) };
            let r = SocpResult {
                x: vs(&x),
                lambda: vs(&l),
                s: vs(&s),
                y: vs(&y),
                status: IpmStatus::Optimal,
                iters: iter,
            };
            return (r, ws);
        }
        let known = best.as_ref().map_or(f64::INFINITY, |k| k.0);
        if r_x.norm() < loose(params.tol_dual)
            && primal < loose(params.tol_primal)
            && mu.is_finite()
            && mu >= 0.0
            && mu < known
        {
            best = Some((mu, [x.clone(), l.clone(), s.clone(), y.clone()]));
        }
        let near = best.as_ref().map_or(false, |k| k.0 < loose(params.tol_mu));
        let still = (&x - &prev.0).norm() < 1.0e-9 && (&y - &prev.1).norm() < 1.0e-9;
        if near && (iter > 2 || (iter > 0 && still)) {
            break;
        }
        prev = (x.clone(), y.clone());

        let (sv, yv) = (vs(&s), vs(&y));
        let e = dv(&per_cone_e(nct, cones));
        let scaling = if nt {
            build_per_cone_nt_blocks(&Soc, &sv, &yv, cones)
                .map(|k| (dm(&k.w2, nct), dm(&k.w, nct), dm(&k.arrow_inv, nct), dv(&k.s_scaled)))
        } else {
            build_per_cone_arrow_blocks(&Soc, &sv, &yv, cones).map(|k| {
                (dm(&k.m, nct), dm(&k.s_inv, nct), dm(&k.y, nct), DVector::zeros(nct))
            })
        };
        let Some((m, w, k2, scaled)) = scaling else {
            failed = Some(iter);
            break;
        };
        let Some(newton) = Newton::new(prob, &m, 1.0e-8) else {
            failed = Some(iter);
            break;
        };
        let direction = |r_c: &DVector<f64>| -> Step {
            let b_x = -&r_x - g.transpose() * (&m * &r_g) + g.transpose() * (&w * r_c);
            let (dx, dl) = newton.solve(&b_x, &-&r_a);
            let moved = &r_g + &g * &dx;
            let ds = -&moved;
            let dy = if nt { &m * &moved - &w * r_c } else { &w * (&k2 * &moved - r_c) };
            Step { dx, dl, ds, dy }
        };
        let jordan = |u: &DVector<f64>, v: &DVector<f64>| -> DVector<f64> {
            dv(&jordan_per_cone(&Soc, &vs(u), &vs(v), cones))
        };
        let far = |z: &DVector<f64>, d: &DVector<f64>| max_step_all_cones(&Soc, &vs(z), &vs(d), cones);
        let length = |z: &DVector<f64>, d: &DVector<f64>| clip01(0.99 * far(z, d));
        let r_aff = if nt { scaled.clone() } else { jordan(&y, &s) };
        let aff = direction(&r_aff);
        if !aff.finite() {
            failed = Some(iter + 1);
            break;
        }
        let (a_s, a_y) = (length(&s, &aff.ds), length(&y, &aff.dy));
        let mu_aff = (&s + &aff.ds * a_s).dot(&(&y + &aff.dy * a_y)) / nct as f64;
        let ratio = mu_aff / mu;
        let center = |v: f64| if v.is_finite() { v.clamp(0.0, 1.0) } else { 0.5 };
        let (step, alpha_s, alpha_y);
        if nt {
            let am = a_s.min(a_y);
            let e_pow = if mu > 1.0e-6 { (3.0 * am * am).max(1.0) } else { 1.0 };
            let sigma = center(libm::pow(ratio, e_pow));
            let moved = &r_g + &g * &aff.dx;
            let second = jordan(&(&w * &aff.ds), &(&w * &moved - &scaled));
            let r_c = &scaled + &k2 * second - (&k2 * &e) * (sigma * mu);
            let cor = direction(&r_c);
            if !cor.finite() {
                failed = Some(iter + 1);
                break;
            }
            let mut pick = (1.0, f64::NEG_INFINITY, 0.0, 0.0);
            for k in 0..6 {
                let omega = k as f64 / 5.0;
                let t = aff.blend(&cor, omega);
                let (fs, fy) = (far(&s, &t.ds), far(&y, &t.dy));
                if fs.min(fy).is_finite() && fs.min(fy) > pick.1 {
                    pick = (omega, fs.min(fy), fs, fy);
                }
            }
            let gamma = (0.9 + 0.09 * pick.2.min(pick.3)).min(0.99);
            step = aff.blend(&cor, pick.0);
            alpha_s = clip01(gamma * pick.2);
            alpha_y = clip01(gamma * pick.3);
        } else {
            let sigma = center(ratio * ratio * ratio);
            let r_c = &r_aff + jordan(&aff.dy, &aff.ds) - &e * (sigma * mu);
            let cor = direction(&r_c);
            if !cor.finite() {
                failed = Some(iter + 1);
                break;
            }
            alpha_s = length(&s, &cor.ds);
            alpha_y = length(&y, &cor.dy);
            step = cor;
        }
        x += &step.dx * alpha_s;
        l += &step.dl * alpha_y;
        s += &step.ds * alpha_s;
        y += &step.dy * alpha_y;
        let amax = [&x, &l, &s, &y].iter().map(|v| v.amax()).fold(0.0, f64::max);
        let inside = all_cones_interior(&Soc, &vs(&s), cones) && all_cones_interior(&Soc, &vs(&y), cones);
        if !inside || !amax.is_finite() || amax > LIMITS.huge {
            failed = Some(iter + 1);
            break;
        }
        iter += 1;
    }
    let ws = SocpWorkspace { x: vs(&x), lambda: vs(&l), s: vs(&s), y: vs(&y) };
    let finite = [&x, &l, &s, &y].iter().all(|v| v.iter().all(|t| t.is_finite()));
    let (at, status) = match best {
        Some((_, p)) => (p, IpmStatus::BestFeasible),
        None if failed.is_some() || !finite => ([x, l, s, y], IpmStatus::NumericalError),
        None => ([x, l, s, y], IpmStatus::IterCap),
    };
    let clean = |v: &DVector<f64>| -> Vec<f64> {
        v.iter().map(|t| if t.is_finite() { *t } else { 0.0 }).collect()
    };
    let r = SocpResult {
        x: clean(&at[0]),
        lambda: clean(&at[1]),
        s: clean(&at[2]),
        y: clean(&at[3]),
        status,
        iters: failed.unwrap_or(iter),
    };
    (r, ws)
}

impl Plant<f64> for Soc {
    fn discretize(
        &self,
        reference: &Trajectory<f64>,
        phys: &PhysicalParams<f64>,
        substeps: u32,
    ) -> LinearizedDynamics<f64> {
        discretize_foh(reference, phys, substeps)
    }

    fn propagate(
        &self,
        x0: &Vec<f64>,
        u: &Mat<f64>,
        tau: f64,
        phys: &PhysicalParams<f64>,
        substeps: u32,
    ) -> Mat<f64> {
        let n = u.rows.len();
        let mut x = [Dual::con(0.0); 7];
        for i in 0..7 {
            x[i] = Dual::con(x0[i]);
        }
        let control = |k: usize| -> [Dual; 3] {
            [Dual::con(u.rows[k][0]), Dual::con(u.rows[k][1]), Dual::con(u.rows[k][2])]
        };
        let mut rows = vec![x0.clone()];
        for k in 0..n - 1 {
            x = flow(x, control(k), control(k + 1), Dual::con(tau), phys, n, substeps);
            rows.push(x.iter().map(|d| d.v).collect());
        }
        Mat { rows }
    }

    fn solve_socp(
        &self,
        prob: &SocpProblem<f64>,
        params: &IpmAlgoParams<f64>,
        ws: SocpWorkspace<f64>,
    ) -> (SocpResult<f64>, SocpWorkspace<f64>) {
        solve_dense(false, prob, params, ws)
    }

    fn solve_socp_nt(
        &self,
        prob: &SocpProblem<f64>,
        params: &IpmAlgoParams<f64>,
        ws: SocpWorkspace<f64>,
    ) -> (SocpResult<f64>, SocpWorkspace<f64>) {
        solve_dense(true, prob, params, ws)
    }

    fn solve_socp_hsd(
        &self,
        prob: &SocpProblem<f64>,
        params: &IpmAlgoParams<f64>,
        ws: SocpWorkspace<f64>,
    ) -> (SocpResult<f64>, SocpWorkspace<f64>) {
        let n = (prob.b.len() - 6) / 7;
        let mut ws = ws;
        let r = if prob.c.len() == 19 * n {
            solve_socp_structured_hsd(LIMITS, HARD_MAX_ITERS, self, n, prob, params, &mut ws)
        } else {
            solve_socp_structured_hsd_free_tf(LIMITS, HARD_MAX_ITERS, self, n, prob, params, &mut ws)
        };
        (r, ws)
    }
}

// ---- scenarios ----

fn mars_params() -> PhysicalParams<f64> {
    PhysicalParams {
        g: [0.0, 0.0, -3.7114],
        m_dry: 200.0,
        m_wet: 1000.0,
        isp: 225.0,
        g0: 9.80665,
        t_min: 1000.0,
        t_max: 6000.0,
        cos_theta_max: 0.7660444,
        tan_gamma_gs: 1.0,
        rho: 0.0,
        cd_a: 0.0,
        tau_lo: 5.0,
        tau_hi: 50.0,
    }
}

fn usual_algo() -> ScvxAlgoParams<f64> {
    ScvxAlgoParams {
        max_outer_iters: 20,
        trust_eta0: 1.0,
        trust_eta_min: 1.0e-3,
        trust_eta_max: 10.0,
        trust_alpha: 2.0,
        trust_beta: 3.2,
        virt_weight: 1.0e5,
        rho_reject: 0.0,
        rho_shrink: 0.25,
        rho_grow: 0.7,
        conv_tol_x: 1.0e-3,
        conv_tol_virt: 1.0e-7,
        use_free_tf: false,
        use_structured_solve: false,
        use_adaptive_trust: true,
    }
}

fn usual_ipm() -> IpmAlgoParams<f64> {
    IpmAlgoParams {
        max_iters: 25,
        tol_mu: 1.0e-8,
        tol_primal: 1.0e-8,
        tol_dual: 1.0e-8,
        tol_gap: 1.0e-8,
        use_preconditioning: false,
        use_cone_row_scaling: false,
        use_nt_scaling: false,
        use_hsd: false,
        use_adaptive_regularization: false,
        warm_start_x: false,
    }
}

fn ipm_with_tol(tol: f64) -> IpmAlgoParams<f64> {
    IpmAlgoParams { tol_mu: tol, tol_primal: tol, tol_dual: tol, tol_gap: tol, ..usual_ipm() }
}

fn soft_landing() -> TerminalCondition<f64> {
    TerminalCondition { r: [0.0; 3], v: [0.0; 3] }
}

fn state(x: f64, z: f64, vz: f64, mass: f64) -> Vec<f64> {
    vec![x, 0.0, z, 0.0, 0.0, vz, libm::log(mass)]
}

fn hover_reference(n: usize, x_init: &[f64], m: f64, tau: f64) -> Trajectory<f64> {
    let lift = -m * mars_params().g[2];
    Trajectory {
        x: Mat { rows: vec![x_init.to_vec(); n] },
        u: Mat { rows: vec![vec![0.0, 0.0, lift]; n] },
        sigma: vec![lift; n],
        tau,
    }
}

fn linear_reference(
    n: usize,
    x_init: &[f64],
    m_end: f64,
    m: f64,
    tau: f64,
    g_z: f64,
) -> Trajectory<f64> {
    let mut end = vec![0.0; 7];
    end[6] = m_end.ln();
    let mut rows = vec![];
    for k in 0..n {
        let a = if n > 1 { k as f64 / (n - 1) as f64 } else { 0.0 };
        rows.push((0..7).map(|i| (1.0 - a) * x_init[i] + a * end[i]).collect());
    }
    let lift = -m * g_z;
    Trajectory {
        x: Mat { rows },
        u: Mat { rows: vec![vec![0.0, 0.0, lift]; n] },
        sigma: vec![lift; n],
        tau,
    }
}

fn dims(n: usize, free_tf: bool, max_outer: usize) -> Dims {
    Dims {
        n,
        np: workspace_np(n, free_tf),
        ne: workspace_ne(n),
        nct: workspace_nct(n, free_tf),
        ncones: workspace_ncones(n, free_tf),
        max_outer,
    }
}

fn empty_problem() -> SocpProblem<f64> {
    SocpProblem {
        c: vec![],
        a_mat: Mat { rows: vec![] },
        b: vec![],
        g_mat: Mat { rows: vec![] },
        h: vec![],
        cones: vec![],
    }
}

/// The subproblem about hovering at `x_init`.
fn hover_problem(
    n: usize,
    x_init: &Vec<f64>,
    m: f64,
    tau: f64,
    free_tf: bool,
) -> SocpProblem<f64> {
    let phys = mars_params();
    let traj = hover_reference(n, x_init, m, tau);
    let lin = discretize_foh(&traj, &phys, RK4_SUBSTEPS);
    let mut prob = empty_problem();
    assemble_scvx_socp(
        UNITS,
        n,
        &traj,
        &lin,
        &phys,
        libm::log(phys.m_dry),
        x_init,
        &soft_landing(),
        1.0e3,
        1.0e4,
        free_tf,
        &mut prob,
    );
    prob
}

fn solve_from(
    w: &mut ScvxWorkspace<f64>,
    phys: &PhysicalParams<f64>,
    algo: &ScvxAlgoParams<f64>,
    ipm: &IpmAlgoParams<f64>,
    x_init: &Vec<f64>,
    term: &TerminalCondition<f64>,
) -> SolverStatus {
    let status = solve_scvx(LIMITS, HARD_MAX_ITERS, &Soc, w, phys, algo, ipm, x_init, term);
    if status != SolverStatus::BadInput {
        println!("{status:?} after {} iterations, {} fallbacks, tau {}", w.iter + 1,
            w.structured_fallbacks, w.reference.tau);
        for r in w.history.iter().take(w.iter as usize + 1) {
            println!(
                "  {:>2}: cost {:>12.4e} trust {:>9.3e} virt {:>9.3e} rho {:>6.3} accept {} {:?}/{}",
                r.iter, r.cost, r.trust_eta, r.virt_l1, r.rho_ratio, r.accepted, r.ipm_status,
                r.ipm_iters
            );
        }
    }
    status
}

fn reference_finite(w: &ScvxWorkspace<f64>) -> bool {
    let t = &w.reference;
    t.x.rows.iter().flatten().all(|v| v.is_finite())
        && t.u.rows.iter().flatten().all(|v| v.is_finite())
        && t.sigma.iter().all(|v| v.is_finite())
        && t.tau.is_finite()
}

fn least_virtual_control(w: &ScvxWorkspace<f64>) -> f64 {
    w.history
        .iter()
        .take(w.iter as usize + 1)
        .filter(|r| r.accepted && r.virt_l1.is_finite())
        .map(|r| r.virt_l1)
        .fold(f64::INFINITY, f64::min)
}

fn inner_solves_usable(w: &ScvxWorkspace<f64>) -> bool {
    w.history
        .iter()
        .take(w.iter as usize + 1)
        .all(|r| matches!(r.ipm_status, IpmStatus::Optimal | IpmStatus::BestFeasible))
}

fn ran_its_course(status: SolverStatus) -> bool {
    matches!(status, SolverStatus::Converged | SolverStatus::OuterIterCap)
}

/// The gentle descent from two metres.
fn gentle(free_tf: bool, tau: f64) -> (ScvxWorkspace<f64>, Vec<f64>) {
    let x_init = vec![0.0, 0.0, 2.0, 0.0, 0.0, -0.1, (400.0_f64).ln()];
    let mut w = ScvxWorkspace::new(dims(3, free_tf, 15));
    w.reference = linear_reference(3, &x_init, 380.0, 390.0, tau, mars_params().g[2]);
    (w, x_init)
}

fn gentle_algo() -> ScvxAlgoParams<f64> {
    ScvxAlgoParams {
        trust_eta0: 5.0,
        trust_eta_max: 20.0,
        trust_eta_min: 1.0e-3,
        ..usual_algo()
    }
}

/// The descent from a hundred metres at ten metres a second.
fn fast(n: usize, max_outer: usize, g_z: f64) -> (ScvxWorkspace<f64>, Vec<f64>) {
    let x_init = vec![0.0, 0.0, 100.0, 0.0, 0.0, -10.0, (800.0_f64).ln()];
    let mut w = ScvxWorkspace::new(dims(n, false, max_outer));
    w.reference = linear_reference(n, &x_init, 700.0, 750.0, 25.0, g_z);
    (w, x_init)
}

fn fast_algo() -> ScvxAlgoParams<f64> {
    ScvxAlgoParams {
        trust_eta0: 50.0,
        trust_eta_max: 200.0,
        trust_eta_min: 1.0e-3,
        ..usual_algo()
    }
}

fn fast_ipm() -> IpmAlgoParams<f64> {
    IpmAlgoParams { max_iters: 50, use_preconditioning: true, ..ipm_with_tol(1.0e-3) }
}

// ---- the structured system against dense elimination ----

fn wave(len: usize, f: impl Fn(f64) -> f64) -> Vec<f64> {
    (0..len).map(|i| f(i as f64 + 1.0)).collect()
}

fn largest_gap(a: &[f64], b: &[f64]) -> f64 {
    assert_eq!(a.len(), b.len());
    a.iter().zip(b).map(|(x, y)| (x - y).abs()).fold(0.0, f64::max)
}

/// Solves `[H A'; A 0] (dx, dl) = (b_x, b_a)` with `H = G' M G + reg I`.
fn eliminate(
    prob: &SocpProblem<f64>,
    m: &DMatrix<f64>,
    reg: f64,
    b_x: &[f64],
    b_a: &[f64],
) -> (Vec<f64>, Vec<f64>) {
    let np = prob.c.len();
    let ne = prob.b.len();
    let (g, a) = (dm(&prob.g_mat, np), dm(&prob.a_mat, np));
    let h = g.transpose() * (m * &g) + DMatrix::identity(np, np) * reg;
    let mut k = DMatrix::zeros(np + ne, np + ne);
    k.view_mut((0, 0), (np, np)).copy_from(&h);
    k.view_mut((np, 0), (ne, np)).copy_from(&a);
    k.view_mut((0, np), (np, ne)).copy_from(&a.transpose());
    let rhs: Vec<f64> = b_x.iter().chain(b_a).copied().collect();
    let sol = k.try_inverse().expect("the dense system has an inverse") * dv(&rhs);
    let all = vs(&sol);
    (all[..np].to_vec(), all[np..].to_vec())
}

fn multipliers(sol: &ReducedKktSolution<f64>) -> Vec<f64> {
    let mut l = sol.dlam_init.clone();
    l.extend(sol.dlam_dyn.rows.iter().flatten());
    l.extend(&sol.dlam_term);
    l
}

fn steps(sol: &ReducedKktSolution<f64>) -> Vec<f64> {
    sol.dz.rows.iter().flatten().copied().collect()
}

/// A scaling with dense blocks that decay away from the diagonal.
fn decaying_blocks(prob: &SocpProblem<f64>) -> Mat<f64> {
    let nct = prob.h.len();
    let mut rows = vec![vec![0.0; nct]; nct];
    for cone in &prob.cones {
        for i in 0..cone.dim {
            for j in 0..cone.dim {
                let d = if i == j { 0.5 } else { 0.0 };
                let decay = libm::exp(-((i as f64 - j as f64).abs()));
                rows[cone.offset + i][cone.offset + j] = 1.0 + d + 0.1 * decay;
            }
        }
    }
    Mat { rows }
}

#[test]
fn structured_reduced_kkt_matches_dense_lu() {
    let n = 3;
    let prob = hover_problem(n, &state(100.0, 1000.0, -50.0, 800.0), 800.0, 12.0, false);
    let m_diag = vec![1.0; prob.h.len()];
    let reg = 1.0e-6;
    let b_x = wave(prob.c.len(), |i| libm::sin(0.13 * i));
    let b_a = wave(prob.b.len(), |i| libm::cos(0.07 * i));
    let mut sol = ReducedKktSolution::new();
    let status = solve_reduced_kkt_scvx(
        UNITS, &Soc, &prob, n, prob.c.len(), &m_diag, reg, &b_x, &b_a, &mut sol,
    );
    assert_eq!(status, ReducedKktStatus::Okay);
    let m = DMatrix::from_diagonal(&dv(&m_diag));
    let (dx, dl) = eliminate(&prob, &m, reg, &b_x, &b_a);
    assert!(largest_gap(&steps(&sol), &dx) < 1.0e-9);
    assert!(largest_gap(&multipliers(&sol), &dl) < 1.0e-7);
}

#[test]
fn structured_reduced_kkt_n5_matches_dense() {
    let n = 5;
    let prob = hover_problem(n, &state(50.0, 800.0, -40.0, 750.0), 750.0, 15.0, false);
    let m_diag: Vec<f64> =
        (0..prob.h.len()).map(|i| 1.0 + 0.1 * libm::sin(0.3 * i as f64)).collect();
    let reg = 1.0e-7;
    let b_x = wave(prob.c.len(), |i| 0.5 + libm::sin(0.11 * i));
    let b_a = wave(prob.b.len(), |i| -0.3 + libm::cos(0.09 * i));
    let mut sol = ReducedKktSolution::new();
    let status = solve_reduced_kkt_scvx(
        UNITS, &Soc, &prob, n, prob.c.len(), &m_diag, reg, &b_x, &b_a, &mut sol,
    );
    assert_eq!(status, ReducedKktStatus::Okay);
    let m = DMatrix::from_diagonal(&dv(&m_diag));
    let (dx, _) = eliminate(&prob, &m, reg, &b_x, &b_a);
    assert!(largest_gap(&steps(&sol), &dx) < 1.0e-8);
}

#[test]
fn block_m_structured_matches_dense_lu() {
    let n = 3;
    let prob = hover_problem(n, &state(80.0, 900.0, -45.0, 720.0), 720.0, 13.0, false);
    let m = decaying_blocks(&prob);
    let reg = 1.0e-7;
    let b_x = wave(prob.c.len(), |i| 0.4 + libm::sin(0.17 * i));
    let b_a = wave(prob.b.len(), |i| 0.2 - libm::cos(0.13 * i));
    let mut sol = ReducedKktSolution::new();
    let status = solve_reduced_kkt_scvx_block_m(
        UNITS, &Soc, &prob, n, prob.c.len(), &m, reg, &b_x, &b_a, &mut sol,
    );
    assert_eq!(status, ReducedKktStatus::Okay);
    let (dx, _) = eliminate(&prob, &dm(&m, prob.h.len()), reg, &b_x, &b_a);
    assert!(largest_gap(&steps(&sol), &dx) < 1.0e-9);
}

/// Slacks and multipliers inside every cone, not parallel to each other.
fn skewed_pair(prob: &SocpProblem<f64>) -> (Vec<f64>, Vec<f64>) {
    let nct = prob.h.len();
    let (mut s, mut y) = (vec![0.0; nct], vec![0.0; nct]);
    for (c, cone) in prob.cones.iter().enumerate() {
        s[cone.offset] = 3.0 + 0.1 * c as f64;
        y[cone.offset] = 2.0 + 0.07 * c as f64;
        for i in 1..cone.dim {
            s[cone.offset + i] = 0.5 * libm::sin((c + 3 * i) as f64);
            y[cone.offset + i] = 0.4 * libm::cos((2 * c + i) as f64);
        }
    }
    (s, y)
}

#[test]
fn skewed_scalings_are_solved_exactly() {
    let n = 4;
    let reg = 1.0e-6;
    let prob = hover_problem(n, &state(80.0, 900.0, -45.0, 720.0), 720.0, 13.0, false);
    let (np, nct) = (prob.c.len(), prob.h.len());
    let (s, y) = skewed_pair(&prob);
    let m = build_per_cone_arrow_blocks(&Soc, &s, &y, &prob.cones).unwrap().m;
    let md = dm(&m, nct);
    assert!((&md - md.transpose()).amax() > 0.01);
    let b_x = wave(np, |i| 0.4 + libm::sin(0.17 * i));
    let b_a = wave(prob.b.len(), |i| 0.2 - libm::cos(0.13 * i));
    let mut sol = ReducedKktSolution::new();
    let status =
        solve_reduced_kkt_scvx_block_m(UNITS, &Soc, &prob, n, np, &m, reg, &b_x, &b_a, &mut sol);
    assert_eq!(status, ReducedKktStatus::Okay);
    let (dx, dl) = (dv(&steps(&sol)), dv(&multipliers(&sol)));
    let a = dm(&prob.a_mat, np);
    let feasible = &a * &dx - dv(&b_a);
    assert!(feasible.amax() < 1.0e-8, "A dx misses b_a by {}", feasible.amax());
    let stationary = curvature(&prob, &md, reg) * &dx + a.transpose() * &dl - dv(&b_x);
    assert!(stationary.amax() < 1.0e-6, "stationarity is missed by {}", stationary.amax());
}

#[test]
fn skewed_scalings_are_solved_exactly_with_free_final_time() {
    let n = 3;
    let reg = 1.0e-6;
    let prob = hover_problem(n, &state(80.0, 900.0, -45.0, 720.0), 720.0, 13.0, true);
    let (np, nct) = (prob.c.len(), prob.h.len());
    let (s, y) = skewed_pair(&prob);
    let m = build_per_cone_arrow_blocks(&Soc, &s, &y, &prob.cones).unwrap().m;
    let b_x = wave(np, |i| 0.4 + libm::sin(0.17 * i));
    let b_a = wave(prob.b.len(), |i| 0.2 - libm::cos(0.13 * i));
    let mut factor = ReducedKktFactorFreeTf::new(0.0);
    let status = factor_reduced_kkt_scvx_block_m_free_tf(
        UNITS, LIMITS, &Soc, &prob, n, &m, reg, &mut factor,
    );
    assert_eq!(status, ReducedKktStatus::Okay);
    let mut sol = ReducedKktSolutionFreeTf::new(0.0);
    let status = solve_reduced_kkt_scvx_with_factor_free_tf(
        UNITS, &prob, n, &factor, &b_x, &b_a, &mut sol,
    );
    assert_eq!(status, ReducedKktStatus::Okay);
    let mut dx = steps(&sol.base);
    dx.push(sol.dz_delta_tau);
    let (dx, dl) = (dv(&dx), dv(&multipliers(&sol.base)));
    let a = dm(&prob.a_mat, np);
    assert!((&a * &dx - dv(&b_a)).amax() < 1.0e-8);
    let stationary = curvature(&prob, &dm(&m, nct), reg) * &dx + a.transpose() * &dl - dv(&b_x);
    assert!(stationary.amax() < 1.0e-6, "stationarity is missed by {}", stationary.amax());
}

#[test]
fn full_newton_step_dense_matches_structured() {
    let n = 3;
    let prob = hover_problem(n, &state(80.0, 900.0, -40.0, 720.0), 720.0, 13.0, false);
    let (np, nct) = (prob.c.len(), prob.h.len());
    let mut s = vec![0.0; nct];
    let mut y = vec![0.0; nct];
    for (i, cone) in prob.cones.iter().enumerate() {
        s[cone.offset] = 2.0 + 0.05 * i as f64;
        y[cone.offset] = 1.0 + 0.10 * i as f64;
    }
    let blocks = build_per_cone_arrow_blocks(&Soc, &s, &y, &prob.cones).unwrap();
    let (m, s_inv, arrow_y) = (dm(&blocks.m, nct), dm(&blocks.s_inv, nct), dm(&blocks.y, nct));
    let g = dm(&prob.g_mat, np);
    let r_x = dv(&prob.c) + g.transpose() * dv(&y);
    let r_a = -dv(&prob.b);
    let r_g = dv(&s) - dv(&prob.h);
    let r_c = dv(&jordan_per_cone(&Soc, &y, &s, &prob.cones));
    let reg = 1.0e-8;
    let b_x = -r_x - g.transpose() * (&m * &r_g) + g.transpose() * (&s_inv * &r_c);
    let b_a = -r_a;

    let newton = Newton::new(&prob, &m, reg).unwrap();
    let (dx_dense, dl_dense) = newton.solve(&b_x, &b_a);
    let mut sol = ReducedKktSolution::new();
    let status = solve_reduced_kkt_scvx_block_m(
        UNITS, &Soc, &prob, n, np, &blocks.m, reg, &vs(&b_x), &vs(&b_a), &mut sol,
    );
    assert_eq!(status, ReducedKktStatus::Okay);

    let follow = |dx: &DVector<f64>| -> (Vec<f64>, Vec<f64>) {
        let moved = &r_g + &g * dx;
        (vs(&-&moved), vs(&(&s_inv * (&arrow_y * &moved - &r_c))))
    };
    let dx = dv(&steps(&sol));
    let (ds_dense, dy_dense) = follow(&dx_dense);
    let (ds, dy) = follow(&dx);
    assert!(largest_gap(&vs(&dx_dense), &vs(&dx)) < 1.0e-7);
    assert!(largest_gap(&ds_dense, &ds) < 1.0e-7);
    assert!(largest_gap(&dy_dense, &dy) < 1.0e-7);
    assert!(largest_gap(&vs(&dl_dense), &multipliers(&sol)) < 1.0e-7);
}

#[test]
fn factor_apply_split_matches_one_shot() {
    let n = 3;
    let prob = hover_problem(n, &state(75.0, 850.0, -42.0, 710.0), 710.0, 12.5, false);
    let np = prob.c.len();
    let m = decaying_blocks(&prob);
    let reg = 1.0e-7;
    let b_pred = wave(np, |i| 0.3 + libm::sin(0.11 * i));
    let b_corr = wave(np, |i| 0.2 - libm::cos(0.17 * i));
    let b_a = wave(prob.b.len(), |i| 0.1 + libm::sin(0.09 * i));
    let mut factor = ReducedKktFactor::new();
    assert_eq!(
        factor_reduced_kkt_scvx_block_m(UNITS, &Soc, &prob, n, np, &m, reg, &mut factor),
        ReducedKktStatus::Okay
    );
    for b_x in [&b_pred, &b_corr] {
        let mut once = ReducedKktSolution::new();
        assert_eq!(
            solve_reduced_kkt_scvx_block_m(
                UNITS, &Soc, &prob, n, np, &m, reg, b_x, &b_a, &mut once
            ),
            ReducedKktStatus::Okay
        );
        let mut split = ReducedKktSolution::new();
        assert_eq!(
            solve_reduced_kkt_scvx_with_factor(
                UNITS, &prob, n, np, &factor, b_x, &b_a, &mut split
            ),
            ReducedKktStatus::Okay
        );
        assert!(largest_gap(&steps(&once), &steps(&split)) < 1.0e-12);
        assert!(largest_gap(&multipliers(&once), &multipliers(&split)) < 1.0e-12);
    }
}

#[test]
fn free_tf_structured_matches_dense_lu() {
    let n = 3;
    let prob = hover_problem(n, &state(60.0, 800.0, -38.0, 720.0), 720.0, 12.0, true);
    let m = decaying_blocks(&prob);
    let reg = 1.0e-7;
    let b_x = wave(prob.c.len(), |i| 0.4 + libm::sin(0.13 * i));
    let b_a = wave(prob.b.len(), |i| 0.2 - libm::cos(0.11 * i));
    let mut factor = ReducedKktFactorFreeTf::new(0.0);
    let st = factor_reduced_kkt_scvx_block_m_free_tf(
        UNITS, LIMITS, &Soc, &prob, n, &m, reg, &mut factor,
    );
    assert_eq!(st, ReducedKktStatus::Okay);
    let mut sol = ReducedKktSolutionFreeTf::new(0.0);
    let st = solve_reduced_kkt_scvx_with_factor_free_tf(
        UNITS, &prob, n, &factor, &b_x, &b_a, &mut sol,
    );
    assert_eq!(st, ReducedKktStatus::Okay);
    let (dx, dl) = eliminate(&prob, &dm(&m, prob.h.len()), reg, &b_x, &b_a);
    assert!(largest_gap(&steps(&sol.base), &dx[..19 * n]) < 1.0e-7);
    assert!((sol.dz_delta_tau - dx[19 * n]).abs() < 1.0e-7);
    assert!(largest_gap(&multipliers(&sol.base), &dl) < 1.0e-7);
}

/// Inverts like `Soc`, keeps what it was asked to invert, and refuses one matrix.
struct Picky {
    asked: RefCell<Vec<Vec<Vec<f64>>>>,
    refused: Option<Vec<Vec<f64>>>,
}

impl Picky {
    fn refusing(refused: Option<&Vec<Vec<f64>>>) -> Picky {
        Picky { asked: RefCell::new(vec![]), refused: refused.cloned() }
    }
}

impl Numerics<f64> for Picky {
    fn invert(&self, m: &Mat<f64>) -> Option<Mat<f64>> {
        self.asked.borrow_mut().push(m.rows.clone());
        if self.refused.as_ref() == Some(&m.rows) {
            None
        } else {
            Soc.invert(m)
        }
    }

    fn sqrt(&self, x: f64) -> f64 {
        Soc.sqrt(x)
    }

    fn log(&self, x: f64) -> f64 {
        Soc.log(x)
    }

    fn exp(&self, x: f64) -> f64 {
        Soc.exp(x)
    }

    fn pow(&self, x: f64, y: f64) -> f64 {
        Soc.pow(x, y)
    }
}

fn all_rows(v: &[Mat<f64>]) -> Vec<Vec<Vec<f64>>> {
    v.iter().map(|m| m.rows.clone()).collect()
}

/// The parts of a factor: node inverses, transition blocks, couplings, pivot inverses.
fn parts_of(f: &ReducedKktFactor<f64>) -> [Vec<Vec<Vec<f64>>>; 5] {
    let dynamics = f
        .dyn_blocks
        .iter()
        .flat_map(|b| [b.c_mat.rows.clone(), b.d_mat.rows.clone()])
        .collect();
    [
        all_rows(&f.h_inv),
        dynamics,
        all_rows(&f.u_blocks),
        all_rows(&f.l_blocks),
        all_rows(&f.d_tilde_inv),
    ]
}

#[test]
fn failed_factorization_keeps_what_it_did_not_reach() {
    let n = 3;
    let reg = 1.0e-6;
    let earlier = hover_problem(n, &state(40.0, 500.0, -20.0, 700.0), 700.0, 9.0, false);
    let prob = hover_problem(n, &state(75.0, 850.0, -42.0, 710.0), 710.0, 12.5, false);
    let np = prob.c.len();
    let (s, y) = skewed_pair(&prob);
    let m = build_per_cone_arrow_blocks(&Soc, &s, &y, &prob.cones).unwrap().m;
    let m0 = decaying_blocks(&earlier);
    let start = || {
        let mut f = ReducedKktFactor::new();
        let st =
            factor_reduced_kkt_scvx_block_m(UNITS, &Soc, &earlier, n, np, &m0, 2.0 * reg, &mut f);
        assert_eq!(st, ReducedKktStatus::Okay);
        f
    };
    let run = |ops: &Picky, f: &mut ReducedKktFactor<f64>| {
        factor_reduced_kkt_scvx_block_m(UNITS, ops, &prob, n, np, &m, reg, f)
    };
    let before = parts_of(&start());
    let all = Picky::refusing(None);
    let mut f = start();
    assert_eq!(run(&all, &mut f), ReducedKktStatus::Okay);
    let whole = parts_of(&f);
    let asked = all.asked.borrow().clone();
    // The node blocks, then the pivots.
    assert_eq!(asked.len(), 2 * n + 1);
    for k in 0..n {
        assert!(asked.iter().filter(|a| **a == asked[k]).count() == 1);
        let mut f = start();
        f.nrb = 0;
        assert_eq!(run(&Picky::refusing(Some(&asked[k])), &mut f), ReducedKktStatus::HNotPd);
        let after = parts_of(&f);
        assert_eq!(f.nrb, n + 1);
        assert_eq!(after[0][..k], whole[0][..k]);
        assert_eq!(after[0][k..], before[0][k..]);
        assert_eq!(after[1..], before[1..]);
    }
    for k in 0..=n {
        let mut f = start();
        f.nrb = 0;
        let st = run(&Picky::refusing(Some(&asked[n + k])), &mut f);
        assert_eq!(st, ReducedKktStatus::SchurSingular);
        let after = parts_of(&f);
        assert_eq!(f.nrb, n + 1);
        assert_eq!(after[..4], whole[..4]);
        assert_eq!(after[4][..k], whole[4][..k]);
        assert_eq!(after[4][k..], before[4][k..]);
    }
    // An empty factor holds what was reached, and no more.
    let mut f = ReducedKktFactor::new();
    assert_eq!(run(&Picky::refusing(Some(&asked[2])), &mut f), ReducedKktStatus::HNotPd);
    assert_eq!((f.nrb, f.h_inv.len(), f.dyn_blocks.len()), (n + 1, 2, 0));
}

#[test]
fn failed_factorization_with_free_final_time_keeps_what_it_did_not_reach() {
    let n = 3;
    let reg = 1.0e-6;
    let earlier = hover_problem(n, &state(40.0, 500.0, -20.0, 700.0), 700.0, 9.0, true);
    let prob = hover_problem(n, &state(60.0, 800.0, -38.0, 720.0), 720.0, 12.0, true);
    let (s, y) = skewed_pair(&prob);
    let m = build_per_cone_arrow_blocks(&Soc, &s, &y, &prob.cones).unwrap().m;
    let factor = |ops: &Picky, limits: Limits<f64>, p: &SocpProblem<f64>, reg: f64, f: &mut _| {
        factor_reduced_kkt_scvx_block_m_free_tf(UNITS, limits, ops, p, n, &m, reg, f)
    };
    let all = Picky::refusing(None);
    let start = || {
        let mut f = ReducedKktFactorFreeTf::new(0.0);
        let st = factor(&Picky::refusing(None), LIMITS, &earlier, 2.0 * reg, &mut f);
        assert_eq!(st, ReducedKktStatus::Okay);
        f
    };
    let rank_one = |f: &ReducedKktFactorFreeTf<f64>| {
        (f.h_inv_dtau, f.a_dtau.rows.clone(), f.v_smw.rows.clone())
    };
    let before = start();
    let mut whole = start();
    assert_eq!(factor(&all, LIMITS, &prob, reg, &mut whole), ReducedKktStatus::Okay);
    assert!(whole.gamma != before.gamma && rank_one(&whole) != rank_one(&before));
    let asked = all.asked.borrow().clone();
    // A node block or a pivot without an inverse: the rank-one part is kept.
    for (k, expected) in [(1, ReducedKktStatus::HNotPd), (n + 1, ReducedKktStatus::SchurSingular)] {
        let mut f = start();
        let st = factor(&Picky::refusing(Some(&asked[k])), LIMITS, &prob, reg, &mut f);
        assert_eq!(st, expected);
        assert_eq!(f.base.h_inv[0].rows, whole.base.h_inv[0].rows);
        assert_eq!(f.base.d_tilde_inv[3].rows, before.base.d_tilde_inv[3].rows);
        assert_eq!((rank_one(&f), f.gamma), (rank_one(&before), before.gamma));
    }
    // A Hessian entry of the time increment that is not positive: only the base is
    // written.
    let mut f = start();
    assert_eq!(factor(&all, LIMITS, &prob, -1.0e9, &mut f), ReducedKktStatus::HNotPd);
    assert_eq!(f.base.u_blocks.len(), n);
    assert!(parts_of(&f.base) != parts_of(&before.base));
    assert_eq!((rank_one(&f), f.gamma), (rank_one(&before), before.gamma));
    // A denominator that is too small: all but the last factor is written.
    let mut f = start();
    let strict = Limits { tiny: 1.0e300, ..LIMITS };
    assert_eq!(factor(&all, strict, &prob, reg, &mut f), ReducedKktStatus::SchurSingular);
    assert!(parts_of(&f.base) == parts_of(&whole.base));
    assert_eq!((rank_one(&f), f.gamma), (rank_one(&whole), before.gamma));
}

#[test]
fn new_factors_and_solutions_hold_nothing() {
    let f = ReducedKktFactorFreeTf::new(0.5);
    assert!(parts_of(&f.base).iter().all(|p| p.is_empty()));
    assert_eq!((f.base.nrb, f.h_inv_dtau, f.gamma), (0, 0.5, 0.5));
    assert!(f.a_dtau.rows.is_empty() && f.v_smw.rows.is_empty());
    let s = ReducedKktSolutionFreeTf::new(0.5);
    assert!(s.base.dz.rows.is_empty() && s.base.dlam_dyn.rows.is_empty());
    assert!(s.base.dlam_init.is_empty() && s.base.dlam_term.is_empty());
    assert_eq!(s.dz_delta_tau, 0.5);
}

#[test]
fn n_one_smoke_test() {
    let prob = hover_problem(1, &state(0.0, 0.0, 0.0, 600.0), 600.0, 8.0, false);
    let mut b_x = vec![0.0; prob.c.len()];
    b_x[0] = 1.0;
    let mut sol = ReducedKktSolution::new();
    let status = solve_reduced_kkt_scvx(
        UNITS,
        &Soc,
        &prob,
        1,
        prob.c.len(),
        &vec![1.0; prob.h.len()],
        1.0e-6,
        &b_x,
        &vec![0.0; prob.b.len()],
        &mut sol,
    );
    assert!(matches!(status, ReducedKktStatus::Okay | ReducedKktStatus::SchurSingular));
    if status == ReducedKktStatus::Okay {
        assert!(steps(&sol).iter().all(|v| v.is_finite()));
    }
}

// ---- the structured drivers against dense ones ----

fn one_iteration() -> IpmAlgoParams<f64> {
    IpmAlgoParams {
        max_iters: 1,
        tol_mu: 1.0e-7,
        tol_primal: 1.0e-6,
        tol_dual: 1.0e-6,
        ..usual_ipm()
    }
}

fn workspace(prob: &SocpProblem<f64>) -> SocpWorkspace<f64> {
    SocpWorkspace {
        x: vec![0.0; prob.c.len()],
        lambda: vec![0.0; prob.b.len()],
        s: vec![0.0; prob.h.len()],
        y: vec![0.0; prob.h.len()],
    }
}

fn assert_same_iterate(a: &SocpResult<f64>, b: &SocpResult<f64>) {
    assert!(!matches!(a.status, IpmStatus::NumericalError));
    assert!(!matches!(b.status, IpmStatus::NumericalError));
    assert!(largest_gap(&a.x, &b.x) < 1.0e-5);
    assert!(largest_gap(&a.s, &b.s) < 1.0e-5);
    assert!(largest_gap(&a.y, &b.y) < 1.0e-5);
}

#[test]
fn structured_driver_matches_dense_end_to_end() {
    let prob = hover_problem(3, &state(0.0, 50.0, -5.0, 800.0), 800.0, 10.0, false);
    let (dense, _) = solve_dense(false, &prob, &one_iteration(), workspace(&prob));
    let mut ws = workspace(&prob);
    let r = solve_socp_structured(LIMITS, HARD_MAX_ITERS, &Soc, 3, &prob, &one_iteration(), &mut ws);
    assert_same_iterate(&dense, &r);
}

/// After the first iteration slacks and multipliers are no longer parallel.
#[test]
fn structured_driver_keeps_to_the_dense_one() {
    for free_tf in [false, true] {
        let prob = hover_problem(3, &state(0.0, 50.0, -5.0, 800.0), 800.0, 10.0, free_tf);
        for max_iters in 2..6 {
            let params = IpmAlgoParams { max_iters, ..one_iteration() };
            let (dense, _) = solve_dense(false, &prob, &params, workspace(&prob));
            let mut ws = workspace(&prob);
            let r = if free_tf {
                solve_socp_structured_free_tf(
                    LIMITS, HARD_MAX_ITERS, &Soc, 3, &prob, &params, &mut ws,
                )
            } else {
                solve_socp_structured(LIMITS, HARD_MAX_ITERS, &Soc, 3, &prob, &params, &mut ws)
            };
            assert_eq!((r.status, r.iters), (dense.status, dense.iters));
            let size = dense.x.iter().chain(&dense.s).fold(1.0_f64, |m, v| m.max(v.abs()));
            assert!(largest_gap(&r.x, &dense.x) < 1.0e-6 * size);
            assert!(largest_gap(&r.s, &dense.s) < 1.0e-6 * size);
            let size = dense.y.iter().fold(1.0_f64, |m, v| m.max(v.abs()));
            assert!(largest_gap(&r.y, &dense.y) < 1.0e-6 * size);
        }
    }
}

#[test]
fn structured_nt_matches_dense_nt_one_iter() {
    let prob = hover_problem(3, &state(0.0, 50.0, -5.0, 800.0), 800.0, 10.0, false);
    let (dense, _) = solve_dense(true, &prob, &one_iteration(), workspace(&prob));
    let mut ws = workspace(&prob);
    let r =
        solve_socp_structured_nt(LIMITS, HARD_MAX_ITERS, &Soc, 3, &prob, &one_iteration(), &mut ws);
    assert_same_iterate(&dense, &r);
}

#[test]
fn structured_nt_free_tf_matches_dense_nt_one_iter() {
    let prob = hover_problem(3, &state(0.0, 50.0, -5.0, 800.0), 800.0, 10.0, true);
    let (dense, _) = solve_dense(true, &prob, &one_iteration(), workspace(&prob));
    let mut ws = workspace(&prob);
    let r = solve_socp_structured_nt_free_tf(
        LIMITS,
        HARD_MAX_ITERS,
        &Soc,
        3,
        &prob,
        &one_iteration(),
        &mut ws,
    );
    assert_same_iterate(&dense, &r);
    assert!((dense.x[57] - r.x[57]).abs() < 1.0e-5);
}

#[test]
fn structured_free_tf_matches_dense_one_iteration() {
    let prob = hover_problem(3, &state(0.0, 50.0, -5.0, 800.0), 800.0, 10.0, true);
    let (dense, _) = solve_dense(false, &prob, &one_iteration(), workspace(&prob));
    let mut ws = workspace(&prob);
    let r = solve_socp_structured_free_tf(
        LIMITS,
        HARD_MAX_ITERS,
        &Soc,
        3,
        &prob,
        &one_iteration(),
        &mut ws,
    );
    assert_same_iterate(&dense, &r);
}

/// A point of the self-dual embedding.
struct Lifted {
    x: DVector<f64>,
    l: DVector<f64>,
    s: DVector<f64>,
    y: DVector<f64>,
    tau: f64,
    kappa: f64,
}

/// One step of the embedding, its two directions from an elimination of all equations at
/// once, none of them reduced.
fn lifted_step(prob: &SocpProblem<f64>, e: &Lifted) -> Lifted {
    let (np, ne, nct) = (prob.c.len(), prob.b.len(), prob.h.len());
    let (a, g) = (dm(&prob.a_mat, np), dm(&prob.g_mat, np));
    let (c, b, h) = (dv(&prob.c), dv(&prob.b), dv(&prob.h));
    let nt = build_per_cone_nt_blocks(&Soc, &vs(&e.s), &vs(&e.y), &prob.cones).unwrap();
    let (w, w2, arrow_inv) = (dm(&nt.w, nct), dm(&nt.w2, nct), dm(&nt.arrow_inv, nct));
    let s_scaled = dv(&nt.s_scaled);
    let size = np + ne + 2 * nct + 2;
    let (l0, s0, y0, t0) = (np, np + ne, np + ne + nct, np + ne + 2 * nct);
    let mut k = DMatrix::<f64>::zeros(size, size);
    // A' dl + G' dy + c dtau, with the regularization
    k.view_mut((0, l0), (np, ne)).copy_from(&a.transpose());
    k.view_mut((0, y0), (np, nct)).copy_from(&g.transpose());
    k.view_mut((0, t0), (np, 1)).copy_from(&c);
    for i in 0..np {
        k[(i, i)] = 1.0e-8;
    }
    // A dx - b dtau
    k.view_mut((l0, 0), (ne, np)).copy_from(&a);
    k.view_mut((l0, t0), (ne, 1)).copy_from(&(-&b));
    // G dx + ds - h dtau
    k.view_mut((s0, 0), (nct, np)).copy_from(&g);
    k.view_mut((s0, s0), (nct, nct)).fill_with_identity();
    k.view_mut((s0, t0), (nct, 1)).copy_from(&(-&h));
    // W W ds + dy
    k.view_mut((y0, s0), (nct, nct)).copy_from(&w2);
    k.view_mut((y0, y0), (nct, nct)).fill_with_identity();
    // c dx + b dl + h dy + dkappa
    k.view_mut((t0, 0), (1, np)).copy_from(&c.transpose());
    k.view_mut((t0, l0), (1, ne)).copy_from(&b.transpose());
    k.view_mut((t0, y0), (1, nct)).copy_from(&h.transpose());
    k[(t0, t0 + 1)] = 1.0;
    // kappa dtau + tau dkappa
    k[(t0 + 1, t0)] = e.kappa;
    k[(t0 + 1, t0 + 1)] = e.tau;
    let lu = k.clone().full_piv_lu();
    let direction = |r_c: &DVector<f64>, r6: f64| -> DVector<f64> {
        let mut r = DVector::<f64>::zeros(size);
        let r_x = &c * e.tau + a.transpose() * &e.l + g.transpose() * &e.y;
        r.rows_mut(0, np).copy_from(&(-r_x));
        r.rows_mut(l0, ne).copy_from(&(&b * e.tau - &a * &e.x));
        r.rows_mut(s0, nct).copy_from(&(&h * e.tau - &g * &e.x - &e.s));
        r.rows_mut(y0, nct).copy_from(&(-(&w * r_c)));
        r[t0] = -(e.kappa + c.dot(&e.x) + b.dot(&e.l) + h.dot(&e.y));
        r[t0 + 1] = r6;
        let mut d = lu.solve(&r).unwrap();
        for _ in 0..3 {
            let left = &r - &k * &d;
            d += lu.solve(&left).unwrap();
        }
        d
    };
    let alpha = |d: &DVector<f64>| -> f64 {
        let along = |z: &DVector<f64>, dz: &[f64]| {
            prob.cones
                .iter()
                .map(|c| {
                    let rows = c.offset..c.offset + c.dim;
                    Soc.max_step(&vs(z)[rows.clone()].to_vec(), &dz[rows].to_vec())
                })
                .fold(f64::INFINITY, f64::min)
        };
        let ray = |v: f64, dv: f64| if dv < 0.0 { -v / dv } else { f64::INFINITY };
        let all = vs(d);
        let best = along(&e.s, &all[s0..y0])
            .min(along(&e.y, &all[y0..t0]))
            .min(ray(e.tau, d[t0]))
            .min(ray(e.kappa, d[t0 + 1]));
        (0.99 * best).clamp(0.0, 1.0)
    };
    let moved = |d: &DVector<f64>, t: f64| Lifted {
        x: &e.x + d.rows(0, np) * t,
        l: &e.l + d.rows(l0, ne) * t,
        s: &e.s + d.rows(s0, nct) * t,
        y: &e.y + d.rows(y0, nct) * t,
        tau: e.tau + t * d[t0],
        kappa: e.kappa + t * d[t0 + 1],
    };
    let mu = |p: &Lifted| (p.s.dot(&p.y) + p.tau * p.kappa) / (prob.cones.len() + 1) as f64;
    let aff = direction(&s_scaled, -e.tau * e.kappa);
    let ratio = mu(&moved(&aff, alpha(&aff))) / mu(e);
    let target = (ratio * ratio * ratio).clamp(0.0, 1.0) * mu(e);
    let wds = &w * aff.rows(s0, nct);
    let second = -(&s_scaled) - &wds;
    let mut product = DVector::<f64>::zeros(nct);
    let mut unit = DVector::<f64>::zeros(nct);
    for c in &prob.cones {
        let rows = c.offset..c.offset + c.dim;
        let p = Soc.jordan(&vs(&wds)[rows.clone()].to_vec(), &vs(&second)[rows].to_vec());
        product.rows_mut(c.offset, c.dim).copy_from_slice(&p);
        unit[c.offset] = 1.0;
    }
    let r_c = &s_scaled + &arrow_inv * product - &arrow_inv * unit * target;
    let d = direction(&r_c, target - e.tau * e.kappa - aff[t0] * aff[t0 + 1]);
    moved(&d, alpha(&d))
}

#[test]
fn structured_embedding_keeps_to_the_dense_one() {
    for free_tf in [false, true] {
        let prob = hover_problem(3, &state(0.0, 50.0, -5.0, 800.0), 800.0, 10.0, free_tf);
        let unit = dv(&per_cone_e::<f64>(prob.h.len(), &prob.cones));
        let mut e = Lifted {
            x: DVector::zeros(prob.c.len()),
            l: DVector::zeros(prob.b.len()),
            s: unit.clone(),
            y: unit,
            tau: 1.0,
            kappa: 1.0,
        };
        // The point shown at the cap is that of the last iteration's start.
        for max_iters in 2..5 {
            e = lifted_step(&prob, &e);
            let params = IpmAlgoParams { max_iters, ..one_iteration() };
            let mut ws = workspace(&prob);
            let r = if free_tf {
                solve_socp_structured_hsd_free_tf(
                    LIMITS, HARD_MAX_ITERS, &Soc, 3, &prob, &params, &mut ws,
                )
            } else {
                solve_socp_structured_hsd(LIMITS, HARD_MAX_ITERS, &Soc, 3, &prob, &params, &mut ws)
            };
            assert_eq!((r.status, r.iters), (IpmStatus::IterCap, max_iters));
            for (ours, dense) in [(&r.x, &e.x), (&r.s, &e.s), (&r.y, &e.y)] {
                let dense = vs(&(dense / e.tau));
                let size = dense.iter().fold(1.0_f64, |m, v| m.max(v.abs()));
                let gap = largest_gap(ours, &dense);
                assert!(gap < 1.0e-5 * size, "{} of {}", gap, size);
            }
        }
    }
}

fn residual_norms(prob: &SocpProblem<f64>, r: &SocpResult<f64>) -> (f64, f64, f64) {
    let np = prob.c.len();
    let (g, a) = (dm(&prob.g_mat, np), dm(&prob.a_mat, np));
    let (x, l, s, y) = (dv(&r.x), dv(&r.lambda), dv(&r.s), dv(&r.y));
    let primal = (&a * &x - dv(&prob.b)).norm() + (&g * &x + &s - dv(&prob.h)).norm();
    let dual = (dv(&prob.c) + a.transpose() * l + g.transpose() * &y).norm();
    (s.dot(&y) / prob.h.len() as f64, primal, dual)
}

#[test]
fn solves_end_with_an_honest_status() {
    let (prob, warm) = build_fixture(2.0, false);
    let p = IpmAlgoParams { max_iters: 40, ..ipm_with_tol(1.0e-3) };
    let mut ws = workspace(&prob);
    let r = solve_socp_structured_nt(LIMITS, HARD_MAX_ITERS, &Soc, N, &prob, &p, &mut ws);
    let (mu, primal, dual) = residual_norms(&prob, &r);
    println!("{:?}/{} mu {mu:e} primal {primal:e} dual {dual:e}", r.status, r.iters);
    assert!(r.iters <= 40);
    match r.status {
        IpmStatus::Optimal => assert!(mu < 1.0e-3 && primal < 1.0e-3 && dual < 1.0e-3),
        IpmStatus::BestFeasible => assert!(primal < 0.032 && dual < 0.032 && mu >= 0.0),
        _ => assert!(r.x.iter().chain(&r.s).chain(&r.y).all(|v| v.is_finite())),
    }

    // No iteration at all: the starting point, as a point at the cap.
    let none = IpmAlgoParams { max_iters: 0, ..p };
    let mut ws = workspace(&prob);
    let r = solve_socp_structured(LIMITS, HARD_MAX_ITERS, &Soc, N, &prob, &none, &mut ws);
    assert_eq!((r.status, r.iters), (IpmStatus::IterCap, 0));
    assert!(r.x.iter().all(|v| *v == 0.0));
    assert_eq!(r.s, init_per_cone_warm_start(&Soc, &prob.h, &prob.cones));

    // A warm start begins at the given unknowns.
    let warm_none = IpmAlgoParams { warm_start_x: true, ..none };
    let mut ws = SocpWorkspace { x: warm.clone(), ..workspace(&prob) };
    let r = solve_socp_structured(LIMITS, HARD_MAX_ITERS, &Soc, N, &prob, &warm_none, &mut ws);
    assert_eq!(r.x, warm);
}

#[test]
fn cold_starts_ignore_the_workspace() {
    let prob = hover_problem(3, &state(0.0, 50.0, -5.0, 800.0), 800.0, 10.0, false);
    let p = IpmAlgoParams { max_iters: 3, ..usual_ipm() };
    let littered = || SocpWorkspace {
        x: vec![7.0; prob.c.len()],
        lambda: vec![-3.0; prob.b.len()],
        s: vec![f64::NAN; prob.h.len()],
        y: vec![1.0e9; prob.h.len()],
    };
    let mut a = workspace(&prob);
    let mut b = littered();
    let ra = solve_socp_structured(LIMITS, HARD_MAX_ITERS, &Soc, 3, &prob, &p, &mut a);
    let rb = solve_socp_structured(LIMITS, HARD_MAX_ITERS, &Soc, 3, &prob, &p, &mut b);
    assert_eq!((ra.x, ra.s, a.y), (rb.x, rb.s, b.y));
    let mut a = workspace(&prob);
    let mut b = littered();
    let ra = solve_socp_structured_hsd(LIMITS, HARD_MAX_ITERS, &Soc, 3, &prob, &p, &mut a);
    let rb = solve_socp_structured_hsd(LIMITS, HARD_MAX_ITERS, &Soc, 3, &prob, &p, &mut b);
    assert_eq!((ra.x, ra.s, a.y), (rb.x, rb.s, b.y));

    // A warm start reads the unknowns and the equality multipliers only.
    let warm = IpmAlgoParams { warm_start_x: true, ..p };
    let mut a = workspace(&prob);
    let mut b = SocpWorkspace { x: a.x.clone(), lambda: a.lambda.clone(), ..littered() };
    let ra = solve_socp_structured(LIMITS, HARD_MAX_ITERS, &Soc, 3, &prob, &warm, &mut a);
    let rb = solve_socp_structured(LIMITS, HARD_MAX_ITERS, &Soc, 3, &prob, &warm, &mut b);
    assert_eq!((ra.x, ra.s, a.y), (rb.x, rb.s, b.y));
}

// ---- assembly ----

fn hover_lcvx(n: usize, x_init: &Vec<f64>) -> (Trajectory<f64>, LinearizedDynamics<f64>, SocpProblem<f64>) {
    let phys = mars_params();
    let traj = hover_reference(n, x_init, 800.0, 20.0);
    let lin = discretize_foh(&traj, &phys, RK4_SUBSTEPS);
    let mut prob = empty_problem();
    assemble_lcvx_socp(
        UNITS,
        n,
        &traj,
        &lin,
        &phys,
        libm::log(phys.m_dry),
        x_init,
        &soft_landing(),
        &mut prob,
    );
    (traj, lin, prob)
}

#[test]
fn assembled_problem_has_expected_structure() {
    let n = 3;
    let phys = mars_params();
    let x_init = state(0.0, 1000.0, -50.0, 800.0);
    let (traj, lin, prob) = hover_lcvx(n, &x_init);
    let np = n * N_VARS_PER_NODE;
    for k in 0..n {
        assert_eq!(prob.c[sigma_idx(k)], 1.0);
    }
    for col in 0..np {
        if (col + 1) % N_VARS_PER_NODE != 0 {
            assert_eq!(prob.c[col], 0.0);
        }
    }
    let (a, g) = (&prob.a_mat.rows, &prob.g_mat.rows);
    for i in 0..NX {
        assert_eq!(a[i][x_idx(0) + i], 1.0);
        assert_eq!(prob.b[i], x_init[i]);
    }
    assert_eq!(a[NX][x_idx(1)], 1.0);
    assert!((a[NX][x_idx(0)] + lin.a[0].rows[0][0]).abs() < 1e-15);
    assert!((a[NX][u_idx(0)] + lin.b_minus[0].rows[0][0]).abs() < 1e-15);
    assert!((a[NX][u_idx(1)] + lin.b_plus[0].rows[0][0]).abs() < 1e-15);
    assert!((prob.b[NX] - (lin.c[0][0] + lin.s[0][0] * traj.tau)).abs() < 1e-15);
    let term_row = NX + (n - 1) * NX;
    for i in 0..6 {
        assert_eq!(a[term_row + i][x_idx(n - 1) + i], 1.0);
    }
    for k in 0..n {
        let c = k * N_CONES_PER_NODE;
        let dims: Vec<usize> = (0..6).map(|i| prob.cones[c + i].dim).collect();
        assert_eq!(dims, vec![4, 1, 1, 3, 1, 1]);
        assert_eq!(prob.cones[c].offset, k * N_CONE_DIM_PER_NODE);
        assert_eq!(prob.cones[c + 5].offset, k * N_CONE_DIM_PER_NODE + 10);
    }
    assert_eq!(g[0][sigma_idx(0)], -1.0);
    assert_eq!(g[1][u_idx(0)], -1.0);
    assert_eq!(g[2][u_idx(0) + 1], -1.0);
    assert_eq!(g[3][u_idx(0) + 2], -1.0);
    let (mass_off, tmin_off, tmax_off) =
        (prob.cones[2].offset, prob.cones[4].offset, prob.cones[5].offset);
    assert_eq!(g[tmin_off][sigma_idx(0)], -1.0);
    assert_eq!(prob.h[tmin_off], -phys.t_min);
    assert_eq!(g[tmax_off][sigma_idx(0)], 1.0);
    assert_eq!(prob.h[tmax_off], phys.t_max);
    assert!((prob.h[mass_off] + phys.m_dry.ln()).abs() < 1e-12);
}

#[test]
fn small_problem_is_solvable() {
    let x_init = state(0.0, 500.0, -20.0, 800.0);
    let (_, _, prob) = hover_lcvx(4, &x_init);
    let (r, _) = solve_dense(false, &prob, &usual_ipm(), workspace(&prob));
    println!("{:?} after {} iterations", r.status, r.iters);
    assert!(matches!(
        r.status,
        IpmStatus::Optimal | IpmStatus::BestFeasible | IpmStatus::IterCap
    ));
    for k in 0..4 {
        assert!(r.x[sigma_idx(k)].is_finite());
    }
}

// ---- scaled programs have the same optimum ----

fn problem(c: &[f64], a: &[&[f64]], b: &[f64], g: &[&[f64]], h: &[f64], dims: &[usize]) -> SocpProblem<f64> {
    let mut cones = vec![];
    let mut offset = 0;
    for d in dims {
        cones.push(ConeDesc { offset, dim: *d });
        offset += d;
    }
    SocpProblem {
        c: c.to_vec(),
        a_mat: Mat { rows: a.iter().map(|r| r.to_vec()).collect() },
        b: b.to_vec(),
        g_mat: Mat { rows: g.iter().map(|r| r.to_vec()).collect() },
        h: h.to_vec(),
        cones,
    }
}

/// `min x3` with `x1 = x2 = 1`, `(x3, x1, x2)` in its cone and `x3 >= 2`.
fn two_cones() -> SocpProblem<f64> {
    problem(
        &[0.0, 0.0, 1.0],
        &[&[1.0, 0.0, 0.0], &[0.0, 1.0, 0.0]],
        &[1.0, 1.0],
        &[&[0.0, 0.0, -1.0], &[-1.0, 0.0, 0.0], &[0.0, -1.0, 0.0], &[0.0, 0.0, -1.0]],
        &[0.0, 0.0, 0.0, -2.0],
        &[3, 1],
    )
}

/// `min x1` with `x2 + x3 = 1` and `(x1, x2, x3)` in its cone.
fn one_cone() -> SocpProblem<f64> {
    problem(
        &[1.0, 0.0, 0.0],
        &[&[0.0, 1.0, 1.0]],
        &[1.0],
        &[&[-1.0, 0.0, 0.0], &[0.0, -1.0, 0.0], &[0.0, 0.0, -1.0]],
        &[0.0, 0.0, 0.0],
        &[3],
    )
}

fn optimum(prob: &SocpProblem<f64>) -> Vec<f64> {
    let (r, _) = solve_dense(false, prob, &usual_ipm(), workspace(prob));
    assert!(matches!(r.status, IpmStatus::Optimal | IpmStatus::BestFeasible), "{:?}", r.status);
    r.x
}

#[test]
fn scaled_problem_recovers_same_optimum() {
    let raw = two_cones();
    let x_raw = optimum(&raw);
    let mut scaled = two_cones();
    let d = vec![10.0, 100.0, 1000.0];
    scale_socp_in_place(&mut scaled, &d);
    let x_scaled = optimum(&scaled);
    let mut x = vec![0.0; 3];
    unscale_solution(&x_scaled, &d, &mut x);
    assert!((dot(&scaled.c, &x_scaled) - dot(&raw.c, &x)).abs() < 1e-10);
    assert!((dot(&raw.c, &x_raw) - dot(&raw.c, &x)).abs() < 1.0e-3);
    assert!(largest_gap(&x_raw, &x) < 1.0e-3);
}

#[test]
fn cone_row_scaled_recovers_same_optimum() {
    let raw = two_cones();
    let x_raw = optimum(&raw);
    let mut scaled = two_cones();
    scale_cone_rows_in_place(&mut scaled, &vec![5.0, 50.0]);
    let x = optimum(&scaled);
    assert!((dot(&raw.c, &x_raw) - dot(&scaled.c, &x)).abs() < 1.0e-3);
    assert!(largest_gap(&x_raw, &x) < 1.0e-3);
}

#[test]
fn full_preconditioning_recovers_same_optimum() {
    let raw = one_cone();
    let x_raw = optimum(&raw);
    let mut scaled = one_cone();
    let d = vec![10.0, 100.0, 1000.0];
    scale_socp_in_place(&mut scaled, &d);
    scale_cone_rows_in_place(&mut scaled, &vec![7.0]);
    let mut x = vec![0.0; 3];
    unscale_solution(&optimum(&scaled), &d, &mut x);
    assert!((dot(&raw.c, &x_raw) - dot(&raw.c, &x)).abs() < 1.0e-3);
    assert!(largest_gap(&x_raw, &x) < 1.0e-3);
}

// ---- a subproblem that other solvers solved ----

const N: usize = 3;
const TRUST_ETA0: f64 = 5.0;
const VIRT_WEIGHT: f64 = 1.0e5;
const TARGET_MASS: f64 = 600.0;
const TAU: f64 = 12.0;

fn scenario_initial(alt: f64) -> Vec<f64> {
    vec![0.0, 0.0, alt, 0.0, 0.0, -0.1 * alt, (800.0_f64).ln()]
}

fn seed_reference(phys: &PhysicalParams<f64>, initial: &[f64]) -> Trajectory<f64> {
    let mut target = vec![0.0; 7];
    target[6] = TARGET_MASS.max(phys.m_dry).ln();
    let m_avg = (initial[6].exp() + TARGET_MASS) * 0.5;
    let hover = -m_avg * phys.g[2];
    let mut x = vec![];
    for k in 0..N {
        let a = k as f64 / (N - 1) as f64;
        x.push((0..7).map(|i| (1.0 - a) * initial[i] + a * target[i]).collect());
    }
    Trajectory {
        x: Mat { rows: x },
        u: Mat { rows: vec![vec![0.0, 0.0, hover]; N] },
        sigma: vec![hover; N],
        tau: TAU,
    }
}

fn build_fixture(alt: f64, free_tf: bool) -> (SocpProblem<f64>, Vec<f64>) {
    let phys = mars_params();
    let initial = scenario_initial(alt);
    let terminal = soft_landing();
    let reference = seed_reference(&phys, &initial);
    let lin = discretize_foh(&reference, &phys, RK4_SUBSTEPS);
    let mut prob = empty_problem();
    assemble_scvx_socp(
        UNITS,
        N,
        &reference,
        &lin,
        &phys,
        libm::log(phys.m_dry),
        &initial,
        &terminal,
        TRUST_ETA0,
        VIRT_WEIGHT,
        free_tf,
        &mut prob,
    );
    let scale = build_scaling_diagonal(N, &phys, &initial, free_tf);
    scale_socp_in_place(&mut prob, &scale);
    let cone_scale = build_cone_scale_diagonal(N, &phys, &initial, TRUST_ETA0, free_tf);
    scale_cone_rows_in_place(&mut prob, &cone_scale);
    let mut warm = seed_warm_start(&reference, N, scale.len());
    scale_warm_start_in_place(&mut warm, &scale);
    (prob, warm)
}

fn dot(a: &[f64], b: &[f64]) -> f64 {
    a.iter().zip(b).map(|(x, y)| x * y).sum()
}

fn assert_primal_feasible(label: &str, prob: &SocpProblem<f64>, res: &SocpResult<f64>, tol: f64) {
    let mut ra = 0.0_f64;
    for (row, b) in prob.a_mat.rows.iter().zip(&prob.b) {
        ra += (dot(row, &res.x) - b).powi(2);
    }
    let mut rg = 0.0_f64;
    for (i, row) in prob.g_mat.rows.iter().enumerate() {
        rg += (dot(row, &res.x) + res.s[i] - prob.h[i]).powi(2);
    }
    assert!(ra.sqrt() < tol, "{label}: equality residual {}", ra.sqrt());
    assert!(rg.sqrt() < tol, "{label}: cone residual {}", rg.sqrt());
    for cone in &prob.cones {
        let part = &res.s[cone.offset..cone.offset + cone.dim];
        assert!(part[0] - tail_norm(part) > -tol, "{label}: a slack left its cone");
    }
}

fn sixty() -> IpmAlgoParams<f64> {
    IpmAlgoParams { max_iters: 60, ..usual_ipm() }
}

const REF_FIXEDTF_COST: f64 = 2.176946359299e6;
const REF_FREETF_COST: f64 = 1.041035061760e6;
const HSD_COST_REL_TOL_FIXEDTF: f64 = 1.0e-5;
const HSD_COST_REL_TOL_FREETF: f64 = 1.0e-2;
const HSD_GAP_BOUND: f64 = 10.0;

#[test]
fn rust_structured_hsd_matches_external_oracle_scvx_fixedtf() {
    let (prob, _warm) = build_fixture(100.0, false);
    let mut ws = workspace(&prob);
    let res = solve_socp_structured_hsd(LIMITS, 200, &Soc, N, &prob, &sixty(), &mut ws);
    let gap = dot(&res.s, &res.y).abs() / prob.h.len() as f64;
    let c = dot(&prob.c, &res.x);
    let rel = (c - REF_FIXEDTF_COST).abs() / REF_FIXEDTF_COST;
    println!("status {:?} iters {} cost {c:e} gap {gap:e} rel {rel:e}", res.status, res.iters);
    assert!(matches!(res.status, IpmStatus::Optimal | IpmStatus::BestFeasible));
    assert_primal_feasible("fixedtf", &prob, &res, 1.0e-3);
    assert!(gap < HSD_GAP_BOUND);
    assert!(rel < HSD_COST_REL_TOL_FIXEDTF);
}

#[test]
fn rust_structured_hsd_freetf_matches_external_oracle() {
    let (prob, _warm) = build_fixture(100.0, true);
    let mut ws = workspace(&prob);
    let res =
        solve_socp_structured_hsd_free_tf(LIMITS, 200, &Soc, N, &prob, &sixty(), &mut ws);
    let gap = dot(&res.s, &res.y).abs() / prob.h.len() as f64;
    let c = dot(&prob.c, &res.x);
    let rel = (c - REF_FREETF_COST).abs() / REF_FREETF_COST;
    println!("status {:?} iters {} cost {c:e} gap {gap:e} rel {rel:e}", res.status, res.iters);
    assert!(matches!(res.status, IpmStatus::Optimal | IpmStatus::BestFeasible));
    assert_primal_feasible("freetf", &prob, &res, 1.0e-3);
    assert!(gap < HSD_GAP_BOUND);
    assert!(rel < HSD_COST_REL_TOL_FREETF);
}

// ---- the outer loop ----

#[test]
fn scvx_outer_loop_completes_cleanly() {
    let phys = mars_params();
    let x_init = vec![0.0, 0.0, 100.0, 0.0, 0.0, -5.0, (800.0_f64).ln()];
    let mut w = ScvxWorkspace::new(dims(4, false, 10));
    w.reference = linear_reference(4, &x_init, 700.0, 750.0, 20.0, phys.g[2]);
    let status =
        solve_from(&mut w, &phys, &fast_algo(), &ipm_with_tol(1.0e-4), &x_init, &soft_landing());
    assert!(!matches!(status, SolverStatus::BadInput));
    assert!(reference_finite(&w));
}

#[test]
fn red_team_input_validation() {
    let phys = mars_params();
    let x_init = vec![0.0; 7];
    let term = soft_landing();
    let ipm = usual_ipm();
    let algo = usual_algo();
    let verdict = |phys: &PhysicalParams<f64>,
                   algo: &ScvxAlgoParams<f64>,
                   x_init: &Vec<f64>,
                   term: &TerminalCondition<f64>| {
        let mut w = ScvxWorkspace::new(dims(3, false, 3));
        solve_from(&mut w, phys, algo, &ipm, x_init, term)
    };

    // Bounds the wrong way round.
    let a = ScvxAlgoParams { trust_eta_min: 10.0, trust_eta_max: 1.0, ..algo };
    assert!(matches!(verdict(&phys, &a, &x_init, &term), SolverStatus::BadInput));
    let a = ScvxAlgoParams { trust_eta0: f64::NAN, ..algo };
    assert!(matches!(verdict(&phys, &a, &x_init, &term), SolverStatus::BadInput));
    let a = ScvxAlgoParams { virt_weight: -1.0, ..algo };
    assert!(matches!(verdict(&phys, &a, &x_init, &term), SolverStatus::BadInput));
    let mut bad_init = vec![0.0; 7];
    bad_init[3] = f64::NAN;
    assert!(matches!(verdict(&phys, &algo, &bad_init, &term), SolverStatus::BadInput));
    let bad_term = TerminalCondition { r: [0.0; 3], v: [f64::INFINITY, 0.0, 0.0] };
    assert!(matches!(verdict(&phys, &algo, &x_init, &bad_term), SolverStatus::BadInput));
    let a = ScvxAlgoParams { trust_eta_min: -1.0, ..algo };
    assert!(matches!(verdict(&phys, &a, &x_init, &term), SolverStatus::BadInput));
    let p = PhysicalParams { t_max: f64::NAN, ..mars_params() };
    assert!(matches!(verdict(&p, &algo, &x_init, &term), SolverStatus::BadInput));
    let p = PhysicalParams { t_max: mars_params().t_min - 1.0, ..mars_params() };
    assert!(matches!(verdict(&p, &algo, &x_init, &term), SolverStatus::BadInput));
    let a = ScvxAlgoParams { trust_alpha: 0.0, ..algo };
    assert!(matches!(verdict(&phys, &a, &x_init, &term), SolverStatus::BadInput));
    let a = ScvxAlgoParams { trust_beta: 0.5, ..algo };
    assert!(matches!(verdict(&phys, &a, &x_init, &term), SolverStatus::BadInput));
}

#[test]
fn scvx_converges_on_small_problem() {
    let phys = mars_params();
    let (mut w, x_init) = gentle(false, 10.0);
    let status =
        solve_from(&mut w, &phys, &gentle_algo(), &ipm_with_tol(1.0e-4), &x_init, &soft_landing());
    assert!(!matches!(status, SolverStatus::BadInput));
    assert!(least_virtual_control(&w) < 1.0e-1);
    assert!(reference_finite(&w));
    assert!((w.reference.tau - 10.0).abs() < 1e-12);
}

#[test]
fn scvx_converges_with_preconditioning() {
    let phys = mars_params();
    let (mut w, x_init) = gentle(false, 10.0);
    let ipm = IpmAlgoParams { use_preconditioning: true, ..ipm_with_tol(1.0e-4) };
    let status = solve_from(&mut w, &phys, &gentle_algo(), &ipm, &x_init, &soft_landing());
    assert!(ran_its_course(status));
    assert!(inner_solves_usable(&w));
    assert!(reference_finite(&w));
    assert!((w.reference.tau - 10.0).abs() < 1e-12);
    assert!(w.reference.x.rows[0][2] > 0.5, "the reference is in scaled units");
}

#[test]
fn scvx_active_drag_path_exercised_and_handled() {
    let phys = PhysicalParams { rho: 0.02, cd_a: 50.0, ..mars_params() };
    let (mut w, x_init) = fast(5, 15, mars_params().g[2]);
    let status = solve_from(&mut w, &phys, &fast_algo(), &fast_ipm(), &x_init, &soft_landing());
    assert!(!matches!(status, SolverStatus::BadInput));
    assert!(ran_its_course(status));
    assert!(matches!(w.history[0].ipm_status, IpmStatus::Optimal | IpmStatus::BestFeasible));
    assert!(reference_finite(&w));
    assert!(least_virtual_control(&w) < 1.0e-6);
}

#[test]
fn scvx_converges_lunar_gravity() {
    let phys = PhysicalParams { g: [0.0, 0.0, -1.62], t_min: 300.0, ..mars_params() };
    let (mut w, x_init) = fast(5, 15, -1.62);
    let status = solve_from(&mut w, &phys, &fast_algo(), &fast_ipm(), &x_init, &soft_landing());
    assert!(!matches!(status, SolverStatus::BadInput));
    assert!(ran_its_course(status));
    assert!(least_virtual_control(&w) < 1.0e-6);
    assert!((w.reference.tau - 25.0).abs() < 1e-9);
    assert!(reference_finite(&w));
}

#[test]
fn scvx_drag_converges_at_larger_n() {
    let phys = PhysicalParams { rho: 0.02, cd_a: 50.0, ..mars_params() };
    let (mut w, x_init) = fast(8, 15, mars_params().g[2]);
    let status = solve_from(&mut w, &phys, &fast_algo(), &fast_ipm(), &x_init, &soft_landing());
    assert!(!matches!(status, SolverStatus::BadInput));
    assert!(ran_its_course(status));
    assert!(least_virtual_control(&w) < 1.0e-6);
    assert!(reference_finite(&w));
}

#[test]
fn ipm_iters_respect_hard_cap() {
    let phys = PhysicalParams { rho: 0.02, cd_a: 50.0, ..mars_params() };
    let (mut w, x_init) = fast(5, 8, mars_params().g[2]);
    let ipm = IpmAlgoParams { max_iters: 200, ..fast_ipm() };
    solve_from(&mut w, &phys, &fast_algo(), &ipm, &x_init, &soft_landing());
    for r in w.history.iter().take(w.iter as usize + 1) {
        assert!(r.ipm_iters <= HARD_MAX_ITERS);
    }
}

#[test]
fn recorded_inner_iterations_respect_the_settings() {
    let phys = mars_params();
    for use_hsd in [false, true] {
        for max_iters in [12, 25, 200] {
            let (mut w, x_init) = gentle(false, 10.0);
            let algo = ScvxAlgoParams { use_structured_solve: true, ..gentle_algo() };
            let ipm = IpmAlgoParams {
                use_hsd,
                use_preconditioning: true,
                max_iters,
                ..ipm_with_tol(1.0e-4)
            };
            solve_from(&mut w, &phys, &algo, &ipm, &x_init, &soft_landing());
            for r in w.history.iter().take(w.iter as usize + 1) {
                assert!(r.ipm_iters <= max_iters.min(HARD_MAX_ITERS));
            }
        }
    }
}

#[test]
fn scvx_converges_with_structured_solve() {
    let phys = mars_params();
    let (mut w, x_init) = gentle(false, 10.0);
    let algo = ScvxAlgoParams { use_structured_solve: true, ..gentle_algo() };
    let ipm = IpmAlgoParams { use_preconditioning: true, ..ipm_with_tol(1.0e-4) };
    let status = solve_from(&mut w, &phys, &algo, &ipm, &x_init, &soft_landing());
    assert!(ran_its_course(status));
    assert!(w.structured_fallbacks <= w.iter + 1);
    assert!(inner_solves_usable(&w));
    assert!(reference_finite(&w));
    assert!((w.reference.tau - 10.0).abs() < 1e-12);
}

#[test]
fn scvx_converges_with_structured_solve_free_tf() {
    let phys = mars_params();
    let (mut w, x_init) = gentle(true, 10.0);
    let algo = ScvxAlgoParams {
        use_free_tf: true,
        use_structured_solve: true,
        ..gentle_algo()
    };
    let ipm = IpmAlgoParams { use_preconditioning: true, ..ipm_with_tol(1.0e-4) };
    let status = solve_from(&mut w, &phys, &algo, &ipm, &x_init, &soft_landing());
    assert!(ran_its_course(status));
    assert!(least_virtual_control(&w) < 1.0e-3);
    assert!(inner_solves_usable(&w));
    assert!(reference_finite(&w));
    assert!(w.reference.tau >= phys.tau_lo && w.reference.tau <= phys.tau_hi);
}

#[test]
fn structured_embedding_needs_no_fallback() {
    for free_tf in [false, true] {
        let phys = mars_params();
        let (mut w, x_init) = gentle(free_tf, 10.0);
        let algo = ScvxAlgoParams {
            use_free_tf: free_tf,
            use_structured_solve: true,
            ..gentle_algo()
        };
        let ipm =
            IpmAlgoParams { use_hsd: true, use_preconditioning: true, ..ipm_with_tol(1.0e-4) };
        let status = solve_from(&mut w, &phys, &algo, &ipm, &x_init, &soft_landing());
        assert!(ran_its_course(status));
        assert_eq!(w.structured_fallbacks, 0);
        assert!(inner_solves_usable(&w));
        assert!(least_virtual_control(&w) < 1.0e-6);
    }
}

#[test]
fn history_is_in_order_and_within_bounds() {
    let phys = mars_params();
    let (mut w, x_init) = gentle(true, 10.0);
    let algo = ScvxAlgoParams {
        use_free_tf: true,
        use_structured_solve: true,
        max_outer_iters: 4,
        ..gentle_algo()
    };
    let ipm = IpmAlgoParams { use_preconditioning: true, ..ipm_with_tol(1.0e-4) };
    let blank = ScvxWorkspace::<f64>::new(dims(3, true, 15)).history[14].accepted;
    let status = solve_from(&mut w, &phys, &algo, &ipm, &x_init, &soft_landing());
    assert_eq!(status, SolverStatus::OuterIterCap);
    assert_eq!(w.iter, 3);
    for (i, r) in w.history.iter().enumerate().take(4) {
        assert_eq!(r.iter, i as u32);
        assert!(r.trust_eta >= algo.trust_eta_min && r.trust_eta <= algo.trust_eta_max);
    }
    assert_eq!(w.history[14].accepted, blank);
    assert!(w.structured_fallbacks <= 4);
    assert!(w.reference.tau >= phys.tau_lo && w.reference.tau <= phys.tau_hi);
}

#[test]
fn new_workspace_holds_zeros() {
    let d = dims(3, true, 4);
    let w = ScvxWorkspace::<f64>::new(d);
    let zero = |v: &Vec<f64>, n: usize| v.len() == n && v.iter().all(|x| *x == 0.0);
    let zeros = |m: &Mat<f64>, r: usize, c: usize| {
        m.rows.len() == r && m.rows.iter().all(|row| zero(row, c))
    };
    assert!(zero(&w.prob.c, d.np) && zero(&w.prob.b, d.ne) && zero(&w.prob.h, d.nct));
    assert!(zeros(&w.prob.a_mat, d.ne, d.np) && zeros(&w.prob.g_mat, d.nct, d.np));
    assert_eq!(w.prob.cones, vec![ConeDesc { offset: 0, dim: 0 }; d.ncones]);
    assert!(zeros(&w.x_actual, 3, 7));
    assert_eq!(w.lin.a.len(), 3);
    assert!(w.lin.a.iter().all(|m| zeros(m, 7, 7)) && w.lin.s.iter().all(|v| zero(v, 7)));
    assert!(w.lin.b_minus.iter().chain(&w.lin.b_plus).all(|m| zeros(m, 7, 3)));
    assert_eq!(w.history.len(), 4);
    for r in &w.history {
        assert_eq!((r.iter, r.accepted, r.ipm_status, r.ipm_iters), (0, false, IpmStatus::Optimal, 0));
        assert_eq!((r.cost, r.trust_eta, r.virt_l1, r.rho_ratio), (0.0, 0.0, 0.0, 0.0));
    }
}

fn bits(m: &Mat<f64>) -> Vec<u64> {
    m.rows.iter().flatten().map(|v| v.to_bits()).collect()
}

#[test]
fn runs_repeat_whatever_else_the_workspace_held() {
    let phys = mars_params();
    let algo = ScvxAlgoParams {
        use_structured_solve: true,
        max_outer_iters: 4,
        ..gentle_algo()
    };
    let ipm = IpmAlgoParams { use_preconditioning: true, ..ipm_with_tol(1.0e-4) };
    let (mut w, x_init) = gentle(false, 10.0);
    let (mut v, _) = gentle(false, 10.0);
    v.trust_eta = 77.0;
    v.iter = 9;
    v.j_prev = -3.0;
    v.scale_diag = vec![2.0; 4];
    v.x_unscaled = vec![f64::NAN];
    v.cone_scales = vec![];
    v.structured_fallbacks = 5;
    v.rho_ceiling = 0.1;
    v.adaptive_seeded = true;
    v.candidate.tau = -1.0;
    let first = solve_from(&mut w, &phys, &algo, &ipm, &x_init, &soft_landing());
    let second = solve_from(&mut v, &phys, &algo, &ipm, &x_init, &soft_landing());
    assert_eq!(first, second);
    assert_eq!((w.iter, w.structured_fallbacks), (v.iter, v.structured_fallbacks));
    assert_eq!(w.trust_eta.to_bits(), v.trust_eta.to_bits());
    assert_eq!(bits(&w.reference.x), bits(&v.reference.x));
    assert_eq!(bits(&w.reference.u), bits(&v.reference.u));
    assert_eq!(w.reference.tau.to_bits(), v.reference.tau.to_bits());
    for (a, b) in w.history.iter().zip(v.history.iter()).take(w.iter as usize + 1) {
        assert_eq!(a.cost.to_bits(), b.cost.to_bits());
        assert_eq!(a.rho_ratio.to_bits(), b.rho_ratio.to_bits());
        assert_eq!((a.accepted, a.ipm_status, a.ipm_iters), (b.accepted, b.ipm_status, b.ipm_iters));
    }
}

/// A plant whose inner drivers give up at once.
struct Hopeless;

impl Numerics<f64> for Hopeless {
    fn invert(&self, _m: &Mat<f64>) -> Option<Mat<f64>> {
        None
    }

    fn sqrt(&self, x: f64) -> f64 {
        Soc.sqrt(x)
    }

    fn log(&self, x: f64) -> f64 {
        Soc.log(x)
    }

    fn exp(&self, x: f64) -> f64 {
        Soc.exp(x)
    }

    fn pow(&self, x: f64, y: f64) -> f64 {
        Soc.pow(x, y)
    }
}

impl ConeOps<f64> for Hopeless {
    fn jordan(&self, u: &Vec<f64>, v: &Vec<f64>) -> Vec<f64> {
        Soc.jordan(u, v)
    }

    fn arrow(&self, v: &Vec<f64>) -> Mat<f64> {
        Soc.arrow(v)
    }

    fn in_interior(&self, v: &Vec<f64>) -> bool {
        Soc.in_interior(v)
    }

    fn max_step(&self, z: &Vec<f64>, dz: &Vec<f64>) -> f64 {
        Soc.max_step(z, dz)
    }

    fn nt_scaling_exact(&self, _s: &Vec<f64>, _y: &Vec<f64>) -> Option<Mat<f64>> {
        None
    }

    fn nt_scaling_mean(&self, _s: &Vec<f64>, _y: &Vec<f64>) -> Option<Mat<f64>> {
        None
    }
}

fn no_answer(ws: SocpWorkspace<f64>, status: IpmStatus) -> (SocpResult<f64>, SocpWorkspace<f64>) {
    let r = SocpResult {
        x: vec![f64::NAN; ws.x.len()],
        lambda: ws.lambda.clone(),
        s: ws.s.clone(),
        y: ws.y.clone(),
        status,
        iters: 0,
    };
    (r, ws)
}

impl Plant<f64> for Hopeless {
    fn discretize(
        &self,
        reference: &Trajectory<f64>,
        phys: &PhysicalParams<f64>,
        substeps: u32,
    ) -> LinearizedDynamics<f64> {
        Soc.discretize(reference, phys, substeps)
    }

    fn propagate(
        &self,
        x0: &Vec<f64>,
        u: &Mat<f64>,
        tau: f64,
        phys: &PhysicalParams<f64>,
        substeps: u32,
    ) -> Mat<f64> {
        Soc.propagate(x0, u, tau, phys, substeps)
    }

    fn solve_socp(
        &self,
        _prob: &SocpProblem<f64>,
        _params: &IpmAlgoParams<f64>,
        ws: SocpWorkspace<f64>,
    ) -> (SocpResult<f64>, SocpWorkspace<f64>) {
        no_answer(ws, IpmStatus::NumericalError)
    }

    fn solve_socp_nt(
        &self,
        _prob: &SocpProblem<f64>,
        _params: &IpmAlgoParams<f64>,
        ws: SocpWorkspace<f64>,
    ) -> (SocpResult<f64>, SocpWorkspace<f64>) {
        no_answer(ws, IpmStatus::BestFeasible)
    }

    fn solve_socp_hsd(
        &self,
        _prob: &SocpProblem<f64>,
        _params: &IpmAlgoParams<f64>,
        ws: SocpWorkspace<f64>,
    ) -> (SocpResult<f64>, SocpWorkspace<f64>) {
        no_answer(ws, IpmStatus::Infeasible)
    }
}

#[test]
fn failing_inner_solve_shrinks_trust_to_its_floor() {
    let phys = mars_params();
    let (mut w, x_init) = gentle(false, 10.0);
    let before = w.reference.x.rows.clone();
    let algo = ScvxAlgoParams {
        trust_eta0: 4.0,
        trust_eta_min: 1.0,
        use_structured_solve: true,
        ..gentle_algo()
    };
    let ipm = usual_ipm();
    let term = soft_landing();
    let status = solve_scvx(LIMITS, 64, &Hopeless, &mut w, &phys, &algo, &ipm, &x_init, &term);
    assert_eq!(status, SolverStatus::InnerFailure);
    assert_eq!(w.iter, 2);
    assert_eq!(w.structured_fallbacks, 3);
    let radii: Vec<f64> = w.history.iter().take(3).map(|r| r.trust_eta).collect();
    assert_eq!(radii, vec![4.0, 2.0, 1.0]);
    assert!(w.history.iter().take(3).all(|r| !r.accepted && r.cost.is_nan()));
    assert_eq!(w.reference.x.rows, before);
}

#[test]
fn poisoned_candidate_is_refused() {
    let phys = mars_params();
    let (mut w, x_init) = gentle(false, 10.0);
    let before = w.reference.x.rows.clone();
    let algo = ScvxAlgoParams { trust_eta0: 5.0, max_outer_iters: 3, ..gentle_algo() };
    let ipm = IpmAlgoParams { use_nt_scaling: true, ..usual_ipm() };
    let term = soft_landing();
    let status = solve_scvx(LIMITS, 64, &Hopeless, &mut w, &phys, &algo, &ipm, &x_init, &term);
    assert_eq!(status, SolverStatus::OuterIterCap);
    assert_eq!(w.structured_fallbacks, 0);
    assert!(w.history.iter().take(3).all(|r| !r.accepted));
    assert_eq!(w.trust_eta, 5.0 / 8.0);
    assert_eq!(w.reference.x.rows, before);
    assert!(reference_finite(&w));
}

#[test]
fn scvx_converges_with_full_preconditioning_aho() {
    let phys = mars_params();
    let (mut w, x_init) = gentle(false, 10.0);
    let ipm = IpmAlgoParams {
        use_preconditioning: true,
        use_cone_row_scaling: true,
        ..ipm_with_tol(1.0e-4)
    };
    let status = solve_from(&mut w, &phys, &gentle_algo(), &ipm, &x_init, &soft_landing());
    assert!(ran_its_course(status));
    let final_cost = w.history[w.iter as usize].cost;
    assert!(final_cost.is_finite() && final_cost < 1.0e4, "final cost {final_cost}");
    assert!(inner_solves_usable(&w));
    assert!(reference_finite(&w));
    assert!((w.reference.tau - 10.0).abs() < 1e-12);
    assert!(w.reference.x.rows[0][2] > 0.5);
}

#[test]
fn scvx_converges_with_hsd() {
    let phys = mars_params();
    let (mut w, x_init) = gentle(false, 10.0);
    let ipm = IpmAlgoParams {
        use_hsd: true,
        use_preconditioning: true,
        use_cone_row_scaling: true,
        ..ipm_with_tol(1.0e-4)
    };
    let status = solve_from(&mut w, &phys, &gentle_algo(), &ipm, &x_init, &soft_landing());
    assert!(ran_its_course(status));
    assert!(inner_solves_usable(&w));
    let final_cost = w.history[w.iter as usize].cost;
    assert!(final_cost.is_finite() && final_cost < 1.0e4, "final cost {final_cost}");
    assert!(least_virtual_control(&w) < 1.0e-6);
    assert!(reference_finite(&w));
    assert!((w.reference.tau - 10.0).abs() < 1e-12);
    assert!(w.reference.x.rows[0][2] > 0.5);
}

#[test]
fn scvx_converges_with_hsd_active_drag() {
    let phys = PhysicalParams { rho: 0.02, cd_a: 50.0, ..mars_params() };
    let (mut w, x_init) = fast(5, 15, mars_params().g[2]);
    let ipm = IpmAlgoParams { use_hsd: true, ..fast_ipm() };
    let status = solve_from(&mut w, &phys, &fast_algo(), &ipm, &x_init, &soft_landing());
    assert!(ran_its_course(status));
    assert!(inner_solves_usable(&w));
    assert!(least_virtual_control(&w) < 1.0e-6);
}

#[test]
fn scvx_converges_with_hsd_free_tf() {
    let phys = mars_params();
    let (mut w, x_init) = gentle(true, 10.0);
    let algo = ScvxAlgoParams { use_free_tf: true, ..gentle_algo() };
    let ipm =
        IpmAlgoParams { use_hsd: true, use_preconditioning: true, ..ipm_with_tol(1.0e-4) };
    let status = solve_from(&mut w, &phys, &algo, &ipm, &x_init, &soft_landing());
    assert!(ran_its_course(status));
    assert!(inner_solves_usable(&w));
    assert!(least_virtual_control(&w) < 1.0e-6);
    assert!(w.reference.tau.is_finite() && w.reference.tau > 0.0);
}

#[test]
fn scvx_converges_with_hsd_lunar() {
    let phys = PhysicalParams { g: [0.0, 0.0, -1.62], t_min: 300.0, ..mars_params() };
    let (mut w, x_init) = fast(5, 15, -1.62);
    let ipm = IpmAlgoParams { use_hsd: true, ..fast_ipm() };
    let status = solve_from(&mut w, &phys, &fast_algo(), &ipm, &x_init, &soft_landing());
    assert!(ran_its_course(status));
    assert!(inner_solves_usable(&w));
    assert!(least_virtual_control(&w) < 1.0e-6);
}

#[test]
fn nt_full_precond_fails_gracefully() {
    let phys = mars_params();
    let (mut w, x_init) = gentle(false, 10.0);
    let ipm = IpmAlgoParams {
        use_nt_scaling: true,
        use_preconditioning: true,
        use_cone_row_scaling: true,
        ..ipm_with_tol(1.0e-4)
    };
    let status = solve_from(&mut w, &phys, &gentle_algo(), &ipm, &x_init, &soft_landing());
    assert!(!matches!(status, SolverStatus::BadInput));
    assert!(reference_finite(&w));
    assert!(w.reference.tau.is_finite());
}

#[test]
fn scvx_scales_to_flight_realistic_problem() {
    let phys = mars_params();
    let (mut w, x_init) = fast(5, 15, phys.g[2]);
    let status = solve_from(&mut w, &phys, &fast_algo(), &fast_ipm(), &x_init, &soft_landing());
    assert!(ran_its_course(status));
    assert!(inner_solves_usable(&w));
    assert!(reference_finite(&w));
    assert!((w.reference.tau - 25.0).abs() < 1e-12);
    assert!(w.reference.x.rows[0][2] > 50.0);
}

#[test]
fn scvx_free_tf_adjusts_tau() {
    let phys = mars_params();
    let (mut w, x_init) = gentle(true, 8.0);
    let algo = ScvxAlgoParams { use_free_tf: true, ..gentle_algo() };
    let ipm = IpmAlgoParams { use_preconditioning: true, ..ipm_with_tol(1.0e-4) };
    let status = solve_from(&mut w, &phys, &algo, &ipm, &x_init, &soft_landing());
    assert!(ran_its_course(status));
    assert!(inner_solves_usable(&w));
    assert!(reference_finite(&w));
    assert!(w.reference.tau >= phys.tau_lo);
    assert!(w.reference.tau <= phys.tau_hi);
    assert!(w.reference.x.rows[0][2] > 0.5);
}

#[test]
fn scvx_n10_probe_runs_clean() {
    let phys = mars_params();
    let (mut w, x_init) = fast(10, 15, phys.g[2]);
    let ipm = IpmAlgoParams {
        max_iters: 25,
        use_preconditioning: true,
        ..ipm_with_tol(1.0e-4)
    };
    let status = solve_from(&mut w, &phys, &fast_algo(), &ipm, &x_init, &soft_landing());
    assert!(!matches!(status, SolverStatus::BadInput));
    assert!(reference_finite(&w));
    assert!(w.reference.tau.is_finite());
}

#[test]
fn zero_outer_iters_is_bad_input() {
    let phys = mars_params();
    let x_init = vec![0.0; 7];
    let mut w = ScvxWorkspace::new(dims(3, false, 4));
    w.reference = hover_reference(3, &x_init, 800.0, 20.0);
    let algo = ScvxAlgoParams { max_outer_iters: 0, ..usual_algo() };
    let status = solve_from(&mut w, &phys, &algo, &usual_ipm(), &x_init, &soft_landing());
    assert!(matches!(status, SolverStatus::BadInput));
}

#[test]
fn scvx_converges_larger_n_adaptive_trust() {
    let phys = mars_params();
    let (mut w, x_init) = fast(10, 20, phys.g[2]);
    let algo = ScvxAlgoParams { use_structured_solve: true, ..fast_algo() };
    let status = solve_from(&mut w, &phys, &algo, &fast_ipm(), &x_init, &soft_landing());
    assert!(inner_solves_usable(&w));
    assert!(ran_its_course(status));
    assert!(least_virtual_control(&w) < 1.0e-6);
    assert!((w.reference.tau - 25.0).abs() < 1e-9);
    assert!(reference_finite(&w));
}

// ---- the high-level interface ----

fn powered_descent(
    free_tf: bool,
    options: &PoweredDescentOptions<f64>,
) -> (SolverStatus, ScvxWorkspace<f64>) {
    let x_init = vec![0.0, 0.0, 2.0, 0.0, 0.0, -0.1, (400.0_f64).ln()];
    let mut w = ScvxWorkspace::new(dims(3, free_tf, 15));
    let status = solve_powered_descent(
        LIMITS,
        HARD_MAX_ITERS,
        &Soc,
        &mut w,
        &mars_params(),
        &x_init,
        &soft_landing(),
        options,
        &usual_algo(),
        &usual_ipm(),
    );
    (status, w)
}

#[test]
fn solve_powered_descent_runs_clean_on_small_mars_problem() {
    let phys = mars_params();
    let options = PoweredDescentOptions {
        initial_tau: 10.0,
        target_mass: 380.0,
        trust_eta0: 5.0,
        trust_eta_max: 20.0,
        ..PoweredDescentOptions::new()
    };
    let (status, w) = powered_descent(true, &options);
    assert!(ran_its_course(status), "{status:?}");
    assert!(reference_finite(&w));
    assert!(w.reference.x.rows[0][2] > 0.5);
    assert!(w.reference.tau >= phys.tau_lo);
    assert!(w.reference.tau <= phys.tau_hi);
}

#[test]
fn solve_powered_descent_works_fixed_tf() {
    let options = PoweredDescentOptions {
        initial_tau: 10.0,
        target_mass: 380.0,
        trust_eta0: 5.0,
        trust_eta_max: 20.0,
        use_free_tf: false,
        use_cone_row_scaling: false,
        ..PoweredDescentOptions::new()
    };
    let (status, w) = powered_descent(false, &options);
    assert!(ran_its_course(status), "{status:?}");
    assert!((w.reference.tau - 10.0).abs() < 1e-12);
}
