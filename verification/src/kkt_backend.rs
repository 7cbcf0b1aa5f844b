//! One interface to the structured solves with fixed and with free final time:
//! a factor, and flat steps from it.
use crate::linalg::{shaped, Mat};
use crate::numerics::{inversion_repeatable, Numerics};
use crate::reduced_kkt::{
    factor_model, factor_reduced_kkt_scvx_block_m, factor_status, hessians, recovered_step,
    schur_rhs_all, solve_reduced_kkt_scvx_with_factor, tridiag_solution, FactorModel,
    ReducedKktFactor, ReducedKktSolution, ReducedKktStatus, RB_MAX,
};
use crate::reduced_kkt_free_tf::{
    dtau_hessian, dtau_step, factor_reduced_kkt_scvx_block_m_free_tf, free_tf_model,
    free_tf_multipliers, free_tf_status, solve_reduced_kkt_scvx_with_factor_free_tf, FreeTfModel,
    ReducedKktFactorFreeTf, ReducedKktSolutionFreeTf,
};
use crate::layout::spec_np;
use crate::scalar::{total, Limits, Scalar, Units};
use crate::stage_blocks::NZ;
use crate::types::SocpProblem;
use vstd::prelude::*;

verus! {

/// What a factor stands for.
pub enum KktModel<T> {
    Fixed(FactorModel<T>),
    Free(FreeTfModel<T>),
}

/// A factor of the structured system.
pub enum KktFactor<T> {
    Fixed(ReducedKktFactor<T>),
    Free(ReducedKktFactorFreeTf<T>),
}

impl<T> View for KktFactor<T> {
    type V = KktModel<T>;

    open spec fn view(&self) -> KktModel<T> {
        match self {
            KktFactor::Fixed(f) => KktModel::Fixed(f@),
            KktFactor::Free(f) => KktModel::Free(f@),
        }
    }
}

impl<T: Scalar> KktFactor<T> {
    /// The factor belongs to the `n`-node equality matrix `a`.
    pub open spec fn belongs_to(&self, zero: T, a: Seq<Seq<T>>, n: int, free_tf: bool) -> bool {
        match self {
            KktFactor::Fixed(f) => !free_tf && f.belongs_to(zero, a, n),
            KktFactor::Free(f) => free_tf && f.belongs_to(zero, a, n),
        }
    }
}

/// The factor for the cone scaling `m`, where there is one.
pub open spec fn kkt_factor_model<T: Scalar, C: Numerics<T>>(
    units: Units<T>,
    limits: Limits<T>,
    ops: &C,
    prob: &SocpProblem<T>,
    n: int,
    free_tf: bool,
    m: Seq<Seq<T>>,
    reg: T,
) -> Option<KktModel<T>> {
    let a = prob.a_mat@;
    let h = hessians(units.zero, prob, m, spec_np(n, free_tf), reg, n);
    let hd = dtau_hessian(units.zero, prob, m, n, reg);
    if free_tf {
        if free_tf_status(units, limits, ops, a, h, n, hd) == ReducedKktStatus::Okay {
            Some(
                KktModel::Free(free_tf_model(units, a, factor_model(units, ops, a, h, n), n, hd)),
            )
        } else {
            None
        }
    } else if factor_status(units, ops, a, h, n) == ReducedKktStatus::Okay {
        Some(KktModel::Fixed(factor_model(units, ops, a, h, n)))
    } else {
        None
    }
}

/// Builds the factor for the cone scaling `m`.
pub fn kkt_factor<T: Scalar, C: Numerics<T>>(
    units: Units<T>,
    limits: Limits<T>,
    ops: &C,
    prob: &SocpProblem<T>,
    n: usize,
    free_tf: bool,
    m: &Mat<T>,
    reg: T,
) -> (r: Option<KktFactor<T>>)
    requires
        total::<T>(),
        inversion_repeatable(ops),
        19 * n + 1 <= usize::MAX,
        prob.sized(spec_np(n as int, free_tf), 7 * n + 6, prob.h@.len() as int),
        prob.cones_fit(prob.h@.len() as int),
        shaped(m@, prob.h@.len() as int, prob.h@.len() as int),
    ensures
        match r {
            Some(f) => 1 <= n < RB_MAX && f.belongs_to(units.zero, prob.a_mat@, n as int, free_tf)
                && kkt_factor_model(units, limits, ops, prob, n as int, free_tf, m@, reg) == Some(
                f@,
            ),
            None => kkt_factor_model(units, limits, ops, prob, n as int, free_tf, m@, reg) is None,
        },
{
    if free_tf {
        let mut f: ReducedKktFactorFreeTf<T> = ReducedKktFactorFreeTf::new(units.zero);
        let st: ReducedKktStatus = factor_reduced_kkt_scvx_block_m_free_tf(
            units,
            limits,
            ops,
            prob,
            n,
            m,
            reg,
            &mut f,
        );
        if st == ReducedKktStatus::Okay {
            Some(KktFactor::Free(f))
        } else {
            None
        }
    } else {
        let mut f: ReducedKktFactor<T> = ReducedKktFactor::new();
        let st: ReducedKktStatus = factor_reduced_kkt_scvx_block_m(
            units,
            ops,
            prob,
            n,
            NZ * n,
            m,
            reg,
            &mut f,
        );
        if st == ReducedKktStatus::Okay {
            Some(KktFactor::Fixed(f))
        } else {
            None
        }
    }
}

/// The multipliers of the row blocks for one right-hand side.
pub open spec fn kkt_multipliers<T: Scalar>(
    z: T,
    a: Seq<Seq<T>>,
    n: int,
    f: KktModel<T>,
    b_x: Seq<T>,
    b_a: Seq<T>,
) -> Seq<Seq<T>> {
    match f {
        KktModel::Fixed(m) => tridiag_solution(z, a, m, n, schur_rhs_all(z, a, m, n, b_x, b_a)),
        KktModel::Free(m) => free_tf_multipliers(z, a, m, n, b_x, b_a),
    }
}

/// The inverses of the node Hessians in `f`.
pub open spec fn kkt_base<T>(f: KktModel<T>) -> FactorModel<T> {
    match f {
        KktModel::Fixed(m) => m,
        KktModel::Free(m) => m.base,
    }
}

/// The flat primal step for one right-hand side: the nodes' steps, then the time
/// increment's where there is one.
pub open spec fn kkt_dx<T: Scalar>(
    z: T,
    a: Seq<Seq<T>>,
    n: int,
    f: KktModel<T>,
    b_x: Seq<T>,
    b_a: Seq<T>,
) -> Seq<T> {
    let lam = kkt_multipliers(z, a, n, f, b_x, b_a);
    Seq::new(
        spec_np(n, f is Free) as nat,
        |j: int|
            if j < 19 * n {
                recovered_step(z, a, kkt_base(f), n, b_x, lam, j / 19)[j % 19]
            } else {
                dtau_step(z, a, f->Free_0, n, b_x, lam)
            },
    )
}

/// The flat multiplier step for one right-hand side.
pub open spec fn kkt_dl<T: Scalar>(
    z: T,
    a: Seq<Seq<T>>,
    n: int,
    f: KktModel<T>,
    b_x: Seq<T>,
    b_a: Seq<T>,
) -> Seq<T> {
    let lam = kkt_multipliers(z, a, n, f, b_x, b_a);
    Seq::new((7 * n + 6) as nat, |r: int| lam[r / 7][r % 7])
}

/// Stacks the nodes' steps into one vector.
fn stack_dz<T: Copy>(sol: &ReducedKktSolution<T>, n: usize) -> (dx: Vec<T>)
    requires
        19 * n + 1 <= usize::MAX,
        sol.sized(n as int),
    ensures
        dx@ == Seq::new((19 * n) as nat, |j: int| sol.dz@[j / 19][j % 19]),
{
    let mut dx: Vec<T> = Vec::new();
    let mut k: usize = 0;
    while k < n
        invariant
            19 * n + 1 <= usize::MAX,
            sol.sized(n as int),
            k <= n,
            dx@.len() == 19 * k,
            forall|j: int| 0 <= j < 19 * k ==> #[trigger] dx@[j] == sol.dz@[j / 19][j % 19],
        decreases n - k,
    {
        assert(sol.dz@[k as int].len() == 19);
        let mut i: usize = 0;
        while i < NZ
            invariant
                19 * n + 1 <= usize::MAX,
                sol.sized(n as int),
                k < n,
                i <= 19,
                sol.dz@[k as int].len() == 19,
                dx@.len() == 19 * k + i,
                forall|j: int| 0 <= j < 19 * k + i ==> #[trigger] dx@[j] == sol.dz@[j / 19][j % 19],
            decreases 19 - i,
        {
            assert((19 * k + i) / 19 == k && (19 * k + i) % 19 == i);
            dx.push(sol.dz.rows[k][i]);
            i = i + 1;
        }
        k = k + 1;
    }
    assert(dx@ =~= Seq::new((19 * n) as nat, |j: int| sol.dz@[j / 19][j % 19]));
    dx
}

/// Stacks the nodes' steps and the time increment's into one vector.
fn stack_dz_free_tf<T: Copy>(sol: &ReducedKktSolutionFreeTf<T>, n: usize) -> (dx: Vec<T>)
    requires
        19 * n + 1 <= usize::MAX,
        sol.base.sized(n as int),
    ensures
        dx@ == Seq::new((19 * n) as nat, |j: int| sol.base.dz@[j / 19][j % 19]).push(
            sol.dz_delta_tau,
        ),
{
    let mut dx: Vec<T> = stack_dz(&sol.base, n);
    dx.push(sol.dz_delta_tau);
    dx
}

/// Flattens the multipliers: initial, transitions, terminal.
fn flatten_multipliers<T: Copy>(
    sol: &ReducedKktSolution<T>,
    n: usize,
    Ghost(lam): Ghost<Seq<Seq<T>>>,
) -> (dl: Vec<T>)
    requires
        n >= 1,
        7 * n + 6 <= usize::MAX,
        sol.sized(n as int),
        shaped(lam, n + 1, 7),
        sol.dlam_init@ == lam[0],
        forall|k: int| 0 <= k < n - 1 ==> #[trigger] sol.dlam_dyn@[k] == lam[k + 1],
        sol.dlam_term@ == lam[n as int].subrange(0, 6),
    ensures
        dl@ == Seq::new((7 * n + 6) as nat, |r: int| lam[r / 7][r % 7]),
{
    assert(n - 1 <= sol.dlam_dyn.rows.len());
    let mut dl: Vec<T> = Vec::new();
    let mut r: usize = 0;
    while r < 7 * n + 6
        invariant
            n >= 1,
            7 * n + 6 <= usize::MAX,
            sol.sized(n as int),
            sol.dlam_init@ == lam[0],
            forall|k: int| 0 <= k < n - 1 ==> #[trigger] sol.dlam_dyn@[k] == lam[k + 1],
            sol.dlam_term@ == lam[n as int].subrange(0, 6),
            shaped(lam, n + 1, 7),
            r <= 7 * n + 6,
            dl@.len() == r,
            forall|q: int| 0 <= q < r ==> #[trigger] dl@[q] == lam[q / 7][q % 7],
        decreases 7 * n + 6 - r,
    {
        let k: usize = r / 7;
        let i: usize = r % 7;
        assert(lam[k as int].len() == 7);
        let v: T = if k == 0 {
            sol.dlam_init[i]
        } else if k < n {
            assert(sol.dlam_dyn@[k - 1] == lam[k as int]);
            assert(sol.dlam_dyn@[k - 1].len() == 7);
            sol.dlam_dyn.rows[k - 1][i]
        } else {
            sol.dlam_term[i]
        };
        dl.push(v);
        r = r + 1;
    }
    assert(dl@ =~= Seq::new((7 * n + 6) as nat, |r: int| lam[r / 7][r % 7]));
    dl
}

proof fn lemma_multipliers_shaped<T: Scalar>(
    z: T,
    a: Seq<Seq<T>>,
    n: int,
    f: &KktFactor<T>,
    free_tf: bool,
    b_x: Seq<T>,
    b_a: Seq<T>,
    k: int,
)
    requires
        n >= 1,
        f.belongs_to(z, a, n, free_tf),
        0 <= k <= n,
    ensures
        kkt_multipliers(z, a, n, f@, b_x, b_a).len() == n + 1,
        kkt_multipliers(z, a, n, f@, b_x, b_a)[k].len() == 7,
{
    let base = kkt_base(f@);
    assert(shaped(base.d_inv[k], 7, 7));
}

/// The flat steps for one right-hand side.
pub fn kkt_apply<T: Scalar>(
    units: Units<T>,
    prob: &SocpProblem<T>,
    n: usize,
    free_tf: bool,
    f: &KktFactor<T>,
    b_x: &Vec<T>,
    b_a: &Vec<T>,
) -> (r: (Vec<T>, Vec<T>))
    requires
        total::<T>(),
        1 <= n < RB_MAX,
        19 * n + 1 <= usize::MAX,
        shaped(prob.a_mat@, 7 * n + 6, spec_np(n as int, free_tf)),
        f.belongs_to(units.zero, prob.a_mat@, n as int, free_tf),
        b_x@.len() == spec_np(n as int, free_tf),
        b_a@.len() == 7 * n + 6,
    ensures
        r.0@ == kkt_dx(units.zero, prob.a_mat@, n as int, f@, b_x@, b_a@),
        r.1@ == kkt_dl(units.zero, prob.a_mat@, n as int, f@, b_x@, b_a@),
        r.0@.len() == spec_np(n as int, free_tf),
        r.1@.len() == 7 * n + 6,
{
    let ghost a = prob.a_mat@;
    let ghost lam = kkt_multipliers(units.zero, a, n as int, f@, b_x@, b_a@);
    proof {
        assert forall|k: int| 0 <= k < n + 1 implies (#[trigger] lam[k]).len() == 7 by {
            lemma_multipliers_shaped(units.zero, a, n as int, f, free_tf, b_x@, b_a@, k);
        }
        lemma_multipliers_shaped(units.zero, a, n as int, f, free_tf, b_x@, b_a@, 0);
    }
    match f {
        KktFactor::Fixed(ff) => {
            let mut sol: ReducedKktSolution<T> = ReducedKktSolution::new();
            let _st: ReducedKktStatus = solve_reduced_kkt_scvx_with_factor(
                units,
                prob,
                n,
                NZ * n,
                ff,
                b_x,
                b_a,
                &mut sol,
            );
            let dx: Vec<T> = stack_dz(&sol, n);
            let dl: Vec<T> = flatten_multipliers(&sol, n, Ghost(lam));
            assert(dx@ =~= kkt_dx(units.zero, a, n as int, f@, b_x@, b_a@)) by {
                assert forall|j: int| 0 <= j < 19 * n implies dx@[j] == kkt_dx(
                    units.zero,
                    a,
                    n as int,
                    f@,
                    b_x@,
                    b_a@,
                )[j] by {
                    let k = j / 19;
                    assert(sol.dz@[k] == recovered_step(
                        units.zero,
                        a,
                        ff@,
                        n as int,
                        b_x@,
                        lam,
                        k,
                    ));
                }
            }
            (dx, dl)
        },
        KktFactor::Free(ff) => {
            let mut sol: ReducedKktSolutionFreeTf<T> = ReducedKktSolutionFreeTf::new(units.zero);
            let _st: ReducedKktStatus = solve_reduced_kkt_scvx_with_factor_free_tf(
                units,
                prob,
                n,
                ff,
                b_x,
                b_a,
                &mut sol,
            );
            let dx: Vec<T> = stack_dz_free_tf(&sol, n);
            let dl: Vec<T> = flatten_multipliers(&sol.base, n, Ghost(lam));
            assert(dx@ =~= kkt_dx(units.zero, a, n as int, f@, b_x@, b_a@)) by {
                assert forall|j: int| 0 <= j < 19 * n implies dx@[j] == kkt_dx(
                    units.zero,
                    a,
                    n as int,
                    f@,
                    b_x@,
                    b_a@,
                )[j] by {
                    let k = j / 19;
                    assert(sol.base.dz@[k] == recovered_step(
                        units.zero,
                        a,
                        ff@.base,
                        n as int,
                        b_x@,
                        lam,
                        k,
                    ));
                }
            }
            (dx, dl)
        },
    }
}

} // verus!
