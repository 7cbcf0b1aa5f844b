//! Powered descent in one call: a straight-line reference, then the
//! successive-convexification loop.
use crate::algebra::{
    field, lemma_add_assoc, lemma_add_comm, lemma_add_zero, lemma_mul_comm, lemma_mul_div,
    lemma_mul_one, lemma_mul_sub, lemma_mul_zero, lemma_sub_def, lemma_sub_facts,
};
use crate::cones::cones_repeatable;
use crate::descent_laws::{inner_solves_exact, joins};
use crate::judgement_laws::{settled_at, spends_at_most, stays_within};
use crate::layout::{workspace_ncones, workspace_nct, workspace_ne, workspace_np};
use crate::linalg::Mat;
use crate::numerics::{exp_of, exp_with, functions_repeatable, log_of, log_with};
use crate::scalar::{
    fraction, larger, max, minus, negated, num, number, over, plus, ratio, real_ops, times, units,
    Limits, Real,
};
use crate::scvx::{
    dims_match, outcome, solve_scvx, well_shaped, well_sized, Dims, Plant, ScvxWorkspace, Task,
};
use crate::types::{
    IpmAlgoParams, PhysicalParams, ScvxAlgoParams, SolverStatus, TerminalCondition, Trajectory,
};
use vstd::prelude::*;

verus! {

/// Settings of `solve_powered_descent`.
pub struct PoweredDescentOptions<T> {
    /// First guess of the time of flight; the time of flight where that is fixed.
    pub initial_tau: T,
    /// Estimated terminal mass. Only the first reference uses it.
    pub target_mass: T,
    /// Optimize the time of flight.
    pub use_free_tf: bool,
    /// Scale the variables.
    pub use_preconditioning: bool,
    /// Scale the cones.
    pub use_cone_row_scaling: bool,
    /// Use the Nesterov-Todd direction.
    pub use_nt_scaling: bool,
    /// Use the homogeneous self-dual embedding. It goes before the directions.
    pub use_hsd: bool,
    /// Cap on outer iterations.
    pub max_outer_iters: u32,
    /// Cap on inner iterations.
    pub max_inner_iters: u32,
    /// Convergence tolerance on the step.
    pub conv_tol_x: T,
    /// Convergence tolerance on virtual control.
    pub conv_tol_virt: T,
    /// Tolerance of the inner solve.
    pub ipm_tol: T,
    /// First trust radius, and its bounds.
    pub trust_eta0: T,
    pub trust_eta_min: T,
    pub trust_eta_max: T,
    /// Penalty on virtual control.
    pub virt_weight: T,
}

/// The settings that suit most descents.
pub open spec fn usual_options<T: Real>() -> PoweredDescentOptions<T> {
    PoweredDescentOptions {
        initial_tau: num::<T>(20),
        target_mass: num::<T>(700),
        use_free_tf: true,
        use_preconditioning: true,
        use_cone_row_scaling: false,
        use_nt_scaling: false,
        use_hsd: true,
        max_outer_iters: 15,
        max_inner_iters: 25,
        conv_tol_x: ratio::<T>(1, 1_000),
        conv_tol_virt: ratio::<T>(1, 10_000_000),
        ipm_tol: ratio::<T>(1, 10_000),
        trust_eta0: num::<T>(20),
        trust_eta_min: ratio::<T>(1, 1_000),
        trust_eta_max: num::<T>(100),
        virt_weight: num::<T>(100_000),
    }
}

impl<T: Real> PoweredDescentOptions<T> {
    /// The settings that suit most descents.
    pub fn new() -> (o: Self)
        requires
            real_ops::<T>(),
        ensures
            o == usual_options::<T>(),
    {
        PoweredDescentOptions {
            initial_tau: number(20),
            target_mass: number(700),
            use_free_tf: true,
            use_preconditioning: true,
            use_cone_row_scaling: false,
            use_nt_scaling: false,
            use_hsd: true,
            max_outer_iters: 15,
            max_inner_iters: 25,
            conv_tol_x: fraction(1, 1_000),
            conv_tol_virt: fraction(1, 10_000_000),
            ipm_tol: fraction(1, 10_000),
            trust_eta0: number(20),
            trust_eta_min: fraction(1, 1_000),
            trust_eta_max: number(100),
            virt_weight: number(100_000),
        }
    }
}

/// The state that the first reference ends in.
pub open spec fn target_state<T: Real, P: Plant<T>>(
    plant: &P,
    phys: &PhysicalParams<T>,
    terminal: &TerminalCondition<T>,
    options: &PoweredDescentOptions<T>,
) -> Seq<T> {
    seq![
        terminal.r@[0],
        terminal.r@[1],
        terminal.r@[2],
        terminal.v@[0],
        terminal.v@[1],
        terminal.v@[2],
        log_of(plant, larger(options.target_mass, phys.m_dry)),
    ]
}

/// The thrust that holds the mean mass against gravity.
pub open spec fn hover_thrust<T: Real, P: Plant<T>>(
    plant: &P,
    phys: &PhysicalParams<T>,
    x0: Seq<T>,
    options: &PoweredDescentOptions<T>,
) -> T {
    let mean = times(plus(exp_of(plant, x0[6]), options.target_mass), ratio::<T>(1, 2));
    times(negated(mean), phys.g@[2])
}

/// How far along node `k` of `n` is, from zero to one.
pub open spec fn progress<T: Real>(k: int, n: int) -> T {
    if n > 1 {
        over(num::<T>(k as u32), num::<T>((n - 1) as u32))
    } else {
        num::<T>(0)
    }
}

/// State `i` of node `k` on the straight line from `a` to `b`.
pub open spec fn on_line<T: Real>(a: Seq<T>, b: Seq<T>, n: int, k: int, i: int) -> T {
    let t = progress::<T>(k, n);
    plus(times(minus(num::<T>(1), t), a[i]), times(t, b[i]))
}

/// `t` goes on a straight line from `a` to `b` at constant upward thrust.
pub open spec fn is_straight<T: Real>(
    t: &Trajectory<T>,
    n: int,
    a: Seq<T>,
    b: Seq<T>,
    thrust: T,
    tau: T,
) -> bool {
    let z = num::<T>(0);
    &&& t.x@ == Seq::new(n as nat, |k: int| Seq::new(7, |i: int| on_line(a, b, n, k, i)))
    &&& t.u@ == Seq::new(n as nat, |k: int| seq![z, z, thrust])
    &&& t.sigma@ == Seq::new(n as nat, |k: int| thrust)
    &&& t.tau == tau
}

/// The straight-line reference.
pub fn seed_linear_reference<T: Real, P: Plant<T>>(
    plant: &P,
    n: usize,
    phys: &PhysicalParams<T>,
    initial_state: &Vec<T>,
    terminal: &TerminalCondition<T>,
    options: &PoweredDescentOptions<T>,
) -> (t: Trajectory<T>)
    requires
        real_ops::<T>(),
        functions_repeatable(plant),
        initial_state@.len() == 7,
        n <= u32::MAX,
    ensures
        is_straight(
            &t,
            n as int,
            initial_state@,
            target_state(plant, phys, terminal, options),
            hover_thrust(plant, phys, initial_state@, options),
            options.initial_tau,
        ),
        t.sized(n as int),
{
    let zero: T = number(0);
    let one: T = number(1);
    let half: T = fraction(1, 2);
    let mut target: Vec<T> = Vec::new();
    target.push(terminal.r[0]);
    target.push(terminal.r[1]);
    target.push(terminal.r[2]);
    target.push(terminal.v[0]);
    target.push(terminal.v[1]);
    target.push(terminal.v[2]);
    target.push(log_with(plant, max(options.target_mass, phys.m_dry)));
    let ghost b = target_state(plant, phys, terminal, options);
    assert(target@ =~= b);
    let mean: T = (exp_with(plant, initial_state[6]) + options.target_mass) * half;
    let thrust: T = mean.neg() * phys.g[2];
    let mut xr: Vec<Vec<T>> = Vec::new();
    let mut ur: Vec<Vec<T>> = Vec::new();
    let mut sigma: Vec<T> = Vec::new();
    let ghost a = initial_state@;
    let mut k: usize = 0;
    while k < n
        invariant
            real_ops::<T>(),
            n <= u32::MAX,
            zero == num::<T>(0),
            one == num::<T>(1),
            a == initial_state@,
            a.len() == 7,
            target@ == b,
            b.len() == 7,
            k <= n,
            xr@.len() == k,
            ur@.len() == k,
            sigma@.len() == k,
            forall|q: int|
                0 <= q < k ==> (#[trigger] xr@[q])@ == Seq::new(
                    7,
                    |i: int| on_line(a, b, n as int, q, i),
                ),
            forall|q: int| 0 <= q < k ==> (#[trigger] ur@[q])@ == seq![zero, zero, thrust],
            forall|q: int| 0 <= q < k ==> #[trigger] sigma@[q] == thrust,
        decreases n - k,
    {
        let t: T = if n > 1 {
            let p: T = number(k as u32);
            let d: T = number((n - 1) as u32);
            p / d
        } else {
            zero
        };
        let mut row: Vec<T> = Vec::new();
        let mut i: usize = 0;
        while i < 7
            invariant
                real_ops::<T>(),
                one == num::<T>(1),
                a == initial_state@,
                a.len() == 7,
                target@ == b,
                b.len() == 7,
                t == progress::<T>(k as int, n as int),
                i <= 7,
                row@.len() == i,
                forall|q: int| 0 <= q < i ==> #[trigger] row@[q] == on_line(a, b, n as int, k as int, q),
            decreases 7 - i,
        {
            row.push((one - t) * initial_state[i] + t * target[i]);
            i = i + 1;
        }
        assert(row@ =~= Seq::new(7, |i: int| on_line(a, b, n as int, k as int, i)));
        xr.push(row);
        let mut u: Vec<T> = Vec::new();
        u.push(zero);
        u.push(zero);
        u.push(thrust);
        assert(u@ =~= seq![zero, zero, thrust]);
        ur.push(u);
        sigma.push(thrust);
        k = k + 1;
    }
    let x: Mat<T> = Mat { rows: xr };
    let u: Mat<T> = Mat { rows: ur };
    assert(x@ =~= Seq::new(n as nat, |k: int| Seq::new(7, |i: int| on_line(a, b, n as int, k, i))));
    assert(u@ =~= Seq::new(n as nat, |k: int| seq![zero, zero, thrust]));
    assert(sigma@ =~= Seq::new(n as nat, |k: int| thrust));
    Trajectory { x, u, sigma, tau: options.initial_tau }
}

/// The outer settings: those of the options, the rest from `base`.
pub open spec fn outer_settings<T>(
    options: &PoweredDescentOptions<T>,
    base: ScvxAlgoParams<T>,
) -> ScvxAlgoParams<T> {
    ScvxAlgoParams {
        max_outer_iters: options.max_outer_iters,
        trust_eta0: options.trust_eta0,
        trust_eta_min: options.trust_eta_min,
        trust_eta_max: options.trust_eta_max,
        virt_weight: options.virt_weight,
        conv_tol_x: options.conv_tol_x,
        conv_tol_virt: options.conv_tol_virt,
        use_free_tf: options.use_free_tf,
        ..base
    }
}

/// The inner settings: those of the options, the rest from `base`.
pub open spec fn inner_settings<T>(
    options: &PoweredDescentOptions<T>,
    base: IpmAlgoParams<T>,
) -> IpmAlgoParams<T> {
    IpmAlgoParams {
        max_iters: options.max_inner_iters,
        tol_mu: options.ipm_tol,
        tol_primal: options.ipm_tol,
        tol_dual: options.ipm_tol,
        tol_gap: options.ipm_tol,
        use_preconditioning: options.use_preconditioning,
        use_cone_row_scaling: options.use_cone_row_scaling,
        use_nt_scaling: options.use_nt_scaling,
        use_hsd: options.use_hsd,
        ..base
    }
}

/// The reference of `w1` is the straight line, all else is as in `w0`.
pub open spec fn seeded_with_line<T: Real, P: Plant<T>>(
    plant: &P,
    phys: &PhysicalParams<T>,
    x0: Seq<T>,
    terminal: &TerminalCondition<T>,
    options: &PoweredDescentOptions<T>,
    w0: ScvxWorkspace<T>,
    w1: ScvxWorkspace<T>,
) -> bool {
    &&& w1 == (ScvxWorkspace { reference: w1.reference, ..w0 })
    &&& is_straight(
        &w1.reference,
        w0.dims.n as int,
        x0,
        target_state(plant, phys, terminal, options),
        hover_thrust(plant, phys, x0, options),
        options.initial_tau,
    )
}

/// Solves a powered descent: seeds the workspace with the straight-line reference
/// and runs the loop. Settings that the options do not name come from `algo_base`
/// and `ipm_base`. A workspace of the wrong sizes is refused and left as it was.
pub fn solve_powered_descent<T: Real, P: Plant<T>>(
    limits: Limits<T>,
    hard_max_iters: u32,
    plant: &P,
    workspace: &mut ScvxWorkspace<T>,
    phys: &PhysicalParams<T>,
    initial_state: &Vec<T>,
    terminal: &TerminalCondition<T>,
    options: &PoweredDescentOptions<T>,
    algo_base: &ScvxAlgoParams<T>,
    ipm_base: &IpmAlgoParams<T>,
) -> (status: SolverStatus)
    requires
        real_ops::<T>(),
        cones_repeatable(plant),
        well_shaped(plant),
        initial_state@.len() == 7,
        30 * old(workspace).dims.n + 30 <= u32::MAX,
        well_sized(old(workspace)),
    ensures
        !dims_match(old(workspace).dims, options.use_free_tf) ==> status == SolverStatus::BadInput
            && *final(workspace) == *old(workspace),
        dims_match(old(workspace).dims, options.use_free_tf) ==> exists|w: ScvxWorkspace<T>|
            {
                &&& #[trigger] seeded_with_line(
                    plant,
                    phys,
                    initial_state@,
                    terminal,
                    options,
                    *old(workspace),
                    w,
                )
                &&& outcome(
                    (Task {
                        limits,
                        hard_max_iters,
                        plant,
                        phys,
                        algo: &outer_settings(options, *algo_base),
                        ipm: &inner_settings(options, *ipm_base),
                        initial_state,
                        terminal,
                    }),
                    w,
                    *final(workspace),
                    status,
                )
            },
        status != SolverStatus::BadInput ==> final(workspace).iter < options.max_outer_iters,
        status != SolverStatus::BadInput && !options.use_free_tf ==> options.initial_tau
            == final(workspace).reference.tau,
        status != SolverStatus::BadInput ==> stays_within(
            plant,
            options.trust_eta_min,
            options.trust_eta_max,
            options.use_free_tf,
            phys.tau_lo,
            phys.tau_hi,
            final(workspace),
        ) && spends_at_most(plant, options.max_inner_iters, hard_max_iters, final(workspace)),
        status == SolverStatus::Converged ==> settled_at(
            plant,
            options.conv_tol_x,
            options.conv_tol_virt,
            final(workspace),
        ),
        status == SolverStatus::Converged && field(units::<T>()) && inner_solves_exact(
            (Task {
                limits,
                hard_max_iters,
                plant,
                phys,
                algo: &outer_settings(options, *algo_base),
                ipm: &inner_settings(options, *ipm_base),
                initial_state,
                terminal,
            }),
        ) ==> joins(
            &final(workspace).reference,
            old(workspace).dims.n as int,
            initial_state@,
            terminal,
        ),
{
    let d: Dims = workspace.dims;
    let free: bool = options.use_free_tf;
    if d.np != workspace_np(d.n, free) || d.ne != workspace_ne(d.n) || d.nct != workspace_nct(
        d.n,
        free,
    ) || d.ncones != workspace_ncones(d.n, free) {
        return SolverStatus::BadInput;
    }
    workspace.reference = seed_linear_reference(
        plant,
        d.n,
        phys,
        initial_state,
        terminal,
        options,
    );
    let ghost w = *workspace;
    assert(seeded_with_line(plant, phys, initial_state@, terminal, options, *old(workspace), w));
    let algo: ScvxAlgoParams<T> = ScvxAlgoParams {
        max_outer_iters: options.max_outer_iters,
        trust_eta0: options.trust_eta0,
        trust_eta_min: options.trust_eta_min,
        trust_eta_max: options.trust_eta_max,
        virt_weight: options.virt_weight,
        conv_tol_x: options.conv_tol_x,
        conv_tol_virt: options.conv_tol_virt,
        use_free_tf: options.use_free_tf,
        ..*algo_base
    };
    let ipm: IpmAlgoParams<T> = IpmAlgoParams {
        max_iters: options.max_inner_iters,
        tol_mu: options.ipm_tol,
        tol_primal: options.ipm_tol,
        tol_dual: options.ipm_tol,
        tol_gap: options.ipm_tol,
        use_preconditioning: options.use_preconditioning,
        use_cone_row_scaling: options.use_cone_row_scaling,
        use_nt_scaling: options.use_nt_scaling,
        use_hsd: options.use_hsd,
        ..*ipm_base
    };
    solve_scvx(
        limits,
        hard_max_iters,
        plant,
        workspace,
        phys,
        &algo,
        &ipm,
        initial_state,
        terminal,
    )
}

/// In exact arithmetic the straight-line reference joins the initial state to the
/// target state, and moves by equal steps in between.
pub proof fn law_line_joins_its_ends<T: Real>(a: Seq<T>, b: Seq<T>, n: int, i: int)
    requires
        field(units::<T>()),
        2 <= n <= u32::MAX,
        num::<T>((n - 1) as u32) != num::<T>(0),
    ensures
        on_line(a, b, n, 0, i) == a[i],
        on_line(a, b, n, n - 1, i) == b[i],
        forall|k: int|
            0 <= k < n ==> #[trigger] on_line(a, b, n, k, i) == plus(
                a[i],
                times(progress::<T>(k, n), minus(b[i], a[i])),
            ),
{
    let u = units::<T>();
    let m = num::<T>((n - 1) as u32);
    let one = num::<T>(1);
    let zero = num::<T>(0);
    assert forall|k: int| 0 <= k < n implies #[trigger] on_line(a, b, n, k, i) == plus(
        a[i],
        times(progress::<T>(k, n), minus(b[i], a[i])),
    ) by {
        let t = progress::<T>(k, n);
        let ta = times(t, a[i]);
        let tb = times(t, b[i]);
        // (1 - t) a == a - t a
        lemma_mul_comm(u, minus(one, t), a[i]);
        lemma_mul_sub(u, a[i], one, t);
        lemma_mul_one(u, a[i]);
        lemma_mul_comm(u, a[i], t);
        // (a - t a) + t b == a + (t b - t a)
        lemma_sub_def(u, a[i], ta);
        lemma_add_assoc(u, a[i], negated(ta), tb);
        lemma_add_comm(u, negated(ta), tb);
        lemma_sub_def(u, tb, ta);
        lemma_mul_sub(u, t, b[i], a[i]);
    }
    lemma_mul_zero(u, m);
    lemma_mul_div(u, zero, m);
    lemma_mul_zero(u, minus(b[i], a[i]));
    lemma_add_zero(u, a[i]);
    lemma_mul_one(u, m);
    lemma_mul_div(u, one, m);
    lemma_mul_one(u, minus(b[i], a[i]));
    lemma_sub_facts(u, b[i], a[i]);
    lemma_add_comm(u, a[i], minus(b[i], a[i]));
    assert(on_line(a, b, n, 0, i) == plus(a[i], times(progress::<T>(0, n), minus(b[i], a[i]))));
    assert(on_line(a, b, n, n - 1, i) == plus(
        a[i],
        times(progress::<T>(n - 1, n), minus(b[i], a[i])),
    ));
}

} // verus!
