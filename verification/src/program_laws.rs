//! What the assembled cone programs ask for, in exact arithmetic: where a trajectory has
//! to start and end, which transitions it has to follow, which constraint each cone
//! stands for, and what is minimized.
use crate::algebra::{
    field, lemma_add_assoc, lemma_add_comm, lemma_add_neg, lemma_add_zero, lemma_distrib,
    lemma_dot_zero, lemma_mul_one, lemma_sub_def, lemma_sub_facts,
};
use crate::assemble::{
    cone_dim, cone_first_row, cone_rhs_spec, cone_row_spec, dtau_column, dynamics_row_spec,
    equality_rhs, equality_row, is_lcvx_socp, is_scvx_socp, scvx_cone_dim, scvx_cone_offset,
    scvx_cone_rhs, scvx_cone_row,
};
use crate::assembly_laws::{
    law_bound_slacks_mean_time_limits, law_equality_rows_mean_constraints, lemma_dot_neg,
    lemma_slack_from, lemma_unit_row_dot, slack_from, transition_defect,
};
use crate::dense_laws::{lemma_dot_only, lemma_dot_split};
use crate::layout::spec_np;
use crate::linalg::{dot, dot_upto, mat_vec, shaped};
use crate::scalar::{minus, negated, plus, times, Scalar, Units};
use crate::types::{LinearizedDynamics, PhysicalParams, SocpProblem, TerminalCondition, Trajectory};
use vstd::prelude::*;

verus! {

// ---- what a flat vector of unknowns says ----

/// The first node's state is `initial`.
pub open spec fn starts_at<T>(x: Seq<T>, initial: Seq<T>) -> bool {
    forall|i: int| 0 <= i < 7 ==> #[trigger] x[i] == initial[i]
}

/// The last of `n` nodes, each of `width` unknowns, is at the target's position with the
/// target's velocity.
pub open spec fn ends_at<T>(
    x: Seq<T>,
    width: int,
    n: int,
    target: &TerminalCondition<T>,
) -> bool {
    let b = width * (n - 1);
    &&& x[b] == target.r@[0] && x[b + 1] == target.r@[1] && x[b + 2] == target.r@[2]
    &&& x[b + 3] == target.v@[0] && x[b + 4] == target.v@[1] && x[b + 5] == target.v@[2]
}

/// What the linearization makes of state `i` after node `k` in the time of flight `tau`,
/// from the states and controls of the node and the controls of the next.
pub open spec fn predicted_state<T: Scalar>(
    z: T,
    lin: &LinearizedDynamics<T>,
    x: Seq<T>,
    width: int,
    tau: T,
    k: int,
    i: int,
) -> T {
    let b = width * k;
    let e = width * (k + 1);
    plus(
        plus(
            plus(
                plus(lin.c@[k]@[i], times(lin.s@[k]@[i], tau)),
                dot(z, lin.b_plus@[k]@[i], x.subrange(e + 7, e + 10)),
            ),
            dot(z, lin.b_minus@[k]@[i], x.subrange(b + 7, b + 10)),
        ),
        dot(z, lin.a@[k]@[i], x.subrange(b, b + 7)),
    )
}

/// Every transition is the linearization's, up to the node's virtual control.
pub open spec fn flies_with_virtual_control<T: Scalar>(
    z: T,
    lin: &LinearizedDynamics<T>,
    x: Seq<T>,
    n: int,
    tau: T,
) -> bool {
    forall|k: int, i: int|
        0 <= k < n - 1 && 0 <= i < 7 ==> x[19 * (k + 1) + i] == plus(
            #[trigger] predicted_state(z, lin, x, 19, tau, k, i),
            x[19 * k + 11 + i],
        )
}

/// Every transition is the linearization's.
pub open spec fn flies<T: Scalar>(
    z: T,
    lin: &LinearizedDynamics<T>,
    x: Seq<T>,
    width: int,
    n: int,
    tau: T,
) -> bool {
    forall|k: int, i: int|
        0 <= k < n - 1 && 0 <= i < 7 ==> x[width * (k + 1) + i] == #[trigger] predicted_state(
            z,
            lin,
            x,
            width,
            tau,
            k,
            i,
        )
}

/// The slacks of cone `c` at `x`.
pub open spec fn slacks_of<T: Scalar>(
    z: T,
    prob: &SocpProblem<T>,
    x: Seq<T>,
    c: int,
) -> Seq<T> {
    let at = prob.cones@[c].offset as int;
    Seq::new(
        prob.cones@[c].dim as nat,
        |i: int| minus(prob.h@[at + i], dot(z, prob.g_mat@[at + i], x)),
    )
}

/// What a node's cone number `j` bounds, for the node `k` whose unknowns start at `b`:
/// thrust by its magnitude, the tilt, the mass from below, the glide slope, the magnitude
/// from below and above, the step by the trust radius, and virtual control by its bound.
pub open spec fn node_slacks<T: Scalar>(
    reference: &Trajectory<T>,
    phys: &PhysicalParams<T>,
    log_m_dry: T,
    trust_eta: T,
    x: Seq<T>,
    b: int,
    k: int,
    j: int,
) -> Seq<T> {
    if j == 0 {
        seq![x[b + 10], x[b + 7], x[b + 8], x[b + 9]]
    } else if j == 1 {
        seq![minus(x[b + 9], times(phys.cos_theta_max, x[b + 10]))]
    } else if j == 2 {
        seq![minus(x[b + 6], log_m_dry)]
    } else if j == 3 {
        seq![times(phys.tan_gamma_gs, x[b + 2]), x[b], x[b + 1]]
    } else if j == 4 {
        seq![minus(x[b + 10], phys.t_min)]
    } else if j == 5 {
        seq![minus(phys.t_max, x[b + 10])]
    } else if j == 6 {
        seq![trust_eta] + Seq::new(7, |i: int| minus(x[b + i], reference.x@[k][i])) + Seq::new(
            3,
            |i: int| minus(x[b + 7 + i], reference.u@[k][i]),
        )
    } else {
        seq![x[b + 18]] + Seq::new(7, |i: int| x[b + 11 + i])
    }
}

/// The sum of the nodes' thrust magnitudes, plus `weight` times that of the bounds on
/// virtual control.
pub open spec fn penalized_thrust<T: Scalar>(z: T, weight: T, x: Seq<T>, n: nat) -> T
    decreases n,
{
    if n == 0 {
        z
    } else {
        let b = 19 * (n - 1);
        plus(
            penalized_thrust(z, weight, x, (n - 1) as nat),
            plus(x[b + 10], times(weight, x[b + 18])),
        )
    }
}

/// The sum of the nodes' thrust magnitudes.
pub open spec fn total_thrust<T: Scalar>(z: T, x: Seq<T>, width: int, n: nat) -> T
    decreases n,
{
    if n == 0 {
        z
    } else {
        plus(total_thrust(z, x, width, (n - 1) as nat), x[width * (n - 1) + 10])
    }
}

// ---- rows ----

/// `y - a == b` exactly where `y == b + a`.
proof fn lemma_moved_over<T: Scalar>(u: Units<T>, y: T, a: T, b: T)
    requires
        field(u),
    ensures
        minus(y, a) == b <==> y == plus(b, a),
{
    lemma_sub_facts(u, y, a);
    lemma_sub_facts(u, plus(b, a), a);
    lemma_sub_def(u, y, a);
    lemma_add_assoc(u, y, negated(a), a);
    lemma_add_comm(u, negated(a), a);
    lemma_add_neg(u, a);
    lemma_add_zero(u, y);
    lemma_sub_def(u, plus(b, a), a);
    lemma_add_assoc(u, b, a, negated(a));
    lemma_add_zero(u, b);
}

/// `(p + q) + r == (p + r) + q`.
proof fn lemma_last_two<T: Scalar>(u: Units<T>, p: T, q: T, r: T)
    requires
        field(u),
    ensures
        plus(plus(p, q), r) == plus(plus(p, r), q),
{
    lemma_add_assoc(u, p, q, r);
    lemma_add_comm(u, q, r);
    lemma_add_assoc(u, p, r, q);
}

/// A transition's defect is what is left exactly where the state is the prediction.
proof fn lemma_defect_closed<T: Scalar>(u: Units<T>, y: T, a: T, m: T, p: T, nu: T, q: T)
    requires
        field(u),
    ensures
        minus(minus(minus(minus(y, a), m), p), nu) == q <==> y == plus(
            plus(plus(plus(q, p), m), a),
            nu,
        ),
        minus(minus(minus(y, a), m), p) == q <==> y == plus(plus(plus(q, p), m), a),
{
    let d3 = minus(minus(minus(y, a), m), p);
    lemma_moved_over(u, d3, nu, q);
    let qn = plus(q, nu);
    lemma_moved_over(u, minus(minus(y, a), m), p, qn);
    lemma_moved_over(u, minus(y, a), m, plus(qn, p));
    lemma_moved_over(u, y, a, plus(plus(qn, p), m));
    lemma_last_two(u, q, nu, p);
    lemma_last_two(u, plus(q, p), nu, m);
    lemma_last_two(u, plus(plus(q, p), m), nu, a);
    lemma_moved_over(u, minus(minus(y, a), m), p, q);
    lemma_moved_over(u, minus(y, a), m, plus(q, p));
    lemma_moved_over(u, y, a, plus(plus(q, p), m));
}

/// Equality row `r` of a program with virtual control holds exactly where what it stands
/// for does.
proof fn lemma_scvx_row<T: Scalar>(
    u: Units<T>,
    lin: &LinearizedDynamics<T>,
    initial_state: Seq<T>,
    terminal: &TerminalCondition<T>,
    tau: T,
    free_tf: bool,
    n: int,
    x: Seq<T>,
    r: int,
)
    requires
        field(u),
        n >= 1,
        lin.covers(n - 1),
        x.len() == spec_np(n, free_tf),
        0 <= r < 7 * n + 6,
    ensures
        ({
            let lhs = dot(
                u.zero,
                equality_row(u, lin, n, spec_np(n, free_tf), 19, true, dtau_column(n, free_tf), r),
                x,
            );
            let rhs = equality_rhs(lin, initial_state, terminal, tau, n, r);
            let k = (r - 7) / 7;
            let i = (r - 7) % 7;
            let end = 19 * (n - 1);
            lhs == rhs <==> if r < 7 {
                x[r] == initial_state[r]
            } else if r < 7 * n {
                x[19 * (k + 1) + i] == plus(
                    predicted_state(
                        u.zero,
                        lin,
                        x,
                        19,
                        if free_tf {
                            plus(tau, x[19 * n])
                        } else {
                            tau
                        },
                        k,
                        i,
                    ),
                    x[19 * k + 11 + i],
                )
            } else if r < 7 * n + 3 {
                x[end + (r - 7 * n)] == terminal.r@[r - 7 * n]
            } else {
                x[end + (r - 7 * n)] == terminal.v@[r - 7 * n - 3]
            }
        }),
{
    let z = u.zero;
    law_equality_rows_mean_constraints(
        u,
        lin,
        initial_state,
        terminal,
        tau,
        free_tf,
        n,
        x,
        r,
    );
    if 7 <= r < 7 * n {
        let k = (r - 7) / 7;
        let i = (r - 7) % 7;
        let b = 19 * k;
        let y = x[b + 19 + i];
        let a = dot(z, lin.a@[k]@[i], x.subrange(b, b + 7));
        let m = dot(z, lin.b_minus@[k]@[i], x.subrange(b + 7, b + 10));
        let p = dot(z, lin.b_plus@[k]@[i], x.subrange(b + 26, b + 29));
        let nu = x[b + 11 + i];
        let c = lin.c@[k]@[i];
        let s = lin.s@[k]@[i];
        let q = plus(c, times(s, tau));
        assert(19 * (k + 1) + 7 == b + 26 && 19 * (k + 1) + 10 == b + 29);
        if free_tf {
            let sd = times(s, x[19 * n]);
            lemma_moved_over(u, transition_defect(z, lin, x, k, i), sd, q);
            lemma_add_assoc(u, c, times(s, tau), sd);
            lemma_distrib(u, s, tau, x[19 * n]);
            assert(plus(q, sd) == plus(c, times(s, plus(tau, x[19 * n]))));
            lemma_defect_closed(u, y, a, m, p, nu, plus(q, sd));
        } else {
            lemma_defect_closed(u, y, a, m, p, nu, q);
        }
    }
}

/// The equality rows of a subproblem hold exactly where the trajectory starts in the
/// initial state, ends at the target, and follows the linearized dynamics in between, up
/// to virtual control, in the time of flight that the unknowns ask for.
pub proof fn law_scvx_equalities<T: Scalar>(
    u: Units<T>,
    reference: &Trajectory<T>,
    lin: &LinearizedDynamics<T>,
    phys: &PhysicalParams<T>,
    log_m_dry: T,
    initial_state: Seq<T>,
    terminal: &TerminalCondition<T>,
    trust_eta: T,
    virt_weight: T,
    free_tf: bool,
    n: int,
    prob: &SocpProblem<T>,
    x: Seq<T>,
)
    requires
        field(u),
        n >= 1,
        lin.covers(n - 1),
        is_scvx_socp(
            u,
            reference,
            lin,
            phys,
            log_m_dry,
            initial_state,
            terminal,
            trust_eta,
            virt_weight,
            free_tf,
            n,
            prob,
        ),
        x.len() == spec_np(n, free_tf),
    ensures
        mat_vec(u.zero, prob.a_mat@, x) == prob.b@ <==> {
            &&& starts_at(x, initial_state)
            &&& ends_at(x, 19, n, terminal)
            &&& flies_with_virtual_control(
                u.zero,
                lin,
                x,
                n,
                if free_tf {
                    plus(reference.tau, x[19 * n])
                } else {
                    reference.tau
                },
            )
        },
{
    let z = u.zero;
    let a = prob.a_mat@;
    let tau = if free_tf {
        plus(reference.tau, x[19 * n])
    } else {
        reference.tau
    };
    let dc = dtau_column(n, free_tf);
    let rowwise = |r: int| dot(z, a[r], x) == prob.b@[r];
    assert forall|r: int| 0 <= r < 7 * n + 6 implies rowwise(r) == (dot(
        z,
        equality_row(u, lin, n, spec_np(n, free_tf), 19, true, dc, r),
        x,
    ) == equality_rhs(lin, initial_state, terminal, reference.tau, n, r)) by {
        assert(a[r] == equality_row(u, lin, n, spec_np(n, free_tf), 19, true, dc, r));
        assert(prob.b@[r] == equality_rhs(lin, initial_state, terminal, reference.tau, n, r));
    }
    if mat_vec(z, a, x) == prob.b@ {
        assert forall|r: int| 0 <= r < 7 * n + 6 implies #[trigger] rowwise(r) by {
            assert(mat_vec(z, a, x)[r] == prob.b@[r]);
        }
        assert forall|i: int| 0 <= i < 7 implies #[trigger] x[i] == initial_state[i] by {
            assert(rowwise(i));
            lemma_scvx_row(u, lin, initial_state, terminal, reference.tau, free_tf, n, x, i);
        }
        assert forall|i: int| 0 <= i < 6 implies #[trigger] x[19 * (n - 1) + i] == (if i < 3 {
            terminal.r@[i]
        } else {
            terminal.v@[i - 3]
        }) by {
            let r = 7 * n + i;
            assert(rowwise(r));
            lemma_scvx_row(u, lin, initial_state, terminal, reference.tau, free_tf, n, x, r);
        }
        let b = 19 * (n - 1);
        assert(x[b + 0] == terminal.r@[0] && x[b + 1] == terminal.r@[1] && x[b + 2]
            == terminal.r@[2] && x[b + 3] == terminal.v@[0] && x[b + 4] == terminal.v@[1] && x[b
            + 5] == terminal.v@[2]);
        assert forall|k: int, i: int| 0 <= k < n - 1 && 0 <= i < 7 implies x[19 * (k + 1) + i]
            == plus(
            #[trigger] predicted_state(z, lin, x, 19, tau, k, i),
            x[19 * k + 11 + i],
        ) by {
            let r = 7 + 7 * k + i;
            assert((r - 7) / 7 == k && (r - 7) % 7 == i);
            assert(rowwise(r));
            lemma_scvx_row(u, lin, initial_state, terminal, reference.tau, free_tf, n, x, r);
        }
    }
    if starts_at(x, initial_state) && ends_at(x, 19, n, terminal) && flies_with_virtual_control(
        z,
        lin,
        x,
        n,
        tau,
    ) {
        assert forall|r: int| 0 <= r < 7 * n + 6 implies mat_vec(z, a, x)[r] == prob.b@[r] by {
            lemma_scvx_row(u, lin, initial_state, terminal, reference.tau, free_tf, n, x, r);
            if r < 7 {
                assert(x[r] == initial_state[r]);
            } else if r < 7 * n {
                let k = (r - 7) / 7;
                let i = (r - 7) % 7;
                assert(x[19 * (k + 1) + i] == plus(
                    predicted_state(z, lin, x, 19, tau, k, i),
                    x[19 * k + 11 + i],
                ));
            }
            assert(rowwise(r));
        }
        assert(mat_vec(z, a, x) =~= prob.b@);
    }
}

/// The slacks of a subproblem's cones are what its constraints bound, and for a free final
/// time the distances of the new time of flight from its bounds.
pub proof fn law_scvx_cones<T: Scalar>(
    u: Units<T>,
    reference: &Trajectory<T>,
    lin: &LinearizedDynamics<T>,
    phys: &PhysicalParams<T>,
    log_m_dry: T,
    initial_state: Seq<T>,
    terminal: &TerminalCondition<T>,
    trust_eta: T,
    virt_weight: T,
    free_tf: bool,
    n: int,
    prob: &SocpProblem<T>,
    x: Seq<T>,
)
    requires
        field(u),
        n >= 1,
        is_scvx_socp(
            u,
            reference,
            lin,
            phys,
            log_m_dry,
            initial_state,
            terminal,
            trust_eta,
            virt_weight,
            free_tf,
            n,
            prob,
        ),
        x.len() == spec_np(n, free_tf),
    ensures
        prob.cones@.len() == 8 * n + (if free_tf {
            2int
        } else {
            0int
        }),
        forall|k: int, j: int|
            #![trigger node_slacks(reference, phys, log_m_dry, trust_eta, x, 19 * k, k, j)]
            0 <= k < n && 0 <= j < 8 ==> slacks_of(u.zero, prob, x, 8 * k + j) == node_slacks(
                reference,
                phys,
                log_m_dry,
                trust_eta,
                x,
                19 * k,
                k,
                j,
            ),
        free_tf ==> {
            let tau = plus(reference.tau, x[19 * n]);
            &&& slacks_of(u.zero, prob, x, 8 * n) == seq![minus(tau, phys.tau_lo)]
            &&& slacks_of(u.zero, prob, x, 8 * n + 1) == seq![minus(phys.tau_hi, tau)]
        },
{
    let z = u.zero;
    let np = spec_np(n, free_tf);
    assert forall|k: int, j: int|
        #![trigger node_slacks(reference, phys, log_m_dry, trust_eta, x, 19 * k, k, j)]
        0 <= k < n && 0 <= j < 8 implies slacks_of(u.zero, prob, x, 8 * k + j) == node_slacks(
        reference,
        phys,
        log_m_dry,
        trust_eta,
        x,
        19 * k,
        k,
        j,
    ) by {
        let c = 8 * k + j;
        assert(c / 8 == k && c % 8 == j);
        let cone = prob.cones@[c];
        assert(cone.offset == scvx_cone_offset(n, c) && cone.dim == scvx_cone_dim(n, c));
        let l = slacks_of(z, prob, x, c);
        let want = node_slacks(reference, phys, log_m_dry, trust_eta, x, 19 * k, k, j);
        assert(l.len() == want.len());
        assert forall|i: int| 0 <= i < l.len() implies l[i] == want[i] by {
            let r = cone.offset + i;
            let q = cone_first_row(j) + i;
            assert(r == 30 * k + q && 0 <= q < 30);
            assert(r / 30 == k && r % 30 == q);
            assert(prob.g_mat@[r] == scvx_cone_row(u, phys, n, np, r));
            assert(prob.h@[r] == scvx_cone_rhs(u, phys, log_m_dry, reference, trust_eta, n, r));
            lemma_slack_from(u, reference, phys, log_m_dry, trust_eta, np, x, 19 * k, k, q);
            assert(l[i] == slack_from(
                reference,
                phys,
                log_m_dry,
                trust_eta,
                x,
                19 * k,
                k,
                q,
            ));
        }
        assert(l =~= want);
    }
    if free_tf {
        law_bound_slacks_mean_time_limits(u, reference, phys, log_m_dry, trust_eta, n, x);
        assert forall|c: int| 8 * n <= c < 8 * n + 2 implies prob.cones@[c].offset == 30 * n + (c
            - 8 * n) && prob.cones@[c].dim == 1 by {
            assert(prob.cones@[c].offset == scvx_cone_offset(n, c) && prob.cones@[c].dim
                == scvx_cone_dim(n, c));
        }
        let tau = plus(reference.tau, x[19 * n]);
        let g = prob.g_mat@;
        assert(g[30 * n] == scvx_cone_row(u, phys, n, np, 30 * n));
        assert(g[30 * n + 1] == scvx_cone_row(u, phys, n, np, 30 * n + 1));
        assert(prob.h@[30 * n] == scvx_cone_rhs(
            u,
            phys,
            log_m_dry,
            reference,
            trust_eta,
            n,
            30 * n,
        ));
        assert(prob.h@[30 * n + 1] == scvx_cone_rhs(
            u,
            phys,
            log_m_dry,
            reference,
            trust_eta,
            n,
            30 * n + 1,
        ));
        assert(prob.cones@[8 * n].offset == 30 * n && prob.cones@[8 * n + 1].offset == 30 * n + 1);
        assert(slacks_of(z, prob, x, 8 * n) =~= seq![minus(tau, phys.tau_lo)]);
        assert(slacks_of(z, prob, x, 8 * n + 1) =~= seq![minus(phys.tau_hi, tau)]);
    }
}

/// An inner product over entries of which only number `at` is not zero.
proof fn lemma_one_term<T: Scalar>(u: Units<T>, a: Seq<T>, b: Seq<T>, n: int, at: int)
    requires
        field(u),
        0 <= at < n,
        n <= a.len(),
        n <= b.len(),
        forall|i: int| 0 <= i < n && i != at ==> #[trigger] a[i] == u.zero,
    ensures
        dot_upto(u.zero, a, b, n as nat) == times(a[at], b[at]),
{
    lemma_dot_only(u, a, b, n, at, 1);
    let a1 = a.subrange(at, at + 1);
    let b1 = b.subrange(at, at + 1);
    assert(dot_upto(u.zero, a1, b1, 1) == plus(dot_upto(u.zero, a1, b1, 0), times(a1[0], b1[0])));
    lemma_add_zero(u, times(a[at], b[at]));
}

proof fn lemma_scvx_cost<T: Scalar>(
    u: Units<T>,
    c: Seq<T>,
    weight: T,
    n: int,
    x: Seq<T>,
    k: nat,
)
    requires
        field(u),
        k <= n,
        19 * n <= c.len(),
        19 * n <= x.len(),
        forall|j: int|
            0 <= j < 19 * n ==> #[trigger] c[j] == (if j % 19 == 10 {
                u.one
            } else if j % 19 == 18 {
                weight
            } else {
                u.zero
            }),
    ensures
        dot_upto(u.zero, c, x, (19 * k) as nat) == penalized_thrust(u.zero, weight, x, k),
    decreases k,
{
    if k > 0 {
        let z = u.zero;
        let b = 19 * (k - 1);
        lemma_scvx_cost(u, c, weight, n, x, (k - 1) as nat);
        lemma_dot_split(u, c, x, b, 19);
        let c1 = c.subrange(b, b + 19);
        let x1 = x.subrange(b, b + 19);
        assert forall|i: int| 0 <= i < 19 implies #[trigger] c1[i] == (if i == 10 {
            u.one
        } else if i == 18 {
            weight
        } else {
            z
        }) by {
            assert((b + i) % 19 == i);
            assert(c[b + i] == c1[i]);
        }
        lemma_dot_split(u, c1, x1, 11, 8);
        lemma_one_term(u, c1, x1, 11, 10);
        lemma_one_term(u, c1.subrange(11, 19), x1.subrange(11, 19), 8, 7);
        lemma_mul_one(u, x[b + 10]);
    }
}

/// A subproblem minimizes the sum of the thrust magnitudes, and the penalty on virtual
/// control.
pub proof fn law_scvx_cost<T: Scalar>(
    u: Units<T>,
    reference: &Trajectory<T>,
    lin: &LinearizedDynamics<T>,
    phys: &PhysicalParams<T>,
    log_m_dry: T,
    initial_state: Seq<T>,
    terminal: &TerminalCondition<T>,
    trust_eta: T,
    virt_weight: T,
    free_tf: bool,
    n: int,
    prob: &SocpProblem<T>,
    x: Seq<T>,
)
    requires
        field(u),
        n >= 1,
        is_scvx_socp(
            u,
            reference,
            lin,
            phys,
            log_m_dry,
            initial_state,
            terminal,
            trust_eta,
            virt_weight,
            free_tf,
            n,
            prob,
        ),
        x.len() == spec_np(n, free_tf),
    ensures
        dot(u.zero, prob.c@, x) == penalized_thrust(u.zero, virt_weight, x, n as nat),
{
    let z = u.zero;
    lemma_scvx_cost(u, prob.c@, virt_weight, n, x, n as nat);
    if free_tf {
        lemma_dot_split(u, prob.c@, x, 19 * n, 1);
        let c1 = prob.c@.subrange(19 * n, 19 * n + 1);
        assert(c1[0] == prob.c@[19 * n]);
        lemma_dot_zero(u, c1, x.subrange(19 * n, 19 * n + 1), 1);
        lemma_add_zero(u, penalized_thrust(z, virt_weight, x, n as nat));
    }
}

// ---- the program without virtual control ----

/// A transition row of the program without virtual control.
proof fn lemma_lcvx_transition<T: Scalar>(
    u: Units<T>,
    lin: &LinearizedDynamics<T>,
    n: int,
    x: Seq<T>,
    k: int,
    i: int,
)
    requires
        field(u),
        x.len() == 11 * n,
        0 <= k < n - 1,
        0 <= i < 7,
        lin.covers(n - 1),
    ensures
        ({
            let z = u.zero;
            let b = 11 * k;
            dot(z, dynamics_row_spec(u, lin, 11 * n, 11, false, None, k, i), x) == minus(
                minus(
                    minus(x[b + 11 + i], dot(z, lin.a@[k]@[i], x.subrange(b, b + 7))),
                    dot(z, lin.b_minus@[k]@[i], x.subrange(b + 7, b + 10)),
                ),
                dot(z, lin.b_plus@[k]@[i], x.subrange(b + 18, b + 21)),
            )
        }),
{
    let z = u.zero;
    let b = 11 * k;
    let row = dynamics_row_spec(u, lin, 11 * n, 11, false, None, k, i);
    assert(shaped(lin.a@[k]@, 7, 7) && shaped(lin.b_minus@[k]@, 7, 3) && shaped(
        lin.b_plus@[k]@,
        7,
        3,
    ));
    let ar = lin.a@[k]@[i];
    let bm = lin.b_minus@[k]@[i];
    let bp = lin.b_plus@[k]@[i];
    assert(ar.len() == 7 && bm.len() == 3 && bp.len() == 3);
    lemma_dot_zero(u, row, x, b as nat);
    // states
    lemma_dot_split(u, row, x, b, 7);
    let xa = x.subrange(b, b + 7);
    lemma_dot_neg(u, ar, row.subrange(b, b + 7), xa, 7);
    let ta = negated(dot(z, ar, xa));
    lemma_add_zero(u, ta);
    // controls
    lemma_dot_split(u, row, x, b + 7, 3);
    let xm = x.subrange(b + 7, b + 10);
    lemma_dot_neg(u, bm, row.subrange(b + 7, b + 10), xm, 3);
    let tm = negated(dot(z, bm, xm));
    // magnitude
    lemma_dot_split(u, row, x, b + 10, 1);
    lemma_dot_zero(u, row.subrange(b + 10, b + 11), x.subrange(b + 10, b + 11), 1);
    lemma_add_zero(u, plus(ta, tm));
    // next states
    lemma_dot_split(u, row, x, b + 11, 7);
    let rx = row.subrange(b + 11, b + 18);
    let xx = x.subrange(b + 11, b + 18);
    lemma_one_term(u, rx, xx, 7, i);
    let next = x[b + 11 + i];
    lemma_mul_one(u, next);
    // next controls
    lemma_dot_split(u, row, x, b + 18, 3);
    let xp = x.subrange(b + 18, b + 21);
    lemma_dot_neg(u, bp, row.subrange(b + 18, b + 21), xp, 3);
    let tp = negated(dot(z, bp, xp));
    // the rest
    let rest = (11 * n - (b + 21)) as nat;
    lemma_dot_split(u, row, x, b + 21, rest);
    lemma_dot_zero(u, row.subrange(b + 21, 11 * n), x.subrange(b + 21, 11 * n), rest);
    let sum = plus(plus(plus(ta, tm), next), tp);
    assert(dot_upto(z, row, x, (b + 21) as nat) == sum);
    lemma_add_zero(u, sum);
    // ((ta + tm) + next) + tp == ((next + ta) + tm) + tp
    lemma_add_comm(u, plus(ta, tm), next);
    lemma_add_assoc(u, next, ta, tm);
    lemma_sub_def(u, next, dot(z, ar, xa));
    lemma_sub_def(u, plus(next, ta), dot(z, bm, xm));
    lemma_sub_def(u, plus(plus(next, ta), tm), dot(z, bp, xp));
}

/// Equality row `r` of the program without virtual control holds exactly where what it
/// stands for does.
proof fn lemma_lcvx_row<T: Scalar>(
    u: Units<T>,
    lin: &LinearizedDynamics<T>,
    initial_state: Seq<T>,
    terminal: &TerminalCondition<T>,
    tau: T,
    n: int,
    x: Seq<T>,
    r: int,
)
    requires
        field(u),
        n >= 1,
        lin.covers(n - 1),
        x.len() == 11 * n,
        0 <= r < 7 * n + 6,
    ensures
        ({
            let lhs = dot(u.zero, equality_row(u, lin, n, 11 * n, 11, false, None, r), x);
            let rhs = equality_rhs(lin, initial_state, terminal, tau, n, r);
            let k = (r - 7) / 7;
            let i = (r - 7) % 7;
            let end = 11 * (n - 1);
            lhs == rhs <==> if r < 7 {
                x[r] == initial_state[r]
            } else if r < 7 * n {
                x[11 * (k + 1) + i] == predicted_state(u.zero, lin, x, 11, tau, k, i)
            } else if r < 7 * n + 3 {
                x[end + (r - 7 * n)] == terminal.r@[r - 7 * n]
            } else {
                x[end + (r - 7 * n)] == terminal.v@[r - 7 * n - 3]
            }
        }),
{
    let z = u.zero;
    if r < 7 {
        lemma_unit_row_dot(u, 11 * n, r, u.one, x);
        lemma_mul_one(u, x[r]);
    } else if r < 7 * n {
        let k = (r - 7) / 7;
        let i = (r - 7) % 7;
        let b = 11 * k;
        lemma_lcvx_transition(u, lin, n, x, k, i);
        let a = dot(z, lin.a@[k]@[i], x.subrange(b, b + 7));
        let m = dot(z, lin.b_minus@[k]@[i], x.subrange(b + 7, b + 10));
        let p = dot(z, lin.b_plus@[k]@[i], x.subrange(b + 18, b + 21));
        let q = plus(lin.c@[k]@[i], times(lin.s@[k]@[i], tau));
        assert(11 * (k + 1) + 7 == b + 18 && 11 * (k + 1) + 10 == b + 21);
        lemma_defect_closed(u, x[b + 11 + i], a, m, p, z, q);
    } else {
        let col = 11 * (n - 1) + (r - 7 * n);
        lemma_unit_row_dot(u, 11 * n, col, u.one, x);
        lemma_mul_one(u, x[col]);
    }
}

/// The equality rows of the program without virtual control hold exactly where the
/// trajectory starts in the initial state, ends at the target, and follows the linearized
/// dynamics in between, in the reference's time of flight.
pub proof fn law_lcvx_equalities<T: Scalar>(
    u: Units<T>,
    reference: &Trajectory<T>,
    lin: &LinearizedDynamics<T>,
    phys: &PhysicalParams<T>,
    log_m_dry: T,
    initial_state: Seq<T>,
    terminal: &TerminalCondition<T>,
    n: int,
    prob: &SocpProblem<T>,
    x: Seq<T>,
)
    requires
        field(u),
        n >= 1,
        lin.covers(n - 1),
        is_lcvx_socp(
            u,
            reference,
            lin,
            phys,
            log_m_dry,
            initial_state,
            terminal,
            n,
            prob,
        ),
        x.len() == 11 * n,
    ensures
        mat_vec(u.zero, prob.a_mat@, x) == prob.b@ <==> {
            &&& starts_at(x, initial_state)
            &&& ends_at(x, 11, n, terminal)
            &&& flies(u.zero, lin, x, 11, n, reference.tau)
        },
{
    let z = u.zero;
    let a = prob.a_mat@;
    let tau = reference.tau;
    let rowwise = |r: int| dot(z, a[r], x) == prob.b@[r];
    assert forall|r: int| 0 <= r < 7 * n + 6 implies rowwise(r) == (dot(
        z,
        equality_row(u, lin, n, 11 * n, 11, false, None, r),
        x,
    ) == equality_rhs(lin, initial_state, terminal, tau, n, r)) by {
        assert(a[r] == equality_row(u, lin, n, 11 * n, 11, false, None, r));
        assert(prob.b@[r] == equality_rhs(lin, initial_state, terminal, tau, n, r));
    }
    if mat_vec(z, a, x) == prob.b@ {
        assert forall|r: int| 0 <= r < 7 * n + 6 implies #[trigger] rowwise(r) by {
            assert(mat_vec(z, a, x)[r] == prob.b@[r]);
        }
        assert forall|i: int| 0 <= i < 7 implies #[trigger] x[i] == initial_state[i] by {
            assert(rowwise(i));
            lemma_lcvx_row(u, lin, initial_state, terminal, tau, n, x, i);
        }
        assert forall|i: int| 0 <= i < 6 implies #[trigger] x[11 * (n - 1) + i] == (if i < 3 {
            terminal.r@[i]
        } else {
            terminal.v@[i - 3]
        }) by {
            let r = 7 * n + i;
            assert(rowwise(r));
            lemma_lcvx_row(u, lin, initial_state, terminal, tau, n, x, r);
        }
        let b = 11 * (n - 1);
        assert(x[b + 0] == terminal.r@[0] && x[b + 1] == terminal.r@[1] && x[b + 2]
            == terminal.r@[2] && x[b + 3] == terminal.v@[0] && x[b + 4] == terminal.v@[1] && x[b
            + 5] == terminal.v@[2]);
        assert forall|k: int, i: int| 0 <= k < n - 1 && 0 <= i < 7 implies x[11 * (k + 1) + i]
            == #[trigger] predicted_state(z, lin, x, 11, tau, k, i) by {
            let r = 7 + 7 * k + i;
            assert((r - 7) / 7 == k && (r - 7) % 7 == i);
            assert(rowwise(r));
            lemma_lcvx_row(u, lin, initial_state, terminal, tau, n, x, r);
        }
    }
    if starts_at(x, initial_state) && ends_at(x, 11, n, terminal) && flies(z, lin, x, 11, n, tau) {
        assert forall|r: int| 0 <= r < 7 * n + 6 implies mat_vec(z, a, x)[r] == prob.b@[r] by {
            lemma_lcvx_row(u, lin, initial_state, terminal, tau, n, x, r);
            if r < 7 {
                assert(x[r] == initial_state[r]);
            } else if r < 7 * n {
                let k = (r - 7) / 7;
                let i = (r - 7) % 7;
                assert(x[11 * (k + 1) + i] == predicted_state(z, lin, x, 11, tau, k, i));
            }
            assert(rowwise(r));
        }
        assert(mat_vec(z, a, x) =~= prob.b@);
    }
}

/// The slacks of the cones of the program without virtual control are what its
/// constraints bound: the first six of a node's.
pub proof fn law_lcvx_cones<T: Scalar>(
    u: Units<T>,
    reference: &Trajectory<T>,
    lin: &LinearizedDynamics<T>,
    phys: &PhysicalParams<T>,
    log_m_dry: T,
    initial_state: Seq<T>,
    terminal: &TerminalCondition<T>,
    n: int,
    prob: &SocpProblem<T>,
    x: Seq<T>,
)
    requires
        field(u),
        n >= 1,
        is_lcvx_socp(
            u,
            reference,
            lin,
            phys,
            log_m_dry,
            initial_state,
            terminal,
            n,
            prob,
        ),
        x.len() == 11 * n,
    ensures
        prob.cones@.len() == 6 * n,
        forall|k: int, j: int|
            #![trigger node_slacks(reference, phys, log_m_dry, u.zero, x, 11 * k, k, j)]
            0 <= k < n && 0 <= j < 6 ==> slacks_of(u.zero, prob, x, 6 * k + j) == node_slacks(
                reference,
                phys,
                log_m_dry,
                u.zero,
                x,
                11 * k,
                k,
                j,
            ),
{
    let z = u.zero;
    assert forall|k: int, j: int|
        #![trigger node_slacks(reference, phys, log_m_dry, u.zero, x, 11 * k, k, j)]
        0 <= k < n && 0 <= j < 6 implies slacks_of(u.zero, prob, x, 6 * k + j) == node_slacks(
        reference,
        phys,
        log_m_dry,
        u.zero,
        x,
        11 * k,
        k,
        j,
    ) by {
        let c = 6 * k + j;
        assert(c / 6 == k && c % 6 == j);
        let cone = prob.cones@[c];
        assert(cone.offset == 11 * k + cone_first_row(j) && cone.dim == cone_dim(j));
        let l = slacks_of(z, prob, x, c);
        let want = node_slacks(reference, phys, log_m_dry, z, x, 11 * k, k, j);
        assert(l.len() == want.len());
        assert forall|i: int| 0 <= i < l.len() implies l[i] == want[i] by {
            let r = cone.offset + i;
            let q = cone_first_row(j) + i;
            assert(r == 11 * k + q && 0 <= q < 11);
            assert(r / 11 == k && r % 11 == q);
            assert(prob.g_mat@[r] == cone_row_spec(u, phys, 11 * n, 11 * k, q));
            assert(prob.h@[r] == cone_rhs_spec(u, phys, log_m_dry, reference, z, k, q));
            lemma_slack_from(u, reference, phys, log_m_dry, z, 11 * n, x, 11 * k, k, q);
            assert(l[i] == slack_from(reference, phys, log_m_dry, z, x, 11 * k, k, q));
        }
        assert(l =~= want);
    }
}

proof fn lemma_lcvx_cost<T: Scalar>(u: Units<T>, c: Seq<T>, n: int, x: Seq<T>, k: nat)
    requires
        field(u),
        k <= n,
        11 * n <= c.len(),
        11 * n <= x.len(),
        forall|j: int|
            0 <= j < 11 * n ==> #[trigger] c[j] == (if j % 11 == 10 {
                u.one
            } else {
                u.zero
            }),
    ensures
        dot_upto(u.zero, c, x, (11 * k) as nat) == total_thrust(u.zero, x, 11, k),
    decreases k,
{
    if k > 0 {
        let b = 11 * (k - 1);
        lemma_lcvx_cost(u, c, n, x, (k - 1) as nat);
        lemma_dot_split(u, c, x, b, 11);
        let c1 = c.subrange(b, b + 11);
        let x1 = x.subrange(b, b + 11);
        assert forall|i: int| 0 <= i < 11 implies #[trigger] c1[i] == (if i == 10 {
            u.one
        } else {
            u.zero
        }) by {
            assert((b + i) % 11 == i);
            assert(c[b + i] == c1[i]);
        }
        lemma_one_term(u, c1, x1, 11, 10);
        lemma_mul_one(u, x[b + 10]);
    }
}

/// The program without virtual control minimizes the sum of the thrust magnitudes.
pub proof fn law_lcvx_cost<T: Scalar>(
    u: Units<T>,
    reference: &Trajectory<T>,
    lin: &LinearizedDynamics<T>,
    phys: &PhysicalParams<T>,
    log_m_dry: T,
    initial_state: Seq<T>,
    terminal: &TerminalCondition<T>,
    n: int,
    prob: &SocpProblem<T>,
    x: Seq<T>,
)
    requires
        field(u),
        n >= 1,
        is_lcvx_socp(
            u,
            reference,
            lin,
            phys,
            log_m_dry,
            initial_state,
            terminal,
            n,
            prob,
        ),
        x.len() == 11 * n,
    ensures
        dot(u.zero, prob.c@, x) == total_thrust(u.zero, x, 11, n as nat),
{
    lemma_lcvx_cost(u, prob.c@, n, x, n as nat);
}

} // verus!
