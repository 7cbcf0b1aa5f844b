//! What the assembled cone program says: which nodes its rows touch, what its
//! equality rows equate and what its slacks are.
use crate::algebra::{
    field, lemma_add_assoc, lemma_add_comm, lemma_add_zero, lemma_dot_zero, lemma_mul_one,
    lemma_neg_add, lemma_neg_mul, lemma_neg_neg, lemma_neg_zero, lemma_sub_def, lemma_sub_facts,
};
use crate::assemble::{
    cone_dim, cone_first_row, cone_rhs_spec, cone_row_spec, dtau_column, dynamics_row_spec, equality_rhs,
    equality_row, is_scvx_socp, scvx_cone_dim, scvx_cone_offset, scvx_cone_rhs, scvx_cone_row,
    unit_row,
};
use crate::dense_laws::{
    cones_end, cones_local, increment_local, lemma_dot_only, lemma_dot_split, rows_local, tiled,
};
use crate::layout::{spec_ncones, spec_nct, spec_np};
use crate::linalg::{dot, dot_upto, shaped};
use crate::reduced_kkt_free_tf::cone_only_in_column;
use crate::scalar::{minus, negated, plus, same, times, Scalar, Units};
use crate::stage_blocks::{cone_in_stage, cone_touches, rb_touches, MAX_CONE_DIM};
use crate::types::{LinearizedDynamics, PhysicalParams, SocpProblem, TerminalCondition, Trajectory};
use vstd::prelude::*;

verus! {

/// The type's equality tells one and minus one from zero.
pub open spec fn units_distinct<T: Scalar>(u: Units<T>) -> bool {
    &&& same(u.zero, u.zero)
    &&& !same(u.one, u.zero)
    &&& !same(negated(u.one), u.zero)
}

/// Node `k`'s cone rows vanish outside the node's columns.
proof fn lemma_cone_row_local<T: Scalar>(
    u: Units<T>,
    phys: &PhysicalParams<T>,
    np: int,
    k: int,
    r: int,
    j: int,
)
    requires
        0 <= k,
        19 * k + 19 <= np,
        0 <= r < 30,
        0 <= j < np,
        j / 19 != k,
    ensures
        cone_row_spec(u, phys, np, 19 * k, r)[j] == u.zero,
{
}

/// Some row of a node's cone number `c` has a unit entry in the node's columns.
proof fn lemma_cone_row_touches<T: Scalar>(
    u: Units<T>,
    phys: &PhysicalParams<T>,
    np: int,
    k: int,
    c: int,
) -> (at: (int, int))
    requires
        0 <= k,
        19 * k + 19 <= np,
        0 <= c < 8,
    ensures
        cone_first_row(c) <= at.0 < cone_first_row(c) + cone_dim(c),
        0 <= at.1 < 19,
        ({
            let v = cone_row_spec(u, phys, np, 19 * k, at.0)[19 * k + at.1];
            v == u.one || v == negated(u.one)
        }),
{
    if c == 0 {
        (0, 10)
    } else if c == 1 {
        (4, 9)
    } else if c == 2 {
        (5, 6)
    } else if c == 3 {
        (7, 0)
    } else if c == 4 {
        (9, 10)
    } else if c == 5 {
        (10, 10)
    } else if c == 6 {
        (12, 0)
    } else {
        (22, 18)
    }
}

/// Every cone of an assembled program belongs to one place: node `c / 8` for the
/// nodes' cones, the time increment for the bounds on it.
pub proof fn law_cones_belong_to_nodes<T: Scalar>(
    u: Units<T>,
    reference: &Trajectory<T>,
    lin: &LinearizedDynamics<T>,
    phys: &PhysicalParams<T>,
    log_m_dry: T,
    initial_state: Seq<T>,
    terminal: &TerminalCondition<T>,
    trust_eta: T,
    virt_weight: T,
    free_tf: bool,
    n: int,
    prob: &SocpProblem<T>,
    c: int,
)
    requires
        units_distinct(u),
        n >= 1,
        is_scvx_socp(
            u,
            reference,
            lin,
            phys,
            log_m_dry,
            initial_state,
            terminal,
            trust_eta,
            virt_weight,
            free_tf,
            n,
            prob,
        ),
        0 <= c < spec_ncones(n, free_tf),
    ensures
        prob.cones@[c].dim <= MAX_CONE_DIM,
        c < 8 * n ==> cone_in_stage(
            u.zero,
            prob.g_mat@,
            spec_np(n, free_tf),
            prob.cones@[c],
            c / 8,
        ),
        c >= 8 * n ==> cone_only_in_column(
            u.zero,
            prob.g_mat@,
            spec_np(n, free_tf),
            prob.cones@[c],
            19 * n,
        ),
{
    let np = spec_np(n, free_tf);
    let g = prob.g_mat@;
    let cone = prob.cones@[c];
    let z = u.zero;
    assert(cone.offset == scvx_cone_offset(n, c) && cone.dim == scvx_cone_dim(n, c));
    if c < 8 * n {
        let k = c / 8;
        let b = c % 8;
        assert forall|col: int| 0 <= col < np && #[trigger] cone_touches(
            z,
            g,
            cone,
            col,
        ) implies col / 19 == k by {
            let i = choose|i: int| 0 <= i < cone.dim && !same(#[trigger] g[cone.offset + i][col], z);
            let row = cone.offset + i;
            assert(row / 30 == k && row % 30 == cone_first_row(b) + i);
            assert(g[row] == scvx_cone_row(u, phys, n, np, row));
            if col / 19 != k {
                lemma_cone_row_local(u, phys, np, k, row % 30, col);
            }
        }
        let at = lemma_cone_row_touches(u, phys, np, k, b);
        let i = at.0 - cone_first_row(b);
        let row = cone.offset + i;
        assert(row / 30 == k && row % 30 == at.0);
        assert(g[row] == scvx_cone_row(u, phys, n, np, row));
        assert(!same(g[cone.offset + i][19 * k + at.1], z));
        assert(cone_touches(z, g, cone, 19 * k + at.1));
    } else {
        let row = cone.offset as int;
        assert(g[row] == scvx_cone_row(u, phys, n, np, row));
        assert(!same(g[cone.offset + 0][19 * n], z));
        assert(cone_touches(z, g, cone, 19 * n));
        assert forall|col: int| 0 <= col < np && #[trigger] cone_touches(
            z,
            g,
            cone,
            col,
        ) implies col == 19 * n by {
            let i = choose|i: int| 0 <= i < cone.dim && !same(#[trigger] g[cone.offset + i][col], z);
            assert(i == 0);
        }
    }
}

/// An assembled program has the sparsity that the structured solve relies on: its
/// equality rows touch the nodes of their row block, the time increment appears in
/// transitions only, and its cones follow one another, each in its place.
pub proof fn law_program_is_node_sparse<T: Scalar>(
    u: Units<T>,
    reference: &Trajectory<T>,
    lin: &LinearizedDynamics<T>,
    phys: &PhysicalParams<T>,
    log_m_dry: T,
    initial_state: Seq<T>,
    terminal: &TerminalCondition<T>,
    trust_eta: T,
    virt_weight: T,
    free_tf: bool,
    n: int,
    prob: &SocpProblem<T>,
)
    requires
        units_distinct(u),
        n >= 1,
        is_scvx_socp(
            u,
            reference,
            lin,
            phys,
            log_m_dry,
            initial_state,
            terminal,
            trust_eta,
            virt_weight,
            free_tf,
            n,
            prob,
        ),
    ensures
        rows_local(u.zero, prob.a_mat@, n),
        free_tf ==> increment_local(u.zero, prob.a_mat@, n),
        tiled(prob.cones@, spec_nct(n, free_tf)),
        cones_local(u.zero, prob.g_mat@, spec_np(n, free_tf), prob.cones@, n),
{
    let np = spec_np(n, free_tf);
    let z = u.zero;
    let a = prob.a_mat@;
    let cones = prob.cones@;
    let dc = dtau_column(n, free_tf);
    assert forall|r: int, j: int|
        0 <= r < 7 * n + 6 && 0 <= j < 19 * n && !rb_touches(n, r / 7, j / 19) implies #[trigger] a[r][j]
        == z by {
        assert(a[r] == equality_row(u, lin, n, np, 19, true, dc, r));
        if 7 <= r < 7 * n {
            let k = (r - 7) / 7;
            assert(r / 7 == k + 1);
            assert(j / 19 != k && j / 19 != k + 1);
        }
    }
    if free_tf {
        assert forall|r: int| 0 <= r < 7 * n + 6 && !(7 <= r < 7 * n) implies (#[trigger] a[r])[19
            * n] == z by {
            assert(a[r] == equality_row(u, lin, n, np, 19, true, dc, r));
        }
    }
    assert forall|c: int| 0 <= c < cones.len() implies (#[trigger] cones[c]).offset == cones_end(
        cones,
        c,
    ) by {
        assert(cones[c].offset == scvx_cone_offset(n, c));
        if c > 0 {
            assert(cones[c - 1].offset == scvx_cone_offset(n, c - 1));
            assert(cones[c - 1].dim == scvx_cone_dim(n, c - 1));
            if c < 8 * n {
                if c % 8 == 0 {
                    assert(c / 8 == (c - 1) / 8 + 1 && (c - 1) % 8 == 7);
                } else {
                    assert(c / 8 == (c - 1) / 8 && (c - 1) % 8 == c % 8 - 1);
                }
            } else if c == 8 * n {
                assert((c - 1) / 8 == n - 1 && (c - 1) % 8 == 7);
            }
        }
    }
    let last = cones.len() - 1;
    assert(cones[last].offset == scvx_cone_offset(n, last));
    assert(cones[last].dim == scvx_cone_dim(n, last));
    if !free_tf {
        assert(last / 8 == n - 1 && last % 8 == 7);
    }
    assert forall|c: int| 0 <= c < cones.len() implies {
        ||| (#[trigger] cones[c]).dim <= MAX_CONE_DIM && exists|k: int|
            0 <= k < n && #[trigger] cone_in_stage(z, prob.g_mat@, np, cones[c], k)
        ||| forall|j: int|
            0 <= j < 19 * n ==> !#[trigger] cone_touches(z, prob.g_mat@, cones[c], j)
    } by {
        law_cones_belong_to_nodes(
            u,
            reference,
            lin,
            phys,
            log_m_dry,
            initial_state,
            terminal,
            trust_eta,
            virt_weight,
            free_tf,
            n,
            prob,
            c,
        );
        if c < 8 * n {
            assert(cone_in_stage(z, prob.g_mat@, np, cones[c], c / 8));
        }
    }
}

// ---- slacks ----

/// An inner product with a row that has one entry.
pub proof fn lemma_unit_row_dot<T: Scalar>(u: Units<T>, np: int, col: int, v: T, x: Seq<T>)
    requires
        field(u),
        0 <= col < np,
        x.len() == np,
    ensures
        dot(u.zero, unit_row(np, u.zero, col, v), x) == times(v, x[col]),
{
    let row = unit_row(np, u.zero, col, v);
    lemma_dot_only(u, row, x, np, col, 1);
    let r1 = row.subrange(col, col + 1);
    let x1 = x.subrange(col, col + 1);
    assert(dot_upto(u.zero, r1, x1, 1) == plus(dot_upto(u.zero, r1, x1, 0), times(r1[0], x1[0])));
    lemma_add_zero(u, times(v, x[col]));
}

/// `h - (-1) x == h + x` and `h - 1 x == h - x`.
proof fn lemma_unit_slack<T: Scalar>(u: Units<T>, h: T, x: T)
    requires
        field(u),
    ensures
        minus(h, times(negated(u.one), x)) == plus(h, x),
        minus(h, times(u.one, x)) == minus(h, x),
{
    lemma_neg_mul(u, u.one, x);
    lemma_mul_one(u, x);
    lemma_sub_facts(u, h, x);
}

/// What slack `r` of node `k` is, for the unknowns `x`: thrust magnitude and thrust;
/// the margins of pointing and of the mass floor; the glide-slope cone; the margins
/// of the thrust bounds; trust radius and step; the bound on virtual control and
/// virtual control.
pub open spec fn slack_meaning<T: Scalar>(
    u: Units<T>,
    reference: &Trajectory<T>,
    phys: &PhysicalParams<T>,
    log_m_dry: T,
    trust_eta: T,
    x: Seq<T>,
    k: int,
    r: int,
) -> T {
    slack_from(reference, phys, log_m_dry, trust_eta, x, 19 * k, k, r)
}

/// As `slack_meaning`, for a node whose unknowns start at `b`.
pub open spec fn slack_from<T: Scalar>(
    reference: &Trajectory<T>,
    phys: &PhysicalParams<T>,
    log_m_dry: T,
    trust_eta: T,
    x: Seq<T>,
    b: int,
    k: int,
    r: int,
) -> T {
    if r == 0 {
        x[b + 10]
    } else if r <= 3 {
        x[b + 7 + (r - 1)]
    } else if r == 4 {
        minus(x[b + 9], times(phys.cos_theta_max, x[b + 10]))
    } else if r == 5 {
        minus(x[b + 6], log_m_dry)
    } else if r == 6 {
        times(phys.tan_gamma_gs, x[b + 2])
    } else if r <= 8 {
        x[b + (r - 7)]
    } else if r == 9 {
        minus(x[b + 10], phys.t_min)
    } else if r == 10 {
        minus(phys.t_max, x[b + 10])
    } else if r == 11 {
        trust_eta
    } else if r <= 18 {
        minus(x[b + (r - 12)], reference.x@[k][r - 12])
    } else if r <= 21 {
        minus(x[b + 7 + (r - 19)], reference.u@[k][r - 19])
    } else if r == 22 {
        x[b + 18]
    } else {
        x[b + 11 + (r - 23)]
    }
}

/// `-a + b == b - a` and `0 + b == b`.
proof fn lemma_slack_forms<T: Scalar>(u: Units<T>, a: T, b: T)
    requires
        field(u),
    ensures
        plus(negated(a), b) == minus(b, a),
        plus(u.zero, b) == b,
{
    lemma_add_comm(u, negated(a), b);
    lemma_sub_def(u, b, a);
    lemma_add_zero(u, b);
}

/// In exact arithmetic the slacks `h - G x` of a node are what the constraints name.
pub proof fn law_slacks_mean_constraints<T: Scalar>(
    u: Units<T>,
    reference: &Trajectory<T>,
    phys: &PhysicalParams<T>,
    log_m_dry: T,
    trust_eta: T,
    n: int,
    np: int,
    x: Seq<T>,
    k: int,
    r: int,
)
    requires
        field(u),
        np >= 19 * n,
        x.len() == np,
        0 <= k < n,
        0 <= r < 30,
    ensures
        minus(
            scvx_cone_rhs(u, phys, log_m_dry, reference, trust_eta, n, 30 * k + r),
            dot(u.zero, scvx_cone_row(u, phys, n, np, 30 * k + r), x),
        ) == slack_meaning(u, reference, phys, log_m_dry, trust_eta, x, k, r),
{
    assert((30 * k + r) / 30 == k && (30 * k + r) % 30 == r);
    lemma_slack_from(u, reference, phys, log_m_dry, trust_eta, np, x, 19 * k, k, r);
}

/// The slack of one row, for a node whose unknowns start at `b`.
pub proof fn lemma_slack_from<T: Scalar>(
    u: Units<T>,
    reference: &Trajectory<T>,
    phys: &PhysicalParams<T>,
    log_m_dry: T,
    trust_eta: T,
    np: int,
    x: Seq<T>,
    b: int,
    k: int,
    r: int,
)
    requires
        field(u),
        0 <= b,
        r < 11 ==> b + 11 <= np,
        r >= 11 ==> b + 19 <= np,
        x.len() == np,
        0 <= r < 30,
    ensures
        minus(
            cone_rhs_spec(u, phys, log_m_dry, reference, trust_eta, k, r),
            dot(u.zero, cone_row_spec(u, phys, np, b, r), x),
        ) == slack_from(reference, phys, log_m_dry, trust_eta, x, b, k, r),
{
    let z = u.zero;
    let row = cone_row_spec(u, phys, np, b, r);
    let h = cone_rhs_spec(u, phys, log_m_dry, reference, trust_eta, k, r);
    let m1 = negated(u.one);
    if r == 4 {
        // two entries: -1 on u_z, the cosine on the magnitude
        lemma_dot_only(u, row, x, np, b + 9, 2);
        let r2 = row.subrange(b + 9, b + 11);
        let x2 = x.subrange(b + 9, b + 11);
        assert(dot_upto(z, r2, x2, 2) == plus(dot_upto(z, r2, x2, 1), times(r2[1], x2[1])));
        assert(dot_upto(z, r2, x2, 1) == plus(dot_upto(z, r2, x2, 0), times(r2[0], x2[0])));
        let p = times(m1, x[b + 9]);
        let q = times(phys.cos_theta_max, x[b + 10]);
        lemma_add_zero(u, p);
        lemma_sub_facts(u, plus(p, q), z);
        lemma_neg_add(u, p, q);
        lemma_neg_mul(u, u.one, x[b + 9]);
        lemma_mul_one(u, x[b + 9]);
        lemma_neg_neg(u, x[b + 9]);
        lemma_sub_def(u, x[b + 9], q);
    } else if r == 6 {
        lemma_unit_row_dot(u, np, b + 2, negated(phys.tan_gamma_gs), x);
        let p = times(phys.tan_gamma_gs, x[b + 2]);
        lemma_neg_mul(u, phys.tan_gamma_gs, x[b + 2]);
        lemma_sub_facts(u, z, p);
        lemma_add_zero(u, p);
    } else if r == 11 {
        assert(row =~= Seq::new(np as nat, |c: int| z));
        lemma_dot_zero(u, row, x, np as nat);
        lemma_sub_facts(u, h, z);
    } else if r == 10 {
        lemma_unit_row_dot(u, np, b + 10, u.one, x);
        lemma_unit_slack(u, h, x[b + 10]);
    } else {
        let col = if r == 0 || r == 9 {
            b + 10
        } else if r <= 3 {
            b + 7 + (r - 1)
        } else if r == 5 {
            b + 6
        } else if r <= 8 {
            b + (r - 7)
        } else if r <= 18 {
            b + (r - 12)
        } else if r <= 21 {
            b + 7 + (r - 19)
        } else if r == 22 {
            b + 18
        } else {
            b + 11 + (r - 23)
        };
        assert(row == unit_row(np, z, col, m1));
        lemma_unit_row_dot(u, np, col, m1, x);
        lemma_unit_slack(u, h, x[col]);
        if r == 5 {
            lemma_slack_forms(u, log_m_dry, x[col]);
        } else if r == 9 {
            lemma_slack_forms(u, phys.t_min, x[col]);
        } else if 12 <= r <= 18 {
            lemma_slack_forms(u, reference.x@[k][r - 12], x[col]);
        } else if 19 <= r <= 21 {
            lemma_slack_forms(u, reference.u@[k][r - 19], x[col]);
        } else {
            lemma_slack_forms(u, z, x[col]);
        }
    }
}

/// In exact arithmetic the slacks of the two bounds are the distances of the new
/// time of flight from its bounds.
pub proof fn law_bound_slacks_mean_time_limits<T: Scalar>(
    u: Units<T>,
    reference: &Trajectory<T>,
    phys: &PhysicalParams<T>,
    log_m_dry: T,
    trust_eta: T,
    n: int,
    x: Seq<T>,
)
    requires
        field(u),
        n >= 0,
        x.len() == 19 * n + 1,
    ensures
        minus(
            scvx_cone_rhs(u, phys, log_m_dry, reference, trust_eta, n, 30 * n),
            dot(u.zero, scvx_cone_row(u, phys, n, 19 * n + 1, 30 * n), x),
        ) == minus(plus(reference.tau, x[19 * n]), phys.tau_lo),
        minus(
            scvx_cone_rhs(u, phys, log_m_dry, reference, trust_eta, n, 30 * n + 1),
            dot(u.zero, scvx_cone_row(u, phys, n, 19 * n + 1, 30 * n + 1), x),
        ) == minus(phys.tau_hi, plus(reference.tau, x[19 * n])),
{
    let np = 19 * n + 1;
    let t = reference.tau;
    let d = x[19 * n];
    lemma_unit_row_dot(u, np, 19 * n, negated(u.one), x);
    lemma_unit_row_dot(u, np, 19 * n, u.one, x);
    lemma_unit_slack(u, minus(t, phys.tau_lo), d);
    lemma_unit_slack(u, minus(phys.tau_hi, t), d);
    // (t - lo) + d == (t + d) - lo
    lemma_sub_def(u, t, phys.tau_lo);
    lemma_add_assoc(u, t, negated(phys.tau_lo), d);
    lemma_add_comm(u, negated(phys.tau_lo), d);
    lemma_add_assoc(u, t, d, negated(phys.tau_lo));
    lemma_sub_def(u, plus(t, d), phys.tau_lo);
    // (hi - t) - d == hi - (t + d)
    lemma_sub_def(u, minus(phys.tau_hi, t), d);
    lemma_sub_def(u, phys.tau_hi, t);
    lemma_add_assoc(u, phys.tau_hi, negated(t), negated(d));
    lemma_neg_add(u, t, d);
    lemma_sub_def(u, phys.tau_hi, plus(t, d));
}

// ---- equality rows ----

/// The inner product with a negated vector is the negated inner product.
pub proof fn lemma_dot_neg<T: Scalar>(u: Units<T>, a: Seq<T>, n_a: Seq<T>, b: Seq<T>, n: nat)
    requires
        field(u),
        forall|i: int| 0 <= i < n ==> #[trigger] n_a[i] == minus(u.zero, a[i]),
    ensures
        dot_upto(u.zero, n_a, b, n) == negated(dot_upto(u.zero, a, b, n)),
    decreases n,
{
    if n == 0 {
        lemma_neg_zero(u);
    } else {
        let p = n - 1;
        lemma_dot_neg(u, a, n_a, b, p as nat);
        assert(n_a[p] == minus(u.zero, a[p]));
        lemma_sub_facts(u, a[p], u.zero);
        lemma_neg_mul(u, a[p], b[p]);
        lemma_neg_add(u, dot_upto(u.zero, a, b, p as nat), times(a[p], b[p]));
    }
}

/// `(((p + q) + r) + s) + t == (((s + p) + q) + t) + r`.
proof fn lemma_reorder<T: Scalar>(u: Units<T>, p: T, q: T, r: T, s: T, t: T)
    requires
        field(u),
    ensures
        plus(plus(plus(plus(p, q), r), s), t) == plus(plus(plus(plus(s, p), q), t), r),
{
    let pq = plus(p, q);
    lemma_add_assoc(u, pq, r, s);
    lemma_add_comm(u, r, s);
    lemma_add_assoc(u, pq, s, r);
    let pqs = plus(pq, s);
    lemma_add_assoc(u, pqs, r, t);
    lemma_add_comm(u, r, t);
    lemma_add_assoc(u, pqs, t, r);
    lemma_add_comm(u, pq, s);
    lemma_add_assoc(u, s, p, q);
}

/// State `i` of node `k + 1`, less what the linearization makes of the nodes `k` and
/// `k + 1`, less virtual control.
pub open spec fn transition_defect<T: Scalar>(
    z: T,
    lin: &LinearizedDynamics<T>,
    x: Seq<T>,
    k: int,
    i: int,
) -> T {
    let b = 19 * k;
    minus(
        minus(
            minus(
                minus(x[b + 19 + i], dot(z, lin.a@[k]@[i], x.subrange(b, b + 7))),
                dot(z, lin.b_minus@[k]@[i], x.subrange(b + 7, b + 10)),
            ),
            dot(z, lin.b_plus@[k]@[i], x.subrange(b + 26, b + 29)),
        ),
        x[b + 11 + i],
    )
}

/// The part of a transition row before the time increment.
proof fn lemma_transition_row<T: Scalar>(
    u: Units<T>,
    lin: &LinearizedDynamics<T>,
    n: int,
    np: int,
    dc: Option<int>,
    x: Seq<T>,
    k: int,
    i: int,
)
    requires
        field(u),
        np >= 19 * n,
        x.len() == np,
        0 <= k < n - 1,
        0 <= i < 7,
        lin.covers(n - 1),
        dc is None || dc == Some(19 * n),
    ensures
        dot_upto(
            u.zero,
            dynamics_row_spec(u, lin, np, 19, true, dc, k, i),
            x,
            (19 * n) as nat,
        ) == transition_defect(u.zero, lin, x, k, i),
{
    let z = u.zero;
    let b = 19 * k;
    let row = dynamics_row_spec(u, lin, np, 19, true, dc, k, i);
    assert(shaped(lin.a@[k]@, 7, 7) && shaped(lin.b_minus@[k]@, 7, 3) && shaped(
        lin.b_plus@[k]@,
        7,
        3,
    ));
    let ar = lin.a@[k]@[i];
    let bm = lin.b_minus@[k]@[i];
    let bp = lin.b_plus@[k]@[i];
    assert(ar.len() == 7 && bm.len() == 3 && bp.len() == 3);
    // before the node
    lemma_dot_zero(u, row, x, b as nat);
    // states
    lemma_dot_split(u, row, x, b, 7);
    let xa = x.subrange(b, b + 7);
    lemma_dot_neg(u, ar, row.subrange(b, b + 7), xa, 7);
    let ta = negated(dot(z, ar, xa));
    lemma_add_zero(u, ta);
    // controls
    lemma_dot_split(u, row, x, b + 7, 3);
    let xm = x.subrange(b + 7, b + 10);
    lemma_dot_neg(u, bm, row.subrange(b + 7, b + 10), xm, 3);
    let tm = negated(dot(z, bm, xm));
    // virtual control
    lemma_dot_split(u, row, x, b + 10, 9);
    let rv = row.subrange(b + 10, b + 19);
    let xv = x.subrange(b + 10, b + 19);
    lemma_dot_only(u, rv, xv, 9, 1 + i, 1);
    let rv1 = rv.subrange(1 + i, 2 + i);
    let xv1 = xv.subrange(1 + i, 2 + i);
    assert(dot_upto(z, rv1, xv1, 1) == plus(dot_upto(z, rv1, xv1, 0), times(rv1[0], xv1[0])));
    let nu = x[b + 11 + i];
    lemma_neg_mul(u, u.one, nu);
    lemma_mul_one(u, nu);
    lemma_add_zero(u, negated(nu));
    let tv = negated(nu);
    // next states
    lemma_dot_split(u, row, x, b + 19, 7);
    let rx = row.subrange(b + 19, b + 26);
    let xx = x.subrange(b + 19, b + 26);
    lemma_dot_only(u, rx, xx, 7, i, 1);
    let rx1 = rx.subrange(i, i + 1);
    let xx1 = xx.subrange(i, i + 1);
    assert(dot_upto(z, rx1, xx1, 1) == plus(dot_upto(z, rx1, xx1, 0), times(rx1[0], xx1[0])));
    let next = x[b + 19 + i];
    lemma_mul_one(u, next);
    lemma_add_zero(u, next);
    // next controls
    lemma_dot_split(u, row, x, b + 26, 3);
    let xp = x.subrange(b + 26, b + 29);
    lemma_dot_neg(u, bp, row.subrange(b + 26, b + 29), xp, 3);
    let tp = negated(dot(z, bp, xp));
    // the rest
    let rest = (19 * n - (b + 29)) as nat;
    lemma_dot_split(u, row, x, b + 29, rest);
    lemma_dot_zero(u, row.subrange(b + 29, 19 * n), x.subrange(b + 29, 19 * n), rest);
    let sum = plus(plus(plus(plus(ta, tm), tv), next), tp);
    assert(dot_upto(z, row, x, (b + 29) as nat) == sum);
    lemma_add_zero(u, sum);
    lemma_reorder(u, ta, tm, tv, next, tp);
    lemma_sub_def(u, next, dot(z, ar, xa));
    lemma_sub_def(u, plus(next, ta), dot(z, bm, xm));
    lemma_sub_def(u, plus(plus(next, ta), tm), dot(z, bp, xp));
    lemma_sub_def(u, plus(plus(plus(next, ta), tm), tp), nu);
}

/// In exact arithmetic the equality rows equate what the constraints name: the first
/// node's state with the initial state, the last node's position and velocity with
/// the target, and each transition's defect, less `s` times the time increment where
/// the final time is free, with `c + s tau`.
pub proof fn law_equality_rows_mean_constraints<T: Scalar>(
    u: Units<T>,
    lin: &LinearizedDynamics<T>,
    initial_state: Seq<T>,
    terminal: &TerminalCondition<T>,
    tau: T,
    free_tf: bool,
    n: int,
    x: Seq<T>,
    r: int,
)
    requires
        field(u),
        n >= 1,
        lin.covers(n - 1),
        x.len() == spec_np(n, free_tf),
        0 <= r < 7 * n + 6,
    ensures
        ({
            let lhs = dot(
                u.zero,
                equality_row(u, lin, n, spec_np(n, free_tf), 19, true, dtau_column(n, free_tf), r),
                x,
            );
            let rhs = equality_rhs(lin, initial_state, terminal, tau, n, r);
            let k = (r - 7) / 7;
            let i = (r - 7) % 7;
            if r < 7 {
                lhs == x[r] && rhs == initial_state[r]
            } else if r < 7 * n {
                &&& lhs == if free_tf {
                    minus(transition_defect(u.zero, lin, x, k, i), times(lin.s@[k]@[i], x[19 * n]))
                } else {
                    transition_defect(u.zero, lin, x, k, i)
                }
                &&& rhs == plus(lin.c@[k]@[i], times(lin.s@[k]@[i], tau))
            } else {
                &&& lhs == x[19 * (n - 1) + (r - 7 * n)]
                &&& rhs == if r < 7 * n + 3 {
                    terminal.r@[r - 7 * n]
                } else {
                    terminal.v@[r - 7 * n - 3]
                }
            }
        }),
{
    let z = u.zero;
    let np = spec_np(n, free_tf);
    let dc = dtau_column(n, free_tf);
    if r < 7 {
        lemma_unit_row_dot(u, np, r, u.one, x);
        lemma_mul_one(u, x[r]);
    } else if r < 7 * n {
        let k = (r - 7) / 7;
        let i = (r - 7) % 7;
        lemma_transition_row(u, lin, n, np, dc, x, k, i);
        if free_tf {
            let row = dynamics_row_spec(u, lin, np, 19, true, dc, k, i);
            let s = lin.s@[k]@[i];
            let d = transition_defect(z, lin, x, k, i);
            assert(dot(z, row, x) == plus(
                dot_upto(z, row, x, (19 * n) as nat),
                times(row[19 * n], x[19 * n]),
            ));
            assert(row[19 * n] == negated(s));
            lemma_neg_mul(u, s, x[19 * n]);
            lemma_sub_def(u, d, times(s, x[19 * n]));
        }
    } else {
        let col = 19 * (n - 1) + (r - 7 * n);
        lemma_unit_row_dot(u, np, col, u.one, x);
        lemma_mul_one(u, x[col]);
    }
}

} // verus!
