//! Assembly of the cone program from a reference trajectory, its linearized
//! dynamics, the physical parameters and the boundary conditions.
//!
//! Per node `k` the successive-convexification layout holds
//! `x(7), u(3), sigma(1), nu(7), w(1)`; the lossless layout stops after `sigma`.
//!
//! Equality rows: 7 for the initial state, 7 per transition, 6 for the terminal
//! position and velocity.
//!
//! Cone rows per node, each block read as `h - g x`:
//!
//! | rows   | slack                              | cone          |
//! |--------|------------------------------------|---------------|
//! | 0..4   | `(sigma, u)`                       | second order  |
//! | 4      | `u_z - cos_theta_max sigma`        | nonnegative   |
//! | 5      | `x_6 - ln m_dry`                   | nonnegative   |
//! | 6..9   | `(tan_gamma r_z, r_x, r_y)`        | second order  |
//! | 9      | `sigma - t_min`                    | nonnegative   |
//! | 10     | `t_max - sigma`                    | nonnegative   |
//! | 11..22 | `(eta, x - x_ref, u - u_ref)`      | second order  |
//! | 22..30 | `(w, nu)`                          | second order  |
use crate::layout::{spec_ncones, spec_nct, spec_ne, spec_np, workspace_np};
use crate::linalg::{fill_vec, shaped, Mat};
use crate::scalar::{lawful, minus, negated, plus, times, Scalar, Units};
use crate::types::{
    ConeDesc, LinearizedDynamics, PhysicalParams, SocpProblem, TerminalCondition, Trajectory,
};
use vstd::prelude::*;
use vstd::std_specs::ops::{AddSpec, MulSpec, NegSpec, SubSpec};


verus! {

/// The row of `np` entries that is `v` in column `col` and `zero` elsewhere.
pub open spec fn unit_row<T>(np: int, zero: T, col: int, v: T) -> Seq<T> {
    Seq::new(
        np as nat,
        |c: int|
            if c == col {
                v
            } else {
                zero
            },
    )
}

/// Coefficient of column `c` in row `i` of the transition from node `k`, for
/// nodes `stride` columns wide. The transition reads
/// `x[k+1] - A x[k] - B- u[k] - B+ u[k+1] - nu[k] - s dtau = c + s tau`; virtual
/// control and time increment appear where the layout has them.
pub open spec fn dynamics_coeff<T: Scalar>(
    units: Units<T>,
    lin: &LinearizedDynamics<T>,
    stride: int,
    virtual_control: bool,
    dtau_col: Option<int>,
    k: int,
    i: int,
    c: int,
) -> T {
    let off = c - stride * k;
    if 0 <= off < 7 {
        minus(units.zero, lin.a@[k]@[i][off])
    } else if 7 <= off < 10 {
        minus(units.zero, lin.b_minus@[k]@[i][off - 7])
    } else if virtual_control && off == 11 + i {
        negated(units.one)
    } else if off == stride + i {
        units.one
    } else if stride + 7 <= off < stride + 10 {
        minus(units.zero, lin.b_plus@[k]@[i][off - stride - 7])
    } else if dtau_col == Some(c) {
        negated(lin.s@[k]@[i])
    } else {
        units.zero
    }
}

/// The transition row `i` from node `k`.
pub open spec fn dynamics_row_spec<T: Scalar>(
    units: Units<T>,
    lin: &LinearizedDynamics<T>,
    np: int,
    stride: int,
    virtual_control: bool,
    dtau_col: Option<int>,
    k: int,
    i: int,
) -> Seq<T> {
    Seq::new(
        np as nat,
        |c: int| dynamics_coeff(units, lin, stride, virtual_control, dtau_col, k, i, c),
    )
}

/// Row `r` of the equality matrix of an `n`-node problem.
pub open spec fn equality_row<T: Scalar>(
    units: Units<T>,
    lin: &LinearizedDynamics<T>,
    n: int,
    np: int,
    stride: int,
    virtual_control: bool,
    dtau_col: Option<int>,
    r: int,
) -> Seq<T> {
    if r < 7 {
        unit_row(np, units.zero, r, units.one)
    } else if r < 7 * n {
        dynamics_row_spec(
            units,
            lin,
            np,
            stride,
            virtual_control,
            dtau_col,
            (r - 7) / 7,
            (r - 7) % 7,
        )
    } else {
        unit_row(np, units.zero, stride * (n - 1) + (r - 7 * n), units.one)
    }
}

/// Right-hand side of equality row `r` of an `n`-node problem.
pub open spec fn equality_rhs<T: Scalar>(
    lin: &LinearizedDynamics<T>,
    initial_state: Seq<T>,
    terminal: &TerminalCondition<T>,
    tau: T,
    n: int,
    r: int,
) -> T {
    if r < 7 {
        initial_state[r]
    } else if r < 7 * n {
        plus(
            lin.c@[(r - 7) / 7]@[(r - 7) % 7],
            times(lin.s@[(r - 7) / 7]@[(r - 7) % 7], tau),
        )
    } else if r < 7 * n + 3 {
        terminal.r@[r - 7 * n]
    } else {
        terminal.v@[r - 7 * n - 3]
    }
}

/// Cone row `r` of the node whose columns start at `base`.
pub open spec fn cone_row_spec<T: Scalar>(
    units: Units<T>,
    phys: &PhysicalParams<T>,
    np: int,
    base: int,
    r: int,
) -> Seq<T> {
    let minus_one = negated(units.one);
    if r == 0 || r == 9 {
        unit_row(np, units.zero, base + 10, minus_one)
    } else if r <= 3 {
        unit_row(np, units.zero, base + 7 + (r - 1), minus_one)
    } else if r == 4 {
        unit_row(np, units.zero, base + 9, minus_one).update(base + 10, phys.cos_theta_max)
    } else if r == 5 {
        unit_row(np, units.zero, base + 6, minus_one)
    } else if r == 6 {
        unit_row(np, units.zero, base + 2, negated(phys.tan_gamma_gs))
    } else if r <= 8 {
        unit_row(np, units.zero, base + (r - 7), minus_one)
    } else if r == 10 {
        unit_row(np, units.zero, base + 10, units.one)
    } else if r == 11 {
        Seq::new(np as nat, |c: int| units.zero)
    } else if r <= 18 {
        unit_row(np, units.zero, base + (r - 12), minus_one)
    } else if r <= 21 {
        unit_row(np, units.zero, base + 7 + (r - 19), minus_one)
    } else if r == 22 {
        unit_row(np, units.zero, base + 18, minus_one)
    } else {
        unit_row(np, units.zero, base + 11 + (r - 23), minus_one)
    }
}

/// Right-hand side of cone row `r` of node `k`.
pub open spec fn cone_rhs_spec<T: Scalar>(
    units: Units<T>,
    phys: &PhysicalParams<T>,
    log_m_dry: T,
    reference: &Trajectory<T>,
    trust_eta: T,
    k: int,
    r: int,
) -> T {
    if r == 5 {
        negated(log_m_dry)
    } else if r == 9 {
        negated(phys.t_min)
    } else if r == 10 {
        phys.t_max
    } else if r == 11 {
        trust_eta
    } else if 12 <= r <= 18 {
        negated(reference.x@[k][r - 12])
    } else if 19 <= r <= 21 {
        negated(reference.u@[k][r - 19])
    } else {
        units.zero
    }
}

/// First row, within its node, of the node's cone number `j`.
pub open spec fn cone_first_row(j: int) -> int {
    if j == 0 {
        0
    } else if j == 1 {
        4
    } else if j == 2 {
        5
    } else if j == 3 {
        6
    } else if j == 4 {
        9
    } else if j == 5 {
        10
    } else if j == 6 {
        11
    } else {
        22
    }
}

/// Dimension of a node's cone number `j`.
pub open spec fn cone_dim(j: int) -> int {
    if j == 0 {
        4
    } else if j == 3 {
        3
    } else if j == 6 {
        11
    } else if j == 7 {
        8
    } else {
        1
    }
}

/// A row of `np` entries that is `v` in column `col` and `zero` elsewhere.
fn unit_row_vec<T: Copy>(np: usize, zero: T, col: usize, v: T) -> (row: Vec<T>)
    requires
        col < np,
    ensures
        row@ == unit_row(np as int, zero, col as int, v),
{
    let mut row: Vec<T> = fill_vec(zero, np);
    row[col] = v;
    assert(row@ =~= unit_row(np as int, zero, col as int, v));
    row
}

/// Overwrites `row[at + j]` with `zero - vals[j]` for every `j`.
fn subtract_block<T: Scalar>(zero: T, row: &mut Vec<T>, at: usize, vals: &Vec<T>)
    requires
        lawful::<T>(),
        at + vals@.len() <= old(row)@.len(),
        forall|j: int| 0 <= j < vals@.len() ==> zero.sub_req(#[trigger] vals@[j]),
    ensures
        final(row)@ == Seq::new(
            old(row)@.len(),
            |c: int|
                if at <= c < at + vals@.len() {
                    minus(zero, vals@[c - at])
                } else {
                    old(row)@[c]
                },
        ),
{
    let ghost start = row@;
    let mut j: usize = 0;
    while j < vals.len()
        invariant
            lawful::<T>(),
            j <= vals@.len(),
            at + vals@.len() <= row@.len(),
            forall|j: int| 0 <= j < vals@.len() ==> zero.sub_req(#[trigger] vals@[j]),
            row@.len() == start.len(),
            forall|c: int|
                0 <= c < row@.len() ==> #[trigger] row@[c] == (if at <= c < at + j {
                    minus(zero, vals@[c - at])
                } else {
                    start[c]
                }),
        decreases vals.len() - j,
    {
        assert(zero.sub_req(vals@[j as int]));
        let v: T = zero - vals[j];
        assert(at + j < row.len());
        row[at + j] = v;
        j = j + 1;
    }
    assert(row@ =~= Seq::new(
        start.len(),
        |c: int|
            if at <= c < at + vals@.len() {
                minus(zero, vals@[c - at])
            } else {
                start[c]
            },
    ));
}

/// The arithmetic on the linearized dynamics is defined: the operations that
/// the transition rows of an `n`-node problem take.
pub open spec fn dynamics_defined<T: Scalar>(
    units: Units<T>,
    lin: &LinearizedDynamics<T>,
    tau: T,
    n: int,
    free_tf: bool,
) -> bool {
    &&& forall|k: int, i: int, j: int|
        0 <= k < n - 1 && 0 <= i < 7 && 0 <= j < 7 ==> units.zero.sub_req(
            #[trigger] lin.a@[k]@[i][j],
        )
    &&& forall|k: int, i: int, j: int|
        0 <= k < n - 1 && 0 <= i < 7 && 0 <= j < 3 ==> units.zero.sub_req(
            #[trigger] lin.b_minus@[k]@[i][j],
        )
    &&& forall|k: int, i: int, j: int|
        0 <= k < n - 1 && 0 <= i < 7 && 0 <= j < 3 ==> units.zero.sub_req(
            #[trigger] lin.b_plus@[k]@[i][j],
        )
    &&& forall|k: int, i: int|
        0 <= k < n - 1 && 0 <= i < 7 ==> {
            let s = #[trigger] lin.s@[k]@[i];
            &&& s.mul_req(tau)
            &&& lin.c@[k]@[i].add_req(times(s, tau))
            &&& free_tf ==> s.neg_req()
        }
}

/// The arithmetic on parameters and reference is defined: the negations that
/// the cone rows of an `n`-node problem take.
pub open spec fn cones_defined<T: Scalar>(
    phys: &PhysicalParams<T>,
    log_m_dry: T,
    reference: &Trajectory<T>,
    n: int,
) -> bool {
    &&& phys.tan_gamma_gs.neg_req()
    &&& log_m_dry.neg_req()
    &&& phys.t_min.neg_req()
    &&& forall|k: int, i: int|
        0 <= k < n && 0 <= i < 7 ==> (#[trigger] reference.x@[k][i]).neg_req()
    &&& forall|k: int, i: int|
        0 <= k < n && 0 <= i < 3 ==> (#[trigger] reference.u@[k][i]).neg_req()
}

/// Transition row `i` from node `k`.
fn dynamics_row<T: Scalar>(
    units: Units<T>,
    lin: &LinearizedDynamics<T>,
    n: usize,
    np: usize,
    stride: usize,
    virtual_control: bool,
    dtau_col: Option<usize>,
    Ghost(tau): Ghost<T>,
    k: usize,
    i: usize,
) -> (row: Vec<T>)
    requires
        lawful::<T>(),
        units.one.neg_req(),
        lin.covers(n - 1),
        dynamics_defined(units, lin, tau, n as int, dtau_col is Some),
        k + 1 < n,
        i < 7,
        stride == 11 && !virtual_control || stride == 19,
        stride * n <= np,
        dtau_col matches Some(c) ==> stride * n <= c < np,
    ensures
        row@ == dynamics_row_spec(
            units,
            lin,
            np as int,
            stride as int,
            virtual_control,
            match dtau_col {
                Some(c) => Some(c as int),
                None => None,
            },
            k as int,
            i as int,
        ),
{
    let ghost dcol: Option<int> = match dtau_col {
        Some(c) => Some(c as int),
        None => None,
    };
    let ghost kk = k as int;
    let ghost ii = i as int;
    assert(shaped(lin.a@[kk]@, 7, 7) && shaped(lin.b_minus@[kk]@, 7, 3) && shaped(
        lin.b_plus@[kk]@,
        7,
        3,
    ) && lin.s@[kk]@.len() == 7);
    assert(lin.a@[kk]@[ii].len() == 7);
    assert(lin.b_minus@[kk]@[ii].len() == 3);
    assert(lin.b_plus@[kk]@[ii].len() == 3);
    assert(stride * k + 2 * stride <= np) by (nonlinear_arith)
        requires
            k + 1 < n,
            stride * n <= np,
    ;
    let base: usize = stride * k;
    let minus_one: T = units.one.neg();
    let mut row: Vec<T> = fill_vec(units.zero, np);
    assert forall|j: int| 0 <= j < 7 implies units.zero.sub_req(
        #[trigger] lin.a@[kk].rows@[ii]@[j],
    ) by {
        assert(units.zero.sub_req(lin.a@[kk]@[ii][j]));
    }
    assert forall|j: int| 0 <= j < 3 implies units.zero.sub_req(
        #[trigger] lin.b_minus@[kk].rows@[ii]@[j],
    ) by {
        assert(units.zero.sub_req(lin.b_minus@[kk]@[ii][j]));
    }
    assert forall|j: int| 0 <= j < 3 implies units.zero.sub_req(
        #[trigger] lin.b_plus@[kk].rows@[ii]@[j],
    ) by {
        assert(units.zero.sub_req(lin.b_plus@[kk]@[ii][j]));
    }
    subtract_block(units.zero, &mut row, base, &lin.a[k].rows[i]);
    subtract_block(units.zero, &mut row, base + 7, &lin.b_minus[k].rows[i]);
    if virtual_control {
        row[base + 11 + i] = minus_one;
    }
    row[base + stride + i] = units.one;
    subtract_block(units.zero, &mut row, base + stride + 7, &lin.b_plus[k].rows[i]);
    match dtau_col {
        Some(c) => {
            assert(lin.s@[kk]@[ii].neg_req());
            let v: T = lin.s[k][i].neg();
            row[c] = v;
        },
        None => {},
    }
    proof {
        assert(stride * kk == base);
        assert(stride * n >= base + 2 * stride) by (nonlinear_arith)
            requires
                k + 1 < n,
                base == stride * k,
        ;
        assert forall|c: int| 0 <= c < np implies row@[c] == dynamics_coeff(
            units,
            lin,
            stride as int,
            virtual_control,
            dcol,
            kk,
            ii,
            c,
        ) by {}
        assert(row@ =~= dynamics_row_spec(
            units,
            lin,
            np as int,
            stride as int,
            virtual_control,
            dcol,
            kk,
            ii,
        ));
    }
    row
}

/// Cone row `r` of the node whose columns start at `base`.
fn cone_row<T: Scalar>(
    units: Units<T>,
    phys: &PhysicalParams<T>,
    np: usize,
    base: usize,
    r: usize,
) -> (row: Vec<T>)
    requires
        lawful::<T>(),
        units.one.neg_req(),
        phys.tan_gamma_gs.neg_req(),
        r < 30,
        base + 11 <= np,
        r >= 22 ==> base + 19 <= np,
    ensures
        row@ == cone_row_spec(units, phys, np as int, base as int, r as int),
{
    let minus_one: T = units.one.neg();
    if r == 0 || r == 9 {
        unit_row_vec(np, units.zero, base + 10, minus_one)
    } else if r <= 3 {
        unit_row_vec(np, units.zero, base + 7 + (r - 1), minus_one)
    } else if r == 4 {
        let mut row: Vec<T> = unit_row_vec(np, units.zero, base + 9, minus_one);
        row[base + 10] = phys.cos_theta_max;
        row
    } else if r == 5 {
        unit_row_vec(np, units.zero, base + 6, minus_one)
    } else if r == 6 {
        let v: T = phys.tan_gamma_gs.neg();
        unit_row_vec(np, units.zero, base + 2, v)
    } else if r <= 8 {
        unit_row_vec(np, units.zero, base + (r - 7), minus_one)
    } else if r == 10 {
        unit_row_vec(np, units.zero, base + 10, units.one)
    } else if r == 11 {
        let row: Vec<T> = fill_vec(units.zero, np);
        assert(row@ =~= Seq::new(np as nat, |c: int| units.zero));
        row
    } else if r <= 18 {
        unit_row_vec(np, units.zero, base + (r - 12), minus_one)
    } else if r <= 21 {
        unit_row_vec(np, units.zero, base + 7 + (r - 19), minus_one)
    } else if r == 22 {
        unit_row_vec(np, units.zero, base + 18, minus_one)
    } else {
        unit_row_vec(np, units.zero, base + 11 + (r - 23), minus_one)
    }
}

/// Right-hand side of cone row `r` of node `k`.
fn cone_rhs<T: Scalar>(
    units: Units<T>,
    phys: &PhysicalParams<T>,
    log_m_dry: T,
    reference: &Trajectory<T>,
    trust_eta: T,
    n: usize,
    k: usize,
    r: usize,
) -> (v: T)
    requires
        lawful::<T>(),
        cones_defined(phys, log_m_dry, reference, n as int),
        reference.sized(n as int),
        k < n,
        r < 30,
    ensures
        v == cone_rhs_spec(units, phys, log_m_dry, reference, trust_eta, k as int, r as int),
{
    assert(reference.x@[k as int].len() == 7 && reference.u@[k as int].len() == 3);
    if r == 5 {
        log_m_dry.neg()
    } else if r == 9 {
        phys.t_min.neg()
    } else if r == 10 {
        phys.t_max
    } else if r == 11 {
        trust_eta
    } else if 12 <= r && r <= 18 {
        assert(reference.x@[k as int][r - 12].neg_req());
        reference.x.rows[k][r - 12].neg()
    } else if 19 <= r && r <= 21 {
        assert(reference.u@[k as int][r - 19].neg_req());
        reference.u.rows[k][r - 19].neg()
    } else {
        units.zero
    }
}

/// Cone number `j` of the node whose cone rows start at `coff`.
fn cone_slot(coff: usize, j: usize) -> (cone: ConeDesc)
    requires
        j < 8,
        coff + 30 <= usize::MAX,
    ensures
        cone.offset == coff + cone_first_row(j as int),
        cone.dim == cone_dim(j as int),
{
    if j == 0 {
        ConeDesc { offset: coff, dim: 4 }
    } else if j == 1 {
        ConeDesc { offset: coff + 4, dim: 1 }
    } else if j == 2 {
        ConeDesc { offset: coff + 5, dim: 1 }
    } else if j == 3 {
        ConeDesc { offset: coff + 6, dim: 3 }
    } else if j == 4 {
        ConeDesc { offset: coff + 9, dim: 1 }
    } else if j == 5 {
        ConeDesc { offset: coff + 10, dim: 1 }
    } else if j == 6 {
        ConeDesc { offset: coff + 11, dim: 11 }
    } else {
        ConeDesc { offset: coff + 22, dim: 8 }
    }
}

/// The equality matrix: initial rows, transition rows, terminal rows.
fn equality_matrix<T: Scalar>(
    units: Units<T>,
    lin: &LinearizedDynamics<T>,
    n: usize,
    np: usize,
    stride: usize,
    virtual_control: bool,
    dtau_col: Option<usize>,
    Ghost(tau): Ghost<T>,
) -> (m: Mat<T>)
    requires
        lawful::<T>(),
        units.one.neg_req(),
        lin.covers(n - 1),
        dynamics_defined(units, lin, tau, n as int, dtau_col is Some),
        n >= 1,
        stride == 11 && !virtual_control || stride == 19,
        stride * n <= np,
        7 * n + 6 <= usize::MAX,
        dtau_col matches Some(c) ==> stride * n <= c < np,
    ensures
        shaped(m@, 7 * n + 6, np as int),
        forall|r: int|
            0 <= r < 7 * n + 6 ==> #[trigger] m@[r] == equality_row(
                units,
                lin,
                n as int,
                np as int,
                stride as int,
                virtual_control,
                match dtau_col {
                    Some(c) => Some(c as int),
                    None => None,
                },
                r,
            ),
{
    let ghost dcol: Option<int> = match dtau_col {
        Some(c) => Some(c as int),
        None => None,
    };
    let ghost row_spec = |r: int|
        equality_row(
            units,
            lin,
            n as int,
            np as int,
            stride as int,
            virtual_control,
            dcol,
            r,
        );
    assert(stride * n >= stride) by (nonlinear_arith)
        requires
            n >= 1,
    ;
    let mut rows: Vec<Vec<T>> = Vec::new();
    let mut i: usize = 0;
    while i < 7
        invariant
            i <= 7,
            n >= 1,
            np >= 11,
            rows.len() == i,
            row_spec == (|r: int|
                equality_row(
                    units,
                    lin,
                    n as int,
                    np as int,
                    stride as int,
                    virtual_control,
                    dcol,
                    r,
                )),
            forall|r: int| 0 <= r < rows@.len() ==> (#[trigger] rows@[r])@ == row_spec(r),
        decreases 7 - i,
    {
        let row: Vec<T> = unit_row_vec(np, units.zero, i, units.one);
        rows.push(row);
        i = i + 1;
    }
    let mut k: usize = 0;
    while k + 1 < n
        invariant
            lawful::<T>(),
            units.one.neg_req(),
            lin.covers(n - 1),
            dynamics_defined(units, lin, tau, n as int, dtau_col is Some),
            n >= 1,
            k + 1 <= n,
            stride == 11 && !virtual_control || stride == 19,
            stride * n <= np,
            7 * n + 6 <= usize::MAX,
            dtau_col matches Some(c) ==> stride * n <= c < np,
            dcol == (match dtau_col {
                Some(c) => Some(c as int),
                None => None,
            }),
            rows.len() == 7 + 7 * k,
            row_spec == (|r: int|
                equality_row(
                    units,
                    lin,
                    n as int,
                    np as int,
                    stride as int,
                    virtual_control,
                    dcol,
                    r,
                )),
            forall|r: int| 0 <= r < rows@.len() ==> (#[trigger] rows@[r])@ == row_spec(r),
        decreases n - k,
    {
        let mut i: usize = 0;
        while i < 7
            invariant
                lawful::<T>(),
                units.one.neg_req(),
                lin.covers(n - 1),
                dynamics_defined(units, lin, tau, n as int, dtau_col is Some),
                n >= 1,
                k + 1 < n,
                i <= 7,
                stride == 11 && !virtual_control || stride == 19,
                stride * n <= np,
                dtau_col matches Some(c) ==> stride * n <= c < np,
                dcol == (match dtau_col {
                    Some(c) => Some(c as int),
                    None => None,
                }),
                rows.len() == 7 + 7 * k + i,
                row_spec == (|r: int|
                    equality_row(
                        units,
                        lin,
                        n as int,
                        np as int,
                        stride as int,
                        virtual_control,
                        dcol,
                        r,
                    )),
                forall|r: int| 0 <= r < rows@.len() ==> (#[trigger] rows@[r])@ == row_spec(r),
            decreases 7 - i,
        {
            let row: Vec<T> = dynamics_row(
                units,
                lin,
                n,
                np,
                stride,
                virtual_control,
                dtau_col,
                Ghost(tau),
                k,
                i,
            );
            assert(row@ == row_spec(7 + 7 * k + i)) by {
                assert((7 + 7 * k + i - 7) / 7 == k);
                assert((7 + 7 * k + i - 7) % 7 == i);
            }
            rows.push(row);
            i = i + 1;
        }
        k = k + 1;
    }
    assert(stride * (n - 1) + stride <= np) by (nonlinear_arith)
        requires
            stride * n <= np,
    ;
    let last: usize = stride * (n - 1);
    let mut i: usize = 0;
    while i < 6
        invariant
            i <= 6,
            n >= 1,
            last + 11 <= np,
            last == stride * (n - 1),
            rows.len() == 7 * n + i,
            row_spec == (|r: int|
                equality_row(
                    units,
                    lin,
                    n as int,
                    np as int,
                    stride as int,
                    virtual_control,
                    dcol,
                    r,
                )),
            forall|r: int| 0 <= r < rows@.len() ==> (#[trigger] rows@[r])@ == row_spec(r),
        decreases 6 - i,
    {
        let row: Vec<T> = unit_row_vec(np, units.zero, last + i, units.one);
        rows.push(row);
        i = i + 1;
    }
    let m: Mat<T> = Mat { rows };
    assert forall|r: int| 0 <= r < 7 * n + 6 implies #[trigger] m@[r] == row_spec(r) by {
        assert(m.rows@[r]@ == row_spec(r));
    }
    m
}

/// The equality right-hand side.
fn equality_vector<T: Scalar>(
    units: Units<T>,
    lin: &LinearizedDynamics<T>,
    initial_state: &Vec<T>,
    terminal: &TerminalCondition<T>,
    tau: T,
    n: usize,
    Ghost(free_tf): Ghost<bool>,
) -> (b: Vec<T>)
    requires
        lawful::<T>(),
        lin.covers(n - 1),
        dynamics_defined(units, lin, tau, n as int, free_tf),
        initial_state@.len() == 7,
        n >= 1,
        7 * n + 6 <= usize::MAX,
    ensures
        b@ == Seq::new(
            (7 * n + 6) as nat,
            |r: int| equality_rhs(lin, initial_state@, terminal, tau, n as int, r),
        ),
{
    let mut b: Vec<T> = Vec::new();
    let mut r: usize = 0;
    while r < 7 * n + 6
        invariant
            lawful::<T>(),
            lin.covers(n - 1),
            dynamics_defined(units, lin, tau, n as int, free_tf),
            initial_state@.len() == 7,
            n >= 1,
            7 * n + 6 <= usize::MAX,
            r <= 7 * n + 6,
            b.len() == r,
            forall|q: int|
                0 <= q < r ==> #[trigger] b@[q] == equality_rhs(
                    lin,
                    initial_state@,
                    terminal,
                    tau,
                    n as int,
                    q,
                ),
        decreases 7 * n + 6 - r,
    {
        let v: T = if r < 7 {
            initial_state[r]
        } else if r < 7 * n {
            let k: usize = (r - 7) / 7;
            let i: usize = (r - 7) % 7;
            assert(lin.s@[k as int]@.len() == 7 && lin.c@[k as int]@.len() == 7);
            let ghost s0 = lin.s@[k as int]@[i as int];
            assert(s0.mul_req(tau) && lin.c@[k as int]@[i as int].add_req(times(s0, tau)));
            lin.c[k][i] + lin.s[k][i] * tau
        } else if r < 7 * n + 3 {
            terminal.r[r - 7 * n]
        } else {
            terminal.v[r - 7 * n - 3]
        };
        b.push(v);
        r = r + 1;
    }
    assert(b@ =~= Seq::new(
        (7 * n + 6) as nat,
        |r: int| equality_rhs(lin, initial_state@, terminal, tau, n as int, r),
    ));
    b
}

/// The per-node cone rows and right-hand sides of the successive-convexification layout.
fn cone_rows_scvx<T: Scalar>(
    units: Units<T>,
    phys: &PhysicalParams<T>,
    log_m_dry: T,
    reference: &Trajectory<T>,
    trust_eta: T,
    n: usize,
    np: usize,
) -> (out: (Vec<Vec<T>>, Vec<T>))
    requires
        lawful::<T>(),
        units.one.neg_req(),
        cones_defined(phys, log_m_dry, reference, n as int),
        reference.sized(n as int),
        19 * n <= np,
        30 * n <= usize::MAX,
    ensures
        out.0@.len() == 30 * n,
        out.1@.len() == 30 * n,
        forall|r: int|
            0 <= r < 30 * n ==> (#[trigger] out.0@[r])@ == cone_row_spec(
                units,
                phys,
                np as int,
                19 * (r / 30),
                r % 30,
            ),
        forall|r: int|
            0 <= r < 30 * n ==> #[trigger] out.1@[r] == cone_rhs_spec(
                units,
                phys,
                log_m_dry,
                reference,
                trust_eta,
                r / 30,
                r % 30,
            ),
{
    let mut rows: Vec<Vec<T>> = Vec::new();
    let mut h: Vec<T> = Vec::new();
    let mut k: usize = 0;
    while k < n
        invariant
            lawful::<T>(),
            units.one.neg_req(),
            cones_defined(phys, log_m_dry, reference, n as int),
            reference.sized(n as int),
            19 * n <= np,
            30 * n <= usize::MAX,
            k <= n,
            rows.len() == 30 * k,
            h.len() == 30 * k,
            forall|r: int|
                0 <= r < 30 * k ==> (#[trigger] rows@[r])@ == cone_row_spec(
                    units,
                    phys,
                    np as int,
                    19 * (r / 30),
                    r % 30,
                ),
            forall|r: int|
                0 <= r < 30 * k ==> #[trigger] h@[r] == cone_rhs_spec(
                    units,
                    phys,
                    log_m_dry,
                    reference,
                    trust_eta,
                    r / 30,
                    r % 30,
                ),
        decreases n - k,
    {
        let mut i: usize = 0;
        while i < 30
            invariant
                lawful::<T>(),
                units.one.neg_req(),
                cones_defined(phys, log_m_dry, reference, n as int),
                reference.sized(n as int),
                19 * n <= np,
                30 * n <= usize::MAX,
                k < n,
                i <= 30,
                rows.len() == 30 * k + i,
                h.len() == 30 * k + i,
                forall|r: int|
                    0 <= r < 30 * k + i ==> (#[trigger] rows@[r])@ == cone_row_spec(
                        units,
                        phys,
                        np as int,
                        19 * (r / 30),
                        r % 30,
                    ),
                forall|r: int|
                    0 <= r < 30 * k + i ==> #[trigger] h@[r] == cone_rhs_spec(
                        units,
                        phys,
                        log_m_dry,
                        reference,
                        trust_eta,
                        r / 30,
                        r % 30,
                    ),
            decreases 30 - i,
        {
            assert((30 * k + i) / 30 == k && (30 * k + i) % 30 == i);
            let row: Vec<T> = cone_row(units, phys, np, 19 * k, i);
            let v: T = cone_rhs(units, phys, log_m_dry, reference, trust_eta, n, k, i);
            rows.push(row);
            h.push(v);
            i = i + 1;
        }
        k = k + 1;
    }
    (rows, h)
}

/// The per-node cone rows and right-hand sides of the lossless layout.
fn cone_rows_lcvx<T: Scalar>(
    units: Units<T>,
    phys: &PhysicalParams<T>,
    log_m_dry: T,
    reference: &Trajectory<T>,
    trust_eta: T,
    n: usize,
    np: usize,
) -> (out: (Vec<Vec<T>>, Vec<T>))
    requires
        lawful::<T>(),
        units.one.neg_req(),
        cones_defined(phys, log_m_dry, reference, n as int),
        reference.sized(n as int),
        11 * n <= np,
        11 * n <= usize::MAX,
    ensures
        out.0@.len() == 11 * n,
        out.1@.len() == 11 * n,
        forall|r: int|
            0 <= r < 11 * n ==> (#[trigger] out.0@[r])@ == cone_row_spec(
                units,
                phys,
                np as int,
                11 * (r / 11),
                r % 11,
            ),
        forall|r: int|
            0 <= r < 11 * n ==> #[trigger] out.1@[r] == cone_rhs_spec(
                units,
                phys,
                log_m_dry,
                reference,
                trust_eta,
                r / 11,
                r % 11,
            ),
{
    let mut rows: Vec<Vec<T>> = Vec::new();
    let mut h: Vec<T> = Vec::new();
    let mut k: usize = 0;
    while k < n
        invariant
            lawful::<T>(),
            units.one.neg_req(),
            cones_defined(phys, log_m_dry, reference, n as int),
            reference.sized(n as int),
            11 * n <= np,
            11 * n <= usize::MAX,
            k <= n,
            rows.len() == 11 * k,
            h.len() == 11 * k,
            forall|r: int|
                0 <= r < 11 * k ==> (#[trigger] rows@[r])@ == cone_row_spec(
                    units,
                    phys,
                    np as int,
                    11 * (r / 11),
                    r % 11,
                ),
            forall|r: int|
                0 <= r < 11 * k ==> #[trigger] h@[r] == cone_rhs_spec(
                    units,
                    phys,
                    log_m_dry,
                    reference,
                    trust_eta,
                    r / 11,
                    r % 11,
                ),
        decreases n - k,
    {
        let mut i: usize = 0;
        while i < 11
            invariant
                lawful::<T>(),
                units.one.neg_req(),
                cones_defined(phys, log_m_dry, reference, n as int),
                reference.sized(n as int),
                11 * n <= np,
                11 * n <= usize::MAX,
                k < n,
                i <= 11,
                rows.len() == 11 * k + i,
                h.len() == 11 * k + i,
                forall|r: int|
                    0 <= r < 11 * k + i ==> (#[trigger] rows@[r])@ == cone_row_spec(
                        units,
                        phys,
                        np as int,
                        11 * (r / 11),
                        r % 11,
                    ),
                forall|r: int|
                    0 <= r < 11 * k + i ==> #[trigger] h@[r] == cone_rhs_spec(
                        units,
                        phys,
                        log_m_dry,
                        reference,
                        trust_eta,
                        r / 11,
                        r % 11,
                    ),
            decreases 11 - i,
        {
            assert((11 * k + i) / 11 == k && (11 * k + i) % 11 == i);
            let row: Vec<T> = cone_row(units, phys, np, 11 * k, i);
            let v: T = cone_rhs(units, phys, log_m_dry, reference, trust_eta, n, k, i);
            rows.push(row);
            h.push(v);
            i = i + 1;
        }
        k = k + 1;
    }
    (rows, h)
}

/// The per-node cones of the successive-convexification layout.
fn cone_list_scvx(n: usize) -> (cones: Vec<ConeDesc>)
    requires
        30 * n + 30 <= usize::MAX,
    ensures
        cones@.len() == 8 * n,
        forall|c: int|
            0 <= c < 8 * n ==> (#[trigger] cones@[c]).offset == 30 * (c / 8) + cone_first_row(
                c % 8,
            ) && cones@[c].dim == cone_dim(c % 8),
{
    let mut cones: Vec<ConeDesc> = Vec::new();
    let mut k: usize = 0;
    while k < n
        invariant
            30 * n + 30 <= usize::MAX,
            k <= n,
            cones.len() == 8 * k,
            forall|c: int|
                0 <= c < 8 * k ==> (#[trigger] cones@[c]).offset == 30 * (c / 8) + cone_first_row(
                    c % 8,
                ) && cones@[c].dim == cone_dim(c % 8),
        decreases n - k,
    {
        let mut j: usize = 0;
        while j < 8
            invariant
                30 * n + 30 <= usize::MAX,
                k < n,
                j <= 8,
                cones.len() == 8 * k + j,
                forall|c: int|
                    0 <= c < 8 * k + j ==> (#[trigger] cones@[c]).offset == 30 * (c / 8)
                        + cone_first_row(c % 8) && cones@[c].dim == cone_dim(c % 8),
            decreases 8 - j,
        {
            assert((8 * k + j) / 8 == k && (8 * k + j) % 8 == j);
            let cone: ConeDesc = cone_slot(30 * k, j);
            cones.push(cone);
            j = j + 1;
        }
        k = k + 1;
    }
    cones
}

/// The per-node cones of the lossless layout.
fn cone_list_lcvx(n: usize) -> (cones: Vec<ConeDesc>)
    requires
        11 * n + 30 <= usize::MAX,
    ensures
        cones@.len() == 6 * n,
        forall|c: int|
            0 <= c < 6 * n ==> (#[trigger] cones@[c]).offset == 11 * (c / 6) + cone_first_row(
                c % 6,
            ) && cones@[c].dim == cone_dim(c % 6),
{
    let mut cones: Vec<ConeDesc> = Vec::new();
    let mut k: usize = 0;
    while k < n
        invariant
            11 * n + 30 <= usize::MAX,
            k <= n,
            cones.len() == 6 * k,
            forall|c: int|
                0 <= c < 6 * k ==> (#[trigger] cones@[c]).offset == 11 * (c / 6) + cone_first_row(
                    c % 6,
                ) && cones@[c].dim == cone_dim(c % 6),
        decreases n - k,
    {
        let mut j: usize = 0;
        while j < 6
            invariant
                11 * n + 30 <= usize::MAX,
                k < n,
                j <= 6,
                cones.len() == 6 * k + j,
                forall|c: int|
                    0 <= c < 6 * k + j ==> (#[trigger] cones@[c]).offset == 11 * (c / 6)
                        + cone_first_row(c % 6) && cones@[c].dim == cone_dim(c % 6),
            decreases 6 - j,
        {
            assert((6 * k + j) / 6 == k && (6 * k + j) % 6 == j);
            let cone: ConeDesc = cone_slot(11 * k, j);
            cones.push(cone);
            j = j + 1;
        }
        k = k + 1;
    }
    cones
}

/// `prob` is the lossless cone program of `n` nodes: cost `sum sigma`, the
/// equality rows and right-hand sides of its layout, and six cones per node.
pub open spec fn is_lcvx_socp<T: Scalar>(
    units: Units<T>,
    reference: &Trajectory<T>,
    lin: &LinearizedDynamics<T>,
    phys: &PhysicalParams<T>,
    log_m_dry: T,
    initial_state: Seq<T>,
    terminal: &TerminalCondition<T>,
    n: int,
    prob: &SocpProblem<T>,
) -> bool {
    &&& prob.sized(11 * n, 7 * n + 6, 11 * n)
    &&& prob.cones@.len() == 6 * n
    &&& forall|j: int|
        0 <= j < 11 * n ==> #[trigger] prob.c@[j] == (if j % 11 == 10 {
            units.one
        } else {
            units.zero
        })
    &&& forall|r: int|
        0 <= r < 7 * n + 6 ==> #[trigger] prob.a_mat@[r] == equality_row(
            units,
            lin,
            n,
            11 * n,
            11,
            false,
            None,
            r,
        )
    &&& forall|r: int|
        0 <= r < 7 * n + 6 ==> #[trigger] prob.b@[r] == equality_rhs(
            lin,
            initial_state,
            terminal,
            reference.tau,
            n,
            r,
        )
    &&& forall|r: int|
        0 <= r < 11 * n ==> #[trigger] prob.g_mat@[r] == cone_row_spec(
            units,
            phys,
            11 * n,
            11 * (r / 11),
            r % 11,
        )
    &&& forall|r: int|
        0 <= r < 11 * n ==> #[trigger] prob.h@[r] == cone_rhs_spec(
            units,
            phys,
            log_m_dry,
            reference,
            units.zero,
            r / 11,
            r % 11,
        )
    &&& forall|c: int|
        0 <= c < 6 * n ==> (#[trigger] prob.cones@[c]).offset == 11 * (c / 6) + cone_first_row(c % 6)
            && prob.cones@[c].dim == cone_dim(c % 6)
}

/// Fills `prob` with the lossless cone program. What `prob` held before is
/// overwritten.
pub fn assemble_lcvx_socp<T: Scalar>(
    units: Units<T>,
    n: usize,
    reference: &Trajectory<T>,
    lin: &LinearizedDynamics<T>,
    phys: &PhysicalParams<T>,
    log_m_dry: T,
    initial_state: &Vec<T>,
    terminal: &TerminalCondition<T>,
    prob: &mut SocpProblem<T>,
)
    requires
        lawful::<T>(),
        n >= 1,
        11 * n + 30 <= usize::MAX,
        reference.sized(n as int),
        lin.covers(n - 1),
        initial_state@.len() == 7,
        units.one.neg_req(),
        dynamics_defined(units, lin, reference.tau, n as int, false),
        cones_defined(phys, log_m_dry, reference, n as int),
    ensures
        is_lcvx_socp(
            units,
            reference,
            lin,
            phys,
            log_m_dry,
            initial_state@,
            terminal,
            n as int,
            final(prob),
        ),
{
    let np: usize = 11 * n;
    let mut c: Vec<T> = Vec::new();
    let mut j: usize = 0;
    while j < np
        invariant
            j <= np,
            c.len() == j,
            forall|q: int|
                0 <= q < j ==> #[trigger] c@[q] == (if q % 11 == 10 {
                    units.one
                } else {
                    units.zero
                }),
        decreases np - j,
    {
        let v: T = if j % 11 == 10 {
            units.one
        } else {
            units.zero
        };
        c.push(v);
        j = j + 1;
    }
    let a_mat: Mat<T> = equality_matrix(
        units,
        lin,
        n,
        np,
        11,
        false,
        None,
        Ghost(reference.tau),
    );
    let b: Vec<T> = equality_vector(
        units,
        lin,
        initial_state,
        terminal,
        reference.tau,
        n,
        Ghost(false),
    );
    let (rows, h): (Vec<Vec<T>>, Vec<T>) = cone_rows_lcvx(
        units,
        phys,
        log_m_dry,
        reference,
        units.zero,
        n,
        np,
    );
    let cones: Vec<ConeDesc> = cone_list_lcvx(n);
    let g_mat: Mat<T> = Mat { rows };
    proof {
        assert forall|r: int| 0 <= r < 11 * n implies (#[trigger] g_mat@[r]) == cone_row_spec(
            units,
            phys,
            np as int,
            11 * (r / 11),
            r % 11,
        ) by {
            assert(g_mat.rows@[r]@ == g_mat@[r]);
        }
    }
    *prob = SocpProblem { c, a_mat, b, g_mat, h, cones };
}

/// Row `r` of the cone matrix of an `n`-node successive-convexification problem:
/// the nodes' rows, then, with a free final time, the two bounds on the time
/// increment.
pub open spec fn scvx_cone_row<T: Scalar>(
    units: Units<T>,
    phys: &PhysicalParams<T>,
    n: int,
    np: int,
    r: int,
) -> Seq<T> {
    if r < 30 * n {
        cone_row_spec(units, phys, np, 19 * (r / 30), r % 30)
    } else if r == 30 * n {
        unit_row(np, units.zero, 19 * n, negated(units.one))
    } else {
        unit_row(np, units.zero, 19 * n, units.one)
    }
}

/// Right-hand side of cone row `r` of an `n`-node successive-convexification
/// problem. The bound rows read `tau_lo <= tau + dtau <= tau_hi`.
pub open spec fn scvx_cone_rhs<T: Scalar>(
    units: Units<T>,
    phys: &PhysicalParams<T>,
    log_m_dry: T,
    reference: &Trajectory<T>,
    trust_eta: T,
    n: int,
    r: int,
) -> T {
    if r < 30 * n {
        cone_rhs_spec(units, phys, log_m_dry, reference, trust_eta, r / 30, r % 30)
    } else if r == 30 * n {
        minus(reference.tau, phys.tau_lo)
    } else {
        minus(phys.tau_hi, reference.tau)
    }
}

/// First row of cone `c` of an `n`-node successive-convexification problem.
pub open spec fn scvx_cone_offset(n: int, c: int) -> int {
    if c < 8 * n {
        30 * (c / 8) + cone_first_row(c % 8)
    } else {
        30 * n + (c - 8 * n)
    }
}

/// Dimension of cone `c` of an `n`-node successive-convexification problem.
pub open spec fn scvx_cone_dim(n: int, c: int) -> int {
    if c < 8 * n {
        cone_dim(c % 8)
    } else {
        1
    }
}

/// The column of the time increment, where the layout has one.
pub open spec fn dtau_column(n: int, free_tf: bool) -> Option<int> {
    if free_tf {
        Some(19 * n)
    } else {
        None
    }
}

/// `prob` is the successive-convexification cone program of `n` nodes: cost
/// `sum (sigma + virt_weight w)`, the equality rows with virtual control, eight
/// cones per node and, with a free final time, two bounds on the increment.
pub open spec fn is_scvx_socp<T: Scalar>(
    units: Units<T>,
    reference: &Trajectory<T>,
    lin: &LinearizedDynamics<T>,
    phys: &PhysicalParams<T>,
    log_m_dry: T,
    initial_state: Seq<T>,
    terminal: &TerminalCondition<T>,
    trust_eta: T,
    virt_weight: T,
    free_tf: bool,
    n: int,
    prob: &SocpProblem<T>,
) -> bool {
    &&& prob.sized(spec_np(n, free_tf), spec_ne(n), spec_nct(n, free_tf))
    &&& prob.cones@.len() == spec_ncones(n, free_tf)
    &&& forall|j: int|
        0 <= j < spec_np(n, free_tf) ==> #[trigger] prob.c@[j] == (if j < 19 * n && j % 19 == 10 {
            units.one
        } else if j < 19 * n && j % 19 == 18 {
            virt_weight
        } else {
            units.zero
        })
    &&& forall|r: int|
        0 <= r < spec_ne(n) ==> #[trigger] prob.a_mat@[r] == equality_row(
            units,
            lin,
            n,
            spec_np(n, free_tf),
            19,
            true,
            dtau_column(n, free_tf),
            r,
        )
    &&& forall|r: int|
        0 <= r < spec_ne(n) ==> #[trigger] prob.b@[r] == equality_rhs(
            lin,
            initial_state,
            terminal,
            reference.tau,
            n,
            r,
        )
    &&& forall|r: int|
        0 <= r < spec_nct(n, free_tf) ==> #[trigger] prob.g_mat@[r] == scvx_cone_row(
            units,
            phys,
            n,
            spec_np(n, free_tf),
            r,
        )
    &&& forall|r: int|
        0 <= r < spec_nct(n, free_tf) ==> #[trigger] prob.h@[r] == scvx_cone_rhs(
            units,
            phys,
            log_m_dry,
            reference,
            trust_eta,
            n,
            r,
        )
    &&& forall|c: int|
        0 <= c < spec_ncones(n, free_tf) ==> (#[trigger] prob.cones@[c]).offset == scvx_cone_offset(
            n,
            c,
        ) && prob.cones@[c].dim == scvx_cone_dim(n, c)
}

/// Fills `prob` with the successive-convexification cone program at the given
/// linearization. What `prob` held before is overwritten.
pub fn assemble_scvx_socp<T: Scalar>(
    units: Units<T>,
    n: usize,
    reference: &Trajectory<T>,
    lin: &LinearizedDynamics<T>,
    phys: &PhysicalParams<T>,
    log_m_dry: T,
    initial_state: &Vec<T>,
    terminal: &TerminalCondition<T>,
    trust_eta: T,
    virt_weight: T,
    use_free_tf: bool,
    prob: &mut SocpProblem<T>,
)
    requires
        lawful::<T>(),
        n >= 1,
        30 * n + 30 <= usize::MAX,
        reference.sized(n as int),
        lin.covers(n - 1),
        initial_state@.len() == 7,
        units.one.neg_req(),
        dynamics_defined(units, lin, reference.tau, n as int, use_free_tf),
        cones_defined(phys, log_m_dry, reference, n as int),
        use_free_tf ==> reference.tau.sub_req(phys.tau_lo) && phys.tau_hi.sub_req(reference.tau),
    ensures
        is_scvx_socp(
            units,
            reference,
            lin,
            phys,
            log_m_dry,
            initial_state@,
            terminal,
            trust_eta,
            virt_weight,
            use_free_tf,
            n as int,
            final(prob),
        ),
{
    let np: usize = workspace_np(n, use_free_tf);
    let mut c: Vec<T> = Vec::new();
    let mut j: usize = 0;
    while j < np
        invariant
            19 * n <= usize::MAX,
            j <= np,
            c.len() == j,
            forall|q: int|
                0 <= q < j ==> #[trigger] c@[q] == (if q < 19 * n && q % 19 == 10 {
                    units.one
                } else if q < 19 * n && q % 19 == 18 {
                    virt_weight
                } else {
                    units.zero
                }),
        decreases np - j,
    {
        let v: T = if j < 19 * n && j % 19 == 10 {
            units.one
        } else if j < 19 * n && j % 19 == 18 {
            virt_weight
        } else {
            units.zero
        };
        c.push(v);
        j = j + 1;
    }
    let dtau_col: Option<usize> = if use_free_tf {
        Some(19 * n)
    } else {
        None
    };
    let a_mat: Mat<T> = equality_matrix(
        units,
        lin,
        n,
        np,
        19,
        true,
        dtau_col,
        Ghost(reference.tau),
    );
    let b: Vec<T> = equality_vector(
        units,
        lin,
        initial_state,
        terminal,
        reference.tau,
        n,
        Ghost(use_free_tf),
    );
    let (mut rows, mut h): (Vec<Vec<T>>, Vec<T>) = cone_rows_scvx(
        units,
        phys,
        log_m_dry,
        reference,
        trust_eta,
        n,
        np,
    );
    let mut cones: Vec<ConeDesc> = cone_list_scvx(n);
    if use_free_tf {
        let minus_one: T = units.one.neg();
        let lo_row: Vec<T> = unit_row_vec(np, units.zero, 19 * n, minus_one);
        let hi_row: Vec<T> = unit_row_vec(np, units.zero, 19 * n, units.one);
        rows.push(lo_row);
        rows.push(hi_row);
        let lo: T = reference.tau - phys.tau_lo;
        let hi: T = phys.tau_hi - reference.tau;
        h.push(lo);
        h.push(hi);
        cones.push(ConeDesc { offset: 30 * n, dim: 1 });
        cones.push(ConeDesc { offset: 30 * n + 1, dim: 1 });
    }
    let g_mat: Mat<T> = Mat { rows };
    proof {
        assert forall|r: int| 0 <= r < spec_nct(n as int, use_free_tf) implies (
        #[trigger] g_mat@[r]) == scvx_cone_row(
            units,
            phys,
            n as int,
            np as int,
            r,
        ) by {
            assert(g_mat.rows@[r]@ == g_mat@[r]);
        }
    }
    *prob = SocpProblem { c, a_mat, b, g_mat, h, cones };
}

} // verus!
