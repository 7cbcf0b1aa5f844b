//! Measures of a candidate: the size of its step and of its virtual control, its
//! fuel cost and its defect against the true dynamics; and the passage between a
//! trajectory and the flat vector of unknowns.
use crate::linalg::{copy_mat, shaped, slice_of, Mat};
use crate::numerics::{functions_repeatable, root_of, sqrt_with, Numerics};
use crate::scalar::{minus, num, number, plus, real_ops, times, Real};
use crate::types::Trajectory;
use vstd::prelude::*;

verus! {

/// Sum of squares of the first `m` virtual-control entries.
pub open spec fn virtual_squares<T: Real>(x: Seq<T>, m: nat) -> T
    decreases m,
{
    if m == 0 {
        num::<T>(0)
    } else {
        let q = m - 1;
        let v = x[19 * (q / 7) + 11 + q % 7];
        plus(virtual_squares(x, q as nat), times(v, v))
    }
}

/// Euclidean norm of the virtual control over all `n` nodes.
pub fn virtual_control_norm<T: Real, C: Numerics<T>>(ops: &C, x: &Vec<T>, n: usize) -> (r: T)
    requires
        real_ops::<T>(),
        functions_repeatable(ops),
        19 * n <= x@.len(),
    ensures
        r == root_of(ops, virtual_squares(x@, (7 * n) as nat)),
{
    let mut sum: T = number(0);
    let mut k: usize = 0;
    while k < n
        invariant
            real_ops::<T>(),
            19 * n <= x@.len(),
            k <= n,
            sum == virtual_squares(x@, (7 * k) as nat),
        decreases n - k,
    {
        let mut i: usize = 0;
        while i < 7
            invariant
                real_ops::<T>(),
                19 * n <= x@.len(),
                k < n,
                i <= 7,
                sum == virtual_squares(x@, (7 * k + i) as nat),
            decreases 7 - i,
        {
            assert((7 * k + i) / 7 == k && (7 * k + i) % 7 == i);
            assert(19 * k + 11 + i < x.len());
            let v: T = x[19 * k + 11 + i];
            sum = sum + v * v;
            i = i + 1;
        }
        k = k + 1;
    }
    sqrt_with(ops, sum)
}

/// Fuel cost of the first `n` nodes.
pub open spec fn fuel_upto<T: Real>(x: Seq<T>, n: nat) -> T
    decreases n,
{
    if n == 0 {
        num::<T>(0)
    } else {
        plus(fuel_upto(x, (n - 1) as nat), x[19 * (n - 1) + 10])
    }
}

/// Fuel cost: the thrust magnitudes added over all nodes.
pub fn fuel_only_cost<T: Real>(x: &Vec<T>, n: usize) -> (r: T)
    requires
        real_ops::<T>(),
        19 * n <= x@.len(),
    ensures
        r == fuel_upto(x@, n as nat),
{
    let mut sum: T = number(0);
    let mut k: usize = 0;
    while k < n
        invariant
            real_ops::<T>(),
            19 * n <= x@.len(),
            k <= n,
            sum == fuel_upto(x@, k as nat),
        decreases n - k,
    {
        assert(19 * k + 10 < x.len());
        sum = sum + x[19 * k + 10];
        k = k + 1;
    }
    sum
}

/// Sum of squared differences of the first `i` states of node `k`.
pub open spec fn defect_squares<T: Real>(xa: Seq<Seq<T>>, x: Seq<T>, k: int, i: nat) -> T
    decreases i,
{
    if i == 0 {
        num::<T>(0)
    } else {
        let d = minus(x[19 * k + i - 1], xa[k][i - 1]);
        plus(defect_squares(xa, x, k, (i - 1) as nat), times(d, d))
    }
}

/// Defects of the first `n` nodes, added.
pub open spec fn defect_upto<T: Real, C: Numerics<T>>(
    ops: &C,
    xa: Seq<Seq<T>>,
    x: Seq<T>,
    n: nat,
) -> T
    decreases n,
{
    if n == 0 {
        num::<T>(0)
    } else {
        plus(
            defect_upto(ops, xa, x, (n - 1) as nat),
            root_of(ops, defect_squares(xa, x, n - 1, 7)),
        )
    }
}

/// The distances between the candidate's states and the propagated ones, added
/// over all nodes.
pub fn trajectory_defect_l1<T: Real, C: Numerics<T>>(
    ops: &C,
    xa: &Mat<T>,
    x: &Vec<T>,
    n: usize,
) -> (r: T)
    requires
        real_ops::<T>(),
        functions_repeatable(ops),
        shaped(xa@, n as int, 7),
        19 * n <= x@.len(),
    ensures
        r == defect_upto(ops, xa@, x@, n as nat),
{
    let mut total: T = number(0);
    let mut k: usize = 0;
    while k < n
        invariant
            real_ops::<T>(),
            functions_repeatable(ops),
            shaped(xa@, n as int, 7),
            19 * n <= x@.len(),
            k <= n,
            total == defect_upto(ops, xa@, x@, k as nat),
        decreases n - k,
    {
        let mut sq: T = number(0);
        let mut i: usize = 0;
        assert(xa@[k as int].len() == 7);
        while i < 7
            invariant
                real_ops::<T>(),
                shaped(xa@, n as int, 7),
                xa@[k as int].len() == 7,
                19 * n <= x@.len(),
                k < n,
                i <= 7,
                sq == defect_squares(xa@, x@, k as int, i as nat),
            decreases 7 - i,
        {
            assert(19 * k + i < x.len());
            let d: T = x[19 * k + i] - xa.rows[k][i];
            sq = sq + d * d;
            i = i + 1;
        }
        total = total + sqrt_with(ops, sq);
        k = k + 1;
    }
    total
}

/// Entry `i` of node `k` of a trajectory: the states, then the controls.
pub open spec fn node_entry<T>(reference: &Trajectory<T>, k: int, i: int) -> T {
    if i < 7 {
        reference.x@[k][i]
    } else {
        reference.u@[k][i - 7]
    }
}

/// Sum of squares of the first `m` differences of states and controls.
pub open spec fn step_squares<T: Real>(x: Seq<T>, reference: &Trajectory<T>, m: nat) -> T
    decreases m,
{
    if m == 0 {
        num::<T>(0)
    } else {
        let q = m - 1;
        let d = minus(x[19 * (q / 10) + q % 10], node_entry(reference, q / 10, q % 10));
        plus(step_squares(x, reference, q as nat), times(d, d))
    }
}

/// Euclidean norm of the step in states and controls over all nodes.
pub fn step_norm<T: Real, C: Numerics<T>>(
    ops: &C,
    x: &Vec<T>,
    reference: &Trajectory<T>,
    n: usize,
) -> (r: T)
    requires
        real_ops::<T>(),
        functions_repeatable(ops),
        reference.sized(n as int),
        19 * n <= x@.len(),
    ensures
        r == root_of(ops, step_squares(x@, reference, (10 * n) as nat)),
{
    let mut sum: T = number(0);
    let mut k: usize = 0;
    while k < n
        invariant
            real_ops::<T>(),
            reference.sized(n as int),
            19 * n <= x@.len(),
            k <= n,
            sum == step_squares(x@, reference, (10 * k) as nat),
        decreases n - k,
    {
        assert(reference.x@[k as int].len() == 7 && reference.u@[k as int].len() == 3);
        let mut i: usize = 0;
        while i < 10
            invariant
                real_ops::<T>(),
                reference.sized(n as int),
                reference.x@[k as int].len() == 7,
                reference.u@[k as int].len() == 3,
                19 * n <= x@.len(),
                k < n,
                i <= 10,
                sum == step_squares(x@, reference, (10 * k + i) as nat),
            decreases 10 - i,
        {
            assert((10 * k + i) / 10 == k && (10 * k + i) % 10 == i);
            assert(19 * k + i < x.len());
            let r: T = if i < 7 {
                reference.x.rows[k][i]
            } else {
                reference.u.rows[k][i - 7]
            };
            let d: T = x[19 * k + i] - r;
            sum = sum + d * d;
            i = i + 1;
        }
        k = k + 1;
    }
    sqrt_with(ops, sum)
}

/// The states in a flat vector of unknowns.
pub open spec fn states_in<T>(x: Seq<T>, n: int) -> Seq<Seq<T>> {
    Seq::new(n as nat, |k: int| x.subrange(19 * k, 19 * k + 7))
}

/// The controls in a flat vector of unknowns.
pub open spec fn controls_in<T>(x: Seq<T>, n: int) -> Seq<Seq<T>> {
    Seq::new(n as nat, |k: int| x.subrange(19 * k + 7, 19 * k + 10))
}

/// The thrust magnitudes in a flat vector of unknowns.
pub open spec fn magnitudes_in<T>(x: Seq<T>, n: int) -> Seq<T> {
    Seq::new(n as nat, |k: int| x[19 * k + 10])
}

/// The trajectory holds the states, controls and thrust magnitudes of `x`.
pub open spec fn holds_candidate<T>(t: &Trajectory<T>, x: Seq<T>, n: int, tau: T) -> bool {
    &&& t.x@ == states_in(x, n)
    &&& t.u@ == controls_in(x, n)
    &&& t.sigma@ == magnitudes_in(x, n)
    &&& t.tau == tau
}

/// Reads the controls out of a flat vector of unknowns.
pub fn extract_controls<T: Copy>(x: &Vec<T>, n: usize) -> (u: Mat<T>)
    requires
        19 * n <= x@.len(),
    ensures
        u@ == controls_in(x@, n as int),
{
    let mut rows: Vec<Vec<T>> = Vec::new();
    let mut k: usize = 0;
    while k < n
        invariant
            19 * n <= x@.len(),
            k <= n,
            rows@.len() == k,
            forall|q: int| 0 <= q < k ==> (#[trigger] rows@[q])@ == controls_in(x@, n as int)[q],
        decreases n - k,
    {
        assert(19 * k + 10 <= x.len());
        rows.push(slice_of(x, 19 * k + 7, 3));
        k = k + 1;
    }
    let u: Mat<T> = Mat { rows };
    assert(u@ =~= controls_in(x@, n as int));
    u
}

/// Reads the trajectory out of a flat vector of unknowns.
pub fn extract_candidate<T: Copy>(x: &Vec<T>, n: usize, tau: T) -> (t: Trajectory<T>)
    requires
        19 * n <= x@.len(),
    ensures
        holds_candidate(&t, x@, n as int, tau),
        t.sized(n as int),
{
    let u: Mat<T> = extract_controls(x, n);
    let mut rows: Vec<Vec<T>> = Vec::new();
    let mut sigma: Vec<T> = Vec::new();
    let mut k: usize = 0;
    while k < n
        invariant
            19 * n <= x@.len(),
            k <= n,
            rows@.len() == k,
            sigma@.len() == k,
            forall|q: int| 0 <= q < k ==> (#[trigger] rows@[q])@ == states_in(x@, n as int)[q],
            forall|q: int| 0 <= q < k ==> #[trigger] sigma@[q] == x@[19 * q + 10],
        decreases n - k,
    {
        assert(19 * k + 10 < x.len());
        rows.push(slice_of(x, 19 * k, 7));
        sigma.push(x[19 * k + 10]);
        k = k + 1;
    }
    let xm: Mat<T> = Mat { rows };
    assert(xm@ =~= states_in(x@, n as int));
    assert(sigma@ =~= magnitudes_in(x@, n as int));
    Trajectory { x: xm, u, sigma, tau }
}

/// A copy of a trajectory.
pub fn copy_trajectory<T: Copy>(t: &Trajectory<T>) -> (r: Trajectory<T>)
    ensures
        r.x@ == t.x@,
        r.u@ == t.u@,
        r.sigma@ == t.sigma@,
        r.tau == t.tau,
{
    Trajectory {
        x: copy_mat(&t.x),
        u: copy_mat(&t.u),
        sigma: crate::linalg::copy_vec(&t.sigma),
        tau: t.tau,
    }
}

/// The flat vector that stands for a trajectory: no virtual control and no time
/// increment.
pub open spec fn seeded<T: Real>(reference: &Trajectory<T>, n: int, np: int) -> Seq<T> {
    Seq::new(
        np as nat,
        |j: int|
            if j < 19 * n && j % 19 < 10 {
                node_entry(reference, j / 19, j % 19)
            } else if j < 19 * n && j % 19 == 10 {
                reference.sigma@[j / 19]
            } else {
                num::<T>(0)
            },
    )
}

/// The flat vector that stands for a trajectory.
pub fn seed_warm_start<T: Real>(reference: &Trajectory<T>, n: usize, np: usize) -> (x: Vec<T>)
    requires
        real_ops::<T>(),
        reference.sized(n as int),
        19 * n <= np,
    ensures
        x@ == seeded(reference, n as int, np as int),
{
    let zero: T = number(0);
    let mut x: Vec<T> = Vec::new();
    let mut j: usize = 0;
    while j < np
        invariant
            reference.sized(n as int),
            19 * n <= np,
            zero == num::<T>(0),
            j <= np,
            x@.len() == j,
            forall|q: int|
                0 <= q < j ==> #[trigger] x@[q] == seeded(reference, n as int, np as int)[q],
        decreases np - j,
    {
        let v: T = if j < 19 * n {
            let k: usize = j / 19;
            let i: usize = j % 19;
            assert(k < n);
            assert(reference.x@[k as int].len() == 7 && reference.u@[k as int].len() == 3);
            if i < 7 {
                reference.x.rows[k][i]
            } else if i < 10 {
                reference.u.rows[k][i - 7]
            } else if i == 10 {
                reference.sigma[k]
            } else {
                zero
            }
        } else {
            zero
        };
        x.push(v);
        j = j + 1;
    }
    assert(x@ =~= seeded(reference, n as int, np as int));
    x
}

/// What is read out of the flat vector of a trajectory is that trajectory.
pub proof fn law_seed_holds_trajectory<T: Real>(reference: &Trajectory<T>, n: int, np: int)
    requires
        0 <= n,
        19 * n <= np,
        reference.sized(n),
    ensures
        holds_candidate(reference, seeded(reference, n, np), n, reference.tau),
{
    let x = seeded(reference, n, np);
    assert forall|k: int| 0 <= k < n implies reference.x@[k] == #[trigger] states_in(x, n)[k] by {
        assert(reference.x@[k].len() == 7);
        assert forall|i: int| 0 <= i < 7 implies reference.x@[k][i] == states_in(x, n)[k][i] by {
            assert((19 * k + i) / 19 == k && (19 * k + i) % 19 == i);
        }
        assert(reference.x@[k] =~= states_in(x, n)[k]);
    }
    assert(reference.x@ =~= states_in(x, n));
    assert forall|k: int| 0 <= k < n implies reference.u@[k] == #[trigger] controls_in(x, n)[k] by {
        assert(reference.u@[k].len() == 3);
        assert forall|i: int| 0 <= i < 3 implies reference.u@[k][i] == controls_in(x, n)[k][i] by {
            assert((19 * k + 7 + i) / 19 == k && (19 * k + 7 + i) % 19 == 7 + i);
        }
        assert(reference.u@[k] =~= controls_in(x, n)[k]);
    }
    assert(reference.u@ =~= controls_in(x, n));
    assert forall|k: int| 0 <= k < n implies reference.sigma@[k] == #[trigger] magnitudes_in(
        x,
        n,
    )[k] by {
        assert((19 * k + 10) / 19 == k && (19 * k + 10) % 19 == 10);
    }
    assert(reference.sigma@ =~= magnitudes_in(x, n));
}

} // verus!
