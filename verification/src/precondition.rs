//! Diagonal preconditioning of the subproblem.
//!
//! Column scaling replaces the variables by `x = D x'`: `c' = D c`, `A' = A D`,
//! `G' = G D`, with `b`, `h` and the cones unchanged. Cone slacks are invariant.
//!
//! Row scaling divides the slack of cone `c` by `e_c`: the cone's rows of `G` and
//! `h` are divided by it. A second-order cone is unchanged by a positive factor.
//!
//! The two act on different axes and commute.
use crate::linalg::{shaped, vscale, vec_scale, Mat};
use crate::scalar::{
    abs, larger, magnitude, max, minus, num, number, over, real_ops, times, total, Real, Scalar,
};
use crate::layout::{spec_ncones, spec_np};
use crate::types::{ConeDesc, PhysicalParams, SocpProblem};
use vstd::prelude::*;

verus! {

// ---- scales ----

/// Position scale: the largest initial coordinate, at least 100.
pub open spec fn pos_scale<T: Real>(x_init: Seq<T>) -> T {
    let z = num::<T>(0);
    larger(
        larger(
            larger(
                larger(magnitude(z, x_init[0]), magnitude(z, x_init[1])),
                magnitude(z, x_init[2]),
            ),
            num::<T>(100),
        ),
        num::<T>(1),
    )
}

/// Velocity scale: the largest initial velocity component, at least 10.
pub open spec fn vel_scale<T: Real>(x_init: Seq<T>) -> T {
    let z = num::<T>(0);
    larger(
        larger(
            larger(
                larger(magnitude(z, x_init[3]), magnitude(z, x_init[4])),
                magnitude(z, x_init[5]),
            ),
            num::<T>(10),
        ),
        num::<T>(1),
    )
}

/// Thrust scale: the upper thrust bound, at least 1.
pub open spec fn thrust_scale<T: Real>(phys: &PhysicalParams<T>) -> T {
    larger(phys.t_max, num::<T>(1))
}

/// Scale of the time increment: the width of the time-of-flight bounds, at least
/// 1.
pub open spec fn dtau_scale<T: Real>(phys: &PhysicalParams<T>) -> T {
    larger(minus(phys.tau_hi, phys.tau_lo), num::<T>(1))
}

/// The larger of three magnitudes, `floor` and one.
fn floored_max<T: Real>(a: T, b: T, c: T, floor: u32) -> (r: T)
    requires
        real_ops::<T>(),
    ensures
        r == larger(
            larger(
                larger(
                    larger(magnitude(num::<T>(0), a), magnitude(num::<T>(0), b)),
                    magnitude(num::<T>(0), c),
                ),
                num::<T>(floor),
            ),
            num::<T>(1),
        ),
{
    let z: T = number(0);
    let m: T = max(abs(z, a), abs(z, b));
    let m: T = max(m, abs(z, c));
    let m: T = max(m, number(floor));
    max(m, number(1))
}

/// Scale of a state-like component `i`: position, velocity, log-mass.
pub open spec fn state_scale<T: Real>(x_init: Seq<T>, i: int) -> T {
    if i < 3 {
        pos_scale(x_init)
    } else if i < 6 {
        vel_scale(x_init)
    } else {
        num::<T>(1)
    }
}

/// Scale of variable `j` of an `n`-node problem: states and virtual control by
/// component, thrust and its magnitude alike, the norm bound 1, then the time
/// increment.
pub open spec fn column_scale<T: Real>(
    phys: &PhysicalParams<T>,
    x_init: Seq<T>,
    n: int,
    j: int,
) -> T {
    let i = j % 19;
    if j >= 19 * n {
        dtau_scale(phys)
    } else if i < 7 {
        state_scale(x_init, i)
    } else if i < 11 {
        thrust_scale(phys)
    } else if i < 18 {
        state_scale(x_init, i - 11)
    } else {
        num::<T>(1)
    }
}

/// The per-variable scales, from physical parameters and the initial state.
/// Thrust and its magnitude share one scale, so that the thrust-magnitude cone
/// keeps its shape; virtual control follows the state it corrects.
pub fn build_scaling_diagonal<T: Real>(
    n: usize,
    phys: &PhysicalParams<T>,
    x_init: &Vec<T>,
    use_free_tf: bool,
) -> (d: Vec<T>)
    requires
        real_ops::<T>(),
        19 * n + 1 <= usize::MAX,
        x_init@.len() == 7,
    ensures
        d@ == Seq::new(
            spec_np(n as int, use_free_tf) as nat,
            |j: int| column_scale(phys, x_init@, n as int, j),
        ),
{
    let pos: T = floored_max(x_init[0], x_init[1], x_init[2], 100);
    let vel: T = floored_max(x_init[3], x_init[4], x_init[5], 10);
    let mass: T = number(1);
    let thrust: T = max(phys.t_max, number(1));
    let mut d: Vec<T> = Vec::new();
    let mut k: usize = 0;
    while k < n
        invariant
            real_ops::<T>(),
            19 * n + 1 <= usize::MAX,
            pos == pos_scale(x_init@),
            vel == vel_scale(x_init@),
            mass == num::<T>(1),
            thrust == thrust_scale(phys),
            k <= n,
            d@.len() == 19 * k,
            forall|j: int|
                0 <= j < 19 * k ==> #[trigger] d@[j] == column_scale(phys, x_init@, n as int, j),
        decreases n - k,
    {
        let mut i: usize = 0;
        while i < 19
            invariant
                real_ops::<T>(),
                19 * n + 1 <= usize::MAX,
                pos == pos_scale(x_init@),
                vel == vel_scale(x_init@),
                mass == num::<T>(1),
                thrust == thrust_scale(phys),
                k < n,
                i <= 19,
                d@.len() == 19 * k + i,
                forall|j: int|
                    0 <= j < 19 * k + i ==> #[trigger] d@[j] == column_scale(
                        phys,
                        x_init@,
                        n as int,
                        j,
                    ),
            decreases 19 - i,
        {
            assert((19 * k + i) % 19 == i);
            let v: T = if i < 3 || (11 <= i && i < 14) {
                pos
            } else if i < 6 || (14 <= i && i < 17) {
                vel
            } else if i == 6 || i >= 17 {
                mass
            } else {
                thrust
            };
            d.push(v);
            i = i + 1;
        }
        k = k + 1;
    }
    if use_free_tf {
        let range: T = phys.tau_hi - phys.tau_lo;
        d.push(max(range, number(1)));
    }
    assert(d@ =~= Seq::new(
        spec_np(n as int, use_free_tf) as nat,
        |j: int| column_scale(phys, x_init@, n as int, j),
    ));
    d
}

/// Slack scale of cone `c` of an `n`-node problem.
pub open spec fn cone_scale<T: Real>(
    phys: &PhysicalParams<T>,
    x_init: Seq<T>,
    trust_eta: T,
    n: int,
    c: int,
) -> T {
    let j = c % 8;
    if c >= 8 * n {
        dtau_scale(phys)
    } else if j == 2 || j == 7 {
        num::<T>(1)
    } else if j == 3 {
        pos_scale(x_init)
    } else if j == 6 {
        larger(trust_eta, num::<T>(1))
    } else {
        thrust_scale(phys)
    }
}

/// The per-cone slack scales. The trust cone's follows the current trust radius,
/// the size of its slack where the step is small.
pub fn build_cone_scale_diagonal<T: Real>(
    n: usize,
    phys: &PhysicalParams<T>,
    x_init: &Vec<T>,
    trust_eta: T,
    use_free_tf: bool,
) -> (e: Vec<T>)
    requires
        real_ops::<T>(),
        8 * n + 2 <= usize::MAX,
        x_init@.len() == 7,
    ensures
        e@ == Seq::new(
            spec_ncones(n as int, use_free_tf) as nat,
            |c: int| cone_scale(phys, x_init@, trust_eta, n as int, c),
        ),
{
    let pos: T = floored_max(x_init[0], x_init[1], x_init[2], 100);
    let one: T = number(1);
    let thrust: T = max(phys.t_max, number(1));
    let trust: T = max(trust_eta, number(1));
    let mut e: Vec<T> = Vec::new();
    let mut k: usize = 0;
    while k < n
        invariant
            8 * n + 2 <= usize::MAX,
            pos == pos_scale(x_init@),
            one == num::<T>(1),
            thrust == thrust_scale(phys),
            trust == larger(trust_eta, num::<T>(1)),
            k <= n,
            e@.len() == 8 * k,
            forall|c: int|
                0 <= c < 8 * k ==> #[trigger] e@[c] == cone_scale(
                    phys,
                    x_init@,
                    trust_eta,
                    n as int,
                    c,
                ),
        decreases n - k,
    {
        let mut j: usize = 0;
        while j < 8
            invariant
                8 * n + 2 <= usize::MAX,
                pos == pos_scale(x_init@),
                one == num::<T>(1),
                thrust == thrust_scale(phys),
                trust == larger(trust_eta, num::<T>(1)),
                k < n,
                j <= 8,
                e@.len() == 8 * k + j,
                forall|c: int|
                    0 <= c < 8 * k + j ==> #[trigger] e@[c] == cone_scale(
                        phys,
                        x_init@,
                        trust_eta,
                        n as int,
                        c,
                    ),
            decreases 8 - j,
        {
            assert((8 * k + j) % 8 == j);
            let v: T = if j == 2 || j == 7 {
                one
            } else if j == 3 {
                pos
            } else if j == 6 {
                trust
            } else {
                thrust
            };
            e.push(v);
            j = j + 1;
        }
        k = k + 1;
    }
    if use_free_tf {
        let range: T = phys.tau_hi - phys.tau_lo;
        let r: T = max(range, number(1));
        e.push(r);
        e.push(r);
    }
    assert(e@ =~= Seq::new(
        spec_ncones(n as int, use_free_tf) as nat,
        |c: int| cone_scale(phys, x_init@, trust_eta, n as int, c),
    ));
    e
}

// ---- applying scales ----

/// Entrywise product.
pub open spec fn hadamard<T: Scalar>(a: Seq<T>, d: Seq<T>) -> Seq<T> {
    Seq::new(a.len(), |j: int| times(a[j], d[j]))
}

/// Every row of `m` times `d`, entry by entry: column `j` is scaled by `d[j]`.
pub open spec fn columns_scaled<T: Scalar>(m: Seq<Seq<T>>, d: Seq<T>) -> Seq<Seq<T>> {
    Seq::new(m.len(), |i: int| hadamard(m[i], d))
}

/// Entrywise product.
fn hadamard_of<T: Scalar>(a: &Vec<T>, d: &Vec<T>) -> (r: Vec<T>)
    requires
        total::<T>(),
        a@.len() == d@.len(),
    ensures
        r@ == hadamard(a@, d@),
{
    let mut r: Vec<T> = Vec::new();
    let mut j: usize = 0;
    while j < a.len()
        invariant
            total::<T>(),
            a@.len() == d@.len(),
            j <= a@.len(),
            r@.len() == j,
            forall|q: int| 0 <= q < j ==> #[trigger] r@[q] == times(a@[q], d@[q]),
        decreases a.len() - j,
    {
        let v: T = a[j] * d[j];
        r.push(v);
        j = j + 1;
    }
    assert(r@ =~= hadamard(a@, d@));
    r
}

/// Scales column `j` of `m` by `d[j]`.
fn scale_columns<T: Scalar>(m: &Mat<T>, d: &Vec<T>) -> (r: Mat<T>)
    requires
        total::<T>(),
        shaped(m@, m@.len() as int, d@.len() as int),
    ensures
        r@ == columns_scaled(m@, d@),
        shaped(r@, m@.len() as int, d@.len() as int),
{
    let mut rows: Vec<Vec<T>> = Vec::new();
    let mut i: usize = 0;
    while i < m.rows.len()
        invariant
            total::<T>(),
            shaped(m@, m@.len() as int, d@.len() as int),
            i <= m.rows.len(),
            rows@.len() == i,
            forall|q: int|
                0 <= q < i ==> (#[trigger] rows@[q])@ == hadamard(m@[q], d@) && rows@[q]@.len()
                    == d@.len(),
        decreases m.rows.len() - i,
    {
        assert(m@[i as int].len() == d@.len());
        let row: Vec<T> = hadamard_of(&m.rows[i], d);
        rows.push(row);
        i = i + 1;
    }
    let r: Mat<T> = Mat { rows };
    assert(r@ =~= columns_scaled(m@, d@));
    r
}

/// Column-scales the problem in place: `c`, `a_mat` and `g_mat` by `d`; `b`, `h`
/// and the cones stay.
pub fn scale_socp_in_place<T: Scalar>(prob: &mut SocpProblem<T>, d: &Vec<T>)
    requires
        total::<T>(),
        old(prob).sized(d@.len() as int, old(prob).b@.len() as int, old(prob).h@.len() as int),
    ensures
        final(prob).c@ == hadamard(old(prob).c@, d@),
        final(prob).a_mat@ == columns_scaled(old(prob).a_mat@, d@),
        final(prob).g_mat@ == columns_scaled(old(prob).g_mat@, d@),
        final(prob).b@ == old(prob).b@,
        final(prob).h@ == old(prob).h@,
        final(prob).cones@ == old(prob).cones@,
        final(prob).sized(
            d@.len() as int,
            old(prob).b@.len() as int,
            old(prob).h@.len() as int,
        ),
{
    let c: Vec<T> = hadamard_of(&prob.c, d);
    prob.c = c;
    let a_mat: Mat<T> = scale_columns(&prob.a_mat, d);
    prob.a_mat = a_mat;
    let g_mat: Mat<T> = scale_columns(&prob.g_mat, d);
    prob.g_mat = g_mat;
}

/// Takes a solution back to original units: `x_out = d x_scaled`, entry by entry.
pub fn unscale_solution<T: Scalar>(x_scaled: &Vec<T>, d: &Vec<T>, x_out: &mut Vec<T>)
    requires
        total::<T>(),
        x_scaled@.len() == d@.len(),
    ensures
        final(x_out)@ == hadamard(x_scaled@, d@),
{
    *x_out = hadamard_of(x_scaled, d);
}

/// Entrywise quotient.
pub open spec fn quotients<T: Scalar>(a: Seq<T>, d: Seq<T>) -> Seq<T> {
    Seq::new(a.len(), |j: int| over(a[j], d[j]))
}

/// Takes a vector in original units to scaled ones, in place.
pub fn scale_warm_start_in_place<T: Scalar>(x_inout: &mut Vec<T>, d: &Vec<T>)
    requires
        total::<T>(),
        old(x_inout)@.len() == d@.len(),
    ensures
        final(x_inout)@ == quotients(old(x_inout)@, d@),
{
    let ghost start = x_inout@;
    let mut j: usize = 0;
    while j < d.len()
        invariant
            total::<T>(),
            start.len() == d@.len(),
            x_inout@.len() == d@.len(),
            j <= d@.len(),
            forall|q: int|
                0 <= q < d@.len() ==> #[trigger] x_inout@[q] == (if q < j {
                    over(start[q], d@[q])
                } else {
                    start[q]
                }),
        decreases d.len() - j,
    {
        let v: T = x_inout[j] / d[j];
        x_inout[j] = v;
        j = j + 1;
    }
    assert(x_inout@ =~= quotients(start, d@));
}

/// `1 / e`, the factor that cone scale `e` puts on its rows.
pub open spec fn row_factor<T: Real>(e: T) -> T {
    over(num::<T>(1), e)
}

/// Row `r` of `g` after the first `c` cones have been scaled.
pub open spec fn row_scaled<T: Real>(
    row: Seq<T>,
    cones: Seq<ConeDesc>,
    e: Seq<T>,
    r: int,
    c: nat,
) -> Seq<T>
    decreases c,
{
    if c == 0 {
        row
    } else {
        let before = row_scaled(row, cones, e, r, (c - 1) as nat);
        let cone = cones[c - 1];
        if cone.offset <= r < cone.offset + cone.dim {
            vscale(before, row_factor(e[c - 1]))
        } else {
            before
        }
    }
}

/// Entry `r` of `h` after the first `c` cones have been scaled.
pub open spec fn entry_scaled<T: Real>(
    v: T,
    cones: Seq<ConeDesc>,
    e: Seq<T>,
    r: int,
    c: nat,
) -> T
    decreases c,
{
    if c == 0 {
        v
    } else {
        let before = entry_scaled(v, cones, e, r, (c - 1) as nat);
        let cone = cones[c - 1];
        if cone.offset <= r < cone.offset + cone.dim {
            times(before, row_factor(e[c - 1]))
        } else {
            before
        }
    }
}

/// Divides the rows of each cone, in `g_mat` and in `h`, by the cone's scale.
/// Everything else stays. Scales are meant to be positive, as those of
/// `build_cone_scale_diagonal` are.
pub fn scale_cone_rows_in_place<T: Real>(prob: &mut SocpProblem<T>, e: &Vec<T>)
    requires
        real_ops::<T>(),
        e@.len() == old(prob).cones@.len(),
        old(prob).sized(
            old(prob).c@.len() as int,
            old(prob).b@.len() as int,
            old(prob).h@.len() as int,
        ),
        old(prob).cones_fit(old(prob).h@.len() as int),
    ensures
        final(prob).sized(
            old(prob).c@.len() as int,
            old(prob).b@.len() as int,
            old(prob).h@.len() as int,
        ),
        final(prob).c@ == old(prob).c@,
        final(prob).a_mat@ == old(prob).a_mat@,
        final(prob).b@ == old(prob).b@,
        final(prob).cones@ == old(prob).cones@,
        forall|r: int|
            0 <= r < old(prob).h@.len() ==> #[trigger] final(prob).g_mat@[r] == row_scaled(
                old(prob).g_mat@[r],
                old(prob).cones@,
                e@,
                r,
                e@.len(),
            ),
        forall|r: int|
            0 <= r < old(prob).h@.len() ==> #[trigger] final(prob).h@[r] == entry_scaled(
                old(prob).h@[r],
                old(prob).cones@,
                e@,
                r,
                e@.len(),
            ),
{
    let ghost np = prob.c@.len() as int;
    let ghost nct = prob.h@.len() as int;
    let ghost g0 = prob.g_mat@;
    let ghost h0 = prob.h@;
    let ghost cones = prob.cones@;
    let mut c: usize = 0;
    while c < e.len()
        invariant
            real_ops::<T>(),
            e@.len() == cones.len(),
            prob.cones@ == cones,
            prob.c@ == old(prob).c@,
            prob.a_mat@ == old(prob).a_mat@,
            prob.b@ == old(prob).b@,
            shaped(prob.g_mat@, nct, np),
            prob.h@.len() == nct,
            prob.cones_fit(nct),
            c <= e@.len(),
            forall|r: int|
                0 <= r < nct ==> #[trigger] prob.g_mat@[r] == row_scaled(
                    g0[r],
                    cones,
                    e@,
                    r,
                    c as nat,
                ),
            forall|r: int|
                0 <= r < nct ==> #[trigger] prob.h@[r] == entry_scaled(
                    h0[r],
                    cones,
                    e@,
                    r,
                    c as nat,
                ),
        decreases e.len() - c,
    {
        let cone: ConeDesc = prob.cones[c];
        assert(prob.cones@[c as int].offset + prob.cones@[c as int].dim <= nct);
        let one: T = number(1);
        let inv_e: T = one / e[c];
        let ghost g1 = prob.g_mat@;
        let ghost h1 = prob.h@;
        let mut i: usize = 0;
        while i < cone.dim
            invariant
                real_ops::<T>(),
                cone.offset + cone.dim <= nct,
                prob.cones@ == cones,
                prob.c@ == old(prob).c@,
                prob.a_mat@ == old(prob).a_mat@,
                prob.b@ == old(prob).b@,
                shaped(prob.g_mat@, nct, np),
                prob.h@.len() == nct,
                g1.len() == nct,
                h1.len() == nct,
                i <= cone.dim,
                forall|r: int|
                    0 <= r < nct ==> #[trigger] prob.g_mat@[r] == (if cone.offset <= r < cone.offset
                        + i {
                        vscale(g1[r], inv_e)
                    } else {
                        g1[r]
                    }),
                forall|r: int|
                    0 <= r < nct ==> #[trigger] prob.h@[r] == (if cone.offset <= r < cone.offset
                        + i {
                        times(h1[r], inv_e)
                    } else {
                        h1[r]
                    }),
            decreases cone.dim - i,
        {
            assert(cone.offset + i < prob.h.len());
            let r: usize = cone.offset + i;
            let ghost before = prob.g_mat@;
            assert(before[r as int].len() == np);
            let row: Vec<T> = vec_scale(&prob.g_mat.rows[r], inv_e);
            let v: T = prob.h[r] * inv_e;
            assert(prob.g_mat@[r as int] == g1[r as int]);
            assert(prob.h@[r as int] == h1[r as int]);
            prob.g_mat.rows[r] = row;
            prob.h[r] = v;
            proof {
                assert forall|q: int| 0 <= q < nct implies #[trigger] prob.g_mat@[q] == (
                if cone.offset <= q < cone.offset + i + 1 {
                    vscale(g1[q], inv_e)
                } else {
                    g1[q]
                }) by {
                    if q != r {
                        assert(prob.g_mat@[q] == before[q]);
                    }
                }
                assert forall|q: int| 0 <= q < nct implies (#[trigger] prob.g_mat@[q]).len()
                    == np by {
                    assert(before[q].len() == np);
                }
            }
            i = i + 1;
        }
        c = c + 1;
    }
}

} // verus!
