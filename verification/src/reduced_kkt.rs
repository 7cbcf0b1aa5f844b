//! Structured solve of the reduced optimality system
//!
//! ```text
//!   [ H  A' ] [ dz   ]   [ b_x ]
//!   [ A  0  ] [ dlam ] = [ b_a ]
//! ```
//!
//! of a successive-convexification subproblem, with `H = G' M G + reg I`. Every
//! cone of a node touches that node's variables only, so `H` has one 19 by 19
//! block per node; every row block of `A` touches at most two neighbouring
//! nodes, so `S = A inv(H) A'` is block tridiagonal. Row block 0 is the initial
//! state, row block `k` the transition into node `k`, row block `n` the terminal
//! condition, padded from 6 rows to 7.
//!
//! A factor holds all that does not depend on the right-hand side, so that one
//! factor serves several right-hand sides.
use crate::linalg::{
    constant, fill_mat, fill_vec, filled, madd, mat_add, mat_mul, mat_sub, mat_t_times_vec,
    mat_t_vec, mat_times_mat, mat_times_vec, mat_vec, msub, shaped, slice_of, transpose, transposed,
    vadd, vec_add, vec_sub, vsub, Mat,
};
use crate::numerics::{invert_with, inverse_of, inversion_repeatable, Numerics};
use crate::scalar::{total, Scalar, Units};
use crate::stage_blocks::{
    a_block, build_stage_h_blocks, build_stage_h_blocks_block_m, extract_dynamics_blocks,
    get_a_block_static, is_dynamics_of, rb_touches, stage_hessian, stage_hessian_diag, stages_of_rb,
    DynamicsBlock, NZ,
};
use crate::types::SocpProblem;
use vstd::prelude::*;

verus! {

/// Largest number of row blocks, one more than the largest number of nodes.
pub const RB_MAX: usize = 64;

/// Outcome of a structured solve.
#[derive(Clone, Copy, PartialEq, Eq, Debug, Structural)]
pub enum ReducedKktStatus {
    Okay,
    /// A node's Hessian block has no inverse.
    HNotPd,
    /// A pivot of the block-tridiagonal elimination has no inverse.
    SchurSingular,
    /// No nodes, or more than the row-block limit allows.
    DegenerateInput,
}

impl ReducedKktStatus {
    /// Numeric code of the status.
    pub fn as_u32(self) -> (r: u32)
        ensures
            r == (match self {
                ReducedKktStatus::Okay => 0u32,
                ReducedKktStatus::HNotPd => 1u32,
                ReducedKktStatus::SchurSingular => 2u32,
                ReducedKktStatus::DegenerateInput => 3u32,
            }),
    {
        match self {
            ReducedKktStatus::Okay => 0,
            ReducedKktStatus::HNotPd => 1,
            ReducedKktStatus::SchurSingular => 2,
            ReducedKktStatus::DegenerateInput => 3,
        }
    }
}

/// For each node, the range of cones that touch its variables.
pub struct ScvxStageDesc<const NCONES: usize> {
    pub cones_per_stage_lo: [usize; NCONES],
    pub cones_per_stage_hi: [usize; NCONES],
}

// ---- the Schur complement ----

/// The models of a list of matrices.
pub open spec fn views<T>(v: Seq<Mat<T>>) -> Seq<Seq<Seq<T>>> {
    Seq::new(v.len(), |k: int| v[k]@)
}

/// Every matrix of `v` is `d` by `d`.
pub open spec fn all_square<T>(v: Seq<Seq<Seq<T>>>, d: int) -> bool {
    forall|k: int| 0 <= k < v.len() ==> shaped(#[trigger] v[k], d, d)
}

/// `a (h_inv b')` for 7 by 19 blocks `a` and `b`.
pub open spec fn sandwich<T: Scalar>(
    z: T,
    a: Seq<Seq<T>>,
    h_inv: Seq<Seq<T>>,
    b: Seq<Seq<T>>,
) -> Seq<Seq<T>> {
    mat_mul(z, a, mat_mul(z, h_inv, transpose(b, 19), 7), 7)
}

/// First node that row block `rb` touches.
pub open spec fn first_stage(rb: int) -> int {
    if rb == 0 {
        0
    } else {
        rb - 1
    }
}

/// Diagonal block `rb` of the Schur complement `A inv(H) A'`. The terminal block's
/// padding row gets a one on the diagonal.
pub open spec fn schur_diagonal<T: Scalar>(
    units: Units<T>,
    a: Seq<Seq<T>>,
    h_inv: Seq<Seq<Seq<T>>>,
    n: int,
    rb: int,
) -> Seq<Seq<T>> {
    let s = first_stage(rb);
    let a0 = a_block(units.zero, a, n, rb, s);
    let d0 = madd(filled(units.zero, 7, 7), sandwich(units.zero, a0, h_inv[s], a0));
    if 0 < rb < n {
        let a1 = a_block(units.zero, a, n, rb, rb);
        madd(d0, sandwich(units.zero, a1, h_inv[rb], a1))
    } else if rb == n {
        d0.update(6, d0[6].update(6, units.one))
    } else {
        d0
    }
}

/// Block of the Schur complement that couples row block `rb` to `rb + 1`; node
/// `rb` is the one they share.
pub open spec fn schur_upper<T: Scalar>(
    z: T,
    a: Seq<Seq<T>>,
    h_inv: Seq<Seq<Seq<T>>>,
    n: int,
    rb: int,
) -> Seq<Seq<T>> {
    sandwich(z, a_block(z, a, n, rb, rb), h_inv[rb], a_block(z, a, n, rb + 1, rb))
}

/// Block that couples row block `rb + 1` back to `rb`.
pub open spec fn schur_lower<T: Scalar>(
    z: T,
    a: Seq<Seq<T>>,
    h_inv: Seq<Seq<Seq<T>>>,
    n: int,
    rb: int,
) -> Seq<Seq<T>> {
    sandwich(z, a_block(z, a, n, rb + 1, rb), h_inv[rb], a_block(z, a, n, rb, rb))
}

/// What remains of diagonal block `k` once the row block above it is eliminated
/// with the pivot inverse `above`.
pub open spec fn reduced_pivot<T: Scalar>(
    units: Units<T>,
    a: Seq<Seq<T>>,
    h_inv: Seq<Seq<Seq<T>>>,
    n: int,
    k: int,
    above: Seq<Seq<T>>,
) -> Seq<Seq<T>> {
    msub(
        schur_diagonal(units, a, h_inv, n, k),
        mat_mul(
            units.zero,
            schur_lower(units.zero, a, h_inv, n, k - 1),
            mat_mul(units.zero, above, schur_upper(units.zero, a, h_inv, n, k - 1), 7),
            7,
        ),
    )
}

/// Pivot `k` of the elimination.
pub open spec fn pivot<T: Scalar, C: Numerics<T>>(
    units: Units<T>,
    ops: &C,
    a: Seq<Seq<T>>,
    h_inv: Seq<Seq<Seq<T>>>,
    n: int,
    k: nat,
) -> Seq<Seq<T>>
    decreases k,
{
    if k == 0 {
        schur_diagonal(units, a, h_inv, n, 0)
    } else {
        reduced_pivot(
            units,
            a,
            h_inv,
            n,
            k as int,
            inverse_of(ops, pivot(units, ops, a, h_inv, n, (k - 1) as nat))->0,
        )
    }
}

/// What a factor stands for: the inverses of the nodes' Hessian blocks and of the
/// elimination's pivots.
#[verifier::ext_equal]
pub struct FactorModel<T> {
    pub h_inv: Seq<Seq<Seq<T>>>,
    pub d_inv: Seq<Seq<Seq<T>>>,
}

/// The inverses of the nodes' Hessian blocks `h`.
pub open spec fn hessian_inverses<T: Scalar, C: Numerics<T>>(
    ops: &C,
    h: Seq<Seq<Seq<T>>>,
) -> Seq<Seq<Seq<T>>> {
    Seq::new(h.len(), |k: int| inverse_of(ops, h[k])->0)
}

/// Every node's Hessian block has an inverse.
pub open spec fn hessians_invertible<T: Scalar, C: Numerics<T>>(
    ops: &C,
    h: Seq<Seq<Seq<T>>>,
) -> bool {
    forall|k: int| 0 <= k < h.len() ==> inverse_of(ops, #[trigger] h[k]) is Some
}

/// Every pivot of the elimination has an inverse.
pub open spec fn pivots_invertible<T: Scalar, C: Numerics<T>>(
    units: Units<T>,
    ops: &C,
    a: Seq<Seq<T>>,
    h_inv: Seq<Seq<Seq<T>>>,
    n: int,
) -> bool {
    forall|k: nat|
        k <= n ==> inverse_of(ops, #[trigger] pivot(units, ops, a, h_inv, n, k)) is Some
}

/// The pivots of the elimination, from the top.
pub open spec fn pivots<T: Scalar, C: Numerics<T>>(
    units: Units<T>,
    ops: &C,
    a: Seq<Seq<T>>,
    h_inv: Seq<Seq<Seq<T>>>,
    n: int,
) -> Seq<Seq<Seq<T>>> {
    Seq::new((n + 1) as nat, |k: int| pivot(units, ops, a, h_inv, n, k as nat))
}

/// Inverting `blocks` in turn stopped at block `k`, the first without an inverse:
/// in `after` the inverses of the blocks before it stand over the first `k`
/// entries of `before`, and the others are those of `before`.
pub open spec fn stopped_at<T: Scalar, C: Numerics<T>>(
    ops: &C,
    blocks: Seq<Seq<Seq<T>>>,
    before: Seq<Mat<T>>,
    after: Seq<Mat<T>>,
    k: int,
) -> bool {
    &&& 0 <= k < blocks.len()
    &&& inverse_of(ops, blocks[k]) is None
    &&& after.len() == if k < before.len() {
        before.len() as int
    } else {
        k
    }
    &&& forall|q: int| 0 <= q < k ==> inverse_of(ops, blocks[q]) == Some((#[trigger] after[q])@)
    &&& forall|q: int| k <= q < after.len() ==> #[trigger] after[q] == before[q]
}

/// The factor of the structured system with equality matrix `a` and node Hessians
/// `h`.
pub open spec fn factor_model<T: Scalar, C: Numerics<T>>(
    units: Units<T>,
    ops: &C,
    a: Seq<Seq<T>>,
    h: Seq<Seq<Seq<T>>>,
    n: int,
) -> FactorModel<T> {
    let h_inv = hessian_inverses(ops, h);
    FactorModel {
        h_inv,
        d_inv: Seq::new(
            (n + 1) as nat,
            |k: int| inverse_of(ops, pivot(units, ops, a, h_inv, n, k as nat))->0,
        ),
    }
}

/// Everything about a structured system that does not depend on the right-hand
/// side.
pub struct ReducedKktFactor<T> {
    /// Inverse of each node's Hessian block.
    pub h_inv: Vec<Mat<T>>,
    /// Transition blocks of the equality matrix.
    pub dyn_blocks: Vec<DynamicsBlock<T>>,
    /// Inverses of the elimination's pivots.
    pub d_tilde_inv: Vec<Mat<T>>,
    /// Blocks above the diagonal of the Schur complement.
    pub u_blocks: Vec<Mat<T>>,
    /// Blocks below the diagonal.
    pub l_blocks: Vec<Mat<T>>,
    /// Number of row blocks.
    pub nrb: usize,
}

impl<T> View for ReducedKktFactor<T> {
    type V = FactorModel<T>;

    open spec fn view(&self) -> FactorModel<T> {
        FactorModel { h_inv: views(self.h_inv@), d_inv: views(self.d_tilde_inv@) }
    }
}

impl<T: Scalar> ReducedKktFactor<T> {
    /// An empty factor.
    pub fn new() -> (f: Self)
        ensures
            f.is_blank(),
    {
        ReducedKktFactor {
            h_inv: Vec::new(),
            dyn_blocks: Vec::new(),
            d_tilde_inv: Vec::new(),
            u_blocks: Vec::new(),
            l_blocks: Vec::new(),
            nrb: 0,
        }
    }

    /// The factor holds nothing.
    pub open spec fn is_blank(&self) -> bool {
        &&& self.h_inv@ == Seq::<Mat<T>>::empty()
        &&& self.dyn_blocks@ == Seq::<DynamicsBlock<T>>::empty()
        &&& self.d_tilde_inv@ == Seq::<Mat<T>>::empty()
        &&& self.u_blocks@ == Seq::<Mat<T>>::empty()
        &&& self.l_blocks@ == Seq::<Mat<T>>::empty()
        &&& self.nrb == 0
    }

    /// The factor belongs to the `n`-node equality matrix `a`: its cached blocks
    /// are those of `a` and of the Schur complement.
    pub open spec fn belongs_to(&self, zero: T, a: Seq<Seq<T>>, n: int) -> bool {
        &&& self.nrb == n + 1
        &&& self@.h_inv.len() == n
        &&& self@.d_inv.len() == n + 1
        &&& all_square(self@.h_inv, 19)
        &&& all_square(self@.d_inv, 7)
        &&& is_dynamics_of(zero, a, n, self.dyn_blocks@)
        &&& couplings_cached(zero, a, self@.h_inv, n, self.u_blocks@, self.l_blocks@, n)
    }

    /// What factoring an `n`-node system makes of `before` where one of the node
    /// Hessians `h` has no inverse: the number of row blocks and the inverses found
    /// until then are written, and nothing else.
    pub open spec fn stopped_at_hessian<C: Numerics<T>>(
        &self,
        before: &Self,
        ops: &C,
        h: Seq<Seq<Seq<T>>>,
        n: int,
    ) -> bool {
        &&& self.nrb == n + 1
        &&& exists|k: int| stopped_at(ops, h, before.h_inv@, self.h_inv@, k)
        &&& self.dyn_blocks == before.dyn_blocks
        &&& self.d_tilde_inv == before.d_tilde_inv
        &&& self.u_blocks == before.u_blocks
        &&& self.l_blocks == before.l_blocks
    }

    /// What factoring an `n`-node system makes of `before` where the node Hessians
    /// `h` have inverses and one of the pivots has none: all but the inverses of
    /// the pivots from that one on is written.
    pub open spec fn stopped_at_pivot<C: Numerics<T>>(
        &self,
        before: &Self,
        units: Units<T>,
        ops: &C,
        a: Seq<Seq<T>>,
        h: Seq<Seq<Seq<T>>>,
        n: int,
    ) -> bool {
        &&& self.nrb == n + 1
        &&& self@.h_inv == hessian_inverses(ops, h)
        &&& is_dynamics_of(units.zero, a, n, self.dyn_blocks@)
        &&& couplings_cached(units.zero, a, self@.h_inv, n, self.u_blocks@, self.l_blocks@, n)
        &&& exists|k: int|
            stopped_at(
                ops,
                pivots(units, ops, a, self@.h_inv, n),
                before.d_tilde_inv@,
                self.d_tilde_inv@,
                k,
            )
    }
}

/// The first `m` coupling blocks are those of the Schur complement.
pub open spec fn couplings_cached<T: Scalar>(
    zero: T,
    a: Seq<Seq<T>>,
    h_inv: Seq<Seq<Seq<T>>>,
    n: int,
    upper: Seq<Mat<T>>,
    lower: Seq<Mat<T>>,
    m: int,
) -> bool {
    &&& upper.len() == m
    &&& lower.len() == m
    &&& forall|k: int|
        0 <= k < m ==> shaped((#[trigger] upper[k])@, 7, 7) && upper[k]@ == schur_upper(
            zero,
            a,
            h_inv,
            n,
            k,
        )
    &&& forall|k: int|
        0 <= k < m ==> shaped((#[trigger] lower[k])@, 7, 7) && lower[k]@ == schur_lower(
            zero,
            a,
            h_inv,
            n,
            k,
        )
}

/// Writes `v` over the first entries of `before`, which grows where it is shorter.
fn write_over<X>(before: &mut Vec<X>, v: Vec<X>)
    ensures
        final(before)@.len() == if v@.len() < old(before)@.len() {
            old(before)@.len()
        } else {
            v@.len()
        },
        forall|q: int| 0 <= q < v@.len() ==> #[trigger] final(before)@[q] == v@[q],
        forall|q: int|
            v@.len() <= q < final(before)@.len() ==> old(before)@[q]
                == #[trigger] final(before)@[q],
{
    let mut v: Vec<X> = v;
    if v.len() < before.len() {
        let mut rest: Vec<X> = before.split_off(v.len());
        v.append(&mut rest);
    }
    *before = v;
}

/// Inverts every block in turn, up to the first that has no inverse. Returns the
/// inverses, and whether every block has one.
fn invert_all<T: Scalar, C: Numerics<T>>(ops: &C, blocks: &Vec<Mat<T>>) -> (r: (
    Vec<Mat<T>>,
    bool,
))
    requires
        inversion_repeatable(ops),
        all_square(views(blocks@), 19),
    ensures
        r.1 <==> hessians_invertible(ops, views(blocks@)),
        r.1 ==> views(r.0@) == hessian_inverses(ops, views(blocks@)) && all_square(
            views(r.0@),
            19,
        ),
        !r.1 ==> stopped_at(
            ops,
            views(blocks@),
            Seq::<Mat<T>>::empty(),
            r.0@,
            r.0@.len() as int,
        ),
{
    let ghost h = views(blocks@);
    let mut out: Vec<Mat<T>> = Vec::new();
    let mut k: usize = 0;
    while k < blocks.len()
        invariant
            inversion_repeatable(ops),
            h == views(blocks@),
            all_square(h, 19),
            k <= blocks@.len(),
            out@.len() == k,
            forall|q: int|
                0 <= q < k ==> shaped((#[trigger] out@[q])@, 19, 19) && inverse_of(ops, h[q])
                    == Some(out@[q]@),
        decreases blocks.len() - k,
    {
        assert(shaped(h[k as int], 19, 19));
        match invert_with(ops, &blocks[k]) {
            Some(m) => {
                out.push(m);
            },
            None => {
                assert(inverse_of(ops, h[k as int]) is None);
                return (out, false);
            },
        }
        k = k + 1;
    }
    assert forall|q: int| 0 <= q < h.len() implies inverse_of(ops, #[trigger] h[q]) is Some by {
        assert(inverse_of(ops, h[q]) == Some(out@[q]@));
    }
    assert(views(out@) =~= hessian_inverses(ops, h)) by {
        assert forall|q: int| 0 <= q < h.len() implies views(out@)[q] == hessian_inverses(
            ops,
            h,
        )[q] by {
            assert(inverse_of(ops, h[q]) == Some(out@[q]@));
        }
    }
    (out, true)
}

/// `a (h_inv b')` for 7 by 19 blocks `a` and `b`.
fn sandwich_of<T: Scalar>(z: T, a: &Mat<T>, h_inv: &Mat<T>, b: &Mat<T>) -> (r: Mat<T>)
    requires
        total::<T>(),
        shaped(a@, 7, 19),
        shaped(h_inv@, 19, 19),
        shaped(b@, 7, 19),
    ensures
        r@ == sandwich(z, a@, h_inv@, b@),
        shaped(r@, 7, 7),
{
    let bt: Mat<T> = transposed(b, NZ);
    let hb: Mat<T> = mat_times_mat(z, h_inv, &bt, 7);
    mat_times_mat(z, a, &hb, 7)
}

/// Diagonal block `rb` of the Schur complement.
fn schur_diagonal_of<T: Scalar>(
    units: Units<T>,
    prob: &SocpProblem<T>,
    dyn_blocks: &Vec<DynamicsBlock<T>>,
    h_inv: &Vec<Mat<T>>,
    n: usize,
    np: usize,
    rb: usize,
) -> (d: Mat<T>)
    requires
        total::<T>(),
        n >= 1,
        19 * n <= np,
        shaped(prob.a_mat@, 7 * n + 6, np as int),
        is_dynamics_of(units.zero, prob.a_mat@, n as int, dyn_blocks@),
        h_inv@.len() == n,
        all_square(views(h_inv@), 19),
        rb <= n,
    ensures
        d@ == schur_diagonal(units, prob.a_mat@, views(h_inv@), n as int, rb as int),
        shaped(d@, 7, 7),
{
    let ghost hv = views(h_inv@);
    let mut d: Mat<T> = fill_mat(units.zero, 7, 7);
    let (s0, s1): (Option<usize>, Option<usize>) = stages_of_rb(n, rb);
    let ghost fs = first_stage(rb as int) as usize;
    assert(rb_touches(n as int, rb as int, fs as int));
    if let Some(s) = s0 {
        assert(rb_touches(n as int, rb as int, s as int));
        assert(s == first_stage(rb as int));
        assert(shaped(hv[s as int], 19, 19));
        let a: Mat<T> = get_a_block_static(units.zero, prob, dyn_blocks, n, np, rb, s);
        let p: Mat<T> = sandwich_of(units.zero, &a, &h_inv[s], &a);
        d = mat_add(&d, &p, 7);
    }
    if let Some(s) = s1 {
        assert(rb_touches(n as int, rb as int, s as int));
        assert(s == rb);
        assert(shaped(hv[s as int], 19, 19));
        let a: Mat<T> = get_a_block_static(units.zero, prob, dyn_blocks, n, np, rb, s);
        let p: Mat<T> = sandwich_of(units.zero, &a, &h_inv[s], &a);
        d = mat_add(&d, &p, 7);
    }
    if rb == n {
        let ghost before = d@;
        assert(d@[6].len() == 7);
        d.rows[6][6] = units.one;
        assert(d@ =~= before.update(6, before[6].update(6, units.one)));
        assert forall|i: int| 0 <= i < 7 implies (#[trigger] d@[i]).len() == 7 by {
            assert(before[i].len() == 7);
        }
    }
    d
}

/// Eliminates the block-tridiagonal Schur complement from the top, up to the first
/// pivot that has no inverse. Returns the factor as far as it was computed, and
/// whether every pivot has an inverse.
fn eliminate<T: Scalar, C: Numerics<T>>(
    units: Units<T>,
    ops: &C,
    prob: &SocpProblem<T>,
    n: usize,
    np: usize,
    h_inv: Vec<Mat<T>>,
) -> (r: (ReducedKktFactor<T>, bool))
    requires
        total::<T>(),
        inversion_repeatable(ops),
        1 <= n < RB_MAX,
        19 * n <= np,
        shaped(prob.a_mat@, 7 * n + 6, np as int),
        h_inv@.len() == n,
        all_square(views(h_inv@), 19),
    ensures
        r.1 <==> pivots_invertible(units, ops, prob.a_mat@, views(h_inv@), n as int),
        r.0@.h_inv == views(h_inv@),
        r.0.nrb == n + 1,
        is_dynamics_of(units.zero, prob.a_mat@, n as int, r.0.dyn_blocks@),
        couplings_cached(
            units.zero,
            prob.a_mat@,
            views(h_inv@),
            n as int,
            r.0.u_blocks@,
            r.0.l_blocks@,
            n as int,
        ),
        r.1 ==> r.0.belongs_to(units.zero, prob.a_mat@, n as int) && r.0@.d_inv == Seq::new(
            (n + 1) as nat,
            |k: int|
                inverse_of(
                    ops,
                    pivot(units, ops, prob.a_mat@, views(h_inv@), n as int, k as nat),
                )->0,
        ),
        !r.1 ==> stopped_at(
            ops,
            pivots(units, ops, prob.a_mat@, views(h_inv@), n as int),
            Seq::<Mat<T>>::empty(),
            r.0.d_tilde_inv@,
            r.0.d_tilde_inv@.len() as int,
        ),
{
    let ghost a = prob.a_mat@;
    let ghost hv = views(h_inv@);
    let dyn_blocks: Vec<DynamicsBlock<T>> = extract_dynamics_blocks(units.zero, prob, n, np);
    let mut u_blocks: Vec<Mat<T>> = Vec::new();
    let mut l_blocks: Vec<Mat<T>> = Vec::new();
    let mut rb: usize = 0;
    while rb < n
        invariant
            total::<T>(),
            1 <= n < RB_MAX,
            19 * n <= np,
            a == prob.a_mat@,
            shaped(a, 7 * n + 6, np as int),
            is_dynamics_of(units.zero, a, n as int, dyn_blocks@),
            h_inv@.len() == n,
            hv == views(h_inv@),
            all_square(hv, 19),
            rb <= n,
            couplings_cached(units.zero, a, hv, n as int, u_blocks@, l_blocks@, rb as int),
        decreases n - rb,
    {
        assert(shaped(hv[rb as int], 19, 19));
        let a_lo: Mat<T> = get_a_block_static(units.zero, prob, &dyn_blocks, n, np, rb, rb);
        let a_hi: Mat<T> = get_a_block_static(units.zero, prob, &dyn_blocks, n, np, rb + 1, rb);
        let upper: Mat<T> = sandwich_of(units.zero, &a_lo, &h_inv[rb], &a_hi);
        let lower: Mat<T> = sandwich_of(units.zero, &a_hi, &h_inv[rb], &a_lo);
        u_blocks.push(upper);
        l_blocks.push(lower);
        rb = rb + 1;
    }
    let mut d_tilde_inv: Vec<Mat<T>> = Vec::new();
    let mut k: usize = 0;
    while k <= n
        invariant
            total::<T>(),
            inversion_repeatable(ops),
            1 <= n < RB_MAX,
            19 * n <= np,
            a == prob.a_mat@,
            shaped(a, 7 * n + 6, np as int),
            is_dynamics_of(units.zero, a, n as int, dyn_blocks@),
            h_inv@.len() == n,
            hv == views(h_inv@),
            all_square(hv, 19),
            couplings_cached(units.zero, a, hv, n as int, u_blocks@, l_blocks@, n as int),
            k <= n + 1,
            d_tilde_inv@.len() == k,
            forall|q: int|
                0 <= q < k ==> shaped((#[trigger] d_tilde_inv@[q])@, 7, 7) && inverse_of(
                    ops,
                    pivot(units, ops, a, hv, n as int, q as nat),
                ) == Some(d_tilde_inv@[q]@),
        decreases n + 1 - k,
    {
        let d: Mat<T> = schur_diagonal_of(units, prob, &dyn_blocks, &h_inv, n, np, k);
        let p: Mat<T> = if k == 0 {
            d
        } else {
            assert(shaped(d_tilde_inv@[k - 1]@, 7, 7) && shaped(u_blocks@[k - 1]@, 7, 7) && shaped(
                l_blocks@[k - 1]@,
                7,
                7,
            ));
            let du: Mat<T> = mat_times_mat(units.zero, &d_tilde_inv[k - 1], &u_blocks[k - 1], 7);
            let ldu: Mat<T> = mat_times_mat(units.zero, &l_blocks[k - 1], &du, 7);
            mat_sub(&d, &ldu, 7)
        };
        assert(p@ == pivot(units, ops, a, hv, n as int, k as nat));
        match invert_with(ops, &p) {
            Some(inv) => {
                d_tilde_inv.push(inv);
            },
            None => {
                assert(!pivots_invertible(units, ops, a, hv, n as int)) by {
                    assert(inverse_of(ops, pivot(units, ops, a, hv, n as int, k as nat)) is None);
                }
                let f: ReducedKktFactor<T> = ReducedKktFactor {
                    h_inv,
                    dyn_blocks,
                    d_tilde_inv,
                    u_blocks,
                    l_blocks,
                    nrb: n + 1,
                };
                assert(f@.h_inv =~= hv);
                return (f, false);
            },
        }
        k = k + 1;
    }
    let f: ReducedKktFactor<T> = ReducedKktFactor {
        h_inv,
        dyn_blocks,
        d_tilde_inv,
        u_blocks,
        l_blocks,
        nrb: n + 1,
    };
    proof {
        assert forall|q: nat| q <= n implies inverse_of(
            ops,
            #[trigger] pivot(units, ops, a, hv, n as int, q),
        ) is Some by {
            assert(shaped(f.d_tilde_inv@[q as int]@, 7, 7));
        }
        let target = Seq::new(
            (n + 1) as nat,
            |k: int| inverse_of(ops, pivot(units, ops, a, hv, n as int, k as nat))->0,
        );
        assert forall|q: int| 0 <= q <= n implies f@.d_inv[q] == target[q] by {
            assert(shaped(f.d_tilde_inv@[q]@, 7, 7));
        }
        assert(f@.d_inv =~= target);
        assert(f@.h_inv =~= hv);
        assert forall|q: int| 0 <= q < f@.d_inv.len() implies shaped(
            #[trigger] f@.d_inv[q],
            7,
            7,
        ) by {
            assert(shaped(f.d_tilde_inv@[q]@, 7, 7));
        }
    }
    (f, true)
}

/// The Hessian blocks of all `n` nodes, for a cone scaling that is dense within
/// each cone.
pub open spec fn hessians<T: Scalar>(
    z: T,
    prob: &SocpProblem<T>,
    m: Seq<Seq<T>>,
    np: int,
    reg: T,
    n: int,
) -> Seq<Seq<Seq<T>>> {
    Seq::new(n as nat, |k: int| stage_hessian(z, prob, m, np, reg, k))
}

/// The Hessian blocks of all `n` nodes, for a diagonal cone scaling.
pub open spec fn hessians_diag<T: Scalar>(
    z: T,
    prob: &SocpProblem<T>,
    m_diag: Seq<T>,
    np: int,
    reg: T,
    n: int,
) -> Seq<Seq<Seq<T>>> {
    Seq::new(n as nat, |k: int| stage_hessian_diag(z, prob, m_diag, np, reg, k))
}

/// Outcome of factoring the system with equality matrix `a` and node Hessians
/// `h`.
pub open spec fn factor_status<T: Scalar, C: Numerics<T>>(
    units: Units<T>,
    ops: &C,
    a: Seq<Seq<T>>,
    h: Seq<Seq<Seq<T>>>,
    n: int,
) -> ReducedKktStatus {
    if n < 1 || n + 1 > RB_MAX {
        ReducedKktStatus::DegenerateInput
    } else if !hessians_invertible(ops, h) {
        ReducedKktStatus::HNotPd
    } else if !pivots_invertible(units, ops, a, hessian_inverses(ops, h), n) {
        ReducedKktStatus::SchurSingular
    } else {
        ReducedKktStatus::Okay
    }
}

/// Builds the factor of the structured system from the problem, the cone scaling
/// and the regularization, into `factor`. A degenerate input leaves `factor` as it
/// was. Where a block or a pivot has no inverse, what was computed until then is
/// written and the rest of `factor` is left as it was.
pub fn factor_reduced_kkt_scvx_block_m<T: Scalar, C: Numerics<T>>(
    units: Units<T>,
    ops: &C,
    prob: &SocpProblem<T>,
    n: usize,
    np: usize,
    m_full: &Mat<T>,
    reg: T,
    factor: &mut ReducedKktFactor<T>,
) -> (status: ReducedKktStatus)
    requires
        total::<T>(),
        inversion_repeatable(ops),
        19 * n <= np,
        prob.sized(np as int, 7 * n + 6, prob.h@.len() as int),
        prob.cones_fit(prob.h@.len() as int),
        shaped(m_full@, prob.h@.len() as int, prob.h@.len() as int),
    ensures
        status == factor_status(
            units,
            ops,
            prob.a_mat@,
            hessians(units.zero, prob, m_full@, np as int, reg, n as int),
            n as int,
        ),
        status == ReducedKktStatus::Okay ==> final(factor).belongs_to(
            units.zero,
            prob.a_mat@,
            n as int,
        ) && final(factor)@ == factor_model(
            units,
            ops,
            prob.a_mat@,
            hessians(units.zero, prob, m_full@, np as int, reg, n as int),
            n as int,
        ),
        status == ReducedKktStatus::DegenerateInput ==> *final(factor) == *old(factor),
        status == ReducedKktStatus::HNotPd ==> final(factor).stopped_at_hessian(
            old(factor),
            ops,
            hessians(units.zero, prob, m_full@, np as int, reg, n as int),
            n as int,
        ),
        status == ReducedKktStatus::SchurSingular ==> final(factor).stopped_at_pivot(
            old(factor),
            units,
            ops,
            prob.a_mat@,
            hessians(units.zero, prob, m_full@, np as int, reg, n as int),
            n as int,
        ),
{
    if n < 1 || n >= RB_MAX {
        return ReducedKktStatus::DegenerateInput;
    }
    let ghost h = hessians(units.zero, prob, m_full@, np as int, reg, n as int);
    let blocks: Vec<Mat<T>> = build_stage_h_blocks_block_m(
        units.zero,
        prob,
        n,
        np,
        m_full,
        reg,
    );
    assert(views(blocks@) =~= h);
    factor.nrb = n + 1;
    let (h_inv, invertible): (Vec<Mat<T>>, bool) = invert_all(ops, &blocks);
    if !invertible {
        let ghost k = h_inv@.len() as int;
        write_over(&mut factor.h_inv, h_inv);
        assert(stopped_at(ops, h, old(factor).h_inv@, factor.h_inv@, k));
        return ReducedKktStatus::HNotPd;
    }
    assert(h_inv@.len() == views(h_inv@).len());
    let (f, solvable): (ReducedKktFactor<T>, bool) = eliminate(units, ops, prob, n, np, h_inv);
    if solvable {
        assert(f@ =~= factor_model(units, ops, prob.a_mat@, h, n as int));
        *factor = f;
        return ReducedKktStatus::Okay;
    }
    let ghost k = f.d_tilde_inv@.len() as int;
    factor.h_inv = f.h_inv;
    factor.dyn_blocks = f.dyn_blocks;
    factor.u_blocks = f.u_blocks;
    factor.l_blocks = f.l_blocks;
    write_over(&mut factor.d_tilde_inv, f.d_tilde_inv);
    assert(factor@.h_inv =~= hessian_inverses(ops, h));
    assert(stopped_at(
        ops,
        pivots(units, ops, prob.a_mat@, factor@.h_inv, n as int),
        old(factor).d_tilde_inv@,
        factor.d_tilde_inv@,
        k,
    ));
    ReducedKktStatus::SchurSingular
}

// ---- applying a factor ----

/// A step in all unknowns of the structured system.
pub struct ReducedKktSolution<T> {
    /// Row `k` is node `k`'s step.
    pub dz: Mat<T>,
    /// Multiplier of the initial condition.
    pub dlam_init: Vec<T>,
    /// Row `k` is the multiplier of the transition from node `k`.
    pub dlam_dyn: Mat<T>,
    /// Multiplier of the terminal condition.
    pub dlam_term: Vec<T>,
}

impl<T> ReducedKktSolution<T> {
    /// An empty solution.
    pub fn new() -> (r: Self)
        ensures
            r.is_blank(),
    {
        let r: ReducedKktSolution<T> = ReducedKktSolution {
            dz: Mat { rows: Vec::new() },
            dlam_init: Vec::new(),
            dlam_dyn: Mat { rows: Vec::new() },
            dlam_term: Vec::new(),
        };
        assert(r.dz@ =~= Seq::<Seq<T>>::empty());
        assert(r.dlam_dyn@ =~= Seq::<Seq<T>>::empty());
        r
    }

    /// The solution holds nothing.
    pub open spec fn is_blank(&self) -> bool {
        &&& self.dz@ == Seq::<Seq<T>>::empty()
        &&& self.dlam_init@ == Seq::<T>::empty()
        &&& self.dlam_dyn@ == Seq::<Seq<T>>::empty()
        &&& self.dlam_term@ == Seq::<T>::empty()
    }

    /// The parts have the sizes of an `n`-node problem.
    pub open spec fn sized(&self, n: int) -> bool {
        &&& shaped(self.dz@, n, 19)
        &&& self.dlam_init@.len() == 7
        &&& shaped(self.dlam_dyn@, n - 1, 7)
        &&& self.dlam_term@.len() == 6
    }
}

/// Node `k`'s part of the primal right-hand side.
pub open spec fn stage_rhs<T>(b_x: Seq<T>, k: int) -> Seq<T> {
    b_x.subrange(19 * k, 19 * k + 19)
}

/// Row block `rb`'s part of the equality right-hand side, the terminal one padded
/// with a zero.
pub open spec fn block_rhs<T>(zero: T, b_a: Seq<T>, n: int, rb: int) -> Seq<T> {
    Seq::new(
        7,
        |i: int|
            if rb < n || i < 6 {
                b_a[7 * rb + i]
            } else {
                zero
            },
    )
}

/// `a (h_inv v)`.
pub open spec fn through<T: Scalar>(
    z: T,
    a: Seq<Seq<T>>,
    h_inv: Seq<Seq<T>>,
    v: Seq<T>,
) -> Seq<T> {
    mat_vec(z, a, mat_vec(z, h_inv, v))
}

/// Row block `rb` of `A inv(H) b_x`.
pub open spec fn projected_rhs<T: Scalar>(
    z: T,
    a: Seq<Seq<T>>,
    f: FactorModel<T>,
    n: int,
    b_x: Seq<T>,
    rb: int,
) -> Seq<T> {
    let s = first_stage(rb);
    let r0 = vadd(
        constant(z, 7),
        through(
            z,
            a_block(z, a, n, rb, s),
            f.h_inv[s],
            stage_rhs(b_x, s),
        ),
    );
    if 0 < rb < n {
        vadd(
            r0,
            through(
                z,
                a_block(z, a, n, rb, rb),
                f.h_inv[rb],
                stage_rhs(b_x, rb),
            ),
        )
    } else {
        r0
    }
}

/// Row block `rb` of the Schur system's right-hand side `A inv(H) b_x - b_a`.
pub open spec fn schur_rhs<T: Scalar>(
    z: T,
    a: Seq<Seq<T>>,
    f: FactorModel<T>,
    n: int,
    b_x: Seq<T>,
    b_a: Seq<T>,
    rb: int,
) -> Seq<T> {
    vsub(projected_rhs(z, a, f, n, b_x, rb), block_rhs(z, b_a, n, rb))
}

/// The Schur system's right-hand side, one row per row block.
pub open spec fn schur_rhs_all<T: Scalar>(
    z: T,
    a: Seq<Seq<T>>,
    f: FactorModel<T>,
    n: int,
    b_x: Seq<T>,
    b_a: Seq<T>,
) -> Seq<Seq<T>> {
    Seq::new((n + 1) as nat, |rb: int| schur_rhs(z, a, f, n, b_x, b_a, rb))
}

/// Row block `k` of the right-hand side after forward substitution.
pub open spec fn forward<T: Scalar>(
    z: T,
    a: Seq<Seq<T>>,
    f: FactorModel<T>,
    n: int,
    rhs: Seq<Seq<T>>,
    k: nat,
) -> Seq<T>
    decreases k,
{
    if k == 0 {
        rhs[0]
    } else {
        vsub(
            rhs[k as int],
            mat_vec(
                z,
                schur_lower(z, a, f.h_inv, n, k - 1),
                mat_vec(z, f.d_inv[k - 1], forward(z, a, f, n, rhs, (k - 1) as nat)),
            ),
        )
    }
}

/// Row block `k` of the block-tridiagonal system's solution, by back substitution
/// from row block `n`.
pub open spec fn backward<T: Scalar>(
    z: T,
    a: Seq<Seq<T>>,
    f: FactorModel<T>,
    n: int,
    rhs: Seq<Seq<T>>,
    k: int,
) -> Seq<T>
    decreases n - k,
{
    if k >= n {
        mat_vec(z, f.d_inv[k], forward(z, a, f, n, rhs, k as nat))
    } else {
        mat_vec(
            z,
            f.d_inv[k],
            vsub(
                forward(z, a, f, n, rhs, k as nat),
                mat_vec(z, schur_upper(z, a, f.h_inv, n, k), backward(z, a, f, n, rhs, k + 1)),
            ),
        )
    }
}

/// The solution of the block-tridiagonal system, one row per row block.
pub open spec fn tridiag_solution<T: Scalar>(
    z: T,
    a: Seq<Seq<T>>,
    f: FactorModel<T>,
    n: int,
    rhs: Seq<Seq<T>>,
) -> Seq<Seq<T>> {
    Seq::new((n + 1) as nat, |k: int| backward(z, a, f, n, rhs, k))
}

/// Solves the block-tridiagonal system of a factor for one right-hand side.
pub(crate) fn block_tridiag_back_sub<T: Scalar>(
    zero: T,
    Ghost(a): Ghost<Seq<Seq<T>>>,
    factor: &ReducedKktFactor<T>,
    n: usize,
    rhs: &Mat<T>,
) -> (out: Mat<T>)
    requires
        total::<T>(),
        n < usize::MAX,
        factor.belongs_to(zero, a, n as int),
        shaped(rhs@, n + 1, 7),
    ensures
        out@ == tridiag_solution(zero, a, factor@, n as int, rhs@),
        shaped(out@, n + 1, 7),
{
    assert(rhs@[0].len() == 7);
    let mut b: Vec<Vec<T>> = Vec::new();
    let first: Vec<T> = slice_of(&rhs.rows[0], 0, 7);
    assert(first@ =~= rhs@[0]);
    b.push(first);
    let mut k: usize = 1;
    while k <= n
        invariant
            total::<T>(),
            n < usize::MAX,
            factor.belongs_to(zero, a, n as int),
            shaped(rhs@, n + 1, 7),
            1 <= k <= n + 1,
            b@.len() == k,
            forall|q: int|
                0 <= q < k ==> (#[trigger] b@[q])@ == forward(zero, a, factor@, n as int, rhs@, q as nat)
                    && b@[q]@.len() == 7,
        decreases n + 1 - k,
    {
        assert(rhs@[k as int].len() == 7);
        assert(b@[k - 1]@.len() == 7);
        assert(shaped(factor@.d_inv[k - 1], 7, 7) && shaped(factor.l_blocks@[k - 1]@, 7, 7));
        let db: Vec<T> = mat_times_vec(zero, &factor.d_tilde_inv[k - 1], &b[k - 1]);
        let ldb: Vec<T> = mat_times_vec(zero, &factor.l_blocks[k - 1], &db);
        let next: Vec<T> = vec_sub(&rhs.rows[k], &ldb);
        b.push(next);
        k = k + 1;
    }
    // Filled from the last row block down.
    let mut rows: Vec<Vec<T>> = Vec::new();
    assert(shaped(factor@.d_inv[n as int], 7, 7));
    let last: Vec<T> = mat_times_vec(zero, &factor.d_tilde_inv[n], &b[n]);
    assert(last@ == backward(zero, a, factor@, n as int, rhs@, n as int));
    rows.push(last);
    let mut k: usize = n;
    while k > 0
        invariant
            total::<T>(),
            n < usize::MAX,
            factor.belongs_to(zero, a, n as int),
            k <= n,
            b@.len() == n + 1,
            forall|q: int|
                0 <= q <= n ==> (#[trigger] b@[q])@ == forward(zero, a, factor@, n as int, rhs@, q as nat)
                    && b@[q]@.len() == 7,
            rows@.len() == n + 1 - k,
            forall|q: int|
                0 <= q < n + 1 - k ==> (#[trigger] rows@[q])@ == backward(zero, a, factor@, n as int, rhs@, n - q,
                ) && rows@[q]@.len() == 7,
        decreases k,
    {
        let j: usize = k - 1;
        assert(rows@[n - k]@ == backward(zero, a, factor@, n as int, rhs@, k as int));
        assert(shaped(factor@.d_inv[j as int], 7, 7) && shaped(factor.u_blocks@[j as int]@, 7, 7));
        let uy: Vec<T> = mat_times_vec(zero, &factor.u_blocks[j], &rows[n - k]);
        let r: Vec<T> = vec_sub(&b[j], &uy);
        let y: Vec<T> = mat_times_vec(zero, &factor.d_tilde_inv[j], &r);
        assert(y@ == backward(zero, a, factor@, n as int, rhs@, j as int));
        rows.push(y);
        k = k - 1;
    }
    let ghost down = rows@;
    let mut up: Vec<Vec<T>> = Vec::new();
    let mut i: usize = 0;
    while i <= n
        invariant
            n < usize::MAX,
            i <= n + 1,
            rows@ == down,
            down.len() == n + 1,
            forall|q: int|
                0 <= q < n + 1 ==> (#[trigger] down[q])@ == backward(zero, a, factor@, n as int, rhs@, n - q,
                ) && down[q]@.len() == 7,
            up@.len() == i,
            forall|q: int|
                0 <= q < i ==> (#[trigger] up@[q])@ == backward(zero, a, factor@, n as int, rhs@, q)
                    && up@[q]@.len() == 7,
        decreases n + 1 - i,
    {
        assert(down[n - i]@ == backward(zero, a, factor@, n as int, rhs@, n - (n - i)));
        let row: Vec<T> = slice_of(&rows[n - i], 0, 7);
        assert(row@ =~= down[n - i]@);
        up.push(row);
        i = i + 1;
    }
    let out: Mat<T> = Mat { rows: up };
    assert(out@ =~= tridiag_solution(zero, a, factor@, n as int, rhs@));
    out
}

/// `acc - a' v`.
fn minus_transposed<T: Scalar>(z: T, acc: &Vec<T>, a: &Mat<T>, v: &Vec<T>) -> (r: Vec<T>)
    requires
        total::<T>(),
        shaped(a@, 7, 19),
        acc@.len() == 19,
        v@.len() == 7,
    ensures
        r@ == vsub(acc@, mat_t_vec(z, a@, 19, v@)),
        r@.len() == 19,
{
    let t: Vec<T> = mat_t_times_vec(z, a, NZ, v);
    vec_sub(acc, &t)
}

/// Node `k`'s step from the multipliers of the two row blocks that touch it:
/// `inv(H_k) (b_x_k - A_k' lam_k - A_{k+1}' lam_{k+1})`.
pub open spec fn recovered_step<T: Scalar>(
    z: T,
    a: Seq<Seq<T>>,
    f: FactorModel<T>,
    n: int,
    b_x: Seq<T>,
    lam: Seq<Seq<T>>,
    k: int,
) -> Seq<T> {
    mat_vec(
        z,
        f.h_inv[k],
        vsub(
            vsub(
                stage_rhs(b_x, k),
                mat_t_vec(z, a_block(z, a, n, k, k), 19, lam[k]),
            ),
            mat_t_vec(z, a_block(z, a, n, k + 1, k), 19, lam[k + 1]),
        ),
    )
}

/// `sol` holds the multipliers `lam` and the steps recovered from them.
pub open spec fn holds_solution<T: Scalar>(
    z: T,
    a: Seq<Seq<T>>,
    f: FactorModel<T>,
    n: int,
    b_x: Seq<T>,
    lam: Seq<Seq<T>>,
    sol: &ReducedKktSolution<T>,
) -> bool {
    &&& sol.sized(n)
    &&& sol.dlam_init@ == lam[0]
    &&& forall|k: int| 0 <= k < n - 1 ==> #[trigger] sol.dlam_dyn@[k] == lam[k + 1]
    &&& sol.dlam_term@ == lam[n].subrange(0, 6)
    &&& forall|k: int|
        0 <= k < n ==> #[trigger] sol.dz@[k] == recovered_step(z, a, f, n, b_x, lam, k)
}

/// Row block `rb`'s part of the equality right-hand side.
pub(crate) fn block_rhs_of<T: Copy>(zero: T, b_a: &Vec<T>, n: usize, rb: usize) -> (v: Vec<T>)
    requires
        b_a@.len() == 7 * n + 6,
        rb <= n,
    ensures
        v@ == block_rhs(zero, b_a@, n as int, rb as int),
{
    assert(7 * n + 6 <= b_a.len());
    if rb < n {
        let v: Vec<T> = slice_of(b_a, 7 * rb, 7);
        assert(v@ =~= block_rhs(zero, b_a@, n as int, rb as int));
        v
    } else {
        let mut v: Vec<T> = slice_of(b_a, 7 * rb, 6);
        v.push(zero);
        assert(v@ =~= block_rhs(zero, b_a@, n as int, rb as int));
        v
    }
}

/// Row block `rb` of `A inv(H) b_x`.
pub(crate) fn projected_rhs_of<T: Scalar>(
    zero: T,
    prob: &SocpProblem<T>,
    factor: &ReducedKktFactor<T>,
    n: usize,
    np: usize,
    b_x: &Vec<T>,
    rb: usize,
) -> (r: Vec<T>)
    requires
        total::<T>(),
        n >= 1,
        19 * n <= np,
        shaped(prob.a_mat@, 7 * n + 6, np as int),
        factor.belongs_to(zero, prob.a_mat@, n as int),
        b_x@.len() == np,
        rb <= n,
    ensures
        r@ == projected_rhs(zero, prob.a_mat@, factor@, n as int, b_x@, rb as int),
        r@.len() == 7,
{
    let s: usize = if rb == 0 {
        0
    } else {
        rb - 1
    };
    let zeros: Vec<T> = fill_vec(zero, 7);
    let a0: Mat<T> = get_a_block_static(zero, prob, &factor.dyn_blocks, n, np, rb, s);
    let bx0: Vec<T> = slice_of(b_x, NZ * s, NZ);
    assert(shaped(factor@.h_inv[s as int], 19, 19));
    let hb0: Vec<T> = mat_times_vec(zero, &factor.h_inv[s], &bx0);
    let t0: Vec<T> = mat_times_vec(zero, &a0, &hb0);
    let r0: Vec<T> = vec_add(&zeros, &t0);
    if 0 < rb && rb < n {
        let a1: Mat<T> = get_a_block_static(zero, prob, &factor.dyn_blocks, n, np, rb, rb);
        let bx1: Vec<T> = slice_of(b_x, NZ * rb, NZ);
        assert(shaped(factor@.h_inv[rb as int], 19, 19));
        let hb1: Vec<T> = mat_times_vec(zero, &factor.h_inv[rb], &bx1);
        let t1: Vec<T> = mat_times_vec(zero, &a1, &hb1);
        vec_add(&r0, &t1)
    } else {
        r0
    }
}

/// Packs the multipliers and recovers every node's step.
pub(crate) fn recover_solution<T: Scalar>(
    zero: T,
    prob: &SocpProblem<T>,
    factor: &ReducedKktFactor<T>,
    n: usize,
    np: usize,
    b_x: &Vec<T>,
    lam: &Mat<T>,
) -> (sol: ReducedKktSolution<T>)
    requires
        total::<T>(),
        n >= 1,
        19 * n <= np,
        shaped(prob.a_mat@, 7 * n + 6, np as int),
        factor.belongs_to(zero, prob.a_mat@, n as int),
        b_x@.len() == np,
        shaped(lam@, n + 1, 7),
    ensures
        holds_solution(zero, prob.a_mat@, factor@, n as int, b_x@, lam@, &sol),
{
    let ghost a = prob.a_mat@;
    assert(lam@[0].len() == 7 && lam@[n as int].len() == 7);
    assert(n < lam.rows.len());
    let dlam_init: Vec<T> = slice_of(&lam.rows[0], 0, 7);
    assert(dlam_init@ =~= lam@[0]);
    let mut dyn_rows: Vec<Vec<T>> = Vec::new();
    let mut k: usize = 0;
    while k + 1 < n
        invariant
            n >= 1,
            n < lam.rows.len(),
            shaped(lam@, n + 1, 7),
            k + 1 <= n,
            dyn_rows@.len() == k,
            forall|q: int|
                0 <= q < k ==> (#[trigger] dyn_rows@[q])@ == lam@[q + 1] && dyn_rows@[q]@.len()
                    == 7,
        decreases n - k,
    {
        assert(lam@[k + 1].len() == 7);
        let row: Vec<T> = slice_of(&lam.rows[k + 1], 0, 7);
        assert(row@ =~= lam@[k + 1]);
        dyn_rows.push(row);
        k = k + 1;
    }
    let dlam_dyn: Mat<T> = Mat { rows: dyn_rows };
    let dlam_term: Vec<T> = slice_of(&lam.rows[n], 0, 6);
    let mut dz_rows: Vec<Vec<T>> = Vec::new();
    let mut k: usize = 0;
    while k < n
        invariant
            total::<T>(),
            n >= 1,
            n < lam.rows.len(),
            19 * n <= np,
            a == prob.a_mat@,
            shaped(a, 7 * n + 6, np as int),
            factor.belongs_to(zero, prob.a_mat@, n as int),
            b_x@.len() == np,
            shaped(lam@, n + 1, 7),
            k <= n,
            dz_rows@.len() == k,
            forall|q: int|
                0 <= q < k ==> (#[trigger] dz_rows@[q])@ == recovered_step(
                    zero,
                    a,
                    factor@,
                    n as int,
                    b_x@,
                    lam@,
                    q,
                ) && dz_rows@[q]@.len() == 19,
        decreases n - k,
    {
        assert(lam@[k as int].len() == 7 && lam@[k + 1].len() == 7);
        let bx: Vec<T> = slice_of(b_x, NZ * k, NZ);
        let a_own: Mat<T> = get_a_block_static(zero, prob, &factor.dyn_blocks, n, np, k, k);
        let a_next: Mat<T> = get_a_block_static(zero, prob, &factor.dyn_blocks, n, np, k + 1, k);
        let acc: Vec<T> = minus_transposed(zero, &bx, &a_own, &lam.rows[k]);
        let acc: Vec<T> = minus_transposed(zero, &acc, &a_next, &lam.rows[k + 1]);
        assert(shaped(factor@.h_inv[k as int], 19, 19));
        let step: Vec<T> = mat_times_vec(zero, &factor.h_inv[k], &acc);
        assert(step@ == recovered_step(zero, a, factor@, n as int, b_x@, lam@, k as int));
        dz_rows.push(step);
        k = k + 1;
    }
    let dz: Mat<T> = Mat { rows: dz_rows };
    proof {
        assert forall|q: int| 0 <= q < n - 1 implies (#[trigger] dlam_dyn@[q]).len() == 7
            && dlam_dyn@[q] == lam@[q + 1] by {
            assert(dlam_dyn.rows@[q]@ == lam@[q + 1]);
        }
        assert forall|q: int| 0 <= q < n implies (#[trigger] dz@[q]).len() == 19 && dz@[q]
            == recovered_step(zero, a, factor@, n as int, b_x@, lam@, q) by {
            assert(dz.rows@[q]@.len() == 19);
        }
    }
    ReducedKktSolution { dz, dlam_init, dlam_dyn, dlam_term }
}

/// What applying `f` to `(b_x, b_a)` yields.
pub open spec fn is_application<T: Scalar>(
    z: T,
    a: Seq<Seq<T>>,
    f: FactorModel<T>,
    n: int,
    b_x: Seq<T>,
    b_a: Seq<T>,
    sol: &ReducedKktSolution<T>,
) -> bool {
    holds_solution(
        z,
        a,
        f,
        n,
        b_x,
        tridiag_solution(z, a, f, n, schur_rhs_all(z, a, f, n, b_x, b_a)),
        sol,
    )
}

/// Applies a factor to a right-hand side, for a factor of the right size.
fn apply_factor<T: Scalar>(
    zero: T,
    prob: &SocpProblem<T>,
    factor: &ReducedKktFactor<T>,
    n: usize,
    np: usize,
    b_x: &Vec<T>,
    b_a: &Vec<T>,
) -> (sol: ReducedKktSolution<T>)
    requires
        total::<T>(),
        1 <= n < RB_MAX,
        19 * n <= np,
        shaped(prob.a_mat@, 7 * n + 6, np as int),
        factor.belongs_to(zero, prob.a_mat@, n as int),
        b_x@.len() == np,
        b_a@.len() == 7 * n + 6,
    ensures
        is_application(zero, prob.a_mat@, factor@, n as int, b_x@, b_a@, &sol),
{
    let ghost a = prob.a_mat@;
    let mut rows: Vec<Vec<T>> = Vec::new();
    let mut rb: usize = 0;
    while rb <= n
        invariant
            total::<T>(),
            1 <= n < RB_MAX,
            19 * n <= np,
            a == prob.a_mat@,
            shaped(a, 7 * n + 6, np as int),
            factor.belongs_to(zero, prob.a_mat@, n as int),
            b_x@.len() == np,
            b_a@.len() == 7 * n + 6,
            rb <= n + 1,
            rows@.len() == rb,
            forall|q: int|
                0 <= q < rb ==> (#[trigger] rows@[q])@ == schur_rhs(
                    zero,
                    a,
                    factor@,
                    n as int,
                    b_x@,
                    b_a@,
                    q,
                ) && rows@[q]@.len() == 7,
        decreases n + 1 - rb,
    {
        let p: Vec<T> = projected_rhs_of(zero, prob, factor, n, np, b_x, rb);
        let b: Vec<T> = block_rhs_of(zero, b_a, n, rb);
        let r: Vec<T> = vec_sub(&p, &b);
        rows.push(r);
        rb = rb + 1;
    }
    let rhs: Mat<T> = Mat { rows };
    assert(rhs@ =~= schur_rhs_all(zero, a, factor@, n as int, b_x@, b_a@));
    assert forall|i: int| 0 <= i < n + 1 implies (#[trigger] rhs@[i]).len() == 7 by {
        assert(rhs.rows@[i]@.len() == 7);
    }
    let lam: Mat<T> = block_tridiag_back_sub(zero, Ghost(prob.a_mat@), factor, n, &rhs);
    recover_solution(zero, prob, factor, n, np, b_x, &lam)
}

/// Applies a prebuilt factor to one right-hand side. The factor must come from
/// the same problem.
pub fn solve_reduced_kkt_scvx_with_factor<T: Scalar>(
    units: Units<T>,
    prob: &SocpProblem<T>,
    n: usize,
    np: usize,
    factor: &ReducedKktFactor<T>,
    b_x: &Vec<T>,
    b_a: &Vec<T>,
    out: &mut ReducedKktSolution<T>,
) -> (status: ReducedKktStatus)
    requires
        total::<T>(),
        19 * n <= np,
        shaped(prob.a_mat@, 7 * n + 6, np as int),
        n >= 1 && factor.nrb == n + 1 ==> factor.belongs_to(units.zero, prob.a_mat@, n as int),
        b_x@.len() == np,
        b_a@.len() == 7 * n + 6,
    ensures
        status == (if n < 1 || factor.nrb != n + 1 || factor.nrb > RB_MAX {
            ReducedKktStatus::DegenerateInput
        } else {
            ReducedKktStatus::Okay
        }),
        status == ReducedKktStatus::Okay ==> is_application(
            units.zero,
            prob.a_mat@,
            factor@,
            n as int,
            b_x@,
            b_a@,
            final(out),
        ),
        status != ReducedKktStatus::Okay ==> *final(out) == *old(out),
{
    if n < 1 {
        return ReducedKktStatus::DegenerateInput;
    }
    let nrb: usize = factor.nrb;
    if nrb > RB_MAX || nrb == 0 || nrb - 1 != n {
        return ReducedKktStatus::DegenerateInput;
    }
    *out = apply_factor(units.zero, prob, factor, n, np, b_x, b_a);
    ReducedKktStatus::Okay
}

/// Outcome of a one-shot solve with equality matrix `a` and node Hessians `h`.
pub open spec fn solve_status<T: Scalar, C: Numerics<T>>(
    units: Units<T>,
    ops: &C,
    a: Seq<Seq<T>>,
    h: Seq<Seq<Seq<T>>>,
    n: int,
) -> ReducedKktStatus {
    if n < 1 {
        ReducedKktStatus::DegenerateInput
    } else if !hessians_invertible(ops, h) {
        ReducedKktStatus::HNotPd
    } else if n + 1 > RB_MAX {
        ReducedKktStatus::DegenerateInput
    } else if !pivots_invertible(units, ops, a, hessian_inverses(ops, h), n) {
        ReducedKktStatus::SchurSingular
    } else {
        ReducedKktStatus::Okay
    }
}

/// Builds the block-tridiagonal Schur complement from the nodes' inverted Hessian
/// blocks, eliminates it and solves for one right-hand side.
fn solve_via_block_tridiag<T: Scalar, C: Numerics<T>>(
    units: Units<T>,
    ops: &C,
    prob: &SocpProblem<T>,
    n: usize,
    np: usize,
    h_inv: Vec<Mat<T>>,
    Ghost(h): Ghost<Seq<Seq<Seq<T>>>>,
    b_x: &Vec<T>,
    b_a: &Vec<T>,
    out: &mut ReducedKktSolution<T>,
) -> (status: ReducedKktStatus)
    requires
        total::<T>(),
        inversion_repeatable(ops),
        n >= 1,
        19 * n <= np,
        shaped(prob.a_mat@, 7 * n + 6, np as int),
        h.len() == n,
        h_inv@.len() == n,
        views(h_inv@) == hessian_inverses(ops, h),
        all_square(views(h_inv@), 19),
        b_x@.len() == np,
        b_a@.len() == 7 * n + 6,
    ensures
        status == (if n + 1 > RB_MAX {
            ReducedKktStatus::DegenerateInput
        } else if !pivots_invertible(
            units,
            ops,
            prob.a_mat@,
            hessian_inverses(ops, h),
            n as int,
        ) {
            ReducedKktStatus::SchurSingular
        } else {
            ReducedKktStatus::Okay
        }),
        status == ReducedKktStatus::Okay ==> is_application(
            units.zero,
            prob.a_mat@,
            factor_model(units, ops, prob.a_mat@, h, n as int),
            n as int,
            b_x@,
            b_a@,
            final(out),
        ),
        status != ReducedKktStatus::Okay ==> *final(out) == *old(out),
{
    if n >= RB_MAX {
        return ReducedKktStatus::DegenerateInput;
    }
    let (f, solvable): (ReducedKktFactor<T>, bool) = eliminate(units, ops, prob, n, np, h_inv);
    if !solvable {
        return ReducedKktStatus::SchurSingular;
    }
    assert(f@ =~= factor_model(units, ops, prob.a_mat@, h, n as int));
    *out = apply_factor(units.zero, prob, &f, n, np, b_x, b_a);
    ReducedKktStatus::Okay
}

/// Solves the structured system once, for a diagonal cone scaling.
/// Where the status is not `Okay`, `out` is left as it was.
pub fn solve_reduced_kkt_scvx<T: Scalar, C: Numerics<T>>(
    units: Units<T>,
    ops: &C,
    prob: &SocpProblem<T>,
    n: usize,
    np: usize,
    m_diag: &Vec<T>,
    reg: T,
    b_x: &Vec<T>,
    b_a: &Vec<T>,
    out: &mut ReducedKktSolution<T>,
) -> (status: ReducedKktStatus)
    requires
        total::<T>(),
        inversion_repeatable(ops),
        19 * n <= np,
        prob.sized(np as int, 7 * n + 6, prob.h@.len() as int),
        prob.cones_fit(prob.h@.len() as int),
        m_diag@.len() == prob.h@.len(),
        b_x@.len() == np,
        b_a@.len() == 7 * n + 6,
    ensures
        status == solve_status(
            units,
            ops,
            prob.a_mat@,
            hessians_diag(units.zero, prob, m_diag@, np as int, reg, n as int),
            n as int,
        ),
        status == ReducedKktStatus::Okay ==> is_application(
            units.zero,
            prob.a_mat@,
            factor_model(
                units,
                ops,
                prob.a_mat@,
                hessians_diag(units.zero, prob, m_diag@, np as int, reg, n as int),
                n as int,
            ),
            n as int,
            b_x@,
            b_a@,
            final(out),
        ),
        status != ReducedKktStatus::Okay ==> *final(out) == *old(out),
{
    if n < 1 {
        return ReducedKktStatus::DegenerateInput;
    }
    let blocks: Vec<Mat<T>> = build_stage_h_blocks(units.zero, prob, n, np, m_diag, reg);
    assert(views(blocks@) =~= hessians_diag(units.zero, prob, m_diag@, np as int, reg, n as int));
    let (h_inv, invertible): (Vec<Mat<T>>, bool) = invert_all(ops, &blocks);
    if !invertible {
        return ReducedKktStatus::HNotPd;
    }
    assert(h_inv@.len() == views(h_inv@).len());
    solve_via_block_tridiag(
        units,
        ops,
        prob,
        n,
        np,
        h_inv,
        Ghost(views(blocks@)),
        b_x,
        b_a,
        out,
    )
}

/// Solves the structured system once, for a cone scaling that is dense within
/// each cone.
/// Where the status is not `Okay`, `out` is left as it was.
pub fn solve_reduced_kkt_scvx_block_m<T: Scalar, C: Numerics<T>>(
    units: Units<T>,
    ops: &C,
    prob: &SocpProblem<T>,
    n: usize,
    np: usize,
    m_full: &Mat<T>,
    reg: T,
    b_x: &Vec<T>,
    b_a: &Vec<T>,
    out: &mut ReducedKktSolution<T>,
) -> (status: ReducedKktStatus)
    requires
        total::<T>(),
        inversion_repeatable(ops),
        19 * n <= np,
        prob.sized(np as int, 7 * n + 6, prob.h@.len() as int),
        prob.cones_fit(prob.h@.len() as int),
        shaped(m_full@, prob.h@.len() as int, prob.h@.len() as int),
        b_x@.len() == np,
        b_a@.len() == 7 * n + 6,
    ensures
        status == solve_status(
            units,
            ops,
            prob.a_mat@,
            hessians(units.zero, prob, m_full@, np as int, reg, n as int),
            n as int,
        ),
        status == ReducedKktStatus::Okay ==> is_application(
            units.zero,
            prob.a_mat@,
            factor_model(
                units,
                ops,
                prob.a_mat@,
                hessians(units.zero, prob, m_full@, np as int, reg, n as int),
                n as int,
            ),
            n as int,
            b_x@,
            b_a@,
            final(out),
        ),
        status != ReducedKktStatus::Okay ==> *final(out) == *old(out),
{
    if n < 1 {
        return ReducedKktStatus::DegenerateInput;
    }
    let blocks: Vec<Mat<T>> = build_stage_h_blocks_block_m(
        units.zero,
        prob,
        n,
        np,
        m_full,
        reg,
    );
    assert(views(blocks@) =~= hessians(units.zero, prob, m_full@, np as int, reg, n as int));
    let (h_inv, invertible): (Vec<Mat<T>>, bool) = invert_all(ops, &blocks);
    if !invertible {
        return ReducedKktStatus::HNotPd;
    }
    assert(h_inv@.len() == views(h_inv@).len());
    solve_via_block_tridiag(
        units,
        ops,
        prob,
        n,
        np,
        h_inv,
        Ghost(views(blocks@)),
        b_x,
        b_a,
        out,
    )
}

} // verus!
