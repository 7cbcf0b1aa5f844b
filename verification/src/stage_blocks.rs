//! The node-local pieces of the reduced optimality system: which node a cone
//! belongs to, each node's Hessian block, and the row blocks of the equality
//! matrix.
//!
//! `H = G' M G + reg I` has one 19 by 19 block per node because every cone of a
//! node touches that node's variables only. The equality matrix has `n + 1` row
//! blocks: block 0 is the initial state, block `k` the transition into node `k`,
//! block `n` the terminal condition, padded from 6 rows to 7.
use crate::linalg::{
    block, block_of, constant, copy_mat, fill_mat, fill_vec, filled, madd, mat_add, mat_mul,
    mat_times_mat, shaped, slice_of, transpose, transposed, Mat,
};
use crate::scalar::{lawful, plus, same, times, total, Scalar};
use crate::types::{ConeDesc, SocpProblem};
use vstd::prelude::*;

verus! {

/// Variables per node.
pub const NZ: usize = 19;

/// Largest cone dimension that contributes to the reduced Hessian.
pub const MAX_CONE_DIM: usize = 11;

// ---- which node a cone belongs to ----

/// Some row of the cone has a nonzero entry in column `col`.
pub open spec fn cone_touches<T: Scalar>(
    zero: T,
    g: Seq<Seq<T>>,
    cone: ConeDesc,
    col: int,
) -> bool {
    exists|i: int| 0 <= i < cone.dim && !same(#[trigger] g[cone.offset + i][col], zero)
}

/// The cone touches at least one of the `np` columns, and only columns of node
/// `k`.
pub open spec fn cone_in_stage<T: Scalar>(
    zero: T,
    g: Seq<Seq<T>>,
    np: int,
    cone: ConeDesc,
    k: int,
) -> bool {
    &&& exists|col: int| 0 <= col < np && #[trigger] cone_touches(zero, g, cone, col)
    &&& forall|col: int|
        0 <= col < np && #[trigger] cone_touches(zero, g, cone, col) ==> col / 19 == k
}

/// The node that owns the cone, if there is one: the cone touches that node's
/// columns and no others.
pub fn find_stage_for_cone<T: Scalar>(
    zero: T,
    prob: &SocpProblem<T>,
    n: usize,
    np: usize,
    cone: ConeDesc,
) -> (r: Option<usize>)
    requires
        lawful::<T>(),
        shaped(prob.g_mat@, prob.g_mat@.len() as int, np as int),
        cone.offset + cone.dim <= prob.g_mat@.len(),
    ensures
        match r {
            Some(k) => k < n && cone_in_stage(zero, prob.g_mat@, np as int, cone, k as int),
            None => forall|k: int|
                0 <= k < n ==> !cone_in_stage(zero, prob.g_mat@, np as int, cone, k),
        },
{
    let ghost g = prob.g_mat@;
    let mut detected: Option<usize> = None;
    let ghost mut hit_row: int = 0;
    let ghost mut hit_col: int = 0;
    let mut i: usize = 0;
    while i < cone.dim
        invariant
            lawful::<T>(),
            g == prob.g_mat@,
            shaped(g, g.len() as int, np as int),
            cone.offset + cone.dim <= g.len(),
            i <= cone.dim,
            detected matches Some(k) ==> k < n && 0 <= hit_row < cone.dim && 0 <= hit_col < np
                && !same(g[cone.offset + hit_row][hit_col], zero) && hit_col / 19 == k,
            forall|q: int, col: int|
                0 <= q < i && 0 <= col < np && !same(#[trigger] g[cone.offset + q][col], zero)
                    ==> (detected matches Some(k) && col / 19 == k),
        decreases cone.dim - i,
    {
        assert(cone.offset + i < prob.g_mat.rows.len());
        assert(g[cone.offset + i].len() == np);
        let mut col: usize = 0;
        while col < np
            invariant
                lawful::<T>(),
                g == prob.g_mat@,
                shaped(g, g.len() as int, np as int),
                cone.offset + cone.dim <= g.len(),
                i < cone.dim,
                cone.offset + i < prob.g_mat.rows.len(),
                g[cone.offset + i].len() == np,
                col <= np,
                detected matches Some(k) ==> k < n && 0 <= hit_row < cone.dim && 0 <= hit_col < np
                    && !same(g[cone.offset + hit_row][hit_col], zero) && hit_col / 19 == k,
                forall|q: int, c: int|
                    (0 <= q < i && 0 <= c < np || q == i && 0 <= c < col) && !same(
                        #[trigger] g[cone.offset + q][c],
                        zero,
                    ) ==> (detected matches Some(k) && c / 19 == k),
            decreases np - col,
        {
            if prob.g_mat.rows[cone.offset + i][col] == zero {
                assert(same(g[cone.offset + i][col as int], zero));
            } else {
                let stage: usize = col / NZ;
                assert(!same(g[cone.offset + i][col as int], zero));
                assert(cone_touches(zero, g, cone, col as int));
                if stage >= n {
                    return None;
                }
                match detected {
                    None => {
                        detected = Some(stage);
                        proof {
                            hit_row = i as int;
                            hit_col = col as int;
                        }
                    },
                    Some(s) => {
                        if s != stage {
                            assert(cone_touches(zero, g, cone, hit_col));
                            return None;
                        }
                    },
                }
            }
            col = col + 1;
        }
        i = i + 1;
    }
    proof {
        assert forall|col: int| 0 <= col < np && #[trigger] cone_touches(
            zero,
            g,
            cone,
            col,
        ) implies (detected matches Some(k) && col / 19 == k) by {
            let q = choose|q: int|
                0 <= q < cone.dim && !same(#[trigger] g[cone.offset + q][col], zero);
            assert(!same(g[cone.offset + q][col], zero));
        }
        if detected is Some {
            assert(cone_touches(zero, g, cone, hit_col));
        }
    }
    detected
}

// ---- per-node Hessian blocks ----

/// The cone's rows of `g`, restricted to node `k`.
pub open spec fn cone_g<T>(g: Seq<Seq<T>>, cone: ConeDesc, k: int) -> Seq<Seq<T>> {
    block(g, cone.offset as int, 19 * k, cone.dim as int, 19)
}

/// The cone's diagonal block of the cone scaling.
pub open spec fn cone_m<T>(m: Seq<Seq<T>>, cone: ConeDesc) -> Seq<Seq<T>> {
    block(m, cone.offset as int, cone.offset as int, cone.dim as int, cone.dim as int)
}

/// `(G_c' M_c) G_c`, what the cone adds to the Hessian block of node `k`.
pub open spec fn cone_hessian<T: Scalar>(
    z: T,
    g: Seq<Seq<T>>,
    m: Seq<Seq<T>>,
    cone: ConeDesc,
    k: int,
) -> Seq<Seq<T>> {
    let gc = cone_g(g, cone, k);
    mat_mul(z, mat_mul(z, transpose(gc, 19), cone_m(m, cone), cone.dim as int), gc, 19)
}

/// Hessian block of node `k` after the first `c` cones. A cone counts where it
/// lies in the node and its dimension is at most `MAX_CONE_DIM`.
pub open spec fn h_upto<T: Scalar>(
    z: T,
    g: Seq<Seq<T>>,
    m: Seq<Seq<T>>,
    np: int,
    cones: Seq<ConeDesc>,
    k: int,
    c: nat,
) -> Seq<Seq<T>>
    decreases c,
{
    if c == 0 {
        filled(z, 19, 19)
    } else {
        let before = h_upto(z, g, m, np, cones, k, (c - 1) as nat);
        let cone = cones[c - 1];
        if cone.dim <= MAX_CONE_DIM && cone_in_stage(z, g, np, cone, k) {
            madd(before, cone_hessian(z, g, m, cone, k))
        } else {
            before
        }
    }
}

/// `h + reg I`.
pub open spec fn add_diagonal<T: Scalar>(h: Seq<Seq<T>>, reg: T) -> Seq<Seq<T>> {
    Seq::new(
        h.len(),
        |i: int|
            Seq::new(
                h[i].len(),
                |j: int|
                    if i == j {
                        plus(h[i][j], reg)
                    } else {
                        h[i][j]
                    },
            ),
    )
}

/// Hessian block of node `k`: the cones' contributions in order, then `reg` on
/// the diagonal.
pub open spec fn stage_hessian<T: Scalar>(
    z: T,
    prob: &SocpProblem<T>,
    m: Seq<Seq<T>>,
    np: int,
    reg: T,
    k: int,
) -> Seq<Seq<T>> {
    add_diagonal(
        h_upto(z, prob.g_mat@, m, np, prob.cones@, k, prob.cones@.len()),
        reg,
    )
}

/// A cone lies in at most one node.
proof fn lemma_stage_unique<T: Scalar>(
    z: T,
    g: Seq<Seq<T>>,
    np: int,
    cone: ConeDesc,
    k: int,
    k2: int,
)
    requires
        cone_in_stage(z, g, np, cone, k),
        cone_in_stage(z, g, np, cone, k2),
    ensures
        k == k2,
{
    let col = choose|col: int| 0 <= col < np && #[trigger] cone_touches(z, g, cone, col);
    assert(col / 19 == k && col / 19 == k2);
}

/// Adds `reg` to the diagonal of a 19 by 19 block.
fn with_diagonal<T: Scalar>(h: &Mat<T>, reg: T) -> (r: Mat<T>)
    requires
        total::<T>(),
        shaped(h@, 19, 19),
    ensures
        r@ == add_diagonal(h@, reg),
        shaped(r@, 19, 19),
{
    let mut r: Mat<T> = copy_mat(h);
    let mut i: usize = 0;
    while i < 19
        invariant
            total::<T>(),
            shaped(h@, 19, 19),
            i <= 19,
            shaped(r@, 19, 19),
            forall|p: int, q: int|
                0 <= p < 19 && 0 <= q < 19 ==> #[trigger] r@[p][q] == (if p == q && p < i {
                    plus(h@[p][q], reg)
                } else {
                    h@[p][q]
                }),
        decreases 19 - i,
    {
        let ghost before = r@;
        assert(r@[i as int].len() == 19);
        assert(r@[i as int][i as int] == h@[i as int][i as int]);
        let v: T = r.rows[i][i] + reg;
        r.rows[i][i] = v;
        assert forall|p: int, q: int| 0 <= p < 19 && 0 <= q < 19 implies #[trigger] r@[p][q] == (
        if p == q && p < i + 1 {
            plus(h@[p][q], reg)
        } else {
            h@[p][q]
        }) by {
            assert(before[p][q] == (if p == q && p < i {
                plus(h@[p][q], reg)
            } else {
                h@[p][q]
            }));
        }
        assert forall|p: int| 0 <= p < 19 implies (#[trigger] r@[p]).len() == 19 by {
            assert(before[p].len() == 19);
        }
        i = i + 1;
    }
    assert forall|p: int| 0 <= p < 19 implies r@[p] =~= add_diagonal(h@, reg)[p] by {
        assert(h@[p].len() == 19 && r@[p].len() == 19);
        assert forall|q: int| 0 <= q < 19 implies r@[p][q] == add_diagonal(h@, reg)[p][q] by {}
    }
    assert(r@ =~= add_diagonal(h@, reg));
    r
}

/// The Hessian blocks of all nodes, for a cone scaling that is dense within
/// each cone.
pub fn build_stage_h_blocks_block_m<T: Scalar>(
    zero: T,
    prob: &SocpProblem<T>,
    n: usize,
    np: usize,
    m_full: &Mat<T>,
    reg: T,
) -> (blocks: Vec<Mat<T>>)
    requires
        total::<T>(),
        19 * n <= np,
        shaped(prob.g_mat@, prob.g_mat@.len() as int, np as int),
        shaped(m_full@, prob.g_mat@.len() as int, prob.g_mat@.len() as int),
        prob.cones_fit(prob.g_mat@.len() as int),
    ensures
        blocks@.len() == n,
        forall|k: int|
            0 <= k < n ==> (#[trigger] blocks@[k])@ == stage_hessian(
                zero,
                prob,
                m_full@,
                np as int,
                reg,
                k,
            ) && shaped(blocks@[k]@, 19, 19),
{
    let ghost g = prob.g_mat@;
    let ghost nct = g.len() as int;
    let mut blocks: Vec<Mat<T>> = Vec::new();
    let mut k: usize = 0;
    while k < n
        invariant
            k <= n,
            blocks@.len() == k,
            forall|q: int|
                0 <= q < k ==> (#[trigger] blocks@[q])@ == filled(zero, 19, 19) && shaped(
                    blocks@[q]@,
                    19,
                    19,
                ),
        decreases n - k,
    {
        let z: Mat<T> = fill_mat(zero, 19, 19);
        blocks.push(z);
        k = k + 1;
    }
    let mut c: usize = 0;
    while c < prob.cones.len()
        invariant
            total::<T>(),
            19 * n <= np,
            g == prob.g_mat@,
            nct == g.len(),
            shaped(g, nct, np as int),
            shaped(m_full@, nct, nct),
            prob.cones_fit(nct),
            c <= prob.cones@.len(),
            blocks@.len() == n,
            forall|k: int|
                0 <= k < n ==> (#[trigger] blocks@[k])@ == h_upto(
                    zero,
                    g,
                    m_full@,
                    np as int,
                    prob.cones@,
                    k,
                    c as nat,
                ) && shaped(blocks@[k]@, 19, 19),
        decreases prob.cones.len() - c,
    {
        let cone: ConeDesc = prob.cones[c];
        assert(prob.cones@[c as int].offset + prob.cones@[c as int].dim <= nct);
        let ghost before = blocks@;
        match find_stage_for_cone(zero, prob, n, np, cone) {
            Some(k) => {
                if cone.dim <= MAX_CONE_DIM {
                    proof {
                        // A cone with rows has at least one.
                        let col = choose|col: int|
                            0 <= col < np && #[trigger] cone_touches(zero, g, cone, col);
                        let i = choose|i: int|
                            0 <= i < cone.dim && !same(
                                #[trigger] g[cone.offset + i][col],
                                zero,
                            );
                        assert(g[0].len() == np);
                        assert(m_full@[0].len() == nct);
                    }
                    let gc: Mat<T> = block_of(&prob.g_mat, cone.offset, NZ * k, cone.dim, NZ);
                    let mc: Mat<T> = block_of(
                        m_full,
                        cone.offset,
                        cone.offset,
                        cone.dim,
                        cone.dim,
                    );
                    let gt: Mat<T> = transposed(&gc, NZ);
                    let tmp: Mat<T> = mat_times_mat(zero, &gt, &mc, cone.dim);
                    let add: Mat<T> = mat_times_mat(zero, &tmp, &gc, NZ);
                    let sum: Mat<T> = mat_add(&blocks[k], &add, NZ);
                    blocks[k] = sum;
                }
                proof {
                    assert forall|q: int| 0 <= q < n implies (#[trigger] blocks@[q])@ == h_upto(
                        zero,
                        g,
                        m_full@,
                        np as int,
                        prob.cones@,
                        q,
                        (c + 1) as nat,
                    ) && shaped(blocks@[q]@, 19, 19) by {
                        assert(before[q]@ == h_upto(
                            zero,
                            g,
                            m_full@,
                            np as int,
                            prob.cones@,
                            q,
                            c as nat,
                        ));
                        if q != k && cone_in_stage(zero, g, np as int, cone, q) {
                            lemma_stage_unique(zero, g, np as int, cone, q, k as int);
                        }
                    }
                }
            },
            None => {
                proof {
                    assert forall|q: int| 0 <= q < n implies (#[trigger] blocks@[q])@ == h_upto(
                        zero,
                        g,
                        m_full@,
                        np as int,
                        prob.cones@,
                        q,
                        (c + 1) as nat,
                    ) && shaped(blocks@[q]@, 19, 19) by {
                        assert(!cone_in_stage(zero, g, np as int, cone, q));
                    }
                }
            },
        }
        c = c + 1;
    }
    let mut out: Vec<Mat<T>> = Vec::new();
    let mut k: usize = 0;
    while k < n
        invariant
            total::<T>(),
            k <= n,
            g == prob.g_mat@,
            blocks@.len() == n,
            forall|k: int|
                0 <= k < n ==> (#[trigger] blocks@[k])@ == h_upto(
                    zero,
                    g,
                    m_full@,
                    np as int,
                    prob.cones@,
                    k,
                    prob.cones@.len(),
                ) && shaped(blocks@[k]@, 19, 19),
            out@.len() == k,
            forall|q: int|
                0 <= q < k ==> (#[trigger] out@[q])@ == stage_hessian(
                    zero,
                    prob,
                    m_full@,
                    np as int,
                    reg,
                    q,
                ) && shaped(out@[q]@, 19, 19),
        decreases n - k,
    {
        let h: Mat<T> = with_diagonal(&blocks[k], reg);
        out.push(h);
        k = k + 1;
    }
    out
}

/// `h + mi (row' row)`, skipping the rows where `row` vanishes.
pub open spec fn add_outer<T: Scalar>(z: T, h: Seq<Seq<T>>, mi: T, row: Seq<T>) -> Seq<Seq<T>> {
    Seq::new(
        h.len(),
        |r: int|
            if same(row[r], z) {
                h[r]
            } else {
                Seq::new(h[r].len(), |c: int| plus(h[r][c], times(times(mi, row[r]), row[c])))
            },
    )
}

/// `h` after the first `i` rows of the cone, each weighted by its entry of the
/// scaling's diagonal.
pub open spec fn diag_rows_upto<T: Scalar>(
    z: T,
    g: Seq<Seq<T>>,
    m_diag: Seq<T>,
    cone: ConeDesc,
    k: int,
    h: Seq<Seq<T>>,
    i: nat,
) -> Seq<Seq<T>>
    decreases i,
{
    if i == 0 {
        h
    } else {
        add_outer(
            z,
            diag_rows_upto(z, g, m_diag, cone, k, h, (i - 1) as nat),
            m_diag[cone.offset + i - 1],
            cone_g(g, cone, k)[i - 1],
        )
    }
}

/// Hessian block of node `k` after the first `c` cones, for a diagonal scaling.
pub open spec fn h_diag_upto<T: Scalar>(
    z: T,
    g: Seq<Seq<T>>,
    m_diag: Seq<T>,
    np: int,
    cones: Seq<ConeDesc>,
    k: int,
    c: nat,
) -> Seq<Seq<T>>
    decreases c,
{
    if c == 0 {
        filled(z, 19, 19)
    } else {
        let before = h_diag_upto(z, g, m_diag, np, cones, k, (c - 1) as nat);
        let cone = cones[c - 1];
        if cone_in_stage(z, g, np, cone, k) {
            diag_rows_upto(z, g, m_diag, cone, k, before, cone.dim as nat)
        } else {
            before
        }
    }
}

/// Hessian block of node `k` for a diagonal scaling.
pub open spec fn stage_hessian_diag<T: Scalar>(
    z: T,
    prob: &SocpProblem<T>,
    m_diag: Seq<T>,
    np: int,
    reg: T,
    k: int,
) -> Seq<Seq<T>> {
    add_diagonal(
        h_diag_upto(z, prob.g_mat@, m_diag, np, prob.cones@, k, prob.cones@.len()),
        reg,
    )
}

/// `h + mi (row' row)`, skipping the rows where `row` vanishes.
fn with_outer<T: Scalar>(zero: T, h: &Mat<T>, mi: T, row: &Vec<T>) -> (r: Mat<T>)
    requires
        total::<T>(),
        shaped(h@, 19, 19),
        row@.len() == 19,
    ensures
        r@ == add_outer(zero, h@, mi, row@),
        shaped(r@, 19, 19),
{
    let mut rows: Vec<Vec<T>> = Vec::new();
    let mut r: usize = 0;
    while r < 19
        invariant
            total::<T>(),
            shaped(h@, 19, 19),
            row@.len() == 19,
            r <= 19,
            rows@.len() == r,
            forall|q: int|
                0 <= q < r ==> (#[trigger] rows@[q])@ == add_outer(zero, h@, mi, row@)[q]
                    && rows@[q]@.len() == 19,
        decreases 19 - r,
    {
        assert(h@[r as int].len() == 19);
        if row[r] == zero {
            let same_row: Vec<T> = slice_of(&h.rows[r], 0, 19);
            assert(same_row@ =~= h@[r as int]);
            rows.push(same_row);
        } else {
            let mr: T = mi * row[r];
            let mut new_row: Vec<T> = Vec::new();
            let mut c: usize = 0;
            while c < 19
                invariant
                    total::<T>(),
                    shaped(h@, 19, 19),
                    h@[r as int].len() == 19,
                    row@.len() == 19,
                    r < 19,
                    c <= 19,
                    mr == times(mi, row@[r as int]),
                    new_row@.len() == c,
                    forall|q: int|
                        0 <= q < c ==> #[trigger] new_row@[q] == plus(
                            h@[r as int][q],
                            times(mr, row@[q]),
                        ),
                decreases 19 - c,
            {
                let v: T = h.rows[r][c] + mr * row[c];
                new_row.push(v);
                c = c + 1;
            }
            assert(new_row@ =~= add_outer(zero, h@, mi, row@)[r as int]);
            rows.push(new_row);
        }
        r = r + 1;
    }
    let out: Mat<T> = Mat { rows };
    assert(out@ =~= add_outer(zero, h@, mi, row@));
    out
}

/// The Hessian blocks of all nodes, for a diagonal cone scaling.
pub fn build_stage_h_blocks<T: Scalar>(
    zero: T,
    prob: &SocpProblem<T>,
    n: usize,
    np: usize,
    m_diag: &Vec<T>,
    reg: T,
) -> (blocks: Vec<Mat<T>>)
    requires
        total::<T>(),
        19 * n <= np,
        shaped(prob.g_mat@, prob.g_mat@.len() as int, np as int),
        m_diag@.len() == prob.g_mat@.len(),
        prob.cones_fit(prob.g_mat@.len() as int),
    ensures
        blocks@.len() == n,
        forall|k: int|
            0 <= k < n ==> (#[trigger] blocks@[k])@ == stage_hessian_diag(
                zero,
                prob,
                m_diag@,
                np as int,
                reg,
                k,
            ) && shaped(blocks@[k]@, 19, 19),
{
    let ghost g = prob.g_mat@;
    let ghost nct = g.len() as int;
    let mut blocks: Vec<Mat<T>> = Vec::new();
    let mut k: usize = 0;
    while k < n
        invariant
            k <= n,
            blocks@.len() == k,
            forall|q: int|
                0 <= q < k ==> (#[trigger] blocks@[q])@ == filled(zero, 19, 19) && shaped(
                    blocks@[q]@,
                    19,
                    19,
                ),
        decreases n - k,
    {
        let z: Mat<T> = fill_mat(zero, 19, 19);
        blocks.push(z);
        k = k + 1;
    }
    let mut c: usize = 0;
    while c < prob.cones.len()
        invariant
            total::<T>(),
            19 * n <= np,
            g == prob.g_mat@,
            nct == g.len(),
            shaped(g, nct, np as int),
            m_diag@.len() == nct,
            prob.cones_fit(nct),
            c <= prob.cones@.len(),
            blocks@.len() == n,
            forall|k: int|
                0 <= k < n ==> (#[trigger] blocks@[k])@ == h_diag_upto(
                    zero,
                    g,
                    m_diag@,
                    np as int,
                    prob.cones@,
                    k,
                    c as nat,
                ) && shaped(blocks@[k]@, 19, 19),
        decreases prob.cones.len() - c,
    {
        let cone: ConeDesc = prob.cones[c];
        assert(prob.cones@[c as int].offset + prob.cones@[c as int].dim <= nct);
        let ghost before = blocks@;
        match find_stage_for_cone(zero, prob, n, np, cone) {
            Some(k) => {
                let mut h: Mat<T> = copy_mat(&blocks[k]);
                let mut i: usize = 0;
                while i < cone.dim
                    invariant
                        total::<T>(),
                        19 * n <= np,
                        k < n,
                        g == prob.g_mat@,
                        nct == g.len(),
                        shaped(g, nct, np as int),
                        m_diag@.len() == nct,
                        cone.offset + cone.dim <= nct,
                        i <= cone.dim,
                        shaped(h@, 19, 19),
                        h@ == diag_rows_upto(
                            zero,
                            g,
                            m_diag@,
                            cone,
                            k as int,
                            before[k as int]@,
                            i as nat,
                        ),
                    decreases cone.dim - i,
                {
                    assert(g[cone.offset + i].len() == np);
                    assert(cone.offset + i < prob.g_mat.rows.len());
                    let row: Vec<T> = slice_of(&prob.g_mat.rows[cone.offset + i], NZ * k, NZ);
                    assert(row@ =~= cone_g(g, cone, k as int)[i as int]);
                    h = with_outer(zero, &h, m_diag[cone.offset + i], &row);
                    i = i + 1;
                }
                blocks[k] = h;
                proof {
                    assert forall|q: int| 0 <= q < n implies (#[trigger] blocks@[q])@
                        == h_diag_upto(
                        zero,
                        g,
                        m_diag@,
                        np as int,
                        prob.cones@,
                        q,
                        (c + 1) as nat,
                    ) && shaped(blocks@[q]@, 19, 19) by {
                        assert(before[q]@ == h_diag_upto(
                            zero,
                            g,
                            m_diag@,
                            np as int,
                            prob.cones@,
                            q,
                            c as nat,
                        ));
                        if q != k && cone_in_stage(zero, g, np as int, cone, q) {
                            lemma_stage_unique(zero, g, np as int, cone, q, k as int);
                        }
                    }
                }
            },
            None => {
                proof {
                    assert forall|q: int| 0 <= q < n implies (#[trigger] blocks@[q])@
                        == h_diag_upto(
                        zero,
                        g,
                        m_diag@,
                        np as int,
                        prob.cones@,
                        q,
                        (c + 1) as nat,
                    ) && shaped(blocks@[q]@, 19, 19) by {
                        assert(!cone_in_stage(zero, g, np as int, cone, q));
                    }
                }
            },
        }
        c = c + 1;
    }
    let mut out: Vec<Mat<T>> = Vec::new();
    let mut k: usize = 0;
    while k < n
        invariant
            total::<T>(),
            k <= n,
            g == prob.g_mat@,
            blocks@.len() == n,
            forall|k: int|
                0 <= k < n ==> (#[trigger] blocks@[k])@ == h_diag_upto(
                    zero,
                    g,
                    m_diag@,
                    np as int,
                    prob.cones@,
                    k,
                    prob.cones@.len(),
                ) && shaped(blocks@[k]@, 19, 19),
            out@.len() == k,
            forall|q: int|
                0 <= q < k ==> (#[trigger] out@[q])@ == stage_hessian_diag(
                    zero,
                    prob,
                    m_diag@,
                    np as int,
                    reg,
                    q,
                ) && shaped(out@[q]@, 19, 19),
        decreases n - k,
    {
        let h: Mat<T> = with_diagonal(&blocks[k], reg);
        out.push(h);
        k = k + 1;
    }
    out
}

// ---- row blocks of the equality matrix ----

/// Row block `rb` of an `n`-node problem touches node `stage`.
pub open spec fn rb_touches(n: int, rb: int, stage: int) -> bool {
    if rb == 0 {
        stage == 0
    } else if rb < n {
        stage == rb - 1 || stage == rb
    } else {
        stage == n - 1
    }
}

/// The nodes that row block `rb_idx` touches: one for the initial and the
/// terminal block, two for a transition.
pub fn stages_of_rb_static<const N: usize>(rb_idx: usize) -> (r: (Option<usize>, Option<usize>))
    requires
        N >= 1,
        rb_idx <= N,
    ensures
        forall|s: usize|
            #[trigger] rb_touches(N as int, rb_idx as int, s as int) <==> (r.0 == Some(s) || r.1
                == Some(s)),
        r.0 is Some,
        r.1 is Some <==> 0 < rb_idx < N,
        r.1 matches Some(b) ==> (r.0 matches Some(a) && a < b),
{
    stages_of_rb(N, rb_idx)
}

/// As [`stages_of_rb_static`], for a number of nodes known at run time.
pub fn stages_of_rb(n: usize, rb_idx: usize) -> (r: (Option<usize>, Option<usize>))
    requires
        n >= 1,
        rb_idx <= n,
    ensures
        forall|s: usize|
            #[trigger] rb_touches(n as int, rb_idx as int, s as int) <==> (r.0 == Some(s) || r.1
                == Some(s)),
        r.0 is Some,
        r.1 is Some <==> 0 < rb_idx < n,
        r.1 matches Some(b) ==> (r.0 matches Some(a) && a < b),
{
    if rb_idx == 0 {
        (Some(0), None)
    } else if rb_idx < n {
        (Some(rb_idx - 1), Some(rb_idx))
    } else {
        (Some(n - 1), None)
    }
}

/// The coefficients of one transition: `c_mat` on the node it leaves, `d_mat` on
/// the node it enters.
pub struct DynamicsBlock<T> {
    pub c_mat: Mat<T>,
    pub d_mat: Mat<T>,
}

/// Both blocks are 7 by 19.
pub open spec fn dyn_shaped<T>(b: DynamicsBlock<T>) -> bool {
    shaped(b.c_mat@, 7, 19) && shaped(b.d_mat@, 7, 19)
}

/// `blocks` are the transitions read off the equality matrix `a` of an `n`-node
/// problem; the last of the `n` slots is unused and zero.
pub open spec fn is_dynamics_of<T>(
    zero: T,
    a: Seq<Seq<T>>,
    n: int,
    blocks: Seq<DynamicsBlock<T>>,
) -> bool {
    &&& blocks.len() == n
    &&& forall|k: int| 0 <= k < n ==> dyn_shaped(#[trigger] blocks[k])
    &&& forall|k: int|
        0 <= k < n - 1 ==> (#[trigger] blocks[k]).c_mat@ == block(a, 7 + 7 * k, 19 * k, 7, 19)
            && blocks[k].d_mat@ == block(a, 7 + 7 * k, 19 * (k + 1), 7, 19)
    &&& n >= 1 ==> blocks[n - 1].c_mat@ == filled(zero, 7, 19) && blocks[n - 1].d_mat@ == filled(
        zero,
        7,
        19,
    )
}

/// Reads the transition blocks off the equality matrix.
pub fn extract_dynamics_blocks<T: Copy>(
    zero: T,
    prob: &SocpProblem<T>,
    n: usize,
    np: usize,
) -> (blocks: Vec<DynamicsBlock<T>>)
    requires
        n >= 1,
        19 * n <= np,
        shaped(prob.a_mat@, 7 * n + 6, np as int),
    ensures
        is_dynamics_of(zero, prob.a_mat@, n as int, blocks@),
{
    let ghost a = prob.a_mat@;
    assert(a[0].len() == np);
    let mut blocks: Vec<DynamicsBlock<T>> = Vec::new();
    let mut k: usize = 0;
    while k + 1 < n
        invariant
            n >= 1,
            19 * n <= np,
            a == prob.a_mat@,
            a[0].len() == np,
            shaped(a, 7 * n + 6, np as int),
            k + 1 <= n,
            blocks@.len() == k,
            forall|q: int|
                0 <= q < k ==> dyn_shaped(#[trigger] blocks@[q]) && blocks@[q].c_mat@ == block(
                    a,
                    7 + 7 * q,
                    19 * q,
                    7,
                    19,
                ) && blocks@[q].d_mat@ == block(a, 7 + 7 * q, 19 * (q + 1), 7, 19),
        decreases n - k,
    {
        assert(7 + 7 * k + 7 <= prob.a_mat.rows.len());
        let c_mat: Mat<T> = block_of(&prob.a_mat, 7 + 7 * k, NZ * k, 7, NZ);
        let d_mat: Mat<T> = block_of(&prob.a_mat, 7 + 7 * k, NZ * (k + 1), 7, NZ);
        blocks.push(DynamicsBlock { c_mat, d_mat });
        k = k + 1;
    }
    let c_mat: Mat<T> = fill_mat(zero, 7, NZ);
    let d_mat: Mat<T> = fill_mat(zero, 7, NZ);
    blocks.push(DynamicsBlock { c_mat, d_mat });
    blocks
}

/// The 7 by 19 block of the equality matrix at row block `rb`, node `stage`. The
/// terminal block has 6 rows; its seventh is zero.
pub open spec fn a_block<T>(zero: T, a: Seq<Seq<T>>, n: int, rb: int, stage: int) -> Seq<Seq<T>> {
    if !rb_touches(n, rb, stage) {
        filled(zero, 7, 19)
    } else if rb < n {
        block(a, 7 * rb, 19 * stage, 7, 19)
    } else {
        block(a, 7 * n, 19 * stage, 6, 19).push(constant(zero, 19))
    }
}

/// The 7 by 19 block of the equality matrix at row block `rb_idx`, node `stage`.
pub fn get_a_block_static<T: Copy>(
    zero: T,
    prob: &SocpProblem<T>,
    dyn_blocks: &Vec<DynamicsBlock<T>>,
    n: usize,
    np: usize,
    rb_idx: usize,
    stage: usize,
) -> (m: Mat<T>)
    requires
        n >= 1,
        19 * n <= np,
        shaped(prob.a_mat@, 7 * n + 6, np as int),
        is_dynamics_of(zero, prob.a_mat@, n as int, dyn_blocks@),
        rb_idx <= n,
        stage < n,
    ensures
        m@ == a_block(zero, prob.a_mat@, n as int, rb_idx as int, stage as int),
        shaped(m@, 7, 19),
{
    let ghost a = prob.a_mat@;
    assert(a[0].len() == np);
    if rb_idx == 0 {
        if stage == 0 {
            return block_of(&prob.a_mat, 0, 0, 7, NZ);
        }
    } else if rb_idx < n {
        assert(dyn_shaped(dyn_blocks@[rb_idx - 1]));
        if stage == rb_idx - 1 {
            return copy_mat(&dyn_blocks[rb_idx - 1].c_mat);
        } else if stage == rb_idx {
            return copy_mat(&dyn_blocks[rb_idx - 1].d_mat);
        }
    } else if stage == n - 1 {
        assert(7 * n + 6 <= prob.a_mat.rows.len());
        let mut m: Mat<T> = block_of(&prob.a_mat, 7 * n, NZ * stage, 6, NZ);
        let ghost top = m@;
        let pad: Vec<T> = fill_vec(zero, NZ);
        m.rows.push(pad);
        assert(m@ =~= top.push(constant(zero, 19)));
        assert forall|i: int| 0 <= i < 7 implies (#[trigger] m@[i]).len() == 19 by {
            if i < 6 {
                assert(top[i].len() == 19);
            }
        }
        return m;
    }
    fill_mat(zero, 7, NZ)
}

} // verus!
