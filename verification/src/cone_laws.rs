//! What the products over all cones are, cone by cone: identity, Jordan products, arrow
//! matrices and Nesterov-Todd scalings.
use crate::cones::{
    arrow_of, arrows_upto, cones_within, identity_upto, jordan_of, jordan_upto, nt_exact_of,
    nt_mean_of, nt_of, nt_upto, overlay, overlay_block, part, ConeOps,
};
use crate::linalg::{mat_mul, mat_vec, shaped};
use crate::numerics::inverse_of;
use crate::scalar::{num, Real};
use crate::scaling_laws::routines_shaped;
use crate::start_laws::cones_disjoint;
use crate::types::ConeDesc;
use vstd::prelude::*;

verus! {

/// The cone's square block on the diagonal of `m`.
pub open spec fn block_of<T>(m: Seq<Seq<T>>, cone: ConeDesc) -> Seq<Seq<T>> {
    let at = cone.offset as int;
    Seq::new(cone.dim as nat, |i: int| m[at + i].subrange(at, at + cone.dim))
}

/// Writing one cone's part leaves the parts of disjoint cones alone.
proof fn lemma_part_written<T>(v: Seq<T>, blk: Seq<T>, at: ConeDesc, other: ConeDesc)
    requires
        at.offset + at.dim <= v.len(),
        other.offset + other.dim <= v.len(),
        blk.len() == at.dim,
    ensures
        part(overlay(v, at.offset as int, blk), at) == blk,
        overlay(v, at.offset as int, blk).len() == v.len(),
        at.offset + at.dim <= other.offset || other.offset + other.dim <= at.offset ==> part(
            overlay(v, at.offset as int, blk),
            other,
        ) == part(v, other),
{
    let w = overlay(v, at.offset as int, blk);
    assert(part(w, at) =~= blk);
    if at.offset + at.dim <= other.offset || other.offset + other.dim <= at.offset {
        assert(part(w, other) =~= part(v, other));
    }
}

/// Writing one cone's block leaves the blocks of disjoint cones alone.
proof fn lemma_block_written<T>(
    m: Seq<Seq<T>>,
    blk: Seq<Seq<T>>,
    at: ConeDesc,
    other: ConeDesc,
    n: int,
)
    requires
        shaped(m, n, n),
        shaped(blk, at.dim as int, at.dim as int),
        at.offset + at.dim <= n,
        other.offset + other.dim <= n,
    ensures
        block_of(overlay_block(m, at.offset as int, blk), at) == blk,
        shaped(overlay_block(m, at.offset as int, blk), n, n),
        at.offset + at.dim <= other.offset || other.offset + other.dim <= at.offset ==> block_of(
            overlay_block(m, at.offset as int, blk),
            other,
        ) == block_of(m, other),
{
    let a = at.offset as int;
    let w = overlay_block(m, a, blk);
    assert forall|r: int| 0 <= r < n implies (#[trigger] w[r]).len() == n by {
        assert(m[r].len() == n);
    }
    assert forall|i: int| 0 <= i < at.dim implies block_of(w, at)[i] == blk[i] by {
        assert(m[a + i].len() == n && blk[i].len() == at.dim);
        assert(w[a + i] == overlay(m[a + i], a, blk[i]));
        assert(block_of(w, at)[i] =~= blk[i]);
    }
    assert(block_of(w, at) =~= blk);
    if at.offset + at.dim <= other.offset || other.offset + other.dim <= at.offset {
        assert(block_of(w, other) =~= block_of(m, other));
    }
}

/// The identity of the product is the identity of each cone: one, then zeros.
pub proof fn law_identity_by_cones<T: Real>(nct: int, cones: Seq<ConeDesc>, c: nat, k: int)
    requires
        nct >= 0,
        cones_within(cones, nct),
        cones_disjoint(cones),
        c <= cones.len(),
        0 <= k < cones.len(),
    ensures
        identity_upto::<T>(nct, cones, c).len() == nct,
        ({
            let e = part(identity_upto::<T>(nct, cones, c), cones[k]);
            &&& forall|i: int| 1 <= i < e.len() ==> #[trigger] e[i] == num::<T>(0)
            &&& e[0] == if k < c {
                num::<T>(1)
            } else {
                num::<T>(0)
            }
        }),
    decreases c,
{
    let cone = cones[k];
    assert(cone.dim >= 1 && cone.offset + cone.dim <= nct);
    let e = part(identity_upto::<T>(nct, cones, c), cone);
    if c > 0 {
        let p = (c - 1) as nat;
        law_identity_by_cones::<T>(nct, cones, p, k);
        let last = cones[p as int];
        assert(last.dim >= 1 && last.offset + last.dim <= nct);
        let before = part(identity_upto::<T>(nct, cones, p), cone);
        assert(k < p ==> cones[k].offset + cones[k].dim <= cones[p as int].offset
            || cones[p as int].offset + cones[p as int].dim <= cones[k].offset);
        assert(k > p ==> cones[p as int].offset + cones[p as int].dim <= cones[k].offset
            || cones[k].offset + cones[k].dim <= cones[p as int].offset);
        assert forall|i: int| 1 <= i < e.len() implies #[trigger] e[i] == num::<T>(0) by {
            assert(before[i] == num::<T>(0));
        }
        assert(k != p ==> e[0] == before[0]);
    }
}

/// The product's Jordan product is, on each cone, that cone's.
pub proof fn law_jordan_by_cones<T: Real, C: ConeOps<T>>(
    ops: &C,
    u: Seq<T>,
    v: Seq<T>,
    cones: Seq<ConeDesc>,
    c: nat,
    k: int,
)
    requires
        cones_within(cones, u.len() as int),
        cones_disjoint(cones),
        forall|a: Seq<T>, b: Seq<T>| (#[trigger] jordan_of(ops, a, b)).len() == a.len(),
        c <= cones.len(),
        0 <= k < c,
    ensures
        jordan_upto(ops, u, v, cones, c).len() == u.len(),
        part(jordan_upto(ops, u, v, cones, c), cones[k]) == jordan_of(
            ops,
            part(u, cones[k]),
            part(v, cones[k]),
        ),
    decreases c,
{
    let p = (c - 1) as nat;
    let last = cones[p as int];
    let blk = jordan_of(ops, part(u, last), part(v, last));
    let before = jordan_upto(ops, u, v, cones, p);
    lemma_jordan_len(ops, u, v, cones, p);
    assert(cones[k].dim >= 1 && last.dim >= 1);
    assert(blk.len() == part(u, last).len());
    lemma_part_written(before, blk, last, cones[k]);
    if k < p {
        law_jordan_by_cones(ops, u, v, cones, p, k);
        assert(cones[k].offset + cones[k].dim <= cones[p as int].offset || cones[p as int].offset
            + cones[p as int].dim <= cones[k].offset);
    }
}

proof fn lemma_jordan_len<T: Real, C: ConeOps<T>>(
    ops: &C,
    u: Seq<T>,
    v: Seq<T>,
    cones: Seq<ConeDesc>,
    c: nat,
)
    ensures
        jordan_upto(ops, u, v, cones, c).len() == u.len(),
    decreases c,
{
    if c > 0 {
        lemma_jordan_len(ops, u, v, cones, (c - 1) as nat);
    }
}

/// The block-diagonal matrices of the symmetric direction are, on each cone, the inverse
/// of the arrow matrix of its slacks, the arrow matrix of its multipliers, and the product
/// of the two in this order.
pub proof fn law_arrows_by_cones<T: Real, C: ConeOps<T>>(
    ops: &C,
    s: Seq<T>,
    y: Seq<T>,
    cones: Seq<ConeDesc>,
    c: nat,
    k: int,
)
    requires
        routines_shaped(ops),
        s.len() == y.len(),
        cones_within(cones, s.len() as int),
        cones_disjoint(cones),
        c <= cones.len(),
        0 <= k < c,
        arrows_upto(ops, s, y, cones, c) is Some,
    ensures
        ({
            let b = arrows_upto(ops, s, y, cones, c)->0;
            let z = num::<T>(0);
            let a_y = arrow_of(ops, part(y, cones[k]));
            match inverse_of(ops, arrow_of(ops, part(s, cones[k]))) {
                Some(inv) => {
                    &&& block_of(b.s_inv, cones[k]) == inv
                    &&& block_of(b.y, cones[k]) == a_y
                    &&& block_of(b.m, cones[k]) == mat_mul(z, inv, a_y, cones[k].dim as int)
                },
                None => false,
            }
        }),
    decreases c,
{
    let z = num::<T>(0);
    let n = s.len() as int;
    let p = (c - 1) as nat;
    let last = cones[p as int];
    let b = arrows_upto(ops, s, y, cones, p)->0;
    lemma_arrows_shaped(ops, s, y, cones, p);
    assert(cones[k].dim >= 1 && last.dim >= 1);
    let inv = inverse_of(ops, arrow_of(ops, part(s, last)))->0;
    let a_y = arrow_of(ops, part(y, last));
    assert(part(s, last).len() == last.dim && part(y, last).len() == last.dim);
    assert(shaped(arrow_of(ops, part(s, last)), last.dim as int, last.dim as int));
    lemma_block_written(b.s_inv, inv, last, cones[k], n);
    lemma_block_written(b.y, a_y, last, cones[k], n);
    lemma_block_written(b.m, mat_mul(z, inv, a_y, last.dim as int), last, cones[k], n);
    if k < p {
        law_arrows_by_cones(ops, s, y, cones, p, k);
        assert(cones[k].offset + cones[k].dim <= cones[p as int].offset || cones[p as int].offset
            + cones[p as int].dim <= cones[k].offset);
    }
}

proof fn lemma_arrows_shaped<T: Real, C: ConeOps<T>>(
    ops: &C,
    s: Seq<T>,
    y: Seq<T>,
    cones: Seq<ConeDesc>,
    c: nat,
)
    requires
        routines_shaped(ops),
        s.len() == y.len(),
        cones_within(cones, s.len() as int),
        c <= cones.len(),
        arrows_upto(ops, s, y, cones, c) is Some,
    ensures
        ({
            let b = arrows_upto(ops, s, y, cones, c)->0;
            let n = s.len() as int;
            shaped(b.s_inv, n, n) && shaped(b.y, n, n) && shaped(b.m, n, n)
        }),
    decreases c,
{
    if c > 0 {
        let z = num::<T>(0);
        let n = s.len() as int;
        let p = (c - 1) as nat;
        let last = cones[p as int];
        let b = arrows_upto(ops, s, y, cones, p)->0;
        lemma_arrows_shaped(ops, s, y, cones, p);
        assert(last.dim >= 1);
        let inv = inverse_of(ops, arrow_of(ops, part(s, last)))->0;
        let a_y = arrow_of(ops, part(y, last));
        assert(part(s, last).len() == last.dim && part(y, last).len() == last.dim);
        assert(shaped(arrow_of(ops, part(s, last)), last.dim as int, last.dim as int));
        lemma_block_written(b.s_inv, inv, last, last, n);
        lemma_block_written(b.y, a_y, last, last, n);
        lemma_block_written(b.m, mat_mul(z, inv, a_y, last.dim as int), last, last, n);
    }
}

/// The Nesterov-Todd scaling is, on each cone, that of its slacks and multipliers: `W`, its
/// square, `W s`, and the inverse of the arrow matrix of `W s`. Where a cone has the closed
/// form of `W`, that is taken, and else the geometric mean.
pub proof fn law_nt_scaling_by_cones<T: Real, C: ConeOps<T>>(
    ops: &C,
    s: Seq<T>,
    y: Seq<T>,
    cones: Seq<ConeDesc>,
    c: nat,
    k: int,
)
    requires
        routines_shaped(ops),
        s.len() == y.len(),
        cones_within(cones, s.len() as int),
        cones_disjoint(cones),
        c <= cones.len(),
        0 <= k < c,
        nt_upto(ops, s, y, cones, c) is Some,
    ensures
        ({
            let b = nt_upto(ops, s, y, cones, c)->0;
            let z = num::<T>(0);
            let d = cones[k].dim as int;
            let s_k = part(s, cones[k]);
            let closed = nt_exact_of(ops, s_k, part(y, cones[k]));
            match if closed is Some {
                closed
            } else {
                nt_mean_of(ops, s_k, part(y, cones[k]))
            } {
                Some(w) => {
                    &&& block_of(b.w, cones[k]) == w
                    &&& block_of(b.w2, cones[k]) == mat_mul(z, w, w, d)
                    &&& part(b.s_scaled, cones[k]) == mat_vec(z, w, s_k)
                    &&& Some(block_of(b.arrow_inv, cones[k])) == inverse_of(
                        ops,
                        arrow_of(ops, mat_vec(z, w, s_k)),
                    )
                },
                None => false,
            }
        }),
    decreases c,
{
    let z = num::<T>(0);
    let n = s.len() as int;
    let p = (c - 1) as nat;
    let last = cones[p as int];
    let b = nt_upto(ops, s, y, cones, p)->0;
    lemma_nt_shaped(ops, s, y, cones, p);
    assert(cones[k].dim >= 1 && last.dim >= 1);
    let w = nt_of(ops, part(s, last), part(y, last))->0;
    let sc = mat_vec(z, w, part(s, last));
    let inv = inverse_of(ops, arrow_of(ops, sc))->0;
    assert(part(s, last).len() == last.dim && part(y, last).len() == last.dim);
    assert(shaped(w, last.dim as int, last.dim as int));
    assert(sc.len() == last.dim);
    assert(shaped(arrow_of(ops, sc), last.dim as int, last.dim as int));
    lemma_block_written(b.w, w, last, cones[k], n);
    lemma_block_written(b.w2, mat_mul(z, w, w, last.dim as int), last, cones[k], n);
    lemma_block_written(b.arrow_inv, inv, last, cones[k], n);
    lemma_part_written(b.s_scaled, sc, last, cones[k]);
    if k < p {
        law_nt_scaling_by_cones(ops, s, y, cones, p, k);
        assert(cones[k].offset + cones[k].dim <= cones[p as int].offset || cones[p as int].offset
            + cones[p as int].dim <= cones[k].offset);
    }
}

proof fn lemma_nt_shaped<T: Real, C: ConeOps<T>>(
    ops: &C,
    s: Seq<T>,
    y: Seq<T>,
    cones: Seq<ConeDesc>,
    c: nat,
)
    requires
        routines_shaped(ops),
        s.len() == y.len(),
        cones_within(cones, s.len() as int),
        c <= cones.len(),
        nt_upto(ops, s, y, cones, c) is Some,
    ensures
        ({
            let b = nt_upto(ops, s, y, cones, c)->0;
            let n = s.len() as int;
            &&& shaped(b.w, n, n) && shaped(b.w2, n, n) && shaped(b.arrow_inv, n, n)
            &&& b.s_scaled.len() == n
        }),
    decreases c,
{
    if c > 0 {
        let z = num::<T>(0);
        let n = s.len() as int;
        let p = (c - 1) as nat;
        let last = cones[p as int];
        let b = nt_upto(ops, s, y, cones, p)->0;
        lemma_nt_shaped(ops, s, y, cones, p);
        assert(last.dim >= 1);
        let w = nt_of(ops, part(s, last), part(y, last))->0;
        let sc = mat_vec(z, w, part(s, last));
        let inv = inverse_of(ops, arrow_of(ops, sc))->0;
        assert(part(s, last).len() == last.dim && part(y, last).len() == last.dim);
        assert(shaped(w, last.dim as int, last.dim as int));
        assert(shaped(arrow_of(ops, sc), last.dim as int, last.dim as int));
        lemma_block_written(b.w, w, last, last, n);
        lemma_block_written(b.w2, mat_mul(z, w, w, last.dim as int), last, last, n);
        lemma_block_written(b.arrow_inv, inv, last, last, n);
        lemma_part_written(b.s_scaled, sc, last, last);
    }
}

} // verus!
