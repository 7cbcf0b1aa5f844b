//! The cone scalings that the drivers hand to the structured solve have the form
//! that it relies on: they couple no two cones, and the Nesterov-Todd one is
//! symmetric.
use crate::algebra::{field, lemma_transpose_mul};
use crate::cones::{
    arrow_of, arrows_upto, cones_within, nt_of, nt_upto, overlay_block, part, ConeOps,
};
use crate::dense_laws::{cones_end, in_cone, scaling_local, tiled};
use crate::linalg::{mat_mul, shaped, transpose};
use crate::numerics::inverse_of;
use crate::scalar::{num, units, Real};
use crate::types::ConeDesc;
use vstd::prelude::*;

verus! {

/// Rows `r` and `q` belong to one of the first `c` cones.
pub open spec fn together(cones: Seq<ConeDesc>, c: int, r: int, q: int) -> bool {
    exists|i: int| 0 <= i < c && #[trigger] in_cone(cones[i], r) && in_cone(cones[i], q)
}

/// `m` is `n` by `n` and vanishes where no one of the first `c` cones holds both
/// indices.
pub open spec fn blocks_only<T>(z: T, m: Seq<Seq<T>>, cones: Seq<ConeDesc>, c: int, n: int) -> bool {
    &&& shaped(m, n, n)
    &&& forall|r: int, q: int|
        0 <= r < n && 0 <= q < n && !together(cones, c, r, q) ==> #[trigger] m[r][q] == z
}

/// Writing the next cone's block keeps that form.
proof fn lemma_block_added<T>(
    z: T,
    m: Seq<Seq<T>>,
    blk: Seq<Seq<T>>,
    cones: Seq<ConeDesc>,
    c: int,
    n: int,
)
    requires
        0 <= c < cones.len(),
        blocks_only(z, m, cones, c, n),
        cones[c].offset + cones[c].dim <= n,
        shaped(blk, cones[c].dim as int, cones[c].dim as int),
    ensures
        blocks_only(z, overlay_block(m, cones[c].offset as int, blk), cones, c + 1, n),
{
    let at = cones[c].offset as int;
    let d = cones[c].dim as int;
    let m2 = overlay_block(m, at, blk);
    assert forall|r: int| 0 <= r < n implies (#[trigger] m2[r]).len() == n by {
        assert(m[r].len() == n);
    }
    assert forall|r: int, q: int|
        0 <= r < n && 0 <= q < n && !together(cones, c + 1, r, q) implies #[trigger] m2[r][q]
        == z by {
        if together(cones, c, r, q) {
            let i = choose|i: int| 0 <= i < c && #[trigger] in_cone(cones[i], r) && in_cone(cones[i], q);
            assert(in_cone(cones[i], r));
        }
        assert(m[r][q] == z);
        if at <= r < at + d {
            assert(blk[r - at].len() == d);
            assert(in_cone(cones[c], r));
            assert(!in_cone(cones[c], q));
        }
    }
}

/// Where cones follow one another, a later one begins no earlier than an earlier one
/// ends.
pub proof fn lemma_tiles_ordered(cones: Seq<ConeDesc>, nct: int, a: int, b: int)
    requires
        tiled(cones, nct),
        0 <= a < b < cones.len(),
    ensures
        cones[a].offset + cones[a].dim <= cones[b].offset,
    decreases b - a,
{
    assert(cones[b].offset == cones_end(cones, b));
    if a < b - 1 {
        lemma_tiles_ordered(cones, nct, a, b - 1);
    }
}

/// A row lies in at most one cone.
proof fn lemma_tiles_disjoint(cones: Seq<ConeDesc>, nct: int, a: int, b: int, r: int)
    requires
        tiled(cones, nct),
        0 <= a < cones.len(),
        0 <= b < cones.len(),
        in_cone(cones[a], r),
        in_cone(cones[b], r),
    ensures
        a == b,
{
    if a < b {
        lemma_tiles_ordered(cones, nct, a, b);
    } else if b < a {
        lemma_tiles_ordered(cones, nct, b, a);
    }
}

/// A matrix of blocks couples no two cones.
proof fn lemma_blocks_are_local<T>(z: T, m: Seq<Seq<T>>, cones: Seq<ConeDesc>, n: int)
    requires
        tiled(cones, n),
        cones_within(cones, n),
        blocks_only(z, m, cones, cones.len() as int, n),
    ensures
        scaling_local(z, m, cones, n),
{
    assert forall|c: int, r: int, q: int|
        #![trigger in_cone(cones[c], r), m[r][q]]
        0 <= c < cones.len() && in_cone(cones[c], r) && 0 <= q < n && !in_cone(
            cones[c],
            q,
        ) implies m[r][q] == z by {
        assert(cones[c].offset + cones[c].dim <= n);
        if together(cones, cones.len() as int, r, q) {
            let i = choose|i: int|
                0 <= i < cones.len() && #[trigger] in_cone(cones[i], r) && in_cone(cones[i], q);
            lemma_tiles_disjoint(cones, n, c, i, r);
        }
    }
}

/// The cone routines keep to the sizes of their arguments.
pub open spec fn routines_shaped<T: Real, C: ConeOps<T>>(ops: &C) -> bool {
    &&& forall|v: Seq<T>| shaped(#[trigger] arrow_of(ops, v), v.len() as int, v.len() as int)
    &&& forall|m: Seq<Seq<T>>|
        #[trigger] inverse_of(ops, m) matches Some(r) ==> shaped(r, m.len() as int, m.len() as int)
    &&& forall|s: Seq<T>, y: Seq<T>|
        #[trigger] nt_of(ops, s, y) matches Some(w) ==> shaped(w, s.len() as int, s.len() as int)
}

proof fn lemma_arrow_blocks<T: Real, C: ConeOps<T>>(
    ops: &C,
    s: Seq<T>,
    y: Seq<T>,
    cones: Seq<ConeDesc>,
    c: nat,
)
    requires
        routines_shaped(ops),
        s.len() == y.len(),
        cones_within(cones, s.len() as int),
        c <= cones.len(),
        arrows_upto(ops, s, y, cones, c) is Some,
    ensures
        blocks_only(
            num::<T>(0),
            arrows_upto(ops, s, y, cones, c)->0.m,
            cones,
            c as int,
            s.len() as int,
        ),
    decreases c,
{
    let z = num::<T>(0);
    if c > 0 {
        let p = (c - 1) as nat;
        let cone = cones[p as int];
        lemma_arrow_blocks(ops, s, y, cones, p);
        let b = arrows_upto(ops, s, y, cones, p)->0;
        let a_s = arrow_of(ops, part(s, cone));
        let inv = inverse_of(ops, a_s)->0;
        let a_y = arrow_of(ops, part(y, cone));
        assert(part(s, cone).len() == cone.dim && part(y, cone).len() == cone.dim);
        assert(shaped(a_s, cone.dim as int, cone.dim as int));
        let blk = mat_mul(z, inv, a_y, cone.dim as int);
        assert(shaped(blk, cone.dim as int, cone.dim as int));
        lemma_block_added(z, b.m, blk, cones, p as int, s.len() as int);
    }
}

/// The scaling `arrow(s)^-1 arrow(y)` is square and couples no two cones.
pub proof fn law_arrow_scaling_is_local<T: Real, C: ConeOps<T>>(
    ops: &C,
    s: Seq<T>,
    y: Seq<T>,
    cones: Seq<ConeDesc>,
)
    requires
        routines_shaped(ops),
        s.len() == y.len(),
        cones_within(cones, s.len() as int),
        tiled(cones, s.len() as int),
        arrows_upto(ops, s, y, cones, cones.len()) is Some,
    ensures
        shaped(
            arrows_upto(ops, s, y, cones, cones.len())->0.m,
            s.len() as int,
            s.len() as int,
        ),
        scaling_local(
            num::<T>(0),
            arrows_upto(ops, s, y, cones, cones.len())->0.m,
            cones,
            s.len() as int,
        ),
{
    lemma_arrow_blocks(ops, s, y, cones, cones.len());
    lemma_blocks_are_local(
        num::<T>(0),
        arrows_upto(ops, s, y, cones, cones.len())->0.m,
        cones,
        s.len() as int,
    );
}

/// Every Nesterov-Todd scaling of one cone is symmetric.
pub open spec fn scalings_symmetric<T: Real, C: ConeOps<T>>(ops: &C) -> bool {
    forall|s: Seq<T>, y: Seq<T>|
        #[trigger] nt_of(ops, s, y) matches Some(w) ==> transpose(w, s.len() as int) == w
}

proof fn lemma_nt_blocks<T: Real, C: ConeOps<T>>(
    ops: &C,
    s: Seq<T>,
    y: Seq<T>,
    cones: Seq<ConeDesc>,
    c: nat,
)
    requires
        routines_shaped(ops),
        s.len() == y.len(),
        cones_within(cones, s.len() as int),
        c <= cones.len(),
        nt_upto(ops, s, y, cones, c) is Some,
    ensures
        blocks_only(
            num::<T>(0),
            nt_upto(ops, s, y, cones, c)->0.w2,
            cones,
            c as int,
            s.len() as int,
        ),
    decreases c,
{
    let z = num::<T>(0);
    if c > 0 {
        let p = (c - 1) as nat;
        let cone = cones[p as int];
        let d = cone.dim as int;
        lemma_nt_blocks(ops, s, y, cones, p);
        let b = nt_upto(ops, s, y, cones, p)->0;
        let w = nt_of(ops, part(s, cone), part(y, cone))->0;
        assert(part(s, cone).len() == cone.dim);
        assert(shaped(w, d, d));
        let blk = mat_mul(z, w, w, d);
        assert(shaped(blk, d, d));
        lemma_block_added(z, b.w2, blk, cones, p as int, s.len() as int);
    }
}

proof fn lemma_nt_symmetric<T: Real, C: ConeOps<T>>(
    ops: &C,
    s: Seq<T>,
    y: Seq<T>,
    cones: Seq<ConeDesc>,
    c: nat,
)
    requires
        field(units::<T>()),
        routines_shaped(ops),
        scalings_symmetric(ops),
        s.len() == y.len(),
        cones_within(cones, s.len() as int),
        c <= cones.len(),
        nt_upto(ops, s, y, cones, c) is Some,
    ensures
        ({
            let w2 = nt_upto(ops, s, y, cones, c)->0.w2;
            forall|r: int, q: int|
                0 <= r < s.len() && 0 <= q < s.len() ==> #[trigger] w2[r][q] == w2[q][r]
        }),
    decreases c,
{
    let z = num::<T>(0);
    let n = s.len() as int;
    let w2 = nt_upto(ops, s, y, cones, c)->0.w2;
    if c > 0 {
        let p = (c - 1) as nat;
        let cone = cones[p as int];
        let at = cone.offset as int;
        let d = cone.dim as int;
        lemma_nt_symmetric(ops, s, y, cones, p);
        lemma_nt_blocks(ops, s, y, cones, p);
        let b = nt_upto(ops, s, y, cones, p)->0;
        let w = nt_of(ops, part(s, cone), part(y, cone))->0;
        assert(part(s, cone).len() == cone.dim);
        assert(shaped(w, d, d));
        let blk = mat_mul(z, w, w, d);
        assert(shaped(blk, d, d));
        lemma_transpose_mul(units::<T>(), w, w, d);
        assert(transpose(blk, d) == blk);
        assert forall|r: int, q: int| 0 <= r < n && 0 <= q < n implies #[trigger] w2[r][q]
            == w2[q][r] by {
            assert(b.w2[r][q] == b.w2[q][r]);
            assert(b.w2[r].len() == n && b.w2[q].len() == n);
            if at <= r < at + d && at <= q < at + d {
                assert(blk[r - at].len() == d && blk[q - at].len() == d);
                assert(transpose(blk, d)[r - at][q - at] == blk[q - at][r - at]);
            } else if at <= r < at + d {
                assert(blk[r - at].len() == d);
            } else if at <= q < at + d {
                assert(blk[q - at].len() == d);
            }
        }
    }
}

/// The Nesterov-Todd scaling `W W` is square and couples no two cones, and is symmetric
/// where each cone's `W` is.
pub proof fn law_nt_scaling_is_local_and_symmetric<T: Real, C: ConeOps<T>>(
    ops: &C,
    s: Seq<T>,
    y: Seq<T>,
    cones: Seq<ConeDesc>,
)
    requires
        routines_shaped(ops),
        s.len() == y.len(),
        cones_within(cones, s.len() as int),
        tiled(cones, s.len() as int),
        nt_upto(ops, s, y, cones, cones.len()) is Some,
    ensures
        ({
            let w2 = nt_upto(ops, s, y, cones, cones.len())->0.w2;
            &&& shaped(w2, s.len() as int, s.len() as int)
            &&& scaling_local(num::<T>(0), w2, cones, s.len() as int)
            &&& field(units::<T>()) && scalings_symmetric(ops) ==> transpose(w2, s.len() as int)
                == w2
        }),
{
    let n = s.len() as int;
    let w2 = nt_upto(ops, s, y, cones, cones.len())->0.w2;
    lemma_nt_blocks(ops, s, y, cones, cones.len());
    lemma_blocks_are_local(num::<T>(0), w2, cones, n);
    if field(units::<T>()) && scalings_symmetric(ops) {
        lemma_nt_symmetric(ops, s, y, cones, cones.len());
        assert forall|r: int| 0 <= r < n implies transpose(w2, n)[r] == w2[r] by {
            assert(w2[r].len() == n);
            assert(transpose(w2, n)[r] =~= w2[r]) by {
                assert forall|q: int| 0 <= q < n implies transpose(w2, n)[r][q] == w2[r][q] by {
                    assert(w2[q][r] == w2[r][q]);
                }
            }
        }
        assert(transpose(w2, n) =~= w2);
    }
}

} // verus!
