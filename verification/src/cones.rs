//! Operations on products of second-order cones, cone by cone.
//!
//! What one cone needs (its Jordan product, arrow matrix, interior test, largest
//! step and Nesterov-Todd scaling) comes from outside through `ConeOps`; this
//! module spreads it over the cones of a problem.
use crate::linalg::{
    constant, fill_mat, fill_vec, filled, mat_mul, mat_times_mat, mat_times_vec, mat_vec, shaped,
    slice_of, Mat,
};
use crate::numerics::{
    functions_repeatable, invert_with, inverse_of, opt_view, repeatable, root_of, sqrt_with,
    Numerics,
};
use crate::scalar::{
    abs, finite, fraction, greater, is_finite, larger, less, magnitude, max, minus, num, number,
    plus, ratio, real_ops, same, times, Real,
};
use crate::types::ConeDesc;
use vstd::prelude::*;

verus! {

/// Routines on one second-order cone. Nothing is promised of what they return.
pub trait ConeOps<T>: Numerics<T> {
    /// Jordan product of two vectors.
    fn jordan(&self, u: &Vec<T>, v: &Vec<T>) -> Vec<T>;

    /// Matrix of the Jordan product with `v`.
    fn arrow(&self, v: &Vec<T>) -> Mat<T>;

    /// Whether `v` lies strictly inside the cone.
    fn in_interior(&self, v: &Vec<T>) -> bool;

    /// Largest step from `z` along `dz` that stays in the cone.
    fn max_step(&self, z: &Vec<T>, dz: &Vec<T>) -> T;

    /// Nesterov-Todd scaling of `(s, y)` in closed form, where it exists.
    fn nt_scaling_exact(&self, s: &Vec<T>, y: &Vec<T>) -> Option<Mat<T>>;

    /// Nesterov-Todd scaling of `(s, y)` by the geometric mean, where it exists.
    fn nt_scaling_mean(&self, s: &Vec<T>, y: &Vec<T>) -> Option<Mat<T>>;
}

// ---- naming what the routines return ----

/// The Jordan product of `u` and `v` can be `r`.
pub open spec fn may_jordan<T, C: ConeOps<T>>(ops: &C, u: Seq<T>, v: Seq<T>, r: Seq<T>) -> bool {
    exists|a: Vec<T>, b: Vec<T>, o: Vec<T>|
        a@ == u && b@ == v && #[trigger] call_ensures(C::jordan, (ops, &a, &b), o) && o@ == r
}

/// The arrow matrix of `v` can be `r`.
pub open spec fn may_arrow<T, C: ConeOps<T>>(ops: &C, v: Seq<T>, r: Seq<Seq<T>>) -> bool {
    exists|a: Vec<T>, o: Mat<T>|
        a@ == v && #[trigger] call_ensures(C::arrow, (ops, &a), o) && o@ == r
}

/// The interior test of `v` can return `r`.
pub open spec fn may_interior<T, C: ConeOps<T>>(ops: &C, v: Seq<T>, r: bool) -> bool {
    exists|a: Vec<T>| a@ == v && #[trigger] call_ensures(C::in_interior, (ops, &a), r)
}

/// The largest step from `z` along `dz` can be `r`.
pub open spec fn may_step<T, C: ConeOps<T>>(ops: &C, z: Seq<T>, dz: Seq<T>, r: T) -> bool {
    exists|a: Vec<T>, b: Vec<T>|
        a@ == z && b@ == dz && #[trigger] call_ensures(C::max_step, (ops, &a, &b), r)
}

/// The closed-form scaling of `(s, y)` can be `r`.
pub open spec fn may_nt_exact<T, C: ConeOps<T>>(
    ops: &C,
    s: Seq<T>,
    y: Seq<T>,
    r: Option<Seq<Seq<T>>>,
) -> bool {
    exists|a: Vec<T>, b: Vec<T>, o: Option<Mat<T>>|
        a@ == s && b@ == y && #[trigger] call_ensures(C::nt_scaling_exact, (ops, &a, &b), o)
            && opt_view(o) == r
}

/// The geometric-mean scaling of `(s, y)` can be `r`.
pub open spec fn may_nt_mean<T, C: ConeOps<T>>(
    ops: &C,
    s: Seq<T>,
    y: Seq<T>,
    r: Option<Seq<Seq<T>>>,
) -> bool {
    exists|a: Vec<T>, b: Vec<T>, o: Option<Mat<T>>|
        a@ == s && b@ == y && #[trigger] call_ensures(C::nt_scaling_mean, (ops, &a, &b), o)
            && opt_view(o) == r
}

pub open spec fn jordan_of<T, C: ConeOps<T>>(ops: &C, u: Seq<T>, v: Seq<T>) -> Seq<T> {
    choose|r: Seq<T>| may_jordan(ops, u, v, r)
}

pub open spec fn arrow_of<T, C: ConeOps<T>>(ops: &C, v: Seq<T>) -> Seq<Seq<T>> {
    choose|r: Seq<Seq<T>>| may_arrow(ops, v, r)
}

pub open spec fn interior_of<T, C: ConeOps<T>>(ops: &C, v: Seq<T>) -> bool {
    choose|r: bool| may_interior(ops, v, r)
}

pub open spec fn step_of<T, C: ConeOps<T>>(ops: &C, z: Seq<T>, dz: Seq<T>) -> T {
    choose|r: T| may_step(ops, z, dz, r)
}

pub open spec fn nt_exact_of<T, C: ConeOps<T>>(
    ops: &C,
    s: Seq<T>,
    y: Seq<T>,
) -> Option<Seq<Seq<T>>> {
    choose|r: Option<Seq<Seq<T>>>| may_nt_exact(ops, s, y, r)
}

pub open spec fn nt_mean_of<T, C: ConeOps<T>>(
    ops: &C,
    s: Seq<T>,
    y: Seq<T>,
) -> Option<Seq<Seq<T>>> {
    choose|r: Option<Seq<Seq<T>>>| may_nt_mean(ops, s, y, r)
}

/// Every cone routine returns one result per argument, with the dimension of its
/// arguments.
pub open spec fn cones_repeatable<T, C: ConeOps<T>>(ops: &C) -> bool {
    &&& repeatable(ops)
    &&& forall|u: Seq<T>, v: Seq<T>, r: Seq<T>, q: Seq<T>|
        #[trigger] may_jordan(ops, u, v, r) && #[trigger] may_jordan(ops, u, v, q) ==> r == q
    &&& forall|u: Seq<T>, v: Seq<T>, r: Seq<T>|
        #[trigger] may_jordan(ops, u, v, r) ==> r.len() == u.len()
    &&& forall|v: Seq<T>, r: Seq<Seq<T>>, q: Seq<Seq<T>>|
        #[trigger] may_arrow(ops, v, r) && #[trigger] may_arrow(ops, v, q) ==> r == q
    &&& forall|v: Seq<T>, r: Seq<Seq<T>>|
        #[trigger] may_arrow(ops, v, r) ==> shaped(r, v.len() as int, v.len() as int)
    &&& forall|v: Seq<T>, r: bool, q: bool|
        #[trigger] may_interior(ops, v, r) && #[trigger] may_interior(ops, v, q) ==> r == q
    &&& forall|z: Seq<T>, dz: Seq<T>, r: T, q: T|
        #[trigger] may_step(ops, z, dz, r) && #[trigger] may_step(ops, z, dz, q) ==> r == q
    &&& forall|s: Seq<T>, y: Seq<T>, r: Option<Seq<Seq<T>>>, q: Option<Seq<Seq<T>>>|
        #[trigger] may_nt_exact(ops, s, y, r) && #[trigger] may_nt_exact(ops, s, y, q) ==> r == q
    &&& forall|s: Seq<T>, y: Seq<T>, r: Seq<Seq<T>>|
        #[trigger] may_nt_exact(ops, s, y, Some(r)) ==> shaped(r, s.len() as int, s.len() as int)
    &&& forall|s: Seq<T>, y: Seq<T>, r: Option<Seq<Seq<T>>>, q: Option<Seq<Seq<T>>>|
        #[trigger] may_nt_mean(ops, s, y, r) && #[trigger] may_nt_mean(ops, s, y, q) ==> r == q
    &&& forall|s: Seq<T>, y: Seq<T>, r: Seq<Seq<T>>|
        #[trigger] may_nt_mean(ops, s, y, Some(r)) ==> shaped(r, s.len() as int, s.len() as int)
}

fn jordan_with<T, C: ConeOps<T>>(ops: &C, u: &Vec<T>, v: &Vec<T>) -> (r: Vec<T>)
    requires
        cones_repeatable(ops),
    ensures
        r@ == jordan_of(ops, u@, v@),
        r@.len() == u@.len(),
{
    let r: Vec<T> = ops.jordan(u, v);
    assert(may_jordan(ops, u@, v@, r@));
    r
}

fn arrow_with<T, C: ConeOps<T>>(ops: &C, v: &Vec<T>) -> (r: Mat<T>)
    requires
        cones_repeatable(ops),
    ensures
        r@ == arrow_of(ops, v@),
        shaped(r@, v@.len() as int, v@.len() as int),
{
    let r: Mat<T> = ops.arrow(v);
    assert(may_arrow(ops, v@, r@));
    r
}

fn interior_with<T, C: ConeOps<T>>(ops: &C, v: &Vec<T>) -> (r: bool)
    requires
        cones_repeatable(ops),
    ensures
        r == interior_of(ops, v@),
{
    let r: bool = ops.in_interior(v);
    assert(may_interior(ops, v@, r));
    r
}

fn step_with<T, C: ConeOps<T>>(ops: &C, z: &Vec<T>, dz: &Vec<T>) -> (r: T)
    requires
        cones_repeatable(ops),
    ensures
        r == step_of(ops, z@, dz@),
{
    let r: T = ops.max_step(z, dz);
    assert(may_step(ops, z@, dz@, r));
    r
}

/// The Nesterov-Todd scaling of one cone: the closed form, or else the geometric
/// mean.
pub open spec fn nt_of<T, C: ConeOps<T>>(ops: &C, s: Seq<T>, y: Seq<T>) -> Option<Seq<Seq<T>>> {
    match nt_exact_of(ops, s, y) {
        Some(w) => Some(w),
        None => nt_mean_of(ops, s, y),
    }
}

fn nt_with<T, C: ConeOps<T>>(ops: &C, s: &Vec<T>, y: &Vec<T>) -> (r: Option<Mat<T>>)
    requires
        cones_repeatable(ops),
    ensures
        opt_view(r) == nt_of(ops, s@, y@),
        r matches Some(w) ==> shaped(w@, s@.len() as int, s@.len() as int),
{
    let r: Option<Mat<T>> = ops.nt_scaling_exact(s, y);
    assert(may_nt_exact(ops, s@, y@, opt_view(r)));
    match r {
        Some(w) => Some(w),
        None => {
            let q: Option<Mat<T>> = ops.nt_scaling_mean(s, y);
            assert(may_nt_mean(ops, s@, y@, opt_view(q)));
            q
        },
    }
}

// ---- spreading over the cones of a problem ----

/// Every cone has at least one row and lies within `nct` rows.
pub open spec fn cones_within(cones: Seq<ConeDesc>, nct: int) -> bool {
    forall|c: int|
        0 <= c < cones.len() ==> (#[trigger] cones[c]).dim >= 1 && cones[c].offset + cones[c].dim
            <= nct
}

/// The cone's part of `v`.
pub open spec fn part<T>(v: Seq<T>, cone: ConeDesc) -> Seq<T> {
    v.subrange(cone.offset as int, cone.offset + cone.dim)
}

/// `v` with `blk` written from index `at` on.
pub open spec fn overlay<T>(v: Seq<T>, at: int, blk: Seq<T>) -> Seq<T> {
    Seq::new(
        v.len(),
        |i: int|
            if at <= i < at + blk.len() {
                blk[i - at]
            } else {
                v[i]
            },
    )
}

/// `m` with the square `blk` written on the diagonal from index `at` on.
pub open spec fn overlay_block<T>(m: Seq<Seq<T>>, at: int, blk: Seq<Seq<T>>) -> Seq<Seq<T>> {
    Seq::new(
        m.len(),
        |i: int|
            if at <= i < at + blk.len() {
                overlay(m[i], at, blk[i - at])
            } else {
                m[i]
            },
    )
}

fn write_part<T: Copy>(v: &mut Vec<T>, at: usize, blk: &Vec<T>)
    requires
        at + blk@.len() <= old(v)@.len(),
    ensures
        final(v)@ == overlay(old(v)@, at as int, blk@),
{
    let ghost start = v@;
    let mut j: usize = 0;
    while j < blk.len()
        invariant
            j <= blk@.len(),
            at + blk@.len() <= start.len(),
            v@.len() == start.len(),
            forall|i: int|
                0 <= i < start.len() ==> #[trigger] v@[i] == (if at <= i < at + j {
                    blk@[i - at]
                } else {
                    start[i]
                }),
        decreases blk.len() - j,
    {
        assert(at + j < v.len());
        v[at + j] = blk[j];
        j = j + 1;
    }
    assert(v@ =~= overlay(start, at as int, blk@));
}

fn write_block<T: Copy>(m: &mut Mat<T>, at: usize, blk: &Mat<T>)
    requires
        shaped(old(m)@, old(m)@.len() as int, old(m)@.len() as int),
        shaped(blk@, blk@.len() as int, blk@.len() as int),
        at + blk@.len() <= old(m)@.len(),
    ensures
        final(m)@ == overlay_block(old(m)@, at as int, blk@),
        shaped(final(m)@, old(m)@.len() as int, old(m)@.len() as int),
{
    let ghost start = m@;
    let ghost d = blk@.len() as int;
    let ghost n = start.len() as int;
    let mut j: usize = 0;
    while j < blk.rows.len()
        invariant
            d == blk@.len(),
            n == start.len(),
            shaped(blk@, d, d),
            shaped(start, n, n),
            at + d <= n,
            j <= d,
            m@.len() == n,
            shaped(m@, n, n),
            forall|i: int|
                0 <= i < n ==> #[trigger] m@[i] == (if at <= i < at + j {
                    overlay(start[i], at as int, blk@[i - at])
                } else {
                    start[i]
                }),
        decreases blk.rows.len() - j,
    {
        let ghost before = m@;
        assert(at + j < m.rows.len());
        assert(blk@[j as int].len() == d && before[at + j].len() == n);
        assert(before[at + j] == start[at + j]);
        write_part(&mut m.rows[at + j], at, &blk.rows[j]);
        proof {
            assert forall|i: int| 0 <= i < n implies #[trigger] m@[i] == (if at <= i < at + j + 1 {
                overlay(start[i], at as int, blk@[i - at])
            } else {
                start[i]
            }) by {
                if i != at + j {
                    assert(m@[i] == before[i]);
                }
            }
            assert forall|i: int| 0 <= i < n implies (#[trigger] m@[i]).len() == n by {
                assert(start[i].len() == n);
            }
        }
        j = j + 1;
    }
    assert(m@ =~= overlay_block(start, at as int, blk@));
}

/// The first unit vector of dimension `d`.
pub open spec fn first_unit<T: Real>(d: int) -> Seq<T> {
    constant(num::<T>(0), d).update(0, num::<T>(1))
}

fn first_unit_of<T: Real>(d: usize) -> (v: Vec<T>)
    requires
        real_ops::<T>(),
        d >= 1,
    ensures
        v@ == first_unit::<T>(d as int),
{
    let mut v: Vec<T> = fill_vec(number(0), d);
    v[0] = number(1);
    v
}

/// Every entry of `v` is finite.
pub open spec fn all_finite<T: Real>(v: Seq<T>) -> bool {
    forall|i: int| 0 <= i < v.len() ==> finite(num::<T>(0), #[trigger] v[i])
}

/// Whether every entry of `v` is finite.
pub fn is_all_finite<T: Real>(v: &Vec<T>) -> (r: bool)
    requires
        real_ops::<T>(),
    ensures
        r == all_finite(v@),
{
    let z: T = number(0);
    let mut i: usize = 0;
    while i < v.len()
        invariant
            real_ops::<T>(),
            z == num::<T>(0),
            i <= v@.len(),
            forall|k: int| 0 <= k < i ==> finite(num::<T>(0), #[trigger] v@[k]),
        decreases v.len() - i,
    {
        if !is_finite(z, v[i]) {
            assert(!finite(num::<T>(0), v@[i as int]));
            return false;
        }
        i = i + 1;
    }
    true
}

/// Sum of the squares of entries `1 .. n` of `v`.
pub open spec fn tail_squares<T: Real>(v: Seq<T>, n: nat) -> T
    decreases n,
{
    if n <= 1 {
        num::<T>(0)
    } else {
        plus(tail_squares(v, (n - 1) as nat), times(v[n - 1], v[n - 1]))
    }
}

fn tail_squares_of<T: Real>(v: &Vec<T>) -> (r: T)
    requires
        real_ops::<T>(),
        v@.len() >= 1,
    ensures
        r == tail_squares(v@, v@.len()),
{
    let mut s: T = number(0);
    let mut i: usize = 1;
    while i < v.len()
        invariant
            real_ops::<T>(),
            1 <= i <= v@.len(),
            s == tail_squares(v@, i as nat),
        decreases v.len() - i,
    {
        s = s + v[i] * v[i];
        i = i + 1;
    }
    s
}

/// A starting point inside one cone, near the hint `h`: the hint itself where it
/// is safely inside, a blend towards the axis where it is barely inside, else a
/// point on the axis of the hint's size. A hint that is not finite gives the unit
/// point.
pub open spec fn warm_block<T: Real, C: Numerics<T>>(ops: &C, h: Seq<T>) -> Seq<T> {
    let z = num::<T>(0);
    let d = h.len() as int;
    let bar = root_of(ops, tail_squares(h, h.len()));
    let scale = larger(larger(magnitude(z, h[0]), bar), num::<T>(1));
    let margin = minus(h[0], bar);
    let blend = ratio::<T>(1, 10);
    let keep = minus(num::<T>(1), blend);
    if !all_finite(h) || !finite(z, scale) {
        first_unit::<T>(d)
    } else if greater(margin, times(ratio::<T>(5, 100), scale)) {
        h
    } else if greater(margin, z) && greater(h[0], z) {
        Seq::new(
            h.len(),
            |i: int|
                if i == 0 {
                    plus(times(keep, h[0]), times(blend, scale))
                } else {
                    times(keep, h[i])
                },
        )
    } else {
        constant(z, d).update(0, scale)
    }
}

fn warm_block_of<T: Real, C: Numerics<T>>(ops: &C, h: &Vec<T>) -> (v: Vec<T>)
    requires
        real_ops::<T>(),
        functions_repeatable(ops),
        h@.len() >= 1,
    ensures
        v@ == warm_block(ops, h@),
        v@.len() == h@.len(),
{
    let z: T = number(0);
    let d: usize = h.len();
    if !is_all_finite(h) {
        return first_unit_of(d);
    }
    let bar: T = sqrt_with(ops, tail_squares_of(h));
    let scale: T = max(max(abs(z, h[0]), bar), number(1));
    if !is_finite(z, scale) {
        return first_unit_of(d);
    }
    let margin: T = h[0] - bar;
    let safety: T = fraction::<T>(5, 100) * scale;
    if margin > safety {
        let v: Vec<T> = slice_of(h, 0, d);
        assert(v@ =~= h@);
        return v;
    }
    if margin > z && h[0] > z {
        let blend: T = fraction(1, 10);
        let one: T = number(1);
        let keep: T = one - blend;
        let first: T = keep * h[0] + blend * scale;
        let mut v: Vec<T> = Vec::new();
        v.push(first);
        let mut i: usize = 1;
        while i < d
            invariant
                real_ops::<T>(),
                d == h@.len(),
                1 <= i <= d,
                v@.len() == i,
                v@[0] == first,
                forall|k: int| 1 <= k < i ==> #[trigger] v@[k] == times(keep, h@[k]),
            decreases d - i,
        {
            let x: T = keep * h[i];
            v.push(x);
            i = i + 1;
        }
        assert(v@ =~= warm_block(ops, h@));
        return v;
    }
    let mut v: Vec<T> = fill_vec(z, d);
    v[0] = scale;
    v
}

/// Starting points for the first `c` cones, zero elsewhere.
pub open spec fn warm_upto<T: Real, C: Numerics<T>>(
    ops: &C,
    h: Seq<T>,
    cones: Seq<ConeDesc>,
    c: nat,
) -> Seq<T>
    decreases c,
{
    if c == 0 {
        constant(num::<T>(0), h.len() as int)
    } else {
        overlay(
            warm_upto(ops, h, cones, (c - 1) as nat),
            cones[c - 1].offset as int,
            warm_block(ops, part(h, cones[c - 1])),
        )
    }
}

/// A starting point inside every cone, from the hint `h`.
pub fn init_per_cone_warm_start<T: Real, C: Numerics<T>>(
    ops: &C,
    h: &Vec<T>,
    cones: &Vec<ConeDesc>,
) -> (v: Vec<T>)
    requires
        real_ops::<T>(),
        functions_repeatable(ops),
        cones_within(cones@, h@.len() as int),
    ensures
        v@ == warm_upto(ops, h@, cones@, cones@.len()),
        v@.len() == h@.len(),
{
    let mut v: Vec<T> = fill_vec(number(0), h.len());
    let mut c: usize = 0;
    while c < cones.len()
        invariant
            real_ops::<T>(),
            functions_repeatable(ops),
            cones_within(cones@, h@.len() as int),
            c <= cones@.len(),
            v@ == warm_upto(ops, h@, cones@, c as nat),
            v@.len() == h@.len(),
        decreases cones.len() - c,
    {
        let cone: ConeDesc = cones[c];
        assert(cones@[c as int].dim >= 1);
        let hs: Vec<T> = slice_of(h, cone.offset, cone.dim);
        let blk: Vec<T> = warm_block_of(ops, &hs);
        write_part(&mut v, cone.offset, &blk);
        c = c + 1;
    }
    v
}

/// The identity of the product: one at the first row of each of the first `c`
/// cones, zero elsewhere.
pub open spec fn identity_upto<T: Real>(nct: int, cones: Seq<ConeDesc>, c: nat) -> Seq<T>
    decreases c,
{
    if c == 0 {
        constant(num::<T>(0), nct)
    } else {
        identity_upto::<T>(nct, cones, (c - 1) as nat).update(
            cones[c - 1].offset as int,
            num::<T>(1),
        )
    }
}

/// The identity of the product of cones.
pub fn per_cone_e<T: Real>(nct: usize, cones: &Vec<ConeDesc>) -> (e: Vec<T>)
    requires
        real_ops::<T>(),
        cones_within(cones@, nct as int),
    ensures
        e@ == identity_upto::<T>(nct as int, cones@, cones@.len()),
        e@.len() == nct,
{
    let mut e: Vec<T> = fill_vec(number(0), nct);
    let mut c: usize = 0;
    while c < cones.len()
        invariant
            real_ops::<T>(),
            cones_within(cones@, nct as int),
            c <= cones@.len(),
            e@ == identity_upto::<T>(nct as int, cones@, c as nat),
            e@.len() == nct,
        decreases cones.len() - c,
    {
        assert(cones@[c as int].dim >= 1);
        let one: T = number(1);
        e[cones[c].offset] = one;
        c = c + 1;
    }
    e
}

/// Jordan products over the first `c` cones, zero elsewhere.
pub open spec fn jordan_upto<T: Real, C: ConeOps<T>>(
    ops: &C,
    u: Seq<T>,
    v: Seq<T>,
    cones: Seq<ConeDesc>,
    c: nat,
) -> Seq<T>
    decreases c,
{
    if c == 0 {
        constant(num::<T>(0), u.len() as int)
    } else {
        overlay(
            jordan_upto(ops, u, v, cones, (c - 1) as nat),
            cones[c - 1].offset as int,
            jordan_of(ops, part(u, cones[c - 1]), part(v, cones[c - 1])),
        )
    }
}

/// Jordan product, cone by cone.
pub fn jordan_per_cone<T: Real, C: ConeOps<T>>(
    ops: &C,
    u: &Vec<T>,
    v: &Vec<T>,
    cones: &Vec<ConeDesc>,
) -> (out: Vec<T>)
    requires
        real_ops::<T>(),
        cones_repeatable(ops),
        u@.len() == v@.len(),
        cones_within(cones@, u@.len() as int),
    ensures
        out@ == jordan_upto(ops, u@, v@, cones@, cones@.len()),
        out@.len() == u@.len(),
{
    let mut out: Vec<T> = fill_vec(number(0), u.len());
    let mut c: usize = 0;
    while c < cones.len()
        invariant
            real_ops::<T>(),
            cones_repeatable(ops),
            u@.len() == v@.len(),
            cones_within(cones@, u@.len() as int),
            c <= cones@.len(),
            out@ == jordan_upto(ops, u@, v@, cones@, c as nat),
            out@.len() == u@.len(),
        decreases cones.len() - c,
    {
        let cone: ConeDesc = cones[c];
        assert(cones@[c as int].dim >= 1);
        let us: Vec<T> = slice_of(u, cone.offset, cone.dim);
        let vs: Vec<T> = slice_of(v, cone.offset, cone.dim);
        let r: Vec<T> = jordan_with(ops, &us, &vs);
        write_part(&mut out, cone.offset, &r);
        c = c + 1;
    }
    out
}

/// The quotient of one by zero: in floating point, infinity.
pub open spec fn unbounded<T: Real>() -> T {
    ratio::<T>(1, 0)
}

/// The smallest of the first `c` cones' largest steps, unbounded where there is
/// none.
pub open spec fn step_upto<T: Real, C: ConeOps<T>>(
    ops: &C,
    z: Seq<T>,
    dz: Seq<T>,
    cones: Seq<ConeDesc>,
    c: nat,
) -> T
    decreases c,
{
    if c == 0 {
        unbounded::<T>()
    } else {
        let best = step_upto(ops, z, dz, cones, (c - 1) as nat);
        let a = step_of(ops, part(z, cones[c - 1]), part(dz, cones[c - 1]));
        if less(a, best) {
            a
        } else {
            best
        }
    }
}

/// Largest step from `z` along `dz` that keeps every cone.
pub fn max_step_all_cones<T: Real, C: ConeOps<T>>(
    ops: &C,
    z: &Vec<T>,
    dz: &Vec<T>,
    cones: &Vec<ConeDesc>,
) -> (r: T)
    requires
        real_ops::<T>(),
        cones_repeatable(ops),
        z@.len() == dz@.len(),
        cones_within(cones@, z@.len() as int),
    ensures
        r == step_upto(ops, z@, dz@, cones@, cones@.len()),
{
    let mut best: T = fraction(1, 0);
    let mut c: usize = 0;
    while c < cones.len()
        invariant
            real_ops::<T>(),
            cones_repeatable(ops),
            z@.len() == dz@.len(),
            cones_within(cones@, z@.len() as int),
            c <= cones@.len(),
            best == step_upto(ops, z@, dz@, cones@, c as nat),
        decreases cones.len() - c,
    {
        let cone: ConeDesc = cones[c];
        assert(cones@[c as int].dim >= 1);
        let zs: Vec<T> = slice_of(z, cone.offset, cone.dim);
        let ds: Vec<T> = slice_of(dz, cone.offset, cone.dim);
        let a: T = step_with(ops, &zs, &ds);
        if a < best {
            best = a;
        }
        c = c + 1;
    }
    best
}

/// `a` brought into `[0, 1]`; zero where `a` does not equal itself.
pub open spec fn clipped<T: Real>(a: T) -> T {
    if !same(a, a) {
        num::<T>(0)
    } else if greater(a, num::<T>(1)) {
        num::<T>(1)
    } else if less(a, num::<T>(0)) {
        num::<T>(0)
    } else {
        a
    }
}

/// A step length brought into `[0, 1]`, zero for one that is not a number.
pub fn clip01<T: Real>(a: T) -> (r: T)
    requires
        real_ops::<T>(),
    ensures
        r == clipped(a),
{
    let zero: T = number(0);
    let one: T = number(1);
    if a == a {
        if a > one {
            one
        } else if a < zero {
            zero
        } else {
            a
        }
    } else {
        zero
    }
}

/// Every cone's part of `z` is strictly inside its cone.
pub open spec fn interior<T, C: ConeOps<T>>(ops: &C, z: Seq<T>, cones: Seq<ConeDesc>) -> bool {
    forall|c: int| 0 <= c < cones.len() ==> interior_of(ops, part(z, #[trigger] cones[c]))
}

/// Whether every cone's part of `z` is strictly inside its cone.
pub fn all_cones_interior<T: Real, C: ConeOps<T>>(
    ops: &C,
    z: &Vec<T>,
    cones: &Vec<ConeDesc>,
) -> (r: bool)
    requires
        cones_repeatable(ops),
        cones_within(cones@, z@.len() as int),
    ensures
        r == interior(ops, z@, cones@),
{
    let mut c: usize = 0;
    while c < cones.len()
        invariant
            cones_repeatable(ops),
            cones_within(cones@, z@.len() as int),
            c <= cones@.len(),
            forall|k: int| 0 <= k < c ==> interior_of(ops, part(z@, #[trigger] cones@[k])),
        decreases cones.len() - c,
    {
        let cone: ConeDesc = cones[c];
        assert(cones@[c as int].dim >= 1);
        let zs: Vec<T> = slice_of(z, cone.offset, cone.dim);
        if !interior_with(ops, &zs) {
            assert(!interior_of(ops, part(z@, cones@[c as int])));
            return false;
        }
        c = c + 1;
    }
    true
}

// ---- block-diagonal scalings ----

/// Cone dimensions the scalings cover.
pub open spec fn covered_dim(d: int) -> bool {
    d == 1 || d == 3 || d == 4 || d == 8 || d == 11
}

/// The block-diagonal matrices of one interior-point iterate, by cones.
#[verifier::ext_equal]
pub struct ArrowModel<T> {
    /// Inverse of the arrow matrix of `s`.
    pub s_inv: Seq<Seq<T>>,
    /// Arrow matrix of `y`.
    pub y: Seq<Seq<T>>,
    /// Their product.
    pub m: Seq<Seq<T>>,
}

/// The block-diagonal matrices over the first `c` cones; nothing where a cone's
/// dimension is not covered or its arrow matrix has no inverse.
pub open spec fn arrows_upto<T: Real, C: ConeOps<T>>(
    ops: &C,
    s: Seq<T>,
    y: Seq<T>,
    cones: Seq<ConeDesc>,
    c: nat,
) -> Option<ArrowModel<T>>
    decreases c,
{
    let z = num::<T>(0);
    let n = s.len() as int;
    if c == 0 {
        Some(ArrowModel { s_inv: filled(z, n, n), y: filled(z, n, n), m: filled(z, n, n) })
    } else {
        let cone = cones[c - 1];
        let at = cone.offset as int;
        let a_y = arrow_of(ops, part(y, cone));
        match (
            arrows_upto(ops, s, y, cones, (c - 1) as nat),
            inverse_of(ops, arrow_of(ops, part(s, cone))),
        ) {
            (Some(b), Some(inv)) => if covered_dim(cone.dim as int) {
                Some(
                    ArrowModel {
                        s_inv: overlay_block(b.s_inv, at, inv),
                        y: overlay_block(b.y, at, a_y),
                        m: overlay_block(b.m, at, mat_mul(z, inv, a_y, cone.dim as int)),
                    },
                )
            } else {
                None
            },
            _ => None,
        }
    }
}

/// The block-diagonal matrices of one interior-point iterate.
pub struct ArrowBlocks<T> {
    pub s_inv: Mat<T>,
    pub y: Mat<T>,
    pub m: Mat<T>,
}

impl<T> View for ArrowBlocks<T> {
    type V = ArrowModel<T>;

    open spec fn view(&self) -> ArrowModel<T> {
        ArrowModel { s_inv: self.s_inv@, y: self.y@, m: self.m@ }
    }
}

impl<T> ArrowBlocks<T> {
    /// All three are `n` by `n`.
    pub open spec fn sized(&self, n: int) -> bool {
        shaped(self.s_inv@, n, n) && shaped(self.y@, n, n) && shaped(self.m@, n, n)
    }
}

/// Nothing over some first cones means nothing over all.
proof fn lemma_arrows_none<T: Real, C: ConeOps<T>>(
    ops: &C,
    s: Seq<T>,
    y: Seq<T>,
    cones: Seq<ConeDesc>,
    c: nat,
    d: nat,
)
    requires
        c <= d,
        arrows_upto(ops, s, y, cones, c) is None,
    ensures
        arrows_upto(ops, s, y, cones, d) is None,
    decreases d,
{
    if c < d {
        lemma_arrows_none(ops, s, y, cones, c, (d - 1) as nat);
    }
}

/// Builds `arrow(s)^-1`, `arrow(y)` and their product, cone by cone.
pub fn build_per_cone_arrow_blocks<T: Real, C: ConeOps<T>>(
    ops: &C,
    s: &Vec<T>,
    y: &Vec<T>,
    cones: &Vec<ConeDesc>,
) -> (r: Option<ArrowBlocks<T>>)
    requires
        real_ops::<T>(),
        cones_repeatable(ops),
        s@.len() == y@.len(),
        cones_within(cones@, s@.len() as int),
    ensures
        match r {
            Some(b) => b.sized(s@.len() as int) && arrows_upto(ops, s@, y@, cones@, cones@.len())
                == Some(b@),
            None => arrows_upto(ops, s@, y@, cones@, cones@.len()) is None,
        },
{
    let z: T = number(0);
    let n: usize = s.len();
    let mut b: ArrowBlocks<T> = ArrowBlocks {
        s_inv: fill_mat(z, n, n),
        y: fill_mat(z, n, n),
        m: fill_mat(z, n, n),
    };
    let mut c: usize = 0;
    while c < cones.len()
        invariant
            real_ops::<T>(),
            cones_repeatable(ops),
            z == num::<T>(0),
            n == s@.len(),
            s@.len() == y@.len(),
            cones_within(cones@, n as int),
            c <= cones@.len(),
            b.sized(n as int),
            arrows_upto(ops, s@, y@, cones@, c as nat) == Some(b@),
        decreases cones.len() - c,
    {
        let cone: ConeDesc = cones[c];
        assert(cones@[c as int].dim >= 1);
        let d: usize = cone.dim;
        if !(d == 1 || d == 3 || d == 4 || d == 8 || d == 11) {
            proof {
                lemma_arrows_none(ops, s@, y@, cones@, (c + 1) as nat, cones@.len());
            }
            return None;
        }
        let sv: Vec<T> = slice_of(s, cone.offset, d);
        let yv: Vec<T> = slice_of(y, cone.offset, d);
        let a_s: Mat<T> = arrow_with(ops, &sv);
        let a_y: Mat<T> = arrow_with(ops, &yv);
        let inv: Mat<T> = match invert_with(ops, &a_s) {
            Some(i) => i,
            None => {
                proof {
                    lemma_arrows_none(ops, s@, y@, cones@, (c + 1) as nat, cones@.len());
                }
                return None;
            },
        };
        let prod: Mat<T> = mat_times_mat(z, &inv, &a_y, d);
        write_block(&mut b.s_inv, cone.offset, &inv);
        write_block(&mut b.y, cone.offset, &a_y);
        write_block(&mut b.m, cone.offset, &prod);
        c = c + 1;
    }
    Some(b)
}

/// The block-diagonal Nesterov-Todd scaling of one iterate, by cones.
#[verifier::ext_equal]
pub struct NtModel<T> {
    /// The scaling `W`.
    pub w: Seq<Seq<T>>,
    /// `W W`.
    pub w2: Seq<Seq<T>>,
    /// Inverse of the arrow matrix of `W s`.
    pub arrow_inv: Seq<Seq<T>>,
    /// `W s`.
    pub s_scaled: Seq<T>,
}

/// The block-diagonal scaling over the first `c` cones; nothing where a cone's
/// dimension is not covered, or it has no scaling, or the arrow matrix of its
/// scaled part has no inverse.
pub open spec fn nt_upto<T: Real, C: ConeOps<T>>(
    ops: &C,
    s: Seq<T>,
    y: Seq<T>,
    cones: Seq<ConeDesc>,
    c: nat,
) -> Option<NtModel<T>>
    decreases c,
{
    let z = num::<T>(0);
    let n = s.len() as int;
    if c == 0 {
        Some(
            NtModel {
                w: filled(z, n, n),
                w2: filled(z, n, n),
                arrow_inv: filled(z, n, n),
                s_scaled: constant(z, n),
            },
        )
    } else {
        let cone = cones[c - 1];
        let at = cone.offset as int;
        match (
            nt_upto(ops, s, y, cones, (c - 1) as nat),
            nt_of(ops, part(s, cone), part(y, cone)),
        ) {
            (Some(b), Some(w)) => {
                let sc = mat_vec(z, w, part(s, cone));
                match inverse_of(ops, arrow_of(ops, sc)) {
                    Some(inv) => if covered_dim(cone.dim as int) {
                        Some(
                            NtModel {
                                w: overlay_block(b.w, at, w),
                                w2: overlay_block(b.w2, at, mat_mul(z, w, w, cone.dim as int)),
                                arrow_inv: overlay_block(b.arrow_inv, at, inv),
                                s_scaled: overlay(b.s_scaled, at, sc),
                            },
                        )
                    } else {
                        None
                    },
                    None => None,
                }
            },
            _ => None,
        }
    }
}

/// The block-diagonal Nesterov-Todd scaling of one iterate.
pub struct NtBlocks<T> {
    pub w: Mat<T>,
    pub w2: Mat<T>,
    pub arrow_inv: Mat<T>,
    pub s_scaled: Vec<T>,
}

impl<T> View for NtBlocks<T> {
    type V = NtModel<T>;

    open spec fn view(&self) -> NtModel<T> {
        NtModel {
            w: self.w@,
            w2: self.w2@,
            arrow_inv: self.arrow_inv@,
            s_scaled: self.s_scaled@,
        }
    }
}

impl<T> NtBlocks<T> {
    /// The matrices are `n` by `n`, the vector has `n` entries.
    pub open spec fn sized(&self, n: int) -> bool {
        shaped(self.w@, n, n) && shaped(self.w2@, n, n) && shaped(self.arrow_inv@, n, n)
            && self.s_scaled@.len() == n
    }
}

/// Nothing over some first cones means nothing over all.
proof fn lemma_nt_none<T: Real, C: ConeOps<T>>(
    ops: &C,
    s: Seq<T>,
    y: Seq<T>,
    cones: Seq<ConeDesc>,
    c: nat,
    d: nat,
)
    requires
        c <= d,
        nt_upto(ops, s, y, cones, c) is None,
    ensures
        nt_upto(ops, s, y, cones, d) is None,
    decreases d,
{
    if c < d {
        lemma_nt_none(ops, s, y, cones, c, (d - 1) as nat);
    }
}

/// Builds the Nesterov-Todd scaling, cone by cone.
pub fn build_per_cone_nt_blocks<T: Real, C: ConeOps<T>>(
    ops: &C,
    s: &Vec<T>,
    y: &Vec<T>,
    cones: &Vec<ConeDesc>,
) -> (r: Option<NtBlocks<T>>)
    requires
        real_ops::<T>(),
        cones_repeatable(ops),
        s@.len() == y@.len(),
        cones_within(cones@, s@.len() as int),
    ensures
        match r {
            Some(b) => b.sized(s@.len() as int) && nt_upto(ops, s@, y@, cones@, cones@.len())
                == Some(b@),
            None => nt_upto(ops, s@, y@, cones@, cones@.len()) is None,
        },
{
    let z: T = number(0);
    let n: usize = s.len();
    let mut b: NtBlocks<T> = NtBlocks {
        w: fill_mat(z, n, n),
        w2: fill_mat(z, n, n),
        arrow_inv: fill_mat(z, n, n),
        s_scaled: fill_vec(z, n),
    };
    let mut c: usize = 0;
    while c < cones.len()
        invariant
            real_ops::<T>(),
            cones_repeatable(ops),
            z == num::<T>(0),
            n == s@.len(),
            s@.len() == y@.len(),
            cones_within(cones@, n as int),
            c <= cones@.len(),
            b.sized(n as int),
            nt_upto(ops, s@, y@, cones@, c as nat) == Some(b@),
        decreases cones.len() - c,
    {
        let cone: ConeDesc = cones[c];
        assert(cones@[c as int].dim >= 1);
        let d: usize = cone.dim;
        if !(d == 1 || d == 3 || d == 4 || d == 8 || d == 11) {
            proof {
                lemma_nt_none(ops, s@, y@, cones@, (c + 1) as nat, cones@.len());
            }
            return None;
        }
        let sv: Vec<T> = slice_of(s, cone.offset, d);
        let yv: Vec<T> = slice_of(y, cone.offset, d);
        let w: Mat<T> = match nt_with(ops, &sv, &yv) {
            Some(w) => w,
            None => {
                proof {
                    lemma_nt_none(ops, s@, y@, cones@, (c + 1) as nat, cones@.len());
                }
                return None;
            },
        };
        let w2: Mat<T> = mat_times_mat(z, &w, &w, d);
        let sc: Vec<T> = mat_times_vec(z, &w, &sv);
        let a_sc: Mat<T> = arrow_with(ops, &sc);
        let inv: Mat<T> = match invert_with(ops, &a_sc) {
            Some(i) => i,
            None => {
                proof {
                    lemma_nt_none(ops, s@, y@, cones@, (c + 1) as nat, cones@.len());
                }
                return None;
            },
        };
        write_block(&mut b.w, cone.offset, &w);
        write_block(&mut b.w2, cone.offset, &w2);
        write_block(&mut b.arrow_inv, cone.offset, &inv);
        write_part(&mut b.s_scaled, cone.offset, &sc);
        c = c + 1;
    }
    Some(b)
}

} // verus!
