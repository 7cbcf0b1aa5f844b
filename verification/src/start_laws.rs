//! Starting points: in an ordered field with exact roots they lie strictly inside
//! their cones, and starting again from one changes nothing. Of every hint but one that
//! is barely inside its cone, this holds in floating-point arithmetic as well.
use crate::algebra::{
    field, lemma_add_assoc, lemma_add_comm, lemma_add_neg, lemma_add_zero, lemma_distrib,
    lemma_div_cancel, lemma_mul_assoc, lemma_mul_comm, lemma_mul_one, lemma_mul_sub,
    lemma_mul_zero, lemma_neg_neg, lemma_sub_def, lemma_sub_facts,
};
use crate::cones::{
    all_finite, cones_within, first_unit, identity_upto, interior, interior_of, part, tail_squares,
    warm_block, warm_upto, ConeOps,
};
use crate::dense_laws::tiled;
use crate::linalg::{constant, vscale};
use crate::numerics::{root_of, Numerics};
use crate::scalar::{
    at_most, finite, greater, larger, less, magnitude, minus, negated, num, plus, ratio, same,
    times, units, Real,
};
use crate::scaling_laws::lemma_tiles_ordered;
use crate::solver_laws::{center_inside, starts_inside};
use crate::types::{ConeDesc, SocpProblem};
use vstd::prelude::*;

verus! {

// ---- an ordered field ----

/// The operations are those of a field, and the comparisons those of a total order that
/// sums with and products of positive values keep. Fractions are in the order of the
/// numbers they stand for.
#[verifier::opaque]
pub open spec fn ordered_field<T: Real>() -> bool {
    let z = num::<T>(0);
    &&& field(units::<T>())
    &&& forall|a: T| !#[trigger] less(a, a)
    &&& forall|a: T, b: T, c: T| #[trigger] less(a, b) && #[trigger] less(b, c) ==> less(a, c)
    &&& forall|a: T, b: T| #[trigger] less(a, b) || a == b || less(b, a)
    &&& forall|a: T, b: T| #[trigger] greater(a, b) == less(b, a)
    &&& forall|a: T, b: T| #[trigger] at_most(a, b) == (less(a, b) || a == b)
    &&& forall|a: T, b: T| #[trigger] same(a, b) == (a == b)
    &&& forall|a: T, b: T, c: T| #[trigger] less(a, b) ==> less(plus(a, c), #[trigger] plus(b, c))
    &&& forall|a: T, b: T| less(z, a) && less(z, b) ==> less(z, #[trigger] times(a, b))
    &&& forall|k: u32, q: u32, l: u32, r: u32|
        0 < q && 0 < r && k * r < l * q ==> less(
            #[trigger] ratio::<T>(k, q),
            #[trigger] ratio::<T>(l, r),
        )
    &&& less(z, num::<T>(1))
}

/// The square root of what is not negative is not negative, and its square is exact.
pub open spec fn root_exact<T: Real, C: Numerics<T>>(ops: &C) -> bool {
    forall|x: T|
        at_most(num::<T>(0), x) ==> at_most(num::<T>(0), #[trigger] root_of(ops, x)) && times(
            root_of(ops, x),
            root_of(ops, x),
        ) == x
}

/// The order, with what follows of three values.
pub proof fn lemma_order<T: Real>(a: T, b: T, c: T)
    requires
        ordered_field::<T>(),
    ensures
        field(units::<T>()),
        !less(a, a),
        less(a, b) || a == b || less(b, a),
        !(less(a, b) && less(b, a)),
        greater(a, b) == less(b, a),
        at_most(a, b) == (less(a, b) || a == b),
        same(a, b) == (a == b),
        less(a, b) && at_most(b, c) ==> less(a, c),
        at_most(a, b) && less(b, c) ==> less(a, c),
        at_most(a, b) && at_most(b, c) ==> at_most(a, c),
        less(num::<T>(0), num::<T>(1)),
{
    reveal(ordered_field);
    assert(less(a, b) && less(b, a) ==> less(a, a));
    assert(at_most(b, c) == (less(b, c) || b == c));
    assert(at_most(a, c) == (less(a, c) || a == c));
}

/// `a < b` is `0 < b - a`.
pub proof fn lemma_less_is_positive<T: Real>(a: T, b: T)
    requires
        ordered_field::<T>(),
    ensures
        less(a, b) == less(num::<T>(0), minus(b, a)),
{
    reveal(ordered_field);
    let u = units::<T>();
    let d = minus(b, a);
    lemma_sub_def(u, b, a);
    lemma_add_neg(u, a);
    if less(a, b) {
        assert(less(plus(a, negated(a)), plus(b, negated(a))));
    }
    if less(num::<T>(0), d) {
        assert(less(plus(num::<T>(0), a), plus(d, a)));
        lemma_add_zero(u, a);
        lemma_add_assoc(u, b, negated(a), a);
        lemma_add_comm(u, negated(a), a);
        lemma_add_zero(u, b);
    }
}

/// Sums keep the order.
pub proof fn lemma_sum_less<T: Real>(a: T, b: T, c: T, d: T)
    requires
        ordered_field::<T>(),
        at_most(c, d),
    ensures
        less(a, b) ==> less(plus(a, c), plus(b, d)),
        at_most(a, b) ==> at_most(plus(a, c), plus(b, d)),
{
    reveal(ordered_field);
    let u = units::<T>();
    assert(less(c, d) ==> less(plus(c, b), plus(d, b)));
    lemma_add_comm(u, c, b);
    lemma_add_comm(u, d, b);
    assert(less(a, b) ==> less(plus(a, c), plus(b, c)));
    assert(at_most(c, d) == (less(c, d) || c == d));
    assert(at_most(a, b) == (less(a, b) || a == b));
    assert(at_most(plus(a, c), plus(b, d)) == (less(plus(a, c), plus(b, d)) || plus(a, c) == plus(
        b,
        d,
    )));
    if less(a, b) && less(c, d) {
        assert(less(plus(a, c), plus(b, c)) && less(plus(b, c), plus(b, d)));
    }
}

/// Products with a positive value keep the order.
pub proof fn lemma_product_less<T: Real>(k: T, a: T, b: T)
    requires
        ordered_field::<T>(),
        less(num::<T>(0), k),
    ensures
        less(a, b) ==> less(times(k, a), times(k, b)),
        at_most(a, b) ==> at_most(times(k, a), times(k, b)),
{
    let u = units::<T>();
    lemma_order(a, b, b);
    lemma_order(times(k, a), times(k, b), b);
    if less(a, b) {
        lemma_less_is_positive(a, b);
        assert(less(num::<T>(0), times(k, minus(b, a)))) by {
            reveal(ordered_field);
        }
        lemma_mul_sub(u, k, b, a);
        lemma_less_is_positive(times(k, a), times(k, b));
    }
}

/// No square is negative.
pub proof fn lemma_square_not_negative<T: Real>(x: T)
    requires
        ordered_field::<T>(),
    ensures
        at_most(num::<T>(0), times(x, x)),
{
    let z = num::<T>(0);
    let u = units::<T>();
    lemma_order(z, x, x);
    lemma_order(z, times(x, x), x);
    lemma_mul_zero(u, x);
    if less(z, x) {
        lemma_product_less(x, z, x);
    } else if less(x, z) {
        // -x is positive, and (-x) x < (-x) 0
        let y = minus(z, x);
        lemma_less_is_positive(x, z);
        lemma_product_less(y, x, z);
        lemma_mul_zero(u, y);
        lemma_mul_comm(u, y, x);
        lemma_mul_sub(u, x, z, x);
        let q = times(x, x);
        assert(less(minus(z, q), z));
        lemma_less_is_positive(minus(z, q), z);
        lemma_sub_facts(u, z, q);
        lemma_sub_def(u, z, q);
        lemma_sub_def(u, z, minus(z, q));
        lemma_add_zero(u, negated(q));
        lemma_neg_neg(u, q);
        lemma_add_zero(u, q);
    }
}

proof fn lemma_tail_not_negative<T: Real>(v: Seq<T>, n: nat)
    requires
        ordered_field::<T>(),
    ensures
        at_most(num::<T>(0), tail_squares(v, n)),
    decreases n,
{
    let z = num::<T>(0);
    lemma_order(z, z, z);
    if n > 1 {
        lemma_tail_not_negative(v, (n - 1) as nat);
        lemma_square_not_negative(v[n - 1]);
        lemma_sum_less(z, tail_squares(v, (n - 1) as nat), z, times(v[n - 1], v[n - 1]));
        lemma_add_zero(units::<T>(), z);
    }
}

/// Values that are not negative and have the same square are equal.
pub proof fn lemma_same_square<T: Real>(a: T, b: T)
    requires
        ordered_field::<T>(),
        at_most(num::<T>(0), a),
        at_most(num::<T>(0), b),
        times(a, a) == times(b, b),
    ensures
        a == b,
{
    lemma_order(a, b, b);
    if less(a, b) {
        lemma_smaller_square(a, b);
    } else if less(b, a) {
        lemma_smaller_square(b, a);
    }
}

proof fn lemma_smaller_square<T: Real>(a: T, b: T)
    requires
        ordered_field::<T>(),
        at_most(num::<T>(0), a),
        less(a, b),
    ensures
        times(a, a) != times(b, b),
{
    let z = num::<T>(0);
    let u = units::<T>();
    lemma_order(z, a, b);
    lemma_product_less(b, a, b);
    lemma_mul_comm(u, a, b);
    lemma_order(times(a, a), times(b, a), times(b, b));
    lemma_order(times(b, b), times(b, b), times(b, b));
    if less(z, a) {
        lemma_product_less(a, a, b);
    } else {
        lemma_mul_zero(u, b);
        lemma_mul_comm(u, a, b);
        lemma_mul_zero(u, a);
        assert(times(a, a) == z && times(b, a) == z);
    }
}

// ---- one cone ----

/// The first entry exceeds the norm of the others.
pub open spec fn strictly_inside<T: Real, C: Numerics<T>>(ops: &C, v: Seq<T>) -> bool {
    less(root_of(ops, tail_squares(v, v.len())), v[0])
}

proof fn lemma_tail_scaled<T: Real>(k: T, v: Seq<T>, w: Seq<T>, n: nat)
    requires
        ordered_field::<T>(),
        n <= v.len(),
        forall|i: int| 1 <= i < n ==> #[trigger] w[i] == times(k, v[i]),
    ensures
        tail_squares(w, n) == times(times(k, k), tail_squares(v, n)),
    decreases n,
{
    let z = num::<T>(0);
    let u = units::<T>();
    lemma_order(z, z, z);
    let kk = times(k, k);
    if n <= 1 {
        lemma_mul_zero(u, kk);
    } else {
        let x = v[n - 1];
        lemma_tail_scaled(k, v, w, (n - 1) as nat);
        assert(w[n - 1] == times(k, x));
        // (k x)(k x) == (k k)(x x)
        lemma_mul_assoc(u, k, x, times(k, x));
        lemma_mul_comm(u, x, times(k, x));
        lemma_mul_assoc(u, k, x, x);
        lemma_mul_assoc(u, k, k, times(x, x));
        lemma_distrib(u, kk, tail_squares(v, (n - 1) as nat), times(x, x));
    }
}

proof fn lemma_root_scaled<T: Real, C: Numerics<T>>(ops: &C, k: T, x: T)
    requires
        ordered_field::<T>(),
        root_exact(ops),
        less(num::<T>(0), k),
        at_most(num::<T>(0), x),
    ensures
        root_of(ops, times(times(k, k), x)) == times(k, root_of(ops, x)),
{
    let z = num::<T>(0);
    let u = units::<T>();
    let r = root_of(ops, x);
    let kk = times(k, k);
    lemma_order(z, k, k);
    lemma_product_less(k, z, r);
    lemma_mul_zero(u, k);
    lemma_product_less(k, z, k);
    lemma_product_less(kk, z, x);
    lemma_mul_zero(u, kk);
    // (k r)(k r) == (k k)(r r)
    lemma_mul_assoc(u, k, r, times(k, r));
    lemma_mul_comm(u, r, times(k, r));
    lemma_mul_assoc(u, k, r, r);
    lemma_mul_assoc(u, k, k, times(r, r));
    lemma_same_square(root_of(ops, times(kk, x)), times(k, r));
}

/// The larger of two values is one of them and no smaller than either.
pub proof fn lemma_larger<T: Real>(a: T, b: T)
    requires
        ordered_field::<T>(),
    ensures
        at_most(a, larger(a, b)),
        at_most(b, larger(a, b)),
        larger(a, b) == a || larger(a, b) == b,
{
    lemma_order(a, b, b);
    lemma_order(b, a, a);
    lemma_order(b, b, b);
    lemma_order(a, a, a);
}

/// The size of a hint, by which its starting point is measured.
spec fn size_of_hint<T: Real, C: Numerics<T>>(ops: &C, h: Seq<T>) -> T {
    larger(
        larger(magnitude(num::<T>(0), h[0]), root_of(ops, tail_squares(h, h.len()))),
        num::<T>(1),
    )
}

proof fn lemma_size<T: Real, C: Numerics<T>>(ops: &C, h: Seq<T>)
    requires
        ordered_field::<T>(),
        root_exact(ops),
    ensures
        ({
            let z = num::<T>(0);
            let bar = root_of(ops, tail_squares(h, h.len()));
            let size = size_of_hint(ops, h);
            &&& at_most(z, bar)
            &&& at_most(bar, size)
            &&& at_most(h[0], size)
            &&& at_most(num::<T>(1), size)
            &&& less(z, size)
            &&& forall|top: T|
                at_most(num::<T>(0), h[0]) && at_most(h[0], top) && at_most(bar, top) && at_most(
                    num::<T>(1),
                    top,
                ) ==> #[trigger] at_most(size, top)
        }),
{
    let z = num::<T>(0);
    let one = num::<T>(1);
    let bar = root_of(ops, tail_squares(h, h.len()));
    let mag = magnitude(z, h[0]);
    let inner = larger(mag, bar);
    let size = size_of_hint(ops, h);
    lemma_tail_not_negative(h, h.len());
    lemma_larger(mag, bar);
    lemma_larger(inner, one);
    lemma_order(bar, inner, size);
    lemma_order(mag, inner, size);
    lemma_order(z, one, size);
    lemma_order(h[0], z, size);
    lemma_order(z, h[0], size);
    lemma_order(h[0], size, size);
}

/// Every value is finite.
proof fn lemma_all_finite<T: Real>(v: Seq<T>, x: T)
    requires
        ordered_field::<T>(),
    ensures
        all_finite(v),
        finite(num::<T>(0), x),
{
    reveal(ordered_field);
    let z = num::<T>(0);
    assert forall|y: T| finite(z, y) by {
        lemma_sub_def(units::<T>(), y, y);
        lemma_add_neg(units::<T>(), y);
        assert(same(z, z) == (z == z));
    }
}

/// The fractions that starting points use, in order.
proof fn lemma_fractions<T: Real>()
    requires
        ordered_field::<T>(),
    ensures
        less(num::<T>(0), ratio::<T>(5, 100)),
        less(ratio::<T>(5, 100), ratio::<T>(1, 10)),
        less(ratio::<T>(1, 10), num::<T>(1)),
        less(num::<T>(0), ratio::<T>(1, 10)),
{
    let z = num::<T>(0);
    let one = num::<T>(1);
    let u = units::<T>();
    lemma_order(z, one, one);
    assert(less(ratio::<T>(0, 1), ratio::<T>(5, 100)) && less(
        ratio::<T>(5, 100),
        ratio::<T>(1, 10),
    ) && less(ratio::<T>(1, 10), ratio::<T>(1, 1))) by {
        reveal(ordered_field);
    }
    lemma_div_cancel(u, z, one);
    lemma_div_cancel(u, one, one);
    lemma_mul_one(u, ratio::<T>(0, 1));
    lemma_mul_one(u, ratio::<T>(1, 1));
    lemma_order(z, ratio::<T>(5, 100), ratio::<T>(1, 10));
}

/// A point that is inside by more than a tenth of a bound on its size is its own
/// starting point.
proof fn lemma_settled<T: Real, C: Numerics<T>>(ops: &C, v: Seq<T>, top: T)
    requires
        ordered_field::<T>(),
        root_exact(ops),
        v.len() >= 1,
        at_most(v[0], top),
        at_most(num::<T>(1), top),
        at_most(
            times(ratio::<T>(1, 10), top),
            minus(v[0], root_of(ops, tail_squares(v, v.len()))),
        ),
    ensures
        strictly_inside(ops, v),
        warm_block(ops, v) == v,
{
    let z = num::<T>(0);
    let u = units::<T>();
    let bar = root_of(ops, tail_squares(v, v.len()));
    let size = size_of_hint(ops, v);
    let margin = minus(v[0], bar);
    let tenth = ratio::<T>(1, 10);
    let bit = ratio::<T>(5, 100);
    lemma_size(ops, v);
    lemma_fractions::<T>();
    lemma_all_finite(v, size);
    lemma_order(z, num::<T>(1), top);
    // 0 < top / 10 <= margin
    lemma_product_less(tenth, z, top);
    lemma_mul_zero(u, tenth);
    lemma_order(z, times(tenth, top), margin);
    lemma_less_is_positive(bar, v[0]);
    // bar < v[0] <= top, so size <= top
    lemma_order(bar, v[0], top);
    lemma_order(z, bar, v[0]);
    lemma_order(bar, top, top);
    lemma_order(z, v[0], v[0]);
    assert(at_most(size, top));
    // size / 20 <= top / 20 < top / 10 <= margin
    lemma_product_less(bit, size, top);
    lemma_product_less(top, bit, tenth);
    lemma_mul_comm(u, top, bit);
    lemma_mul_comm(u, top, tenth);
    lemma_order(times(bit, size), times(bit, top), times(tenth, top));
    lemma_order(times(bit, size), times(tenth, top), margin);
    lemma_order(margin, times(bit, size), z);
    assert(greater(margin, times(bit, size)));
}

/// One cone's starting point lies strictly inside the cone, and starting again from it
/// changes nothing.
proof fn lemma_block_start<T: Real, C: Numerics<T>>(ops: &C, h: Seq<T>)
    requires
        ordered_field::<T>(),
        root_exact(ops),
        h.len() >= 1,
    ensures
        strictly_inside(ops, warm_block(ops, h)),
        warm_block(ops, warm_block(ops, h)) == warm_block(ops, h),
{
    let z = num::<T>(0);
    let one = num::<T>(1);
    let u = units::<T>();
    let bar = root_of(ops, tail_squares(h, h.len()));
    let size = size_of_hint(ops, h);
    let margin = minus(h[0], bar);
    let bit = ratio::<T>(5, 100);
    let tenth = ratio::<T>(1, 10);
    let keep = minus(one, tenth);
    let v = warm_block(ops, h);
    lemma_size(ops, h);
    lemma_fractions::<T>();
    lemma_all_finite(h, size);
    lemma_order(z, one, one);
    if greater(margin, times(bit, size)) {
        assert(v == h);
        lemma_product_less(bit, z, size);
        lemma_mul_zero(u, bit);
        lemma_order(margin, times(bit, size), z);
        lemma_order(z, times(bit, size), margin);
        lemma_less_is_positive(bar, h[0]);
    } else if greater(margin, z) && greater(h[0], z) {
        // the norm shrinks with the entries
        lemma_less_is_positive(tenth, one);
        lemma_tail_scaled(keep, h, v, h.len());
        lemma_tail_not_negative(h, h.len());
        lemma_root_scaled(ops, keep, tail_squares(h, h.len()));
        let bar_v = times(keep, bar);
        assert(v.len() == h.len());
        assert(root_of(ops, tail_squares(v, v.len())) == bar_v);
        let kh = times(keep, h[0]);
        let ts = times(tenth, size);
        assert(v[0] == plus(kh, ts));
        // v[0] <= keep size + size / 10 == size
        lemma_product_less(keep, h[0], size);
        lemma_order(ts, ts, ts);
        lemma_sum_less(kh, times(keep, size), ts, ts);
        lemma_mul_comm(u, keep, size);
        lemma_mul_comm(u, tenth, size);
        lemma_distrib(u, size, keep, tenth);
        lemma_sub_def(u, one, tenth);
        lemma_add_assoc(u, one, negated(tenth), tenth);
        lemma_add_comm(u, negated(tenth), tenth);
        lemma_add_neg(u, tenth);
        lemma_add_zero(u, one);
        assert(plus(keep, tenth) == one);
        lemma_mul_one(u, size);
        assert(at_most(v[0], size));
        // v[0] - bar_v == keep margin + size / 10
        lemma_mul_sub(u, keep, h[0], bar);
        let km = times(keep, margin);
        lemma_order(margin, z, z);
        lemma_product_less(keep, z, margin);
        lemma_mul_zero(u, keep);
        lemma_sub_def(u, plus(kh, ts), bar_v);
        lemma_sub_def(u, kh, bar_v);
        lemma_add_assoc(u, kh, ts, negated(bar_v));
        lemma_add_comm(u, ts, negated(bar_v));
        lemma_add_assoc(u, kh, negated(bar_v), ts);
        assert(minus(v[0], bar_v) == plus(km, ts));
        lemma_order(z, km, km);
        lemma_sum_less(z, km, ts, ts);
        lemma_add_zero(u, ts);
        lemma_order(ts, plus(km, ts), ts);
        lemma_settled(ops, v, size);
    } else {
        assert(v == constant(z, h.len() as int).update(0, size));
        lemma_zero_tail(v, v.len());
        lemma_order(z, z, z);
        lemma_mul_zero(u, z);
        lemma_same_square(root_of(ops, z), z);
        lemma_sub_facts(u, size, z);
        lemma_order(size, size, size);
        // size / 10 < size
        lemma_product_less(size, tenth, one);
        lemma_mul_comm(u, size, tenth);
        lemma_mul_one(u, size);
        lemma_order(times(tenth, size), size, size);
        lemma_settled(ops, v, size);
    }
}

proof fn lemma_zero_tail<T: Real>(v: Seq<T>, n: nat)
    requires
        ordered_field::<T>(),
        n <= v.len(),
        forall|i: int| 1 <= i < n ==> #[trigger] v[i] == num::<T>(0),
    ensures
        tail_squares(v, n) == num::<T>(0),
    decreases n,
{
    let z = num::<T>(0);
    lemma_order(z, z, z);
    if n > 1 {
        lemma_zero_tail(v, (n - 1) as nat);
        assert(v[n - 1] == z);
        lemma_mul_zero(units::<T>(), z);
        lemma_add_zero(units::<T>(), z);
    }
}

// ---- all cones ----

/// No two cones share a row.
pub open spec fn cones_disjoint(cones: Seq<ConeDesc>) -> bool {
    forall|a: int, b: int|
        0 <= a < b < cones.len() ==> (#[trigger] cones[a]).offset + cones[a].dim <= (
        #[trigger] cones[b]).offset || cones[b].offset + cones[b].dim <= cones[a].offset
}

/// Cones that follow one another, as those of an assembled program do, share no row.
pub proof fn law_tiled_cones_are_disjoint(cones: Seq<ConeDesc>, nct: int)
    requires
        tiled(cones, nct),
    ensures
        cones_disjoint(cones),
{
    assert forall|a: int, b: int| 0 <= a < b < cones.len() implies (#[trigger] cones[a]).offset
        + cones[a].dim <= (#[trigger] cones[b]).offset || cones[b].offset + cones[b].dim
        <= cones[a].offset by {
        lemma_tiles_ordered(cones, nct, a, b);
    }
}

/// Row `r` belongs to the cone.
pub open spec fn has_row(cone: ConeDesc, r: int) -> bool {
    cone.offset <= r < cone.offset + cone.dim
}

proof fn lemma_rows_of_start<T: Real, C: Numerics<T>>(
    ops: &C,
    h: Seq<T>,
    cones: Seq<ConeDesc>,
    c: nat,
)
    requires
        cones_within(cones, h.len() as int),
        cones_disjoint(cones),
        c <= cones.len(),
    ensures
        ({
            let v = warm_upto(ops, h, cones, c);
            &&& v.len() == h.len()
            &&& forall|k: int, r: int|
                #![trigger cones[k], v[r]]
                0 <= k < c && has_row(cones[k], r) ==> v[r] == warm_block(
                    ops,
                    part(h, cones[k]),
                )[r - cones[k].offset]
            &&& forall|r: int|
                0 <= r < h.len() && (forall|k: int| 0 <= k < c ==> !has_row(#[trigger] cones[k], r))
                    ==> #[trigger] v[r] == num::<T>(0)
        }),
    decreases c,
{
    if c > 0 {
        let p = (c - 1) as nat;
        let v = warm_upto(ops, h, cones, c);
        let before = warm_upto(ops, h, cones, p);
        let cone = cones[c - 1];
        lemma_rows_of_start(ops, h, cones, p);
        assert(warm_block(ops, part(h, cone)).len() == cone.dim);
        assert forall|k: int, r: int|
            #![trigger cones[k], v[r]]
            0 <= k < c && has_row(cones[k], r) implies v[r] == warm_block(
            ops,
            part(h, cones[k]),
        )[r - cones[k].offset] by {
            if k < c - 1 {
                assert(cones[k].offset + cones[k].dim <= cones[c - 1].offset || cones[c - 1].offset
                    + cones[c - 1].dim <= cones[k].offset);
                assert(before[r] == v[r]);
            }
        }
        assert forall|r: int|
            0 <= r < h.len() && (forall|k: int|
                0 <= k < c ==> !has_row(#[trigger] cones[k], r)) implies #[trigger] v[r] == num::<
            T,
        >(0) by {
            assert(!has_row(cones[c - 1], r));
            assert(before[r] == v[r]);
        }
    }
}

/// Each cone's part of a starting point is the starting point of its part of the hint.
proof fn lemma_part_of_start<T: Real, C: Numerics<T>>(
    ops: &C,
    h: Seq<T>,
    cones: Seq<ConeDesc>,
    k: int,
)
    requires
        cones_within(cones, h.len() as int),
        cones_disjoint(cones),
        0 <= k < cones.len(),
    ensures
        part(warm_upto(ops, h, cones, cones.len()), cones[k]) == warm_block(
            ops,
            part(h, cones[k]),
        ),
        warm_upto(ops, h, cones, cones.len()).len() == h.len(),
{
    let v = warm_upto(ops, h, cones, cones.len());
    let cone = cones[k];
    lemma_rows_of_start(ops, h, cones, cones.len());
    let blk = warm_block(ops, part(h, cone));
    assert(blk.len() == cone.dim);
    assert forall|i: int| 0 <= i < cone.dim implies part(v, cone)[i] == blk[i] by {
        assert(has_row(cones[k], cone.offset + i));
        assert(v[cone.offset + i] == blk[i]);
    }
    assert(part(v, cone) =~= blk);
}

/// What a starting point takes from its hint, cone by cone: the hint itself where that
/// is finite and safely inside, and the unit point where it or its size is not finite.
pub proof fn law_start_follows_its_hint<T: Real, C: Numerics<T>>(
    ops: &C,
    h: Seq<T>,
    cones: Seq<ConeDesc>,
    k: int,
)
    requires
        cones_within(cones, h.len() as int),
        cones_disjoint(cones),
        0 <= k < cones.len(),
    ensures
        ({
            let hint = part(h, cones[k]);
            let v = part(warm_upto(ops, h, cones, cones.len()), cones[k]);
            let bar = root_of(ops, tail_squares(hint, hint.len()));
            let size = larger(larger(magnitude(num::<T>(0), hint[0]), bar), num::<T>(1));
            &&& all_finite(hint) && finite(num::<T>(0), size) && greater(
                minus(hint[0], bar),
                times(ratio::<T>(5, 100), size),
            ) ==> v == hint
            &&& !all_finite(hint) || !finite(num::<T>(0), size) ==> v == first_unit::<T>(cones[k].dim as int)
        }),
{
    lemma_part_of_start(ops, h, cones, k);
}

/// In an ordered field with exact roots every cone's part of a starting point lies
/// strictly inside its cone.
pub proof fn law_start_is_strictly_inside<T: Real, C: Numerics<T>>(
    ops: &C,
    h: Seq<T>,
    cones: Seq<ConeDesc>,
    k: int,
)
    requires
        ordered_field::<T>(),
        root_exact(ops),
        cones_within(cones, h.len() as int),
        cones_disjoint(cones),
        0 <= k < cones.len(),
    ensures
        strictly_inside(ops, part(warm_upto(ops, h, cones, cones.len()), cones[k])),
        all_finite(warm_upto(ops, h, cones, cones.len())),
{
    lemma_part_of_start(ops, h, cones, k);
    lemma_block_start(ops, part(h, cones[k]));
    lemma_all_finite(warm_upto(ops, h, cones, cones.len()), num::<T>(0));
}

/// In an ordered field with exact roots, starting again from a starting point changes
/// nothing.
pub proof fn law_start_is_settled<T: Real, C: Numerics<T>>(
    ops: &C,
    h: Seq<T>,
    cones: Seq<ConeDesc>,
)
    requires
        ordered_field::<T>(),
        root_exact(ops),
        cones_within(cones, h.len() as int),
        cones_disjoint(cones),
    ensures
        ({
            let v = warm_upto(ops, h, cones, cones.len());
            warm_upto(ops, v, cones, cones.len()) == v
        }),
{
    let v = warm_upto(ops, h, cones, cones.len());
    let w = warm_upto(ops, v, cones, cones.len());
    lemma_rows_of_start(ops, h, cones, cones.len());
    lemma_rows_of_start(ops, v, cones, cones.len());
    assert forall|r: int| 0 <= r < h.len() implies w[r] == v[r] by {
        if exists|k: int| 0 <= k < cones.len() && has_row(#[trigger] cones[k], r) {
            let k = choose|k: int| 0 <= k < cones.len() && has_row(#[trigger] cones[k], r);
            lemma_part_of_start(ops, h, cones, k);
            lemma_block_start(ops, part(h, cones[k]));
            assert(w[r] == warm_block(ops, part(v, cones[k]))[r - cones[k].offset]);
        }
    }
    assert(w =~= v);
}

// ---- rounded arithmetic ----

/// A number from which hints take their size: one, or above one.
pub open spec fn one_or_more<T: Real>(a: T) -> bool {
    a == num::<T>(1) || greater(a, num::<T>(1))
}

/// Zero, one and what exceeds one behave as in floating-point arithmetic: sums, products
/// and roots of zeros are zero, taking zero away changes nothing, a finite number from
/// one on is positive and exceeds its twentieth, and a difference above such a twentieth
/// is that of a larger and a smaller number.
#[verifier::opaque]
pub open spec fn plain_numbers<T: Real, C: Numerics<T>>(ops: &C) -> bool {
    let z = num::<T>(0);
    let one = num::<T>(1);
    let bit = ratio::<T>(5, 100);
    &&& finite(z, z)
    &&& finite(z, one)
    &&& same(one, one)
    &&& plus(z, z) == z
    &&& times(z, z) == z
    &&& root_of(ops, z) == z
    &&& forall|a: T|
        #[trigger] one_or_more(a) && finite(z, a) ==> {
            &&& greater(a, z)
            &&& less(z, a)
            &&& !less(a, z)
            &&& minus(a, z) == a
            &&& greater(a, times(bit, a))
        }
    &&& forall|a: T, b: T, s: T|
        one_or_more(s) && #[trigger] greater(minus(a, b), times(bit, s)) ==> less(b, a)
}

/// The hint lies inside its cone, but by no more than a twentieth of its size: the
/// starting point is a blend of the hint and the axis.
pub open spec fn blended<T: Real, C: Numerics<T>>(ops: &C, h: Seq<T>) -> bool {
    let z = num::<T>(0);
    let bar = root_of(ops, tail_squares(h, h.len()));
    let size = larger(larger(magnitude(z, h[0]), bar), num::<T>(1));
    &&& all_finite(h)
    &&& finite(z, size)
    &&& !greater(minus(h[0], bar), times(ratio::<T>(5, 100), size))
    &&& greater(minus(h[0], bar), z)
    &&& greater(h[0], z)
}

proof fn lemma_plain_tail<T: Real, C: Numerics<T>>(ops: &C, v: Seq<T>, n: nat)
    requires
        plain_numbers::<T, C>(ops),
        n <= v.len(),
        forall|i: int| 1 <= i < n ==> #[trigger] v[i] == num::<T>(0),
    ensures
        tail_squares(v, n) == num::<T>(0),
    decreases n,
{
    reveal(plain_numbers);
    if n > 1 {
        lemma_plain_tail(ops, v, (n - 1) as nat);
        assert(v[n - 1] == num::<T>(0));
    }
}

/// A point on the axis, from one on, is strictly inside and its own starting point.
proof fn lemma_axis_settled<T: Real, C: Numerics<T>>(ops: &C, d: int, size: T)
    requires
        plain_numbers::<T, C>(ops),
        d >= 1,
        one_or_more(size),
        finite(num::<T>(0), size),
    ensures
        ({
            let v = constant(num::<T>(0), d).update(0, size);
            &&& strictly_inside(ops, v)
            &&& all_finite(v)
            &&& warm_block(ops, v) == v
        }),
{
    let z = num::<T>(0);
    let v = constant(z, d).update(0, size);
    lemma_plain_tail(ops, v, v.len());
    reveal(plain_numbers);
    assert(root_of(ops, tail_squares(v, v.len())) == z);
    assert forall|i: int| 0 <= i < v.len() implies finite(z, #[trigger] v[i]) by {}
    assert(magnitude(z, v[0]) == size);
    assert(larger(size, z) == size);
    assert(larger(size, num::<T>(1)) == size);
}

/// The starting point of a hint that is not barely inside is finite, strictly inside and
/// its own starting point.
proof fn lemma_plain_start<T: Real, C: Numerics<T>>(ops: &C, h: Seq<T>)
    requires
        plain_numbers::<T, C>(ops),
        h.len() >= 1,
        !blended(ops, h),
    ensures
        strictly_inside(ops, warm_block(ops, h)),
        all_finite(warm_block(ops, h)),
        warm_block(ops, warm_block(ops, h)) == warm_block(ops, h),
{
    let z = num::<T>(0);
    let one = num::<T>(1);
    let bar = root_of(ops, tail_squares(h, h.len()));
    let size = size_of_hint(ops, h);
    assert(same(one, one) && finite(z, one)) by {
        reveal(plain_numbers);
    }
    assert(one_or_more(size));
    if !all_finite(h) || !finite(z, size) {
        lemma_axis_settled(ops, h.len() as int, one);
    } else if greater(minus(h[0], bar), times(ratio::<T>(5, 100), size)) {
        assert(less(bar, h[0])) by {
            reveal(plain_numbers);
        }
    } else {
        lemma_axis_settled(ops, h.len() as int, size);
    }
}

/// Where a cone's part of the hint is not finite, its size overflows, or it is not barely
/// inside the cone, that cone's part of the starting point is finite, lies strictly
/// inside, and starting again leaves it as it is, in floating-point arithmetic too.
pub proof fn law_start_is_settled_unless_blended<T: Real, C: Numerics<T>>(
    ops: &C,
    h: Seq<T>,
    cones: Seq<ConeDesc>,
    k: int,
)
    requires
        plain_numbers::<T, C>(ops),
        cones_within(cones, h.len() as int),
        cones_disjoint(cones),
        0 <= k < cones.len(),
        !blended(ops, part(h, cones[k])),
    ensures
        ({
            let v = warm_upto(ops, h, cones, cones.len());
            &&& strictly_inside(ops, part(v, cones[k]))
            &&& all_finite(part(v, cones[k]))
            &&& part(warm_upto(ops, v, cones, cones.len()), cones[k]) == part(v, cones[k])
        }),
{
    let v = warm_upto(ops, h, cones, cones.len());
    lemma_part_of_start(ops, h, cones, k);
    lemma_part_of_start(ops, v, cones, k);
    lemma_plain_start(ops, part(h, cones[k]));
}

/// A hint that is not finite in any cone starts at the unit points, which are finite,
/// lie strictly inside, and are kept by a second start.
pub proof fn law_unit_start_is_settled<T: Real, C: Numerics<T>>(
    ops: &C,
    h: Seq<T>,
    cones: Seq<ConeDesc>,
)
    requires
        plain_numbers::<T, C>(ops),
        cones_within(cones, h.len() as int),
        cones_disjoint(cones),
        forall|k: int| 0 <= k < cones.len() ==> !all_finite(part(h, #[trigger] cones[k])),
    ensures
        ({
            let v = warm_upto(ops, h, cones, cones.len());
            &&& forall|k: int|
                0 <= k < cones.len() ==> {
                    &&& part(v, #[trigger] cones[k]) == first_unit::<T>(cones[k].dim as int)
                    &&& strictly_inside(ops, part(v, cones[k]))
                    &&& all_finite(part(v, cones[k]))
                }
            &&& warm_upto(ops, v, cones, cones.len()) == v
        }),
{
    let v = warm_upto(ops, h, cones, cones.len());
    let w = warm_upto(ops, v, cones, cones.len());
    lemma_rows_of_start(ops, h, cones, cones.len());
    lemma_rows_of_start(ops, v, cones, cones.len());
    assert forall|k: int| 0 <= k < cones.len() implies {
        &&& part(v, #[trigger] cones[k]) == first_unit::<T>(cones[k].dim as int)
        &&& strictly_inside(ops, part(v, cones[k]))
        &&& all_finite(part(v, cones[k]))
    } by {
        law_start_is_settled_unless_blended(ops, h, cones, k);
        law_start_follows_its_hint(ops, h, cones, k);
    }
    assert forall|r: int| 0 <= r < h.len() implies w[r] == v[r] by {
        if exists|k: int| 0 <= k < cones.len() && has_row(#[trigger] cones[k], r) {
            let k = choose|k: int| 0 <= k < cones.len() && has_row(#[trigger] cones[k], r);
            law_start_is_settled_unless_blended(ops, h, cones, k);
            let cone = cones[k];
            assert(part(w, cone)[r - cone.offset] == part(v, cone)[r - cone.offset]);
        }
    }
    assert(w =~= v);
}

// ---- the interior test ----

/// The interior test passes every point strictly inside its cone.
pub open spec fn interior_test_passes<T: Real, C: ConeOps<T>>(ops: &C) -> bool {
    forall|v: Seq<T>|
        v.len() >= 1 && strictly_inside(ops, v) ==> #[trigger] interior_of(ops, v)
}

/// In an ordered field with exact roots, an interior test that passes what is strictly
/// inside passes every starting point, and the central point.
pub proof fn law_starts_pass_the_interior_test<T: Real, C: ConeOps<T>>(
    ops: &C,
    prob: &SocpProblem<T>,
)
    requires
        ordered_field::<T>(),
        root_exact(ops),
        interior_test_passes(ops),
        cones_within(prob.cones@, prob.h@.len() as int),
        cones_disjoint(prob.cones@),
    ensures
        starts_inside(ops, prob),
        center_inside(ops, prob),
{
    let cones = prob.cones@;
    assert forall|h: Seq<T>| h.len() == prob.h@.len() implies interior(
        ops,
        #[trigger] warm_upto(ops, h, cones, cones.len()),
        cones,
    ) by {
        let v = warm_upto(ops, h, cones, cones.len());
        assert forall|c: int| 0 <= c < cones.len() implies interior_of(
            ops,
            part(v, #[trigger] cones[c]),
        ) by {
            law_start_is_strictly_inside(ops, h, cones, c);
            lemma_part_of_start(ops, h, cones, c);
        }
    }
    let nct = prob.h@.len() as int;
    let e = identity_upto::<T>(nct, cones, cones.len());
    lemma_identity_rows::<T>(nct, cones, cones.len());
    assert forall|c: int| 0 <= c < cones.len() implies interior_of(
        ops,
        part(e, #[trigger] cones[c]),
    ) by {
        let z = num::<T>(0);
        let v = part(e, cones[c]);
        assert(v.len() == cones[c].dim);
        assert(e[cones[c].offset as int] == num::<T>(1));
        assert forall|i: int| 1 <= i < v.len() implies #[trigger] v[i] == z by {
            assert(has_row(cones[c], cones[c].offset + i));
        }
        lemma_zero_tail(v, v.len());
        lemma_order(z, z, z);
        lemma_mul_zero(units::<T>(), z);
        lemma_same_square(root_of(ops, z), z);
    }
}

proof fn lemma_identity_rows<T: Real>(nct: int, cones: Seq<ConeDesc>, c: nat)
    requires
        cones_within(cones, nct),
        cones_disjoint(cones),
        nct >= 0,
        c <= cones.len(),
    ensures
        ({
            let e = identity_upto::<T>(nct, cones, c);
            &&& e.len() == nct
            &&& forall|k: int| 0 <= k < c ==> e[(#[trigger] cones[k]).offset as int] == num::<T>(1)
            &&& forall|k: int, r: int|
                #![trigger cones[k], e[r]]
                0 <= k < cones.len() && has_row(cones[k], r) && r != cones[k].offset ==> e[r]
                    == num::<T>(0)
        }),
    decreases c,
{
    if c > 0 {
        let p = (c - 1) as nat;
        let e = identity_upto::<T>(nct, cones, c);
        let before = identity_upto::<T>(nct, cones, p);
        lemma_identity_rows::<T>(nct, cones, p);
        let last = cones[c - 1];
        assert(last.dim >= 1);
        assert forall|k: int| 0 <= k < c implies e[(#[trigger] cones[k]).offset as int] == num::<
            T,
        >(1) by {
            assert(cones[k].dim >= 1);
            if k < c - 1 {
                assert(before[cones[k].offset as int] == num::<T>(1));
            }
        }
        assert forall|k: int, r: int|
            #![trigger cones[k], e[r]]
            0 <= k < cones.len() && has_row(cones[k], r) && r != cones[k].offset implies e[r]
            == num::<T>(0) by {
            assert(cones[k].offset + cones[k].dim <= nct);
            assert(before[r] == num::<T>(0));
            if k < c - 1 {
                assert(cones[k].offset + cones[k].dim <= cones[c - 1].offset || cones[c - 1].offset
                    + cones[c - 1].dim <= cones[k].offset);
            } else if k > c - 1 {
                assert(cones[c - 1].offset + cones[c - 1].dim <= cones[k].offset || cones[k].offset
                    + cones[k].dim <= cones[c - 1].offset);
            }
        }
    }
}

/// In an ordered field with exact roots, a positive multiple of what is strictly inside
/// is strictly inside, as the point is that an embedded point stands for.
pub proof fn law_positive_multiple_stays_inside<T: Real, C: Numerics<T>>(
    ops: &C,
    v: Seq<T>,
    k: T,
)
    requires
        ordered_field::<T>(),
        root_exact(ops),
        v.len() >= 1,
        less(num::<T>(0), k),
        strictly_inside(ops, v),
    ensures
        strictly_inside(ops, vscale(v, k)),
{
    let u = units::<T>();
    let w = vscale(v, k);
    lemma_order(k, k, k);
    assert forall|i: int| 0 <= i < v.len() implies #[trigger] w[i] == times(k, v[i]) by {
        lemma_mul_comm(u, v[i], k);
    }
    lemma_tail_scaled(k, v, w, v.len());
    lemma_tail_not_negative(v, v.len());
    lemma_root_scaled(ops, k, tail_squares(v, v.len()));
    lemma_product_less(k, root_of(ops, tail_squares(v, v.len())), v[0]);
}

} // verus!
