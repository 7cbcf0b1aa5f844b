//! Dense vectors and matrices over a scalar type.
//!
//! A vector is a `Vec`, its model a `Seq`. A matrix is a `Vec` of rows, its model
//! a `Seq` of rows. The spec functions give each operation entry by entry; sums
//! run from index 0 upward, starting at the scalar zero, so that they name one
//! order of additions.
use crate::scalar::{minus, negated, plus, times, total, Scalar};
use vstd::prelude::*;

verus! {

/// A dense matrix, stored by rows.
pub struct Mat<T> {
    pub rows: Vec<Vec<T>>,
}

impl<T> View for Mat<T> {
    type V = Seq<Seq<T>>;

    open spec fn view(&self) -> Seq<Seq<T>> {
        Seq::new(self.rows@.len(), |i: int| self.rows@[i]@)
    }
}

/// `m` has `r` rows of `c` entries each.
pub open spec fn shaped<T>(m: Seq<Seq<T>>, r: int, c: int) -> bool {
    &&& m.len() == r
    &&& forall|i: int| 0 <= i < r ==> (#[trigger] m[i]).len() == c
}

/// Column `j` of `m`.
pub open spec fn column<T>(m: Seq<Seq<T>>, j: int) -> Seq<T> {
    Seq::new(m.len(), |i: int| m[i][j])
}

/// The `r` by `c` matrix with every entry `z`.
pub open spec fn filled<T>(z: T, r: int, c: int) -> Seq<Seq<T>> {
    Seq::new(r as nat, |i: int| constant(z, c))
}

/// The vector of `n` entries `z`.
pub open spec fn constant<T>(z: T, n: int) -> Seq<T> {
    Seq::new(n as nat, |i: int| z)
}

/// Sum of `a[i] * b[i]` over the first `n` indices.
pub open spec fn dot_upto<T: Scalar>(z: T, a: Seq<T>, b: Seq<T>, n: nat) -> T
    decreases n,
{
    if n == 0 {
        z
    } else {
        plus(dot_upto(z, a, b, (n - 1) as nat), times(a[n - 1], b[n - 1]))
    }
}

/// Inner product.
pub open spec fn dot<T: Scalar>(z: T, a: Seq<T>, b: Seq<T>) -> T {
    dot_upto(z, a, b, a.len())
}

pub open spec fn vadd<T: Scalar>(a: Seq<T>, b: Seq<T>) -> Seq<T> {
    Seq::new(a.len(), |i: int| plus(a[i], b[i]))
}

pub open spec fn vsub<T: Scalar>(a: Seq<T>, b: Seq<T>) -> Seq<T> {
    Seq::new(a.len(), |i: int| minus(a[i], b[i]))
}

pub open spec fn vneg<T: Scalar>(a: Seq<T>) -> Seq<T> {
    Seq::new(a.len(), |i: int| negated(a[i]))
}

pub open spec fn vscale<T: Scalar>(a: Seq<T>, s: T) -> Seq<T> {
    Seq::new(a.len(), |i: int| times(a[i], s))
}

/// Matrix times vector.
pub open spec fn mat_vec<T: Scalar>(z: T, m: Seq<Seq<T>>, v: Seq<T>) -> Seq<T> {
    Seq::new(m.len(), |i: int| dot(z, m[i], v))
}

/// Transpose of `m` (of `c` columns) times vector.
pub open spec fn mat_t_vec<T: Scalar>(z: T, m: Seq<Seq<T>>, c: int, v: Seq<T>) -> Seq<T> {
    Seq::new(c as nat, |j: int| dot(z, column(m, j), v))
}

/// Matrix product; `c` is the number of columns of `b`.
pub open spec fn mat_mul<T: Scalar>(z: T, a: Seq<Seq<T>>, b: Seq<Seq<T>>, c: int) -> Seq<Seq<T>> {
    Seq::new(a.len(), |i: int| Seq::new(c as nat, |j: int| dot(z, a[i], column(b, j))))
}

/// Transpose of a matrix of `c` columns.
pub open spec fn transpose<T>(m: Seq<Seq<T>>, c: int) -> Seq<Seq<T>> {
    Seq::new(c as nat, |j: int| column(m, j))
}

pub open spec fn madd<T: Scalar>(a: Seq<Seq<T>>, b: Seq<Seq<T>>) -> Seq<Seq<T>> {
    Seq::new(a.len(), |i: int| vadd(a[i], b[i]))
}

pub open spec fn msub<T: Scalar>(a: Seq<Seq<T>>, b: Seq<Seq<T>>) -> Seq<Seq<T>> {
    Seq::new(a.len(), |i: int| vsub(a[i], b[i]))
}

/// A vector with `n` entries `z`.
pub fn fill_vec<T: Copy>(z: T, n: usize) -> (r: Vec<T>)
    ensures
        r@ == constant(z, n as int),
{
    let mut r: Vec<T> = Vec::new();
    let mut i: usize = 0;
    while i < n
        invariant
            i <= n,
            r@ == constant(z, i as int),
        decreases n - i,
    {
        r.push(z);
        i = i + 1;
        assert(r@ =~= constant(z, i as int));
    }
    r
}

/// A copy of `v`.
pub fn copy_vec<T: Copy>(v: &Vec<T>) -> (r: Vec<T>)
    ensures
        r@ == v@,
{
    let mut r: Vec<T> = Vec::new();
    let mut i: usize = 0;
    while i < v.len()
        invariant
            i <= v.len(),
            r@ == v@.subrange(0, i as int),
        decreases v.len() - i,
    {
        r.push(v[i]);
        i = i + 1;
        assert(r@ =~= v@.subrange(0, i as int));
    }
    assert(r@ =~= v@);
    r
}

/// A matrix with every entry `z`.
pub fn fill_mat<T: Copy>(z: T, r: usize, c: usize) -> (m: Mat<T>)
    ensures
        m@ == filled(z, r as int, c as int),
        shaped(m@, r as int, c as int),
{
    let mut rows: Vec<Vec<T>> = Vec::new();
    let mut i: usize = 0;
    while i < r
        invariant
            i <= r,
            rows.len() == i,
            forall|k: int| 0 <= k < i ==> (#[trigger] rows@[k])@ == constant(z, c as int),
        decreases r - i,
    {
        let row: Vec<T> = fill_vec(z, c);
        rows.push(row);
        i = i + 1;
    }
    let m: Mat<T> = Mat { rows };
    assert(m@ =~= filled(z, r as int, c as int));
    m
}

/// A copy of `m`.
pub fn copy_mat<T: Copy>(m: &Mat<T>) -> (r: Mat<T>)
    ensures
        r@ == m@,
{
    let mut rows: Vec<Vec<T>> = Vec::new();
    let mut i: usize = 0;
    while i < m.rows.len()
        invariant
            i <= m.rows.len(),
            rows.len() == i,
            forall|k: int| 0 <= k < i ==> (#[trigger] rows@[k])@ == m.rows@[k]@,
        decreases m.rows.len() - i,
    {
        let row: Vec<T> = copy_vec(&m.rows[i]);
        rows.push(row);
        i = i + 1;
    }
    let r: Mat<T> = Mat { rows };
    assert(r@ =~= m@);
    r
}

/// Inner product.
pub fn dot_product<T: Scalar>(z: T, a: &Vec<T>, b: &Vec<T>) -> (r: T)
    requires
        total::<T>(),
        a.len() == b.len(),
    ensures
        r == dot(z, a@, b@),
{
    let mut s: T = z;
    let mut i: usize = 0;
    while i < a.len()
        invariant
            total::<T>(),
            i <= a.len(),
            a.len() == b.len(),
            s == dot_upto(z, a@, b@, i as nat),
        decreases a.len() - i,
    {
        s = s + a[i] * b[i];
        i = i + 1;
    }
    s
}

/// Entrywise sum.
pub fn vec_add<T: Scalar>(a: &Vec<T>, b: &Vec<T>) -> (r: Vec<T>)
    requires
        total::<T>(),
        a.len() == b.len(),
    ensures
        r@ == vadd(a@, b@),
{
    let mut r: Vec<T> = Vec::new();
    let mut i: usize = 0;
    while i < a.len()
        invariant
            total::<T>(),
            i <= a.len(),
            a.len() == b.len(),
            r.len() == i,
            forall|k: int| 0 <= k < i ==> #[trigger] r@[k] == plus(a@[k], b@[k]),
        decreases a.len() - i,
    {
        let x: T = a[i] + b[i];
        r.push(x);
        i = i + 1;
    }
    assert(r@ =~= vadd(a@, b@));
    r
}

/// Entrywise difference.
pub fn vec_sub<T: Scalar>(a: &Vec<T>, b: &Vec<T>) -> (r: Vec<T>)
    requires
        total::<T>(),
        a.len() == b.len(),
    ensures
        r@ == vsub(a@, b@),
{
    let mut r: Vec<T> = Vec::new();
    let mut i: usize = 0;
    while i < a.len()
        invariant
            total::<T>(),
            i <= a.len(),
            a.len() == b.len(),
            r.len() == i,
            forall|k: int| 0 <= k < i ==> #[trigger] r@[k] == minus(a@[k], b@[k]),
        decreases a.len() - i,
    {
        let x: T = a[i] - b[i];
        r.push(x);
        i = i + 1;
    }
    assert(r@ =~= vsub(a@, b@));
    r
}

/// Entrywise negation.
pub fn vec_neg<T: Scalar>(a: &Vec<T>) -> (r: Vec<T>)
    requires
        total::<T>(),
    ensures
        r@ == vneg(a@),
{
    let mut r: Vec<T> = Vec::new();
    let mut i: usize = 0;
    while i < a.len()
        invariant
            total::<T>(),
            i <= a.len(),
            r.len() == i,
            forall|k: int| 0 <= k < i ==> #[trigger] r@[k] == negated(a@[k]),
        decreases a.len() - i,
    {
        let x: T = a[i].neg();
        r.push(x);
        i = i + 1;
    }
    assert(r@ =~= vneg(a@));
    r
}

/// Every entry times `s`.
pub fn vec_scale<T: Scalar>(a: &Vec<T>, s: T) -> (r: Vec<T>)
    requires
        total::<T>(),
    ensures
        r@ == vscale(a@, s),
{
    let mut r: Vec<T> = Vec::new();
    let mut i: usize = 0;
    while i < a.len()
        invariant
            total::<T>(),
            i <= a.len(),
            r.len() == i,
            forall|k: int| 0 <= k < i ==> #[trigger] r@[k] == times(a@[k], s),
        decreases a.len() - i,
    {
        let x: T = a[i] * s;
        r.push(x);
        i = i + 1;
    }
    assert(r@ =~= vscale(a@, s));
    r
}

/// Column `j` of `m`.
pub fn column_of<T: Copy>(m: &Mat<T>, c: usize, j: usize) -> (r: Vec<T>)
    requires
        shaped(m@, m@.len() as int, c as int),
        j < c,
    ensures
        r@ == column(m@, j as int),
{
    let mut r: Vec<T> = Vec::new();
    let mut i: usize = 0;
    while i < m.rows.len()
        invariant
            shaped(m@, m@.len() as int, c as int),
            j < c,
            i <= m.rows.len(),
            r.len() == i,
            forall|k: int| 0 <= k < i ==> #[trigger] r@[k] == m@[k][j as int],
        decreases m.rows.len() - i,
    {
        assert(m@[i as int].len() == c);
        r.push(m.rows[i][j]);
        i = i + 1;
    }
    assert(r@ =~= column(m@, j as int));
    r
}

/// Matrix times vector.
pub fn mat_times_vec<T: Scalar>(z: T, m: &Mat<T>, v: &Vec<T>) -> (r: Vec<T>)
    requires
        total::<T>(),
        shaped(m@, m@.len() as int, v@.len() as int),
    ensures
        r@ == mat_vec(z, m@, v@),
{
    let mut r: Vec<T> = Vec::new();
    let mut i: usize = 0;
    while i < m.rows.len()
        invariant
            total::<T>(),
            shaped(m@, m@.len() as int, v@.len() as int),
            i <= m.rows.len(),
            r.len() == i,
            forall|k: int| 0 <= k < i ==> #[trigger] r@[k] == dot(z, m@[k], v@),
        decreases m.rows.len() - i,
    {
        assert(m@[i as int].len() == v@.len());
        let x: T = dot_product(z, &m.rows[i], v);
        r.push(x);
        i = i + 1;
    }
    assert(r@ =~= mat_vec(z, m@, v@));
    r
}

/// Transpose of `m` times vector.
pub fn mat_t_times_vec<T: Scalar>(z: T, m: &Mat<T>, c: usize, v: &Vec<T>) -> (r: Vec<T>)
    requires
        total::<T>(),
        shaped(m@, v@.len() as int, c as int),
    ensures
        r@ == mat_t_vec(z, m@, c as int, v@),
{
    let mut r: Vec<T> = Vec::new();
    let mut j: usize = 0;
    while j < c
        invariant
            total::<T>(),
            shaped(m@, v@.len() as int, c as int),
            j <= c,
            r.len() == j,
            forall|k: int| 0 <= k < j ==> #[trigger] r@[k] == dot(z, column(m@, k), v@),
        decreases c - j,
    {
        let col: Vec<T> = column_of(m, c, j);
        let x: T = dot_product(z, &col, v);
        r.push(x);
        j = j + 1;
    }
    assert(r@ =~= mat_t_vec(z, m@, c as int, v@));
    r
}

/// Transpose.
pub fn transposed<T: Copy>(m: &Mat<T>, c: usize) -> (r: Mat<T>)
    requires
        shaped(m@, m@.len() as int, c as int),
    ensures
        r@ == transpose(m@, c as int),
        shaped(r@, c as int, m@.len() as int),
{
    let mut rows: Vec<Vec<T>> = Vec::new();
    let mut j: usize = 0;
    while j < c
        invariant
            shaped(m@, m@.len() as int, c as int),
            j <= c,
            rows.len() == j,
            forall|k: int| 0 <= k < j ==> (#[trigger] rows@[k])@ == column(m@, k),
        decreases c - j,
    {
        let col: Vec<T> = column_of(m, c, j);
        rows.push(col);
        j = j + 1;
    }
    let r: Mat<T> = Mat { rows };
    assert(r@ =~= transpose(m@, c as int));
    r
}

/// Inner products of `row` with each row of `m`.
fn row_products<T: Scalar>(z: T, row: &Vec<T>, m: &Mat<T>) -> (r: Vec<T>)
    requires
        total::<T>(),
        shaped(m@, m@.len() as int, row@.len() as int),
    ensures
        r@ == Seq::new(m@.len(), |j: int| dot(z, row@, m@[j])),
{
    let mut r: Vec<T> = Vec::new();
    let mut j: usize = 0;
    while j < m.rows.len()
        invariant
            total::<T>(),
            shaped(m@, m@.len() as int, row@.len() as int),
            j <= m.rows.len(),
            r.len() == j,
            forall|k: int| 0 <= k < j ==> #[trigger] r@[k] == dot(z, row@, m@[k]),
        decreases m.rows.len() - j,
    {
        assert(m@[j as int].len() == row@.len());
        let x: T = dot_product(z, row, &m.rows[j]);
        r.push(x);
        j = j + 1;
    }
    assert(r@ =~= Seq::new(m@.len(), |j: int| dot(z, row@, m@[j])));
    r
}

/// Matrix product.
pub fn mat_times_mat<T: Scalar>(z: T, a: &Mat<T>, b: &Mat<T>, c: usize) -> (r: Mat<T>)
    requires
        total::<T>(),
        shaped(a@, a@.len() as int, b@.len() as int),
        shaped(b@, b@.len() as int, c as int),
    ensures
        r@ == mat_mul(z, a@, b@, c as int),
        shaped(r@, a@.len() as int, c as int),
{
    let bt: Mat<T> = transposed(b, c);
    let mut rows: Vec<Vec<T>> = Vec::new();
    let mut i: usize = 0;
    while i < a.rows.len()
        invariant
            total::<T>(),
            shaped(a@, a@.len() as int, b@.len() as int),
            bt@ == transpose(b@, c as int),
            shaped(bt@, c as int, b@.len() as int),
            i <= a.rows.len(),
            rows.len() == i,
            forall|k: int| 0 <= k < i ==> (#[trigger] rows@[k])@ == mat_mul(z, a@, b@, c as int)[k],
        decreases a.rows.len() - i,
    {
        assert(a@[i as int].len() == b@.len());
        let row: Vec<T> = row_products(z, &a.rows[i], &bt);
        assert(row@ =~= mat_mul(z, a@, b@, c as int)[i as int]);
        rows.push(row);
        i = i + 1;
    }
    let r: Mat<T> = Mat { rows };
    assert(r@ =~= mat_mul(z, a@, b@, c as int));
    r
}

/// Entrywise sum.
pub fn mat_add<T: Scalar>(a: &Mat<T>, b: &Mat<T>, c: usize) -> (r: Mat<T>)
    requires
        total::<T>(),
        shaped(a@, a@.len() as int, c as int),
        shaped(b@, a@.len() as int, c as int),
    ensures
        r@ == madd(a@, b@),
        shaped(r@, a@.len() as int, c as int),
{
    let mut rows: Vec<Vec<T>> = Vec::new();
    let mut i: usize = 0;
    while i < a.rows.len()
        invariant
            total::<T>(),
            shaped(a@, a@.len() as int, c as int),
            shaped(b@, a@.len() as int, c as int),
            i <= a.rows.len(),
            rows.len() == i,
            forall|k: int| 0 <= k < i ==> (#[trigger] rows@[k])@ == vadd(a@[k], b@[k]),
        decreases a.rows.len() - i,
    {
        assert(a@[i as int].len() == c && b@[i as int].len() == c);
        let row: Vec<T> = vec_add(&a.rows[i], &b.rows[i]);
        rows.push(row);
        i = i + 1;
    }
    let r: Mat<T> = Mat { rows };
    assert(r@ =~= madd(a@, b@));
    r
}

/// Entrywise difference.
pub fn mat_sub<T: Scalar>(a: &Mat<T>, b: &Mat<T>, c: usize) -> (r: Mat<T>)
    requires
        total::<T>(),
        shaped(a@, a@.len() as int, c as int),
        shaped(b@, a@.len() as int, c as int),
    ensures
        r@ == msub(a@, b@),
        shaped(r@, a@.len() as int, c as int),
{
    let mut rows: Vec<Vec<T>> = Vec::new();
    let mut i: usize = 0;
    while i < a.rows.len()
        invariant
            total::<T>(),
            shaped(a@, a@.len() as int, c as int),
            shaped(b@, a@.len() as int, c as int),
            i <= a.rows.len(),
            rows.len() == i,
            forall|k: int| 0 <= k < i ==> (#[trigger] rows@[k])@ == vsub(a@[k], b@[k]),
        decreases a.rows.len() - i,
    {
        assert(a@[i as int].len() == c && b@[i as int].len() == c);
        let row: Vec<T> = vec_sub(&a.rows[i], &b.rows[i]);
        rows.push(row);
        i = i + 1;
    }
    let r: Mat<T> = Mat { rows };
    assert(r@ =~= msub(a@, b@));
    r
}

/// The `r` by `c` block of `m` whose first entry is `m[row][col]`.
pub open spec fn block<T>(m: Seq<Seq<T>>, row: int, col: int, r: int, c: int) -> Seq<Seq<T>> {
    Seq::new(r as nat, |i: int| Seq::new(c as nat, |j: int| m[row + i][col + j]))
}

/// Entries `from .. from + n` of `v`.
pub fn slice_of<T: Copy>(v: &Vec<T>, from: usize, n: usize) -> (r: Vec<T>)
    requires
        from + n <= v@.len(),
    ensures
        r@ == v@.subrange(from as int, from + n),
{
    let mut r: Vec<T> = Vec::new();
    let mut i: usize = 0;
    while i < n
        invariant
            i <= n,
            from + n <= v@.len(),
            r@ == v@.subrange(from as int, from + i),
        decreases n - i,
    {
        assert(from + i < v.len());
        r.push(v[from + i]);
        i = i + 1;
        assert(r@ =~= v@.subrange(from as int, from + i));
    }
    r
}

/// The `r` by `c` block of `m` whose first entry is `m[row][col]`.
pub fn block_of<T: Copy>(m: &Mat<T>, row: usize, col: usize, r: usize, c: usize) -> (b: Mat<T>)
    requires
        row + r <= m@.len(),
        shaped(m@, m@.len() as int, m@[0].len() as int),
        r > 0 ==> col + c <= m@[0].len(),
    ensures
        b@ == block(m@, row as int, col as int, r as int, c as int),
        shaped(b@, r as int, c as int),
{
    let mut rows: Vec<Vec<T>> = Vec::new();
    let mut i: usize = 0;
    while i < r
        invariant
            i <= r,
            row + r <= m@.len(),
            shaped(m@, m@.len() as int, m@[0].len() as int),
            r > 0 ==> col + c <= m@[0].len(),
            rows.len() == i,
            forall|k: int|
                0 <= k < i ==> (#[trigger] rows@[k])@ == block(
                    m@,
                    row as int,
                    col as int,
                    r as int,
                    c as int,
                )[k],
        decreases r - i,
    {
        assert(row + i < m.rows.len());
        assert(m@[row + i].len() == m@[0].len());
        let part: Vec<T> = slice_of(&m.rows[row + i], col, c);
        assert(part@ =~= block(m@, row as int, col as int, r as int, c as int)[i as int]);
        rows.push(part);
        i = i + 1;
    }
    let b: Mat<T> = Mat { rows };
    assert(b@ =~= block(m@, row as int, col as int, r as int, c as int));
    b
}

} // verus!
