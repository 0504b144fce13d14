//! Vectors and matrices of raw fixed-point scalars.
//!
//! A vector is a `Vec<i64>` of raw values, a matrix a `Vec<Vec<i64>>` of
//! rows. The spec model views them as `Seq<int>` / `Seq<Seq<int>>`, and
//! every executable operation returns exactly what its spec counterpart
//! (`affine`, `outer`, `tmatvec`, the elementwise maps) computes.

use vstd::prelude::*;
use crate::fixed::{fadd, fsub, fmul, fdivn, fx_add, fx_sub, fx_mul, fx_divn};

verus! {

/// A raw vector as a sequence of mathematical integers.
pub open spec fn sv(v: Seq<i64>) -> Seq<int> {
    Seq::new(v.len(), |i: int| v[i] as int)
}

/// A raw matrix as a sequence of integer rows.
pub open spec fn sm(m: Seq<Vec<i64>>) -> Seq<Seq<int>> {
    Seq::new(m.len(), |i: int| sv(m[i]@))
}

/// Saturating dot product of the first `n` entries, accumulated left to
/// right.
pub open spec fn dot_to(r: Seq<int>, x: Seq<int>, n: int) -> int
    decreases n,
{
    if n <= 0 {
        0
    } else {
        fadd(dot_to(r, x, n - 1), fmul(r[n - 1], x[n - 1]))
    }
}

/// Saturating dot product of two equally long vectors.
pub open spec fn dotprod(r: Seq<int>, x: Seq<int>) -> int {
    dot_to(r, x, r.len() as int)
}

/// The affine transform `w * x + b`, row by row.
pub open spec fn affine(w: Seq<Seq<int>>, b: Seq<int>, x: Seq<int>) -> Seq<int> {
    Seq::new(w.len(), |i: int| fadd(dotprod(w[i], x), b[i]))
}

/// Saturating dot product of matrix column `j` with `d`, over the first
/// `n` rows.
pub open spec fn col_dot_to(w: Seq<Seq<int>>, d: Seq<int>, j: int, n: int) -> int
    decreases n,
{
    if n <= 0 {
        0
    } else {
        fadd(col_dot_to(w, d, j, n - 1), fmul(w[n - 1][j], d[n - 1]))
    }
}

/// The transposed matrix-vector product `w^T * d`, of length `cols`.
pub open spec fn tmatvec(w: Seq<Seq<int>>, d: Seq<int>, cols: int) -> Seq<int> {
    Seq::new(cols as nat, |j: int| col_dot_to(w, d, j, w.len() as int))
}

/// The outer product `d * a^T`: entry `(i, j)` is `d[i] * a[j]`.
pub open spec fn outer(d: Seq<int>, a: Seq<int>) -> Seq<Seq<int>> {
    Seq::new(d.len(), |i: int| Seq::new(a.len(), |j: int| fmul(d[i], a[j])))
}

/// Elementwise saturating sum of two vectors.
pub open spec fn vadd(a: Seq<int>, b: Seq<int>) -> Seq<int> {
    Seq::new(a.len(), |i: int| fadd(a[i], b[i]))
}

/// Elementwise saturating difference of two vectors.
pub open spec fn vsub(a: Seq<int>, b: Seq<int>) -> Seq<int> {
    Seq::new(a.len(), |i: int| fsub(a[i], b[i]))
}

/// Every entry multiplied by the raw scalar `c`.
pub open spec fn vscale(c: int, a: Seq<int>) -> Seq<int> {
    Seq::new(a.len(), |i: int| fmul(c, a[i]))
}

/// Every entry divided by the positive count `n`.
pub open spec fn vdivn(a: Seq<int>, n: int) -> Seq<int> {
    Seq::new(a.len(), |i: int| fdivn(a[i], n))
}

/// Elementwise saturating sum of two matrices.
pub open spec fn madd(a: Seq<Seq<int>>, b: Seq<Seq<int>>) -> Seq<Seq<int>> {
    Seq::new(a.len(), |i: int| vadd(a[i], b[i]))
}

/// Elementwise saturating difference of two matrices.
pub open spec fn msub(a: Seq<Seq<int>>, b: Seq<Seq<int>>) -> Seq<Seq<int>> {
    Seq::new(a.len(), |i: int| vsub(a[i], b[i]))
}

/// Every matrix entry multiplied by the raw scalar `c`.
pub open spec fn mscale(c: int, a: Seq<Seq<int>>) -> Seq<Seq<int>> {
    Seq::new(a.len(), |i: int| vscale(c, a[i]))
}

/// Every matrix entry divided by the positive count `n`.
pub open spec fn mdivn(a: Seq<Seq<int>>, n: int) -> Seq<Seq<int>> {
    Seq::new(a.len(), |i: int| vdivn(a[i], n))
}

/// `w * x + b` on raw vectors.
pub fn mat_vec_add(w: &Vec<Vec<i64>>, b: &Vec<i64>, x: &Vec<i64>) -> (r: Vec<i64>)
    requires
        w@.len() == b@.len(),
        forall|i: int| 0 <= i < w@.len() ==> #[trigger] w@[i]@.len() == x@.len(),
    ensures
        r@.len() == w@.len(),
        sv(r@) == affine(sm(w@), sv(b@), sv(x@)),
{
    let ghost wv = sm(w@);
    let ghost xv = sv(x@);
    let mut r: Vec<i64> = Vec::new();
    let mut i: usize = 0;
    while i < w.len()
        invariant
            wv == sm(w@),
            xv == sv(x@),
            w@.len() == b@.len(),
            forall|k: int| 0 <= k < w@.len() ==> #[trigger] w@[k]@.len() == x@.len(),
            0 <= i <= w@.len(),
            r@.len() == i,
            forall|k: int| 0 <= k < i ==> r@[k] as int == fadd(dotprod(wv[k], xv), sv(b@)[k]),
        decreases w@.len() - i,
    {
        let row = &w[i];
        let mut acc: i64 = 0;
        let mut j: usize = 0;
        while j < row.len()
            invariant
                wv == sm(w@),
                xv == sv(x@),
                0 <= i < w@.len(),
                row == &w@[i as int],
                row@.len() == x@.len(),
                0 <= j <= row@.len(),
                acc as int == dot_to(wv[i as int], xv, j as int),
            decreases row@.len() - j,
        {
            acc = fx_add(acc, fx_mul(row[j], x[j]));
            j = j + 1;
        }
        r.push(fx_add(acc, b[i]));
        i = i + 1;
    }
    proof {
        assert(sv(r@) =~= affine(sm(w@), sv(b@), sv(x@)));
    }
    r
}

/// `w^T * d` on raw vectors; `cols` is the width of `w`.
pub fn tmat_vec(w: &Vec<Vec<i64>>, d: &Vec<i64>, cols: usize) -> (r: Vec<i64>)
    requires
        w@.len() == d@.len(),
        forall|i: int| 0 <= i < w@.len() ==> #[trigger] w@[i]@.len() == cols,
    ensures
        r@.len() == cols,
        sv(r@) == tmatvec(sm(w@), sv(d@), cols as int),
{
    let ghost wv = sm(w@);
    let ghost dv = sv(d@);
    let mut r: Vec<i64> = Vec::new();
    let mut j: usize = 0;
    while j < cols
        invariant
            wv == sm(w@),
            dv == sv(d@),
            w@.len() == d@.len(),
            forall|i: int| 0 <= i < w@.len() ==> #[trigger] w@[i]@.len() == cols,
            0 <= j <= cols,
            r@.len() == j,
            forall|k: int| 0 <= k < j ==> r@[k] as int == col_dot_to(wv, dv, k, wv.len() as int),
        decreases cols - j,
    {
        let mut acc: i64 = 0;
        let mut i: usize = 0;
        while i < w.len()
            invariant
                wv == sm(w@),
                dv == sv(d@),
                w@.len() == d@.len(),
                forall|k: int| 0 <= k < w@.len() ==> #[trigger] w@[k]@.len() == cols,
                0 <= j < cols,
                0 <= i <= w@.len(),
                acc as int == col_dot_to(wv, dv, j as int, i as int),
            decreases w@.len() - i,
        {
            acc = fx_add(acc, fx_mul(w[i][j], d[i]));
            i = i + 1;
        }
        r.push(acc);
        j = j + 1;
    }
    proof {
        assert(sv(r@) =~= tmatvec(sm(w@), sv(d@), cols as int));
    }
    r
}

/// `d * a^T` on raw vectors.
pub fn outer_prod(d: &Vec<i64>, a: &Vec<i64>) -> (r: Vec<Vec<i64>>)
    ensures
        r@.len() == d@.len(),
        forall|i: int| 0 <= i < r@.len() ==> #[trigger] r@[i]@.len() == a@.len(),
        sm(r@) == outer(sv(d@), sv(a@)),
{
    let mut r: Vec<Vec<i64>> = Vec::new();
    let mut i: usize = 0;
    while i < d.len()
        invariant
            0 <= i <= d@.len(),
            r@.len() == i,
            forall|k: int| 0 <= k < i ==> sv(#[trigger] r@[k]@) == outer(sv(d@), sv(a@))[k],
        decreases d@.len() - i,
    {
        let mut row: Vec<i64> = Vec::new();
        let mut j: usize = 0;
        while j < a.len()
            invariant
                0 <= i < d@.len(),
                0 <= j <= a@.len(),
                row@.len() == j,
                forall|k: int| 0 <= k < j ==> row@[k] as int == fmul(sv(d@)[i as int], sv(a@)[k]),
            decreases a@.len() - j,
        {
            row.push(fx_mul(d[i], a[j]));
            j = j + 1;
        }
        proof {
            assert(sv(row@) =~= outer(sv(d@), sv(a@))[i as int]);
        }
        r.push(row);
        i = i + 1;
    }
    proof {
        assert(sm(r@) =~= outer(sv(d@), sv(a@)));
    }
    r
}

/// A copy of a raw vector.
pub fn vec_copy(a: &Vec<i64>) -> (r: Vec<i64>)
    ensures r@ == a@,
{
    let mut r: Vec<i64> = Vec::new();
    let mut i: usize = 0;
    while i < a.len()
        invariant
            0 <= i <= a@.len(),
            r@.len() == i,
            forall|k: int| 0 <= k < i ==> r@[k] == a@[k],
        decreases a@.len() - i,
    {
        r.push(a[i]);
        i = i + 1;
    }
    proof {
        assert(r@ =~= a@);
    }
    r
}

/// A copy of a raw matrix.
pub fn mat_copy(a: &Vec<Vec<i64>>) -> (r: Vec<Vec<i64>>)
    ensures
        r@.len() == a@.len(),
        forall|i: int| 0 <= i < a@.len() ==> #[trigger] r@[i]@ == a@[i]@,
        sm(r@) == sm(a@),
{
    let mut r: Vec<Vec<i64>> = Vec::new();
    let mut i: usize = 0;
    while i < a.len()
        invariant
            0 <= i <= a@.len(),
            r@.len() == i,
            forall|k: int| 0 <= k < i ==> #[trigger] r@[k]@ == a@[k]@,
        decreases a@.len() - i,
    {
        r.push(vec_copy(&a[i]));
        i = i + 1;
    }
    proof {
        assert(sm(r@) =~= sm(a@));
    }
    r
}

/// Elementwise saturating vector sum.
pub fn vec_add(a: &Vec<i64>, b: &Vec<i64>) -> (r: Vec<i64>)
    requires a@.len() == b@.len(),
    ensures
        r@.len() == a@.len(),
        sv(r@) == vadd(sv(a@), sv(b@)),
{
    let mut r: Vec<i64> = Vec::new();
    let mut i: usize = 0;
    while i < a.len()
        invariant
            a@.len() == b@.len(),
            0 <= i <= a@.len(),
            r@.len() == i,
            forall|k: int| 0 <= k < i ==> r@[k] as int == fadd(a@[k] as int, b@[k] as int),
        decreases a@.len() - i,
    {
        r.push(fx_add(a[i], b[i]));
        i = i + 1;
    }
    proof {
        assert(sv(r@) =~= vadd(sv(a@), sv(b@)));
    }
    r
}

/// Elementwise saturating vector difference.
pub fn vec_sub(a: &Vec<i64>, b: &Vec<i64>) -> (r: Vec<i64>)
    requires a@.len() == b@.len(),
    ensures
        r@.len() == a@.len(),
        sv(r@) == vsub(sv(a@), sv(b@)),
{
    let mut r: Vec<i64> = Vec::new();
    let mut i: usize = 0;
    while i < a.len()
        invariant
            a@.len() == b@.len(),
            0 <= i <= a@.len(),
            r@.len() == i,
            forall|k: int| 0 <= k < i ==> r@[k] as int == fsub(a@[k] as int, b@[k] as int),
        decreases a@.len() - i,
    {
        r.push(fx_sub(a[i], b[i]));
        i = i + 1;
    }
    proof {
        assert(sv(r@) =~= vsub(sv(a@), sv(b@)));
    }
    r
}

/// Every entry multiplied by the raw scalar `c`.
pub fn vec_scale(c: i64, a: &Vec<i64>) -> (r: Vec<i64>)
    ensures
        r@.len() == a@.len(),
        sv(r@) == vscale(c as int, sv(a@)),
{
    let mut r: Vec<i64> = Vec::new();
    let mut i: usize = 0;
    while i < a.len()
        invariant
            0 <= i <= a@.len(),
            r@.len() == i,
            forall|k: int| 0 <= k < i ==> r@[k] as int == fmul(c as int, a@[k] as int),
        decreases a@.len() - i,
    {
        r.push(fx_mul(c, a[i]));
        i = i + 1;
    }
    proof {
        assert(sv(r@) =~= vscale(c as int, sv(a@)));
    }
    r
}

/// Every entry divided by the positive count `n`.
pub fn vec_divn(a: &Vec<i64>, n: u64) -> (r: Vec<i64>)
    requires n > 0,
    ensures
        r@.len() == a@.len(),
        sv(r@) == vdivn(sv(a@), n as int),
{
    let mut r: Vec<i64> = Vec::new();
    let mut i: usize = 0;
    while i < a.len()
        invariant
            n > 0,
            0 <= i <= a@.len(),
            r@.len() == i,
            forall|k: int| 0 <= k < i ==> r@[k] as int == fdivn(a@[k] as int, n as int),
        decreases a@.len() - i,
    {
        r.push(fx_divn(a[i], n));
        i = i + 1;
    }
    proof {
        assert(sv(r@) =~= vdivn(sv(a@), n as int));
    }
    r
}

/// Elementwise saturating matrix sum.
pub fn mat_add(a: &Vec<Vec<i64>>, b: &Vec<Vec<i64>>) -> (r: Vec<Vec<i64>>)
    requires
        a@.len() == b@.len(),
        forall|i: int| 0 <= i < a@.len() ==> #[trigger] a@[i]@.len() == b@[i]@.len(),
    ensures
        r@.len() == a@.len(),
        forall|i: int| 0 <= i < r@.len() ==> #[trigger] r@[i]@.len() == a@[i]@.len(),
        sm(r@) == madd(sm(a@), sm(b@)),
{
    let mut r: Vec<Vec<i64>> = Vec::new();
    let mut i: usize = 0;
    while i < a.len()
        invariant
            a@.len() == b@.len(),
            forall|k: int| 0 <= k < a@.len() ==> #[trigger] a@[k]@.len() == b@[k]@.len(),
            0 <= i <= a@.len(),
            r@.len() == i,
            forall|k: int| 0 <= k < i ==> sv(#[trigger] r@[k]@) == madd(sm(a@), sm(b@))[k],
        decreases a@.len() - i,
    {
        let row = vec_add(&a[i], &b[i]);
        proof {
            assert(sv(row@) =~= madd(sm(a@), sm(b@))[i as int]);
        }
        r.push(row);
        i = i + 1;
    }
    proof {
        assert(sm(r@) =~= madd(sm(a@), sm(b@)));
    }
    r
}

/// Elementwise saturating matrix difference.
pub fn mat_sub(a: &Vec<Vec<i64>>, b: &Vec<Vec<i64>>) -> (r: Vec<Vec<i64>>)
    requires
        a@.len() == b@.len(),
        forall|i: int| 0 <= i < a@.len() ==> #[trigger] a@[i]@.len() == b@[i]@.len(),
    ensures
        r@.len() == a@.len(),
        forall|i: int| 0 <= i < r@.len() ==> #[trigger] r@[i]@.len() == a@[i]@.len(),
        sm(r@) == msub(sm(a@), sm(b@)),
{
    let mut r: Vec<Vec<i64>> = Vec::new();
    let mut i: usize = 0;
    while i < a.len()
        invariant
            a@.len() == b@.len(),
            forall|k: int| 0 <= k < a@.len() ==> #[trigger] a@[k]@.len() == b@[k]@.len(),
            0 <= i <= a@.len(),
            r@.len() == i,
            forall|k: int| 0 <= k < i ==> sv(#[trigger] r@[k]@) == msub(sm(a@), sm(b@))[k],
        decreases a@.len() - i,
    {
        let row = vec_sub(&a[i], &b[i]);
        proof {
            assert(sv(row@) =~= msub(sm(a@), sm(b@))[i as int]);
        }
        r.push(row);
        i = i + 1;
    }
    proof {
        assert(sm(r@) =~= msub(sm(a@), sm(b@)));
    }
    r
}

/// Every matrix entry multiplied by the raw scalar `c`.
pub fn mat_scale(c: i64, a: &Vec<Vec<i64>>) -> (r: Vec<Vec<i64>>)
    ensures
        r@.len() == a@.len(),
        forall|i: int| 0 <= i < r@.len() ==> #[trigger] r@[i]@.len() == a@[i]@.len(),
        sm(r@) == mscale(c as int, sm(a@)),
{
    let mut r: Vec<Vec<i64>> = Vec::new();
    let mut i: usize = 0;
    while i < a.len()
        invariant
            0 <= i <= a@.len(),
            r@.len() == i,
            forall|k: int| 0 <= k < i ==> sv(#[trigger] r@[k]@) == mscale(c as int, sm(a@))[k],
        decreases a@.len() - i,
    {
        let row = vec_scale(c, &a[i]);
        proof {
            assert(sv(row@) =~= mscale(c as int, sm(a@))[i as int]);
        }
        r.push(row);
        i = i + 1;
    }
    proof {
        assert(sm(r@) =~= mscale(c as int, sm(a@)));
    }
    r
}

/// Every matrix entry divided by the positive count `n`.
pub fn mat_divn(a: &Vec<Vec<i64>>, n: u64) -> (r: Vec<Vec<i64>>)
    requires n > 0,
    ensures
        r@.len() == a@.len(),
        forall|i: int| 0 <= i < r@.len() ==> #[trigger] r@[i]@.len() == a@[i]@.len(),
        sm(r@) == mdivn(sm(a@), n as int),
{
    let mut r: Vec<Vec<i64>> = Vec::new();
    let mut i: usize = 0;
    while i < a.len()
        invariant
            n > 0,
            0 <= i <= a@.len(),
            r@.len() == i,
            forall|k: int| 0 <= k < i ==> sv(#[trigger] r@[k]@) == mdivn(sm(a@), n as int)[k],
        decreases a@.len() - i,
    {
        let row = vec_divn(&a[i], n);
        proof {
            assert(sv(row@) =~= mdivn(sm(a@), n as int)[i as int]);
        }
        r.push(row);
        i = i + 1;
    }
    proof {
        assert(sm(r@) =~= mdivn(sm(a@), n as int));
    }
    r
}

} // verus!
