//! Activation and loss strategies.
//!
//! An activation strategy supplies the elementwise nonlinearity and its
//! derivative expressed as a function of the activation's output value (a
//! property the backward pass relies on). A loss strategy supplies the
//! objective and its gradient with respect to the prediction.

use vstd::prelude::*;
use vstd::arithmetic::mul::lemma_mul_nonnegative;
use vstd::arithmetic::div_mod::{
    lemma_fundamental_div_mod, lemma_fundamental_div_mod_converse, lemma_mod_bound,
    lemma_div_pos_is_pos, lemma_div_is_ordered, lemma_div_multiples_vanish,
};
use crate::fixed::{
    one, fadd, fsub, fmul, fdiv, fdivn, fneg, spec_exp, spec_log2,
    fx_add, fx_sub, fx_mul, fx_div, fx_divn, fx_neg, fx_exp, fx_log2, RAW_MAX,
    clamp, tdiv, lemma_exp_nonneg,
};
use crate::linalg::{sv, vsub, vec_sub};

verus! {

/// An elementwise activation strategy. `spec_f` and `spec_d` are the
/// mathematical meaning of the executable `f` and `d_from_y`; the
/// derivative is taken from the activation's output `y`, not its input.
pub trait ActivitionFunc: Sized {
    /// What `f` returns on a raw scalar.
    spec fn spec_f(x: int) -> int;

    /// What `d_from_y` returns on a raw scalar.
    spec fn spec_d(y: int) -> int;

    /// The nonlinearity on one raw scalar.
    fn f(x: i64) -> (r: i64)
        ensures r as int == Self::spec_f(x as int);

    /// The derivative of the nonlinearity, as a function of its output.
    fn d_from_y(y: i64) -> (r: i64)
        ensures r as int == Self::spec_d(y as int);
}

/// The activation applied to every entry of a vector.
pub open spec fn act_vec<A: ActivitionFunc>(v: Seq<int>) -> Seq<int> {
    Seq::new(v.len(), |i: int| A::spec_f(v[i]))
}

/// The activation derivative applied to every entry of a vector.
pub open spec fn dact_vec<A: ActivitionFunc>(v: Seq<int>) -> Seq<int> {
    Seq::new(v.len(), |i: int| A::spec_d(v[i]))
}

/// The nonlinearity applied to every entry of a raw vector.
pub fn fv<A: ActivitionFunc>(v: &Vec<i64>) -> (r: Vec<i64>)
    ensures
        r@.len() == v@.len(),
        sv(r@) == act_vec::<A>(sv(v@)),
{
    let mut r: Vec<i64> = Vec::new();
    let mut i: usize = 0;
    while i < v.len()
        invariant
            0 <= i <= v@.len(),
            r@.len() == i,
            forall|k: int| 0 <= k < i ==> r@[k] as int == A::spec_f(v@[k] as int),
        decreases v@.len() - i,
    {
        r.push(A::f(v[i]));
        i = i + 1;
    }
    proof {
        assert(sv(r@) =~= act_vec::<A>(sv(v@)));
    }
    r
}

/// The derivative applied to every entry of a raw vector.
pub fn d_from_yv<A: ActivitionFunc>(v: &Vec<i64>) -> (r: Vec<i64>)
    ensures
        r@.len() == v@.len(),
        sv(r@) == dact_vec::<A>(sv(v@)),
{
    let mut r: Vec<i64> = Vec::new();
    let mut i: usize = 0;
    while i < v.len()
        invariant
            0 <= i <= v@.len(),
            r@.len() == i,
            forall|k: int| 0 <= k < i ==> r@[k] as int == A::spec_d(v@[k] as int),
        decreases v@.len() - i,
    {
        r.push(A::d_from_y(v[i]));
        i = i + 1;
    }
    proof {
        assert(sv(r@) =~= dact_vec::<A>(sv(v@)));
    }
    r
}

/// A saturating symmetric nonlinearity: the hyperbolic tangent,
/// `(e^x - e^-x) / (e^x + e^-x)`, with derivative `1 - y^2`.
#[derive(Clone, Copy, Default)]
pub struct Tanh;

impl ActivitionFunc for Tanh {
    open spec fn spec_f(x: int) -> int {
        let ex = spec_exp(x);
        let enx = spec_exp(fneg(x));
        fdiv(fsub(ex, enx), fadd(ex, enx))
    }

    open spec fn spec_d(y: int) -> int {
        fsub(one(), fmul(y, y))
    }

    fn f(x: i64) -> (r: i64)
        ensures r as int == Self::spec_f(x as int),
    {
        let ex = fx_exp(x);
        let enx = fx_exp(fx_neg(x));
        fx_div(fx_sub(ex, enx), fx_add(ex, enx))
    }

    fn d_from_y(y: i64) -> (r: i64)
        ensures r as int == Self::spec_d(y as int),
    {
        fx_sub(crate::fixed::SCALE, fx_mul(y, y))
    }
}

/// A bounded `[0, 1]` nonlinearity: the logistic sigmoid
/// `1 / (1 + e^-x)`, with derivative `y * (1 - y)`.
#[derive(Clone, Copy, Default)]
pub struct Sigmoid;

impl ActivitionFunc for Sigmoid {
    open spec fn spec_f(x: int) -> int {
        fdiv(one(), fadd(one(), spec_exp(fneg(x))))
    }

    open spec fn spec_d(y: int) -> int {
        fmul(y, fsub(one(), y))
    }

    fn f(x: i64) -> (r: i64)
        ensures r as int == Self::spec_f(x as int),
    {
        fx_div(crate::fixed::SCALE, fx_add(crate::fixed::SCALE, fx_exp(fx_neg(x))))
    }

    fn d_from_y(y: i64) -> (r: i64)
        ensures r as int == Self::spec_d(y as int),
    {
        fx_mul(y, fx_sub(crate::fixed::SCALE, y))
    }
}

/// A loss strategy: the objective `spec_f` and its gradient `spec_d` with
/// respect to the prediction `y`, given the target `label`.
pub trait LossFunc: Sized {
    /// What `f` returns: the cost of predicting `y` for `label`.
    spec fn spec_f(label: Seq<int>, y: Seq<int>) -> int;

    /// What `d` returns: the gradient of the cost in `y`.
    spec fn spec_d(label: Seq<int>, y: Seq<int>) -> Seq<int>;

    /// The cost of a prediction.
    fn f(label: &Vec<i64>, y: &Vec<i64>) -> (r: i64)
        requires label@.len() == y@.len(),
        ensures r as int == Self::spec_f(sv(label@), sv(y@));

    /// The gradient of the cost with respect to the prediction.
    fn d(label: &Vec<i64>, y: &Vec<i64>) -> (r: Vec<i64>)
        requires label@.len() == y@.len(),
        ensures
            r@.len() == y@.len(),
            sv(r@) == Self::spec_d(sv(label@), sv(y@));
}

/// Every entry exponentiated.
pub open spec fn seq_exp(x: Seq<int>) -> Seq<int> {
    Seq::new(x.len(), |i: int| spec_exp(x[i]))
}

/// Saturating left-to-right sum of the first `n` entries.
pub open spec fn seq_sum(x: Seq<int>, n: int) -> int
    decreases n,
{
    if n <= 0 {
        0
    } else {
        fadd(seq_sum(x, n - 1), x[n - 1])
    }
}

/// Softmax on raw vectors: exponentiate elementwise, then normalize by the
/// (saturating) sum. No stabilizing shift of the inputs is applied, so
/// large entries saturate rather than being guarded.
pub open spec fn spec_softmax(x: Seq<int>) -> Seq<int> {
    let e = seq_exp(x);
    let t = seq_sum(e, x.len() as int);
    Seq::new(x.len(), |i: int| fdiv(e[i], t))
}

/// Softmax of a raw vector.
pub fn softmax(x: &Vec<i64>) -> (r: Vec<i64>)
    ensures
        r@.len() == x@.len(),
        sv(r@) == spec_softmax(sv(x@)),
{
    let mut e: Vec<i64> = Vec::new();
    let mut i: usize = 0;
    while i < x.len()
        invariant
            0 <= i <= x@.len(),
            e@.len() == i,
            forall|k: int| 0 <= k < i ==> e@[k] as int == spec_exp(x@[k] as int),
        decreases x@.len() - i,
    {
        e.push(fx_exp(x[i]));
        i = i + 1;
    }
    proof {
        assert(sv(e@) =~= seq_exp(sv(x@)));
    }
    let mut t: i64 = 0;
    let mut i: usize = 0;
    while i < e.len()
        invariant
            0 <= i <= e@.len(),
            sv(e@) == seq_exp(sv(x@)),
            e@.len() == x@.len(),
            t as int == seq_sum(seq_exp(sv(x@)), i as int),
        decreases e@.len() - i,
    {
        t = fx_add(t, e[i]);
        i = i + 1;
    }
    let mut r: Vec<i64> = Vec::new();
    let mut i: usize = 0;
    while i < e.len()
        invariant
            0 <= i <= e@.len(),
            sv(e@) == seq_exp(sv(x@)),
            e@.len() == x@.len(),
            t as int == seq_sum(seq_exp(sv(x@)), x@.len() as int),
            r@.len() == i,
            forall|k: int| 0 <= k < i ==>
                r@[k] as int == fdiv(seq_exp(sv(x@))[k], seq_sum(seq_exp(sv(x@)), sv(x@).len() as int)),
        decreases e@.len() - i,
    {
        r.push(fx_div(e[i], t));
        i = i + 1;
    }
    proof {
        assert(sv(r@) =~= spec_softmax(sv(x@)));
    }
    r
}

/// In-place softmax.
pub fn softmax_with(x: &mut Vec<i64>)
    ensures
        final(x)@.len() == old(x)@.len(),
        sv(final(x)@) == spec_softmax(sv(old(x)@)),
{
    let r = softmax(x);
    *x = r;
}

/// In-place softmax as a method, for vector types that carry one.
pub trait SoftMax {
    fn softmax(&mut self);
}

impl SoftMax for Vec<i64> {
    fn softmax(&mut self)
        ensures
            final(self)@.len() == old(self)@.len(),
            sv(final(self)@) == spec_softmax(sv(old(self)@)),
    {
        softmax_with(self)
    }
}

/// Exact (unclamped) left-to-right sum of the first `n` entries.
pub open spec fn sum_plain(x: Seq<int>, n: int) -> int
    decreases n,
{
    if n <= 0 {
        0
    } else {
        sum_plain(x, n - 1) + x[n - 1]
    }
}

proof fn lemma_div_sum(a: int, b: int, t: int)
    requires a >= 0, b >= 0, t > 0,
    ensures
        a / t + b / t <= (a + b) / t,
        (a + b) / t <= a / t + b / t + 1,
{
    lemma_fundamental_div_mod(a, t);
    lemma_fundamental_div_mod(b, t);
    lemma_mod_bound(a, t);
    lemma_mod_bound(b, t);
    let qa = a / t;
    let ra = a % t;
    let qb = b / t;
    let rb = b % t;
    assert(t * (qa + qb) == t * qa + t * qb) by (nonlinear_arith);
    if ra + rb < t {
        lemma_fundamental_div_mod_converse(a + b, t, qa + qb, ra + rb);
    } else {
        assert(t * (qa + qb + 1) == t * qa + t * qb + t) by (nonlinear_arith);
        lemma_fundamental_div_mod_converse(a + b, t, qa + qb + 1, ra + rb - t);
    }
}

/// The exact sum of the first `n` quotients `(x[i] * one) / t`.
pub open spec fn qsum(x: Seq<int>, t: int, n: int) -> int
    decreases n,
{
    if n <= 0 {
        0
    } else {
        qsum(x, t, n - 1) + (x[n - 1] * one()) / t
    }
}

proof fn lemma_qsum_bounds(e: Seq<int>, t: int, k: int)
    requires
        t > 0,
        0 <= k <= e.len(),
        forall|i: int| 0 <= i < e.len() ==> #[trigger] e[i] >= 0,
    ensures
        0 <= sum_plain(e, k),
        (sum_plain(e, k) * one()) / t - k <= qsum(e, t, k),
        qsum(e, t, k) <= (sum_plain(e, k) * one()) / t,
    decreases k,
{
    if k > 0 {
        lemma_qsum_bounds(e, t, k - 1);
        let p = sum_plain(e, k - 1) * one();
        let a = e[k - 1] * one();
        lemma_mul_nonnegative(e[k - 1], one());
        assert(sum_plain(e, k) * one() == p + a) by (nonlinear_arith)
            requires sum_plain(e, k) == sum_plain(e, k - 1) + e[k - 1]
                && p == sum_plain(e, k - 1) * one() && a == e[k - 1] * one();
        lemma_div_sum(p, a, t);
    }
}

proof fn lemma_partial_le_total(e: Seq<int>, k: int, n: int)
    requires
        0 <= k <= n <= e.len(),
        forall|i: int| 0 <= i < e.len() ==> #[trigger] e[i] >= 0,
    ensures
        sum_plain(e, k) <= sum_plain(e, n),
        0 <= sum_plain(e, k),
    decreases n,
{
    if n > 0 {
        if k < n {
            lemma_partial_le_total(e, k, n - 1);
        } else {
            lemma_partial_le_total(e, 0, n - 1);
        }
    }
}

proof fn lemma_saturating_sum_exact(e: Seq<int>, k: int, n: int)
    requires
        0 <= k <= n <= e.len(),
        forall|i: int| 0 <= i < e.len() ==> #[trigger] e[i] >= 0,
        sum_plain(e, n) <= RAW_MAX as int,
    ensures
        seq_sum(e, k) == sum_plain(e, k),
    decreases k,
{
    if k > 0 {
        lemma_saturating_sum_exact(e, k - 1, n);
        lemma_partial_le_total(e, k, n);
        lemma_partial_le_total(e, k - 1, k);
    }
}

proof fn lemma_softmax_entries(x: Seq<int>, i: int)
    requires
        0 <= i < x.len(),
        sum_plain(seq_exp(x), x.len() as int) <= RAW_MAX as int,
        sum_plain(seq_exp(x), x.len() as int) > 0,
    ensures
        spec_softmax(x)[i] == (seq_exp(x)[i] * one()) / sum_plain(seq_exp(x), x.len() as int),
        0 <= spec_softmax(x)[i] <= one(),
{
    let e = seq_exp(x);
    let n = x.len() as int;
    let t = sum_plain(e, n);
    assert forall|j: int| 0 <= j < e.len() implies #[trigger] e[j] >= 0 by {
        lemma_exp_nonneg(x[j]);
    }
    lemma_saturating_sum_exact(e, n, n);
    assert(seq_sum(e, n) == t);
    let a = e[i] * one();
    lemma_mul_nonnegative(e[i], one());
    lemma_div_pos_is_pos(a, t);
    // e[i] <= t, so the quotient is at most one()
    assert(sum_plain(e, i + 1) == sum_plain(e, i) + e[i]);
    lemma_partial_le_total(e, 0, i);
    lemma_partial_le_total(e, i + 1, n);
    assert(e[i] <= t);
    assert(a <= t * one()) by (nonlinear_arith) requires e[i] <= t && a == e[i] * one() && one() > 0;
    lemma_div_is_ordered(a, t * one(), t);
    lemma_div_multiples_vanish(one(), t);
    assert((t * one()) / t == one());
    assert(fdiv(e[i], t) == clamp(tdiv(a, t)));
    assert(tdiv(a, t) == a / t);
}

/// The softmax law: on any input whose exponentials do not saturate the
/// accumulating sum and do not all underflow to zero, every softmax entry
/// lies in `[0, 1]` and the entries sum to `1`, up to one truncation unit
/// (`2^-40`) per entry.
pub proof fn lemma_softmax_bounds(x: Seq<int>)
    requires
        x.len() >= 1,
        sum_plain(seq_exp(x), x.len() as int) <= RAW_MAX as int,
        sum_plain(seq_exp(x), x.len() as int) > 0,
    ensures
        forall|i: int| 0 <= i < x.len() ==> 0 <= #[trigger] spec_softmax(x)[i] <= one(),
        one() - x.len() <= sum_plain(spec_softmax(x), x.len() as int),
        sum_plain(spec_softmax(x), x.len() as int) <= one(),
{
    let e = seq_exp(x);
    let n = x.len() as int;
    let t = sum_plain(e, n);
    assert forall|i: int| 0 <= i < x.len()
        implies 0 <= #[trigger] spec_softmax(x)[i] <= one() by {
        lemma_softmax_entries(x, i);
    }
    assert forall|j: int| 0 <= j < e.len() implies #[trigger] e[j] >= 0 by {
        lemma_exp_nonneg(x[j]);
    }
    lemma_qsum_bounds(e, t, n);
    lemma_div_multiples_vanish(one(), t);
    assert((t * one()) / t == one());
    lemma_sum_matches_qsum(x, n);
}

proof fn lemma_sum_matches_qsum(x: Seq<int>, k: int)
    requires
        0 <= k <= x.len(),
        sum_plain(seq_exp(x), x.len() as int) <= RAW_MAX as int,
        sum_plain(seq_exp(x), x.len() as int) > 0,
    ensures
        sum_plain(spec_softmax(x), k)
            == qsum(seq_exp(x), sum_plain(seq_exp(x), x.len() as int), k),
    decreases k,
{
    if k > 0 {
        lemma_sum_matches_qsum(x, k - 1);
        lemma_softmax_entries(x, k - 1);
    }
}

/// Softmax cross-entropy: cost `-sum(label * log2(softmax(y)))`, gradient
/// `softmax(y) - label`.
#[derive(Clone, Copy, Default)]
pub struct CrossEntroy;

/// The cross-entropy fold over the first `n` entries.
pub open spec fn ce_to(label: Seq<int>, p: Seq<int>, n: int) -> int
    decreases n,
{
    if n <= 0 {
        0
    } else {
        fsub(ce_to(label, p, n - 1), fmul(label[n - 1], spec_log2(p[n - 1])))
    }
}

impl LossFunc for CrossEntroy {
    open spec fn spec_f(label: Seq<int>, y: Seq<int>) -> int {
        ce_to(label, spec_softmax(y), y.len() as int)
    }

    open spec fn spec_d(label: Seq<int>, y: Seq<int>) -> Seq<int> {
        vsub(spec_softmax(y), label)
    }

    fn f(label: &Vec<i64>, y: &Vec<i64>) -> (r: i64)
        ensures r as int == Self::spec_f(sv(label@), sv(y@)),
    {
        let p = softmax(y);
        let mut acc: i64 = 0;
        let mut i: usize = 0;
        while i < p.len()
            invariant
                label@.len() == y@.len(),
                p@.len() == y@.len(),
                sv(p@) == spec_softmax(sv(y@)),
                0 <= i <= p@.len(),
                acc as int == ce_to(sv(label@), spec_softmax(sv(y@)), i as int),
            decreases p@.len() - i,
        {
            acc = fx_sub(acc, fx_mul(label[i], fx_log2(p[i])));
            i = i + 1;
        }
        acc
    }

    fn d(label: &Vec<i64>, y: &Vec<i64>) -> (r: Vec<i64>)
        ensures
            r@.len() == y@.len(),
            sv(r@) == Self::spec_d(sv(label@), sv(y@)),
    {
        let p = softmax(y);
        vec_sub(&p, label)
    }
}

/// Pairwise half-squared distance: cost `sum((y - label)^2) / 2`,
/// gradient `y - label`.
#[derive(Clone, Copy, Default)]
pub struct DistanceFunc;

/// The squared-difference fold over the first `n` entries.
pub open spec fn sqdist_to(label: Seq<int>, y: Seq<int>, n: int) -> int
    decreases n,
{
    if n <= 0 {
        0
    } else {
        fadd(sqdist_to(label, y, n - 1),
            fmul(fsub(y[n - 1], label[n - 1]), fsub(y[n - 1], label[n - 1])))
    }
}

impl LossFunc for DistanceFunc {
    open spec fn spec_f(label: Seq<int>, y: Seq<int>) -> int {
        fdivn(sqdist_to(label, y, y.len() as int), 2)
    }

    open spec fn spec_d(label: Seq<int>, y: Seq<int>) -> Seq<int> {
        vsub(y, label)
    }

    fn f(label: &Vec<i64>, y: &Vec<i64>) -> (r: i64)
        ensures r as int == Self::spec_f(sv(label@), sv(y@)),
    {
        let mut acc: i64 = 0;
        let mut i: usize = 0;
        while i < y.len()
            invariant
                label@.len() == y@.len(),
                0 <= i <= y@.len(),
                acc as int == sqdist_to(sv(label@), sv(y@), i as int),
            decreases y@.len() - i,
        {
            let d = fx_sub(y[i], label[i]);
            acc = fx_add(acc, fx_mul(d, d));
            i = i + 1;
        }
        fx_divn(acc, 2)
    }

    fn d(label: &Vec<i64>, y: &Vec<i64>) -> (r: Vec<i64>)
        ensures
            r@.len() == y@.len(),
            sv(r@) == Self::spec_d(sv(label@), sv(y@)),
    {
        vec_sub(y, label)
    }
}

} // verus!
