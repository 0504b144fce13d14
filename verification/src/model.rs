//! The dense layer, the runtime-sized layer stack, and the model.
//!
//! A stack is an ordered sequence of layers whose dimensions chain: layer
//! `i`'s input size equals layer `i - 1`'s output size. The invariant is
//! established at construction and preserved by every operation.

use vstd::prelude::*;
use vstd::arithmetic::div_mod::lemma_div_multiples_vanish;
use crate::fixed::{one, fadd, fmul, fsub, fdivn, sabs, RAW_MAX};
use crate::linalg::{
    sv, sm, affine, outer, tmatvec, madd, msub, mscale, mdivn, vadd, vsub, vscale, vdivn,
    mat_vec_add, tmat_vec, outer_prod, mat_add, mat_sub, mat_scale, mat_divn,
    vec_add, vec_sub, vec_scale, vec_divn, vec_copy, mat_copy,
};
use crate::func::{ActivitionFunc, act_vec, fv};
use crate::rng::rand_unit;

verus! {

/// One dense affine transform: `S x P` weights and `S` biases, for a layer
/// of `S` neurons fed by `P` inputs.
pub struct Layer {
    pub w: Vec<Vec<i64>>,
    pub b: Vec<i64>,
}

impl Layer {
    /// The weight matrix as integer rows.
    pub open spec fn wv(self) -> Seq<Seq<int>> {
        sm(self.w@)
    }

    /// The bias vector as integers.
    pub open spec fn bv(self) -> Seq<int> {
        sv(self.b@)
    }

    /// The layer's output size.
    pub open spec fn out_dim(self) -> int {
        self.b@.len() as int
    }

    /// The layer's input size.
    pub open spec fn in_dim(self) -> int {
        if self.w@.len() == 0 { 0 } else { self.w@[0]@.len() as int }
    }

    /// The weight matrix is rectangular and matches the bias length.
    pub open spec fn wf(self) -> bool {
        &&& self.w@.len() == self.b@.len()
        &&& self.w@.len() >= 1
        &&& self.in_dim() >= 1
        &&& forall|i: int| 0 <= i < self.w@.len() ==> #[trigger] self.w@[i]@.len() == self.in_dim()
    }

    /// A layer of `s` neurons fed by `p` inputs, all parameters zero.
    pub fn new(s: usize, p: usize) -> (r: Layer)
        requires s >= 1, p >= 1,
        ensures
            r.wf(),
            r.out_dim() == s,
            r.in_dim() == p,
            forall|i: int, j: int| 0 <= i < s && 0 <= j < p ==> r.wv()[i][j] == 0,
            forall|i: int| 0 <= i < s ==> r.bv()[i] == 0,
    {
        let mut w: Vec<Vec<i64>> = Vec::new();
        let mut b: Vec<i64> = Vec::new();
        let mut i: usize = 0;
        while i < s
            invariant
                0 <= i <= s,
                p >= 1,
                w@.len() == i,
                b@.len() == i,
                forall|k: int| 0 <= k < i ==> #[trigger] w@[k]@.len() == p,
                forall|k: int, j: int| 0 <= k < i && 0 <= j < p ==> #[trigger] w@[k]@[j] == 0,
                forall|k: int| 0 <= k < i ==> #[trigger] b@[k] == 0,
            decreases s - i,
        {
            let mut row: Vec<i64> = Vec::new();
            let mut j: usize = 0;
            while j < p
                invariant
                    0 <= j <= p,
                    row@.len() == j,
                    forall|k: int| 0 <= k < j ==> #[trigger] row@[k] == 0,
                decreases p - j,
            {
                row.push(0);
                j = j + 1;
            }
            w.push(row);
            b.push(0);
            i = i + 1;
        }
        Layer { w, b }
    }

    /// A layer of `s` neurons fed by `p` inputs, every parameter drawn
    /// uniformly from `[0, 1)`.
    pub fn random(s: usize, p: usize) -> (r: Layer)
        requires s >= 1, p >= 1,
        ensures
            r.wf(),
            r.out_dim() == s,
            r.in_dim() == p,
            forall|i: int, j: int| 0 <= i < s && 0 <= j < p ==> 0 <= #[trigger] r.wv()[i][j] < one(),
            forall|i: int| 0 <= i < s ==> 0 <= #[trigger] r.bv()[i] < one(),
    {
        let mut w: Vec<Vec<i64>> = Vec::new();
        let mut b: Vec<i64> = Vec::new();
        let mut i: usize = 0;
        while i < s
            invariant
                0 <= i <= s,
                p >= 1,
                w@.len() == i,
                b@.len() == i,
                forall|k: int| 0 <= k < i ==> #[trigger] w@[k]@.len() == p,
                forall|k: int, j: int| 0 <= k < i && 0 <= j < p ==> 0 <= #[trigger] w@[k]@[j] < one(),
                forall|k: int| 0 <= k < i ==> 0 <= #[trigger] b@[k] < one(),
            decreases s - i,
        {
            let mut row: Vec<i64> = Vec::new();
            let mut j: usize = 0;
            while j < p
                invariant
                    0 <= j <= p,
                    row@.len() == j,
                    forall|k: int| 0 <= k < j ==> 0 <= #[trigger] row@[k] < one(),
                decreases p - j,
            {
                row.push(rand_unit());
                j = j + 1;
            }
            w.push(row);
            b.push(rand_unit());
            i = i + 1;
        }
        Layer { w, b }
    }

    /// The affine transform `w * input + b`.
    pub fn calc(&self, input: &Vec<i64>) -> (r: Vec<i64>)
        requires
            self.wf(),
            input@.len() == self.in_dim(),
        ensures
            r@.len() == self.out_dim(),
            sv(r@) == affine(self.wv(), self.bv(), sv(input@)),
    {
        mat_vec_add(&self.w, &self.b, input)
    }
}

/// A construction-time configuration error of a layer stack.
#[derive(Clone, Copy, Debug, PartialEq, Eq, Structural)]
pub enum NetError {
    /// No layer was supplied (or fewer than two sizes).
    EmptyStack,
    /// A layer is not rectangular, has a zero dimension, or its input size
    /// does not equal the previous layer's output size.
    DimMismatch,
}

/// The forward trace: every layer's pre-activation vector `z` and
/// post-activation vector `a`, in layer order. Created by one forward pass
/// and consumed by the paired backward pass.
pub struct Calc {
    pub z: Vec<Vec<i64>>,
    pub a: Vec<Vec<i64>>,
}

impl Calc {
    /// The network's prediction: the last layer's activation.
    pub fn out(&self) -> (r: &Vec<i64>)
        requires self.a@.len() >= 1,
        ensures r@ == self.a@[self.a@.len() - 1]@,
    {
        &self.a[self.a.len() - 1]
    }
}

/// Consecutive layers chain: each takes exactly what the previous one
/// produces.
pub open spec fn chained(ls: Seq<Layer>) -> bool {
    forall|i: int| 1 <= i < ls.len() ==> #[trigger] ls[i].in_dim() == ls[i - 1].out_dim()
}

/// The pre-activation of layer `i` (1-based): the affine transform applied
/// to the previous activation.
pub open spec fn spec_z<A: ActivitionFunc>(ls: Seq<Layer>, x: Seq<int>, i: int) -> Seq<int>
    decreases i, 0int when i >= 1
{
    affine(ls[i - 1].wv(), ls[i - 1].bv(), spec_a::<A>(ls, x, i - 1))
}

/// The post-activation of layer `i` (1-based); layer 0's "activation" is
/// the raw network input.
pub open spec fn spec_a<A: ActivitionFunc>(ls: Seq<Layer>, x: Seq<int>, i: int) -> Seq<int>
    decreases i, 1int,
{
    if i <= 0 {
        x
    } else {
        act_vec::<A>(spec_z::<A>(ls, x, i))
    }
}

/// The network's prediction: the last layer's activation.
pub open spec fn spec_infer<A: ActivitionFunc>(ls: Seq<Layer>, x: Seq<int>) -> Seq<int> {
    spec_a::<A>(ls, x, ls.len() as int)
}

/// The width of the data flowing between layer `i` and layer `i + 1`.
pub open spec fn dim_at(ls: Seq<Layer>, i: int) -> int {
    if i <= 0 { ls[0].in_dim() } else { ls[i - 1].out_dim() }
}

/// An ordered stack of chained dense layers: the runtime-sized form of an
/// arbitrary-depth network.
pub struct Layers {
    pub layers: Vec<Layer>,
}

/// Each post-activation in the chain has the width the dimension chain
/// assigns it.
pub proof fn lemma_trace_len<A: ActivitionFunc>(ls: Seq<Layer>, x: Seq<int>, i: int)
    requires
        0 <= i <= ls.len(),
        x.len() == ls[0].in_dim(),
        forall|k: int| 0 <= k < ls.len() ==> (#[trigger] ls[k]).wf(),
        chained(ls),
    ensures
        spec_a::<A>(ls, x, i).len() == dim_at(ls, i),
        i >= 1 ==> spec_z::<A>(ls, x, i).len() == dim_at(ls, i),
    decreases i,
{
    if i >= 1 {
        lemma_trace_len::<A>(ls, x, i - 1);
    }
}

impl Layers {
    /// The number of layers.
    pub open spec fn n(self) -> int {
        self.layers@.len() as int
    }

    /// The network's input width.
    pub open spec fn in_dim(self) -> int {
        self.layers@[0].in_dim()
    }

    /// The network's output width.
    pub open spec fn out_dim(self) -> int {
        self.layers@[self.n() - 1].out_dim()
    }

    /// Well-formed: at least one layer, every layer rectangular, and the
    /// dimensions chained.
    pub open spec fn wf(self) -> bool {
        &&& self.n() >= 1
        &&& forall|i: int| 0 <= i < self.n() ==> (#[trigger] self.layers@[i]).wf()
        &&& chained(self.layers@)
    }

    /// Build a stack from explicit layers, validating the chain invariant
    /// before anything else may use it: succeeds exactly when at least one
    /// layer is given, every layer is well-formed, and every layer's input
    /// size equals the previous layer's output size.
    pub fn from_layers(layers: Vec<Layer>) -> (r: Result<Layers, NetError>)
        ensures
            r is Ok <==> (layers@.len() >= 1
                && (forall|i: int| 0 <= i < layers@.len() ==> (#[trigger] layers@[i]).wf())
                && chained(layers@)),
            r matches Ok(l) ==> l.layers@ == layers@ && l.wf(),
            layers@.len() == 0 ==> r == Result::<Layers, NetError>::Err(NetError::EmptyStack),
            r is Err && layers@.len() >= 1 ==> r == Result::<Layers, NetError>::Err(NetError::DimMismatch),
    {
        if layers.len() == 0 {
            return Err(NetError::EmptyStack);
        }
        let mut i: usize = 0;
        while i < layers.len()
            invariant
                layers@.len() >= 1,
                0 <= i <= layers@.len(),
                forall|k: int| 0 <= k < i ==> (#[trigger] layers@[k]).wf(),
                forall|k: int| 1 <= k < i ==> #[trigger] layers@[k].in_dim() == layers@[k - 1].out_dim(),
            decreases layers@.len() - i,
        {
            if !layer_wf_check(&layers[i]) {
                return Err(NetError::DimMismatch);
            }
            if i >= 1 {
                let prev_out = layers[i - 1].b.len();
                if layers[i].w[0].len() != prev_out {
                    return Err(NetError::DimMismatch);
                }
            }
            i = i + 1;
        }
        Ok(Layers { layers })
    }

    /// A stack for the size chain `sizes[0] -> sizes[1] -> ...` with all
    /// parameters zero: succeeds exactly when at least two sizes are given
    /// and none is zero.
    pub fn zero(sizes: &Vec<usize>) -> (r: Result<Layers, NetError>)
        ensures
            r is Ok <==> (sizes@.len() >= 2
                && (forall|i: int| 0 <= i < sizes@.len() ==> #[trigger] sizes@[i] >= 1)),
            sizes@.len() < 2 ==> r == Result::<Layers, NetError>::Err(NetError::EmptyStack),
            r is Err && sizes@.len() >= 2 ==> r == Result::<Layers, NetError>::Err(NetError::DimMismatch),
            r matches Ok(l) ==> {
                &&& l.wf()
                &&& l.n() == sizes@.len() - 1
                &&& forall|i: int| 0 <= i < l.n() ==> #[trigger] l.layers@[i].in_dim() == sizes@[i]
                    && l.layers@[i].out_dim() == sizes@[i + 1]
                &&& forall|i: int, j: int, k: int|
                    0 <= i < l.n() && 0 <= j < l.layers@[i].out_dim() && 0 <= k < l.layers@[i].in_dim()
                    ==> #[trigger] l.layers@[i].wv()[j][k] == 0
                &&& forall|i: int, j: int|
                    0 <= i < l.n() && 0 <= j < l.layers@[i].out_dim()
                    ==> #[trigger] l.layers@[i].bv()[j] == 0
            },
    {
        if sizes.len() < 2 {
            return Err(NetError::EmptyStack);
        }
        let mut i: usize = 0;
        while i < sizes.len()
            invariant
                sizes@.len() >= 2,
                0 <= i <= sizes@.len(),
                forall|k: int| 0 <= k < i ==> #[trigger] sizes@[k] >= 1,
            decreases sizes@.len() - i,
        {
            if sizes[i] == 0 {
                return Err(NetError::DimMismatch);
            }
            i = i + 1;
        }
        let mut layers: Vec<Layer> = Vec::new();
        let mut i: usize = 0;
        while i < sizes.len() - 1
            invariant
                sizes@.len() >= 2,
                forall|k: int| 0 <= k < sizes@.len() ==> #[trigger] sizes@[k] >= 1,
                0 <= i <= sizes@.len() - 1,
                layers@.len() == i,
                forall|k: int| 0 <= k < i ==> (#[trigger] layers@[k]).wf()
                    && layers@[k].in_dim() == sizes@[k]
                    && layers@[k].out_dim() == sizes@[k + 1],
                forall|k: int, j: int, m: int|
                    0 <= k < i && 0 <= j < layers@[k].out_dim() && 0 <= m < layers@[k].in_dim()
                    ==> #[trigger] layers@[k].wv()[j][m] == 0,
                forall|k: int, j: int|
                    0 <= k < i && 0 <= j < layers@[k].out_dim()
                    ==> #[trigger] layers@[k].bv()[j] == 0,
            decreases sizes@.len() - 1 - i,
        {
            layers.push(Layer::new(sizes[i + 1], sizes[i]));
            i = i + 1;
        }
        Ok(Layers { layers })
    }

    /// A stack for the size chain `sizes[0] -> sizes[1] -> ...` with every
    /// parameter drawn uniformly from `[0, 1)`: succeeds exactly when at
    /// least two sizes are given and none is zero.
    pub fn random(sizes: &Vec<usize>) -> (r: Result<Layers, NetError>)
        ensures
            r is Ok <==> (sizes@.len() >= 2
                && (forall|i: int| 0 <= i < sizes@.len() ==> #[trigger] sizes@[i] >= 1)),
            sizes@.len() < 2 ==> r == Result::<Layers, NetError>::Err(NetError::EmptyStack),
            r is Err && sizes@.len() >= 2 ==> r == Result::<Layers, NetError>::Err(NetError::DimMismatch),
            r matches Ok(l) ==> {
                &&& l.wf()
                &&& l.n() == sizes@.len() - 1
                &&& forall|i: int| 0 <= i < l.n() ==> #[trigger] l.layers@[i].in_dim() == sizes@[i]
                    && l.layers@[i].out_dim() == sizes@[i + 1]
                &&& forall|i: int, j: int, k: int|
                    0 <= i < l.n() && 0 <= j < l.layers@[i].out_dim() && 0 <= k < l.layers@[i].in_dim()
                    ==> 0 <= #[trigger] l.layers@[i].wv()[j][k] < one()
                &&& forall|i: int, j: int|
                    0 <= i < l.n() && 0 <= j < l.layers@[i].out_dim()
                    ==> 0 <= #[trigger] l.layers@[i].bv()[j] < one()
            },
    {
        if sizes.len() < 2 {
            return Err(NetError::EmptyStack);
        }
        let mut i: usize = 0;
        while i < sizes.len()
            invariant
                sizes@.len() >= 2,
                0 <= i <= sizes@.len(),
                forall|k: int| 0 <= k < i ==> #[trigger] sizes@[k] >= 1,
            decreases sizes@.len() - i,
        {
            if sizes[i] == 0 {
                return Err(NetError::DimMismatch);
            }
            i = i + 1;
        }
        let mut layers: Vec<Layer> = Vec::new();
        let mut i: usize = 0;
        while i < sizes.len() - 1
            invariant
                sizes@.len() >= 2,
                forall|k: int| 0 <= k < sizes@.len() ==> #[trigger] sizes@[k] >= 1,
                0 <= i <= sizes@.len() - 1,
                layers@.len() == i,
                forall|k: int| 0 <= k < i ==> (#[trigger] layers@[k]).wf()
                    && layers@[k].in_dim() == sizes@[k]
                    && layers@[k].out_dim() == sizes@[k + 1],
                forall|k: int, j: int, m: int|
                    0 <= k < i && 0 <= j < layers@[k].out_dim() && 0 <= m < layers@[k].in_dim()
                    ==> 0 <= #[trigger] layers@[k].wv()[j][m] < one(),
                forall|k: int, j: int|
                    0 <= k < i && 0 <= j < layers@[k].out_dim()
                    ==> 0 <= #[trigger] layers@[k].bv()[j] < one(),
            decreases sizes@.len() - 1 - i,
        {
            layers.push(Layer::random(sizes[i + 1], sizes[i]));
            i = i + 1;
        }
        Ok(Layers { layers })
    }
}

impl Layers {
    /// One forward pass: apply each layer's affine transform and the
    /// activation in turn, recording every layer's pre-activation and
    /// post-activation vector. The final entry of the trace's `a` is the
    /// network's prediction.
    pub fn forward<A: ActivitionFunc>(&self, input: &Vec<i64>) -> (c: Calc)
        requires
            self.wf(),
            input@.len() == self.in_dim(),
        ensures
            c.z@.len() == self.n(),
            c.a@.len() == self.n(),
            forall|i: int| 0 <= i < self.n()
                ==> sv(#[trigger] c.z@[i]@) == spec_z::<A>(self.layers@, sv(input@), i + 1),
            forall|i: int| 0 <= i < self.n()
                ==> sv(#[trigger] c.a@[i]@) == spec_a::<A>(self.layers@, sv(input@), i + 1),
            forall|i: int| 0 <= i < self.n()
                ==> #[trigger] c.a@[i]@.len() == dim_at(self.layers@, i + 1)
                    && c.z@[i]@.len() == dim_at(self.layers@, i + 1),
    {
        let ghost ls = self.layers@;
        let ghost xv = sv(input@);
        let mut zs: Vec<Vec<i64>> = Vec::new();
        let mut aas: Vec<Vec<i64>> = Vec::new();
        let mut cur: Vec<i64> = vec_copy(input);
        let mut i: usize = 0;
        while i < self.layers.len()
            invariant
                self.wf(),
                ls == self.layers@,
                xv == sv(input@),
                input@.len() == self.in_dim(),
                0 <= i <= ls.len(),
                zs@.len() == i,
                aas@.len() == i,
                sv(cur@) == spec_a::<A>(ls, xv, i as int),
                cur@.len() == dim_at(ls, i as int),
                forall|k: int| 0 <= k < i ==> sv(#[trigger] zs@[k]@) == spec_z::<A>(ls, xv, k + 1),
                forall|k: int| 0 <= k < i ==> sv(#[trigger] aas@[k]@) == spec_a::<A>(ls, xv, k + 1),
                forall|k: int| 0 <= k < i
                    ==> #[trigger] aas@[k]@.len() == dim_at(ls, k + 1)
                        && zs@[k]@.len() == dim_at(ls, k + 1),
            decreases ls.len() - i,
        {
            let z = self.layers[i].calc(&cur);
            let a = fv::<A>(&z);
            proof {
                assert(sv(z@) == spec_z::<A>(ls, xv, i as int + 1));
                assert(sv(a@) == spec_a::<A>(ls, xv, i as int + 1));
            }
            cur = vec_copy(&a);
            zs.push(z);
            aas.push(a);
            i = i + 1;
        }
        Calc { z: zs, a: aas }
    }

    /// Inference: the same chain as `forward`, without recording the
    /// trace. Returns exactly the final activation of the forward pass.
    pub fn test<A: ActivitionFunc>(&self, input: &Vec<i64>) -> (r: Vec<i64>)
        requires
            self.wf(),
            input@.len() == self.in_dim(),
        ensures
            r@.len() == self.out_dim(),
            sv(r@) == spec_infer::<A>(self.layers@, sv(input@)),
    {
        let ghost ls = self.layers@;
        let ghost xv = sv(input@);
        let mut cur: Vec<i64> = vec_copy(input);
        let mut i: usize = 0;
        while i < self.layers.len()
            invariant
                self.wf(),
                ls == self.layers@,
                xv == sv(input@),
                input@.len() == self.in_dim(),
                0 <= i <= ls.len(),
                sv(cur@) == spec_a::<A>(ls, xv, i as int),
                cur@.len() == dim_at(ls, i as int),
            decreases ls.len() - i,
        {
            let z = self.layers[i].calc(&cur);
            cur = fv::<A>(&z);
            i = i + 1;
        }
        cur
    }
}

/// The upstream gradient multiplied elementwise with the activation
/// derivative taken at the layer's output values.
pub open spec fn zip_dmul<A: ActivitionFunc>(k: Seq<int>, a: Seq<int>) -> Seq<int> {
    Seq::new(a.len(), |j: int| fmul(k[j], A::spec_d(a[j])))
}

/// The error term of layer `i` (1-based), computed from the recorded
/// post-activations `av` (`av[k]` belongs to layer `k + 1`) and the loss
/// gradient `gout` at the network output.
pub open spec fn spec_delta<A: ActivitionFunc>(
    ls: Seq<Layer>, av: Seq<Seq<int>>, gout: Seq<int>, i: int) -> Seq<int>
    decreases ls.len() - i,
{
    if i >= ls.len() {
        zip_dmul::<A>(gout, av[ls.len() - 1])
    } else {
        zip_dmul::<A>(
            tmatvec(ls[i].wv(), spec_delta::<A>(ls, av, gout, i + 1), ls[i].in_dim()),
            av[i - 1],
        )
    }
}

/// What layer `i` (1-based) consumed during the forward pass: the raw
/// input for the first layer, the previous post-activation otherwise.
pub open spec fn prev_act(av: Seq<Seq<int>>, x: Seq<int>, i: int) -> Seq<int> {
    if i <= 1 { x } else { av[i - 2] }
}

/// The recorded post-activations of a trace, as integer vectors.
pub open spec fn calc_av(c: Calc) -> Seq<Seq<int>> {
    Seq::new(c.a@.len(), |i: int| sv(c.a@[i]@))
}

impl Layers {
    /// The backward pass: given the input, the loss gradient at the
    /// output, and the forward trace, reconstruct layer by layer (in
    /// reverse order) each layer's error term `delta`; the weight gradient
    /// is `outer(delta, previous activation)`, the bias gradient is
    /// `delta`, and the gradient handed upstream is `w^T * delta`.
    pub fn backward<A: ActivitionFunc>(&self, input: &Vec<i64>, gout: Vec<i64>, calc: Calc)
        -> (g: Layers)
        requires
            self.wf(),
            input@.len() == self.in_dim(),
            gout@.len() == self.out_dim(),
            calc.a@.len() == self.n(),
            forall|i: int| 0 <= i < self.n()
                ==> #[trigger] calc.a@[i]@.len() == dim_at(self.layers@, i + 1),
        ensures
            g.layers@.len() == self.n(),
            forall|i: int| 0 <= i < self.n()
                ==> (#[trigger] g.layers@[i]).wv()
                        == outer(
                            spec_delta::<A>(self.layers@, calc_av(calc), sv(gout@), i + 1),
                            prev_act(calc_av(calc), sv(input@), i + 1))
                    && g.layers@[i].bv()
                        == spec_delta::<A>(self.layers@, calc_av(calc), sv(gout@), i + 1),
            g.wf(),
            same_shape(g, *self),
    {
        let ghost ls = self.layers@;
        let ghost xv = sv(input@);
        let ghost av = calc_av(calc);
        let ghost gv = sv(gout@);
        let n = self.layers.len();
        let mut rev: Vec<Layer> = Vec::new();
        let mut k: Vec<i64> = gout;
        let mut i: usize = n;
        while i >= 1
            invariant
                self.wf(),
                ls == self.layers@,
                xv == sv(input@),
                av == calc_av(calc),
                input@.len() == self.in_dim(),
                calc.a@.len() == n,
                n == ls.len(),
                forall|t: int| 0 <= t < n
                    ==> #[trigger] calc.a@[t]@.len() == dim_at(ls, t + 1),
                0 <= i <= n,
                rev@.len() == n - i,
                i >= 1 ==> k@.len() == dim_at(ls, i as int),
                i == n ==> sv(k@) == gv,
                1 <= i < n ==> sv(k@) == tmatvec(
                    ls[i as int].wv(), spec_delta::<A>(ls, av, gv, i as int + 1),
                    ls[i as int].in_dim()),
                forall|t: int| 0 <= t < n - i
                    ==> (#[trigger] rev@[t]).wv()
                            == outer(spec_delta::<A>(ls, av, gv, n - t), prev_act(av, xv, n - t))
                        && rev@[t].bv() == spec_delta::<A>(ls, av, gv, n - t),
                forall|t: int| 0 <= t < n - i
                    ==> (#[trigger] rev@[t]).wf()
                        && rev@[t].out_dim() == ls[n - t - 1].out_dim()
                        && rev@[t].in_dim() == ls[n - t - 1].in_dim(),
            decreases i,
        {
            let delta = zip_dmul_x::<A>(&k, &calc.a[i - 1]);
            proof {
                assert(sv(delta@) == spec_delta::<A>(ls, av, gv, i as int));
            }
            let prev: &Vec<i64> = if i == 1 { input } else { &calc.a[i - 2] };
            proof {
                assert(sv(prev@) == prev_act(av, xv, i as int));
            }
            let gw = outer_prod(&delta, prev);
            let gb = vec_copy(&delta);
            rev.push(Layer { w: gw, b: gb });
            if i > 1 {
                let cols = self.layers[i - 1].w[0].len();
                k = tmat_vec(&self.layers[i - 1].w, &delta, cols);
            }
            i = i - 1;
        }
        let mut layers: Vec<Layer> = Vec::new();
        while rev.len() > 0
            invariant
                rev@.len() + layers@.len() == n,
                forall|t: int| 0 <= t < rev@.len()
                    ==> (#[trigger] rev@[t]).wv()
                            == outer(spec_delta::<A>(ls, av, gv, n - t), prev_act(av, xv, n - t))
                        && rev@[t].bv() == spec_delta::<A>(ls, av, gv, n - t),
                forall|j: int| 0 <= j < layers@.len()
                    ==> (#[trigger] layers@[j]).wv()
                            == outer(spec_delta::<A>(ls, av, gv, j + 1), prev_act(av, xv, j + 1))
                        && layers@[j].bv() == spec_delta::<A>(ls, av, gv, j + 1),
                forall|t: int| 0 <= t < rev@.len()
                    ==> (#[trigger] rev@[t]).wf()
                        && rev@[t].out_dim() == ls[n - t - 1].out_dim()
                        && rev@[t].in_dim() == ls[n - t - 1].in_dim(),
                forall|j: int| 0 <= j < layers@.len()
                    ==> (#[trigger] layers@[j]).wf()
                        && layers@[j].out_dim() == ls[j].out_dim()
                        && layers@[j].in_dim() == ls[j].in_dim(),
            decreases rev@.len(),
        {
            let l = rev.pop().unwrap();
            layers.push(l);
        }
        Layers { layers }
    }
}

/// Two stacks have the same depth and, layer by layer, the same input and
/// output sizes.
pub open spec fn same_shape(a: Layers, b: Layers) -> bool {
    &&& a.layers@.len() == b.layers@.len()
    &&& forall|i: int| 0 <= i < a.layers@.len()
        ==> #[trigger] a.layers@[i].out_dim() == b.layers@[i].out_dim()
            && a.layers@[i].in_dim() == b.layers@[i].in_dim()
}

/// Shapes compose: two stacks each shaped like a third are shaped alike.
pub proof fn lemma_same_shape_trans(a: Layers, b: Layers, c: Layers)
    requires
        same_shape(a, b),
        same_shape(b, c),
    ensures
        same_shape(a, c),
{
    assert forall|i: int| 0 <= i < a.layers@.len()
        implies #[trigger] a.layers@[i].out_dim() == c.layers@[i].out_dim()
            && a.layers@[i].in_dim() == c.layers@[i].in_dim() by {
        assert(a.layers@[i].out_dim() == b.layers@[i].out_dim());
        assert(b.layers@[i].out_dim() == c.layers@[i].out_dim());
    }
}

/// Stacks of the same shape have the same outer dimensions.
pub proof fn lemma_stack_dims(a: Layers, b: Layers)
    requires
        same_shape(a, b),
        b.layers@.len() >= 1,
    ensures
        a.in_dim() == b.in_dim(),
        a.out_dim() == b.out_dim(),
        a.n() == b.n(),
{
    assert(a.layers@[0].out_dim() == b.layers@[0].out_dim());
    let n = a.layers@.len() as int;
    assert(a.layers@[n - 1].out_dim() == b.layers@[n - 1].out_dim());
}

proof fn lemma_shape_at(a: Layers, b: Layers, i: int)
    requires
        same_shape(a, b),
        0 <= i < b.layers@.len(),
    ensures
        a.layers@.len() == b.layers@.len(),
        a.layers@[i].out_dim() == b.layers@[i].out_dim(),
        a.layers@[i].in_dim() == b.layers@[i].in_dim(),
{
}

/// The elementwise sum of the first `n` gradients' weight matrices at
/// layer index `li`, accumulated left to right.
pub open spec fn grad_sum_w(gs: Seq<Layers>, li: int, n: int) -> Seq<Seq<int>>
    decreases n,
{
    if n <= 1 {
        gs[0].layers@[li].wv()
    } else {
        madd(grad_sum_w(gs, li, n - 1), gs[n - 1].layers@[li].wv())
    }
}

/// The elementwise sum of the first `n` gradients' bias vectors at layer
/// index `li`.
pub open spec fn grad_sum_b(gs: Seq<Layers>, li: int, n: int) -> Seq<int>
    decreases n,
{
    if n <= 1 {
        gs[0].layers@[li].bv()
    } else {
        vadd(grad_sum_b(gs, li, n - 1), gs[n - 1].layers@[li].bv())
    }
}

/// The weight matrix of layer `li` after one update: the gradients'
/// elementwise mean, scaled by the learning rate, subtracted from the
/// current weights.
pub open spec fn upd_w(orig: Layer, rate: int, gs: Seq<Layers>, li: int) -> Seq<Seq<int>> {
    msub(orig.wv(), mscale(rate, mdivn(grad_sum_w(gs, li, gs.len() as int), gs.len() as int)))
}

/// The bias vector of layer `li` after one update.
pub open spec fn upd_b(orig: Layer, rate: int, gs: Seq<Layers>, li: int) -> Seq<int> {
    vsub(orig.bv(), vscale(rate, vdivn(grad_sum_b(gs, li, gs.len() as int), gs.len() as int)))
}

impl Layers {
    /// Average the per-example gradients elementwise, scale the mean by
    /// the learning rate, and subtract it in place from every layer's
    /// weights and biases. The collection must not be empty: the mean of
    /// nothing is undefined, so the caller guards this.
    pub fn update(&mut self, rate: i64, gradients: &Vec<Layers>)
        requires
            old(self).wf(),
            gradients@.len() >= 1,
            forall|k: int| 0 <= k < gradients@.len()
                ==> (#[trigger] gradients@[k]).wf() && same_shape(gradients@[k], *old(self)),
        ensures
            final(self).wf(),
            same_shape(*final(self), *old(self)),
            forall|li: int| 0 <= li < old(self).n()
                ==> (#[trigger] final(self).layers@[li]).wv()
                        == upd_w(old(self).layers@[li], rate as int, gradients@, li)
                    && final(self).layers@[li].bv()
                        == upd_b(old(self).layers@[li], rate as int, gradients@, li),
    {
        let ghost orig = *self;
        let ghost gs = gradients@;
        let n = self.layers.len();
        let glen = gradients.len();
        let mut li: usize = 0;
        while li < n
            invariant
                orig.wf(),
                gs == gradients@,
                glen == gs.len(),
                gs.len() >= 1,
                forall|k: int| 0 <= k < gs.len()
                    ==> (#[trigger] gs[k]).wf() && same_shape(gs[k], orig),
                n == orig.layers@.len(),
                self.layers@.len() == n,
                0 <= li <= n,
                forall|j: int| li <= j < n ==> #[trigger] self.layers@[j] == orig.layers@[j],
                forall|j: int| 0 <= j < li
                    ==> (#[trigger] self.layers@[j]).wv() == upd_w(orig.layers@[j], rate as int, gs, j)
                        && self.layers@[j].bv() == upd_b(orig.layers@[j], rate as int, gs, j)
                        && self.layers@[j].wf()
                        && self.layers@[j].out_dim() == orig.layers@[j].out_dim()
                        && self.layers@[j].in_dim() == orig.layers@[j].in_dim(),
            decreases n - li,
        {
            let ghost odim = orig.layers@[li as int].out_dim();
            let ghost idim = orig.layers@[li as int].in_dim();
            let mut sw = mat_copy(&gradients[0].layers[li].w);
            let mut sb = vec_copy(&gradients[0].layers[li].b);
            proof {
                assert(gs[0].wf() && same_shape(gs[0], orig));
                lemma_shape_at(gs[0], orig, li as int);
                let g0 = gs[0].layers@[li as int];
                assert(g0.wf());
                assert(g0.out_dim() == odim && g0.in_dim() == idim);
                assert forall|t: int| 0 <= t < sw@.len() implies #[trigger] sw@[t]@.len() == idim by {
                    assert(sw@[t]@ == g0.w@[t]@);
                    assert(g0.w@[t]@.len() == g0.in_dim());
                }
            }
            let mut k: usize = 1;
            while k < glen
                invariant
                    gs == gradients@,
                    glen == gs.len(),
                    gs.len() >= 1,
                    0 <= li < n,
                    forall|t: int| 0 <= t < gs.len()
                        ==> (#[trigger] gs[t]).wf() && gs[t].layers@.len() == n
                            && gs[t].layers@[li as int].out_dim() == odim
                            && gs[t].layers@[li as int].in_dim() == idim,
                    odim >= 1,
                    idim >= 1,
                    1 <= k <= glen,
                    sw@.len() == odim,
                    forall|t: int| 0 <= t < sw@.len() ==> #[trigger] sw@[t]@.len() == idim,
                    sb@.len() == odim,
                    sm(sw@) == grad_sum_w(gs, li as int, k as int),
                    sv(sb@) == grad_sum_b(gs, li as int, k as int),
                decreases glen - k,
            {
                sw = mat_add(&sw, &gradients[k].layers[li].w);
                sb = vec_add(&sb, &gradients[k].layers[li].b);
                k = k + 1;
            }
            let mw = mat_divn(&sw, glen as u64);
            let mw = mat_scale(rate, &mw);
            let mb = vec_divn(&sb, glen as u64);
            let mb = vec_scale(rate, &mb);
            let nw = mat_sub(&self.layers[li].w, &mw);
            let nb = vec_sub(&self.layers[li].b, &mb);
            self.layers.set(li, Layer { w: nw, b: nb });
            li = li + 1;
        }
    }
}

/// Determinism of inference: the prediction is a function of the
/// parameters and the input alone, so two results computed from equal
/// stacks and equal inputs are identical.
pub proof fn lemma_infer_deterministic<A: ActivitionFunc>(
    r1: Seq<int>, r2: Seq<int>, ls: Seq<Layer>, x: Seq<int>)
    requires
        r1 == spec_infer::<A>(ls, x),
        r2 == spec_infer::<A>(ls, x),
    ensures
        r1 == r2,
{
}

/// The upstream gradient zipped with the activation derivative of each
/// recorded output.
fn zip_dmul_x<A: ActivitionFunc>(k: &Vec<i64>, a: &Vec<i64>) -> (r: Vec<i64>)
    requires k@.len() == a@.len(),
    ensures
        r@.len() == a@.len(),
        sv(r@) == zip_dmul::<A>(sv(k@), sv(a@)),
{
    let mut r: Vec<i64> = Vec::new();
    let mut j: usize = 0;
    while j < a.len()
        invariant
            k@.len() == a@.len(),
            0 <= j <= a@.len(),
            r@.len() == j,
            forall|t: int| 0 <= t < j
                ==> r@[t] as int == fmul(k@[t] as int, A::spec_d(a@[t] as int)),
        decreases a@.len() - j,
    {
        r.push(crate::fixed::fx_mul(k[j], A::d_from_y(a[j])));
        j = j + 1;
    }
    proof {
        assert(sv(r@) =~= zip_dmul::<A>(sv(k@), sv(a@)));
    }
    r
}

/// The post-activations a forward pass records: entry `i` is layer
/// `i + 1`'s activation.
pub open spec fn trace_av<A: ActivitionFunc>(ls: Seq<Layer>, x: Seq<int>) -> Seq<Seq<int>> {
    Seq::new(ls.len(), |i: int| spec_a::<A>(ls, x, i + 1))
}

/// An immutable trained network: wraps the stack and exposes inference
/// only.
pub struct Model {
    pub layers: Layers,
}

impl Model {
    /// Wrap a trained stack; the stack moves in and can no longer be
    /// mutated through the model.
    pub fn new(layers: Layers) -> (m: Model)
        requires layers.wf(),
        ensures m.layers == layers, m.layers.wf(),
    {
        Model { layers }
    }

    /// Inference through the non-recording path.
    pub fn test<A: ActivitionFunc>(&self, item: &Vec<i64>) -> (r: Vec<i64>)
        requires
            self.layers.wf(),
            item@.len() == self.layers.in_dim(),
        ensures
            r@.len() == self.layers.out_dim(),
            sv(r@) == spec_infer::<A>(self.layers.layers@, sv(item@)),
    {
        self.layers.test::<A>(item)
    }
}

/// A raw value small enough that a threefold saturating sum of it is
/// exact.
pub open spec fn third_bounded(x: int) -> bool {
    3 * sabs(x) <= RAW_MAX as int
}

proof fn lemma_mean3(x: int)
    requires third_bounded(x),
    ensures
        fdivn(fadd(fadd(x, x), x), 3) == x,
        fdivn(x, 1) == x,
{
    lemma_div_multiples_vanish(sabs(x), 3);
    lemma_div_multiples_vanish(sabs(x), 1);
    assert(sabs(3 * x) == 3 * sabs(x));
    assert(fadd(fadd(x, x), x) == 3 * x);
}

proof fn lemma_mean3_vec(v: Seq<int>)
    requires forall|i: int| 0 <= i < v.len() ==> third_bounded(#[trigger] v[i]),
    ensures
        vdivn(vadd(vadd(v, v), v), 3) == v,
        vdivn(v, 1) == v,
{
    assert forall|i: int| 0 <= i < v.len()
        implies fdivn(#[trigger] vadd(vadd(v, v), v)[i], 3) == v[i] && fdivn(v[i], 1) == v[i] by {
        lemma_mean3(v[i]);
    }
    assert(vdivn(vadd(vadd(v, v), v), 3) =~= v);
    assert(vdivn(v, 1) =~= v);
}

proof fn lemma_mean3_mat(m: Seq<Seq<int>>)
    requires
        forall|i: int, j: int| 0 <= i < m.len() && 0 <= j < m[i].len()
            ==> third_bounded(#[trigger] m[i][j]),
    ensures
        mdivn(madd(madd(m, m), m), 3) == m,
        mdivn(m, 1) == m,
{
    assert forall|i: int| 0 <= i < m.len()
        implies #[trigger] mdivn(madd(madd(m, m), m), 3)[i] == m[i] && mdivn(m, 1)[i] == m[i] by {
        lemma_mean3_vec(m[i]);
        assert(madd(madd(m, m), m)[i] == vadd(vadd(m[i], m[i]), m[i]));
    }
    assert(mdivn(madd(madd(m, m), m), 3) =~= m);
    assert(mdivn(m, 1) =~= m);
}

/// The update averaging law: the elementwise mean of identical gradients
/// does not depend on how often they are replicated, so an update with
/// the collection `[g, g, g]` produces exactly the parameters an update
/// with `[g]` produces — provided no gradient entry is so large that the
/// threefold saturating sum clips (for such entries the law fails).
pub proof fn lemma_update_replication(orig: Layer, rate: int, g: Layers, li: int)
    requires
        0 <= li < g.layers@.len(),
        forall|i: int, j: int|
            0 <= i < g.layers@[li].wv().len() && 0 <= j < g.layers@[li].wv()[i].len()
            ==> third_bounded(#[trigger] g.layers@[li].wv()[i][j]),
        forall|i: int| 0 <= i < g.layers@[li].bv().len()
            ==> third_bounded(#[trigger] g.layers@[li].bv()[i]),
    ensures
        upd_w(orig, rate, seq![g, g, g], li) == upd_w(orig, rate, seq![g], li),
        upd_b(orig, rate, seq![g, g, g], li) == upd_b(orig, rate, seq![g], li),
{
    let w = g.layers@[li].wv();
    let b = g.layers@[li].bv();
    let g3 = seq![g, g, g];
    let g1 = seq![g];
    assert(g3[0] == g && g3[1] == g && g3[2] == g && g3.len() == 3);
    assert(g1[0] == g && g1.len() == 1);
    assert(grad_sum_w(g3, li, 1) == w);
    assert(grad_sum_w(g3, li, 2) == madd(w, w));
    assert(grad_sum_w(g3, li, 3) == madd(madd(w, w), w));
    assert(grad_sum_b(g3, li, 1) == b);
    assert(grad_sum_b(g3, li, 2) == vadd(b, b));
    assert(grad_sum_b(g3, li, 3) == vadd(vadd(b, b), b));
    assert(grad_sum_w(g1, li, 1) == w);
    assert(grad_sum_b(g1, li, 1) == b);
    lemma_mean3_mat(w);
    lemma_mean3_vec(b);
}

/// The update averaging law over a whole stack: since `update` leaves
/// every layer at exactly `upd_w` / `upd_b`, an update with the gradient
/// collection `[g, g, g]` produces the same parameters as one with `[g]`,
/// wherever no gradient entry is large enough for the threefold
/// saturating sum to clip.
pub proof fn lemma_update_replication_stack(orig: Layers, rate: int, g: Layers)
    requires
        orig.layers@.len() == g.layers@.len(),
        forall|li: int, i: int, j: int|
            0 <= li < g.layers@.len() && 0 <= i < g.layers@[li].wv().len()
                && 0 <= j < g.layers@[li].wv()[i].len()
            ==> third_bounded(#[trigger] g.layers@[li].wv()[i][j]),
        forall|li: int, i: int|
            0 <= li < g.layers@.len() && 0 <= i < g.layers@[li].bv().len()
            ==> third_bounded(#[trigger] g.layers@[li].bv()[i]),
    ensures
        forall|li: int| 0 <= li < orig.layers@.len()
            ==> upd_w(#[trigger] orig.layers@[li], rate, seq![g, g, g], li)
                    == upd_w(orig.layers@[li], rate, seq![g], li)
                && upd_b(orig.layers@[li], rate, seq![g, g, g], li)
                    == upd_b(orig.layers@[li], rate, seq![g], li),
{
    assert forall|li: int| 0 <= li < orig.layers@.len()
        implies upd_w(#[trigger] orig.layers@[li], rate, seq![g, g, g], li)
                == upd_w(orig.layers@[li], rate, seq![g], li)
            && upd_b(orig.layers@[li], rate, seq![g, g, g], li)
                == upd_b(orig.layers@[li], rate, seq![g], li) by {
        lemma_update_replication(orig.layers@[li], rate, g, li);
    }
}

/// True exactly when the layer's weight matrix is rectangular, nonempty,
/// and matches the bias length.
fn layer_wf_check(l: &Layer) -> (r: bool)
    ensures r == l.wf(),
{
    if l.w.len() != l.b.len() || l.w.len() == 0 {
        return false;
    }
    if l.w[0].len() == 0 {
        return false;
    }
    let p = l.w[0].len();
    let mut i: usize = 0;
    while i < l.w.len()
        invariant
            l.w@.len() >= 1,
            p == l.in_dim(),
            p >= 1,
            0 <= i <= l.w@.len(),
            forall|k: int| 0 <= k < i ==> #[trigger] l.w@[k]@.len() == p,
        decreases l.w@.len() - i,
    {
        if l.w[i].len() != p {
            return false;
        }
        i = i + 1;
    }
    true
}

} // verus!
