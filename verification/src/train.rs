//! The minibatch gradient-descent trainer.
//!
//! A trainer owns the stack and the training items. `build` runs the
//! configured number of iterations — shuffle, chunk, forward + backward
//! per item, one `update` per chunk — and then moves the stack into an
//! immutable `Model`. The trainer value is consumed: it cannot be reused.

use vstd::prelude::*;
use vstd::multiset::Multiset;
use crate::Config;
use crate::Item;
use crate::fixed::{fdivn, fx_divn};
use crate::func::{ActivitionFunc, LossFunc};
use crate::linalg::{outer, sv, vec_copy};
use crate::model::{
    Layers, Model, same_shape, spec_infer, trace_av, spec_delta, prev_act,
    upd_w, upd_b, calc_av,
};
use crate::rng::rand_index;

verus! {

/// The item occurs somewhere in the pool.
pub open spec fn drawn_from(pool: Seq<Item>, x: Item) -> bool {
    exists|j: int| 0 <= j < pool.len() && x == #[trigger] pool[j]
}

/// Every item's input has the network's input width and every label its
/// output width.
pub open spec fn items_ok(items: Seq<Item>, l: Layers) -> bool {
    forall|k: int| 0 <= k < items.len()
        ==> (#[trigger] items[k]).data@.len() == l.in_dim()
            && items[k].label@.len() == l.out_dim()
}

/// The three synchronous observation hooks of a training run. Each is
/// invoked in-line on the training pass, with a read-only view of the
/// stack and the current configuration (whose learning rate reflects any
/// decay so far); the default for each is to do nothing. An observer must
/// not retain the borrowed views beyond the call, which the borrows
/// themselves enforce.
pub trait TrainObserver<A, C> {
    /// After each item's forward pass, before its backward pass.
    fn on_item(&mut self, layers: &Layers, config: &Config<A, C>, item: &Item,
        output: &Vec<i64>) {
    }

    /// After each chunk's update, with the chunk's outputs.
    fn on_chunk(&mut self, layers: &Layers, config: &Config<A, C>,
        outputs: &Vec<Vec<i64>>) {
    }

    /// After each full iteration (1-indexed).
    fn on_iter(&mut self, iter: usize, layers: &Layers, config: &Config<A, C>) {
    }
}

/// The observer that observes nothing.
pub struct NoObserver;

impl<A, C> TrainObserver<A, C> for NoObserver {
}

/// Shuffle the items in place: a permutation (the multiset of items is
/// kept) whose order comes from the random source.
fn shuffle_items(data: &mut Vec<Item>)
    ensures
        final(data)@.len() == old(data)@.len(),
        final(data)@.to_multiset() == old(data)@.to_multiset(),
        forall|k: int| 0 <= k < final(data)@.len()
            ==> drawn_from(old(data)@, #[trigger] final(data)@[k]),
{
    broadcast use vstd::seq_lib::group_to_multiset_ensures;

    let ghost orig = data@;
    let mut out: Vec<Item> = Vec::new();
    proof {
        assert forall|k: int| 0 <= k < data@.len()
            implies drawn_from(orig, #[trigger] data@[k]) by {
            assert(data@[k] == orig[k]);
        }
        assert(out@.to_multiset() =~= Multiset::<Item>::empty());
        assert(out@.to_multiset().add(data@.to_multiset()) =~= orig.to_multiset());
    }
    while data.len() > 0
        invariant
            out@.len() + data@.len() == orig.len(),
            out@.to_multiset().add(data@.to_multiset()) == orig.to_multiset(),
            forall|k: int| 0 <= k < out@.len() ==> drawn_from(orig, #[trigger] out@[k]),
            forall|k: int| 0 <= k < data@.len() ==> drawn_from(orig, #[trigger] data@[k]),
        decreases data@.len(),
    {
        let ghost prev = data@;
        let ghost pout = out@;
        let j = rand_index(data.len());
        let x = data.remove(j);
        proof {
            assert forall|k: int| 0 <= k < data@.len()
                implies drawn_from(orig, #[trigger] data@[k]) by {
                if k < j {
                    assert(data@[k] == prev[k]);
                } else {
                    assert(data@[k] == prev[k + 1]);
                }
            }
            assert(drawn_from(orig, x)) by {
                assert(x == prev[j as int]);
            }
        }
        out.push(x);
        proof {
            assert(prev.contains(x)) by {
                assert(prev[j as int] == x);
            }
            prev.to_multiset_ensures();
            pout.to_multiset_ensures();
            assert(data@ == prev.remove(j as int));
            assert(prev.remove(j as int).to_multiset() =~= prev.to_multiset().remove(prev[j as int]));
            assert(out@ == pout.push(x));
            assert(pout.push(x).to_multiset() =~= pout.to_multiset().insert(x));
            assert(out@.to_multiset().add(data@.to_multiset()) =~= orig.to_multiset());
        }
    }
    proof {
        data@.to_multiset_ensures();
        assert(data@.to_multiset().len() == 0);
        assert(out@.to_multiset() =~= orig.to_multiset());
    }
    *data = out;
}

/// The stack `g` holds exactly the per-layer gradients that the backward
/// pass computes for `item` on the stack `s`: layer `i`'s weight gradient
/// is the outer product of its error term with what it consumed, and its
/// bias gradient is the error term itself.
pub open spec fn is_gradient_of<A: ActivitionFunc, C: LossFunc>(s: Layers, item: Item, g: Layers) -> bool {
    let x = sv(item.data@);
    let av = trace_av::<A>(s.layers@, x);
    let gout = C::spec_d(sv(item.label@), spec_infer::<A>(s.layers@, x));
    &&& g.layers@.len() == s.layers@.len()
    &&& forall|i: int| 0 <= i < s.layers@.len()
        ==> (#[trigger] g.layers@[i]).wv()
                == outer(spec_delta::<A>(s.layers@, av, gout, i + 1), prev_act(av, x, i + 1))
            && g.layers@[i].bv() == spec_delta::<A>(s.layers@, av, gout, i + 1)
}

/// `s1` is `s0` after one update with the per-item gradients `gs` of the
/// chunk, at the given rate.
pub open spec fn chunk_upd<A: ActivitionFunc, C: LossFunc>(
    s0: Layers, chunk: Seq<Item>, rate: int, gs: Seq<Layers>, s1: Layers) -> bool {
    &&& gs.len() == chunk.len()
    &&& forall|k: int| 0 <= k < chunk.len()
        ==> is_gradient_of::<A, C>(s0, chunk[k], #[trigger] gs[k])
    &&& s1.layers@.len() == s0.layers@.len()
    &&& forall|li: int| 0 <= li < s0.layers@.len()
        ==> (#[trigger] s1.layers@[li]).wv() == upd_w(s0.layers@[li], rate, gs, li)
            && s1.layers@[li].bv() == upd_b(s0.layers@[li], rate, gs, li)
}

/// One chunk step: some gradient collection, one per item of the chunk,
/// each exactly the backward pass's, averaged and applied once.
pub open spec fn chunk_rel<A: ActivitionFunc, C: LossFunc>(
    s0: Layers, chunk: Seq<Item>, rate: int, s1: Layers) -> bool {
    exists|gs: Seq<Layers>| #[trigger] chunk_upd::<A, C>(s0, chunk, rate, gs, s1)
}

/// One full pass over `items` in order, through the explicit chain
/// `mids` of intermediate stacks: chunks of `bs` (the last may be
/// shorter), one update per chunk, `mids[k]` the stack after chunk `k`.
pub open spec fn epoch_hist<A: ActivitionFunc, C: LossFunc>(
    s0: Layers, items: Seq<Item>, rate: int, bs: int, mids: Seq<Layers>, s1: Layers) -> bool
    decreases items.len() when bs >= 1
{
    if items.len() == 0 {
        s1 == s0 && mids.len() == 0
    } else {
        let c = if items.len() < bs { items.len() as int } else { bs };
        &&& mids.len() >= 1
        &&& chunk_rel::<A, C>(s0, items.take(c), rate, mids[0])
        &&& epoch_hist::<A, C>(mids[0], items.skip(c), rate, bs, mids.drop_first(), s1)
    }
}

/// One full pass over `items` in order: chunks of `bs` (the last may be
/// shorter), one update per chunk.
pub open spec fn epoch_rel<A: ActivitionFunc, C: LossFunc>(
    s0: Layers, items: Seq<Item>, rate: int, bs: int, s1: Layers) -> bool {
    exists|mids: Seq<Layers>| #[trigger] epoch_hist::<A, C>(s0, items, rate, bs, mids, s1)
}

/// The learning rate after iteration `idx` (1-indexed): halved on every
/// ten-thousandth iteration, otherwise unchanged.
pub open spec fn next_rate(rate: int, idx: int) -> int {
    if idx % 10000 == 0 {
        fdivn(rate, 2)
    } else {
        rate
    }
}

/// A training run of `left` iterations after iteration `idx`, through
/// the explicit per-iteration orders `ords` and resulting stacks `mids`:
/// each iteration reorders the current items (a permutation: the
/// multiset is kept), runs one epoch over them at the current rate, and
/// decays the rate on schedule.
pub open spec fn run_hist<A: ActivitionFunc, C: LossFunc>(
    s0: Layers, pool: Seq<Item>, rate: int, bs: int, idx: int, left: int,
    ords: Seq<Seq<Item>>, mids: Seq<Layers>, s1: Layers) -> bool
    decreases left,
{
    if left <= 0 {
        s1 == s0 && ords.len() == 0 && mids.len() == 0
    } else {
        &&& ords.len() >= 1
        &&& mids.len() >= 1
        &&& ords[0].to_multiset() == pool.to_multiset()
        &&& epoch_rel::<A, C>(s0, ords[0], rate, bs, mids[0])
        &&& run_hist::<A, C>(mids[0], ords[0], next_rate(rate, idx + 1), bs, idx + 1,
            left - 1, ords.drop_first(), mids.drop_first(), s1)
    }
}

/// A full training run of `left` iterations starting after iteration
/// `idx`: per iteration a permutation of the items, one epoch at the
/// current rate, and the scheduled rate decay.
pub open spec fn run_rel<A: ActivitionFunc, C: LossFunc>(
    s0: Layers, pool: Seq<Item>, rate: int, bs: int, idx: int, left: int, s1: Layers) -> bool {
    exists|ords: Seq<Seq<Item>>, mids: Seq<Layers>|
        #[trigger] run_hist::<A, C>(s0, pool, rate, bs, idx, left, ords, mids, s1)
}

proof fn lemma_epoch_rel_empty<A: ActivitionFunc, C: LossFunc>(
    s: Layers, items: Seq<Item>, rate: int, bs: int)
    requires
        bs >= 1,
        items.len() == 0,
    ensures
        epoch_rel::<A, C>(s, items, rate, bs, s),
{
    assert(epoch_hist::<A, C>(s, items, rate, bs, Seq::<Layers>::empty(), s));
}

proof fn lemma_run_rel_refl<A: ActivitionFunc, C: LossFunc>(
    s: Layers, pool: Seq<Item>, rate: int, bs: int, idx: int)
    ensures
        run_rel::<A, C>(s, pool, rate, bs, idx, 0, s),
{
    assert(run_hist::<A, C>(s, pool, rate, bs, idx, 0,
        Seq::<Seq<Item>>::empty(), Seq::<Layers>::empty(), s));
}

proof fn lemma_epoch_extend<A: ActivitionFunc, C: LossFunc>(
    l0: Layers, pre: Layers, cur: Layers, items: Seq<Item>, pos: int, end: int,
    rate: int, bs: int)
    requires
        bs >= 1,
        0 <= pos < end <= items.len(),
        end == if items.len() - pos < bs { items.len() as int } else { pos + bs },
        chunk_rel::<A, C>(pre, items.subrange(pos, end), rate, cur),
        forall|fin: Layers| epoch_rel::<A, C>(pre, items.skip(pos), rate, bs, fin)
            ==> epoch_rel::<A, C>(l0, items, rate, bs, fin),
    ensures
        forall|fin: Layers| epoch_rel::<A, C>(cur, items.skip(end), rate, bs, fin)
            ==> epoch_rel::<A, C>(l0, items, rate, bs, fin),
{
    assert forall|fin: Layers| epoch_rel::<A, C>(cur, items.skip(end), rate, bs, fin)
        implies epoch_rel::<A, C>(l0, items, rate, bs, fin) by {
        let items_p = items.skip(pos);
        let c: int = if items_p.len() < bs { items_p.len() as int } else { bs };
        assert(c == end - pos);
        assert(items_p.take(c) =~= items.subrange(pos, end));
        assert(items_p.skip(c) =~= items.skip(end));
        let rest = choose|m: Seq<Layers>|
            #[trigger] epoch_hist::<A, C>(cur, items.skip(end), rate, bs, m, fin);
        let mids = seq![cur] + rest;
        assert(mids.drop_first() =~= rest);
        assert(epoch_hist::<A, C>(pre, items_p, rate, bs, mids, fin));
        assert(epoch_rel::<A, C>(pre, items_p, rate, bs, fin));
    }
}

proof fn lemma_run_extend<A: ActivitionFunc, C: LossFunc>(
    orig: Layers, odata: Seq<Item>, r0: int, bs: int,
    l0: Layers, d0: Seq<Item>, rb: int, it: int, total: int,
    ord: Seq<Item>, cur: Layers, nrate: int)
    requires
        0 <= it < total,
        ord.to_multiset() == d0.to_multiset(),
        epoch_rel::<A, C>(l0, ord, rb, bs, cur),
        nrate == next_rate(rb, it + 1),
        forall|fin: Layers| run_rel::<A, C>(l0, d0, rb, bs, it, total - it, fin)
            ==> run_rel::<A, C>(orig, odata, r0, bs, 0, total, fin),
    ensures
        forall|fin: Layers| run_rel::<A, C>(cur, ord, nrate, bs, it + 1, total - it - 1, fin)
            ==> run_rel::<A, C>(orig, odata, r0, bs, 0, total, fin),
{
    assert forall|fin: Layers| run_rel::<A, C>(cur, ord, nrate, bs, it + 1, total - it - 1, fin)
        implies run_rel::<A, C>(orig, odata, r0, bs, 0, total, fin) by {
        let (ords_r, mids_r) = choose|o: Seq<Seq<Item>>, m: Seq<Layers>|
            #[trigger] run_hist::<A, C>(cur, ord, nrate, bs, it + 1, total - it - 1, o, m, fin);
        let ords = seq![ord] + ords_r;
        let mids = seq![cur] + mids_r;
        assert(ords.drop_first() =~= ords_r);
        assert(mids.drop_first() =~= mids_r);
        assert(run_hist::<A, C>(l0, d0, rb, bs, it, total - it, ords, mids, fin));
        assert(run_rel::<A, C>(l0, d0, rb, bs, it, total - it, fin));
    }
}

/// The trainer: owns the stack and the items for the length of the run.
pub struct Trainer<A, C> {
    pub data: Vec<Item>,
    pub layers: Layers,
    pub config: Config<A, C>,
}

impl<A: ActivitionFunc, C: LossFunc> Trainer<A, C> {
    /// A trainer over the given stack, items and configuration.
    pub fn new(layers: Layers, items: Vec<Item>, config: Config<A, C>) -> (t: Trainer<A, C>)
        requires
            layers.wf(),
            config.batch_size >= 1,
            items_ok(items@, layers),
        ensures
            t.layers == layers,
            t.data == items,
            t.config == config,
    {
        Trainer { data: items, layers, config }
    }

    /// Run the training loop with the silent observer.
    pub fn build(self) -> (m: Model)
        requires
            self.layers.wf(),
            self.config.batch_size >= 1,
            items_ok(self.data@, self.layers),
        ensures
            m.layers.wf(),
            same_shape(m.layers, self.layers),
            self.config.iter_num == 0 ==> m.layers == self.layers,
            run_rel::<A, C>(self.layers, self.data@, self.config.learn_rate as int,
                self.config.batch_size as int, 0, self.config.iter_num as int, m.layers),
    {
        let mut obs = NoObserver;
        self.build_with(&mut obs)
    }

    /// Run the training loop: per iteration, shuffle the items, cut them
    /// into contiguous chunks of `batch_size` (the last may be shorter),
    /// collect one gradient per item of a chunk via forward + backward,
    /// apply a single averaged update per chunk, and halve the learning
    /// rate every ten thousand iterations. Finally the stack moves into
    /// the returned immutable model; the trainer is consumed. The whole
    /// run satisfies `run_rel`: every iteration permuted the items,
    /// processed them chunk by chunk with the backward pass's gradients,
    /// and decayed the rate on schedule.
    pub fn build_with<Ob: TrainObserver<A, C>>(self, obs: &mut Ob) -> (m: Model)
        requires
            self.layers.wf(),
            self.config.batch_size >= 1,
            items_ok(self.data@, self.layers),
        ensures
            m.layers.wf(),
            same_shape(m.layers, self.layers),
            self.config.iter_num == 0 ==> m.layers == self.layers,
            run_rel::<A, C>(self.layers, self.data@, self.config.learn_rate as int,
                self.config.batch_size as int, 0, self.config.iter_num as int, m.layers),
    {
        let ghost orig = self.layers;
        let ghost odata = self.data@;
        let ghost r0 = self.config.learn_rate;
        let mut layers = self.layers;
        let mut data = self.data;
        let mut cfg = self.config;
        let mut rate = cfg.learn_rate;
        let bs = cfg.batch_size;
        let iter_num = cfg.iter_num;
        let mut it: usize = 0;
        while it < iter_num
            invariant
                orig.wf(),
                bs >= 1,
                layers.wf(),
                same_shape(layers, orig),
                layers.in_dim() == orig.in_dim(),
                layers.out_dim() == orig.out_dim(),
                items_ok(data@, orig),
                0 <= it <= iter_num,
                it == 0 ==> layers == orig,
                forall|fin: Layers|
                    run_rel::<A, C>(layers, data@, rate as int, bs as int,
                        it as int, iter_num - it, fin)
                    ==> run_rel::<A, C>(orig, odata, r0 as int, bs as int,
                        0, iter_num as int, fin),
            decreases iter_num - it,
        {
            let ghost l0 = layers;
            let ghost d0 = data@;
            let ghost rb = rate;
            proof {
                assert(forall|fin: Layers|
                    run_rel::<A, C>(l0, d0, rb as int, bs as int, it as int, iter_num - it, fin)
                    ==> run_rel::<A, C>(orig, odata, r0 as int, bs as int,
                        0, iter_num as int, fin));
            }
            shuffle_items(&mut data);
            proof {
                assert forall|k: int| 0 <= k < data@.len()
                    implies (#[trigger] data@[k]).data@.len() == orig.in_dim()
                        && data@[k].label@.len() == orig.out_dim() by {
                    assert(drawn_from(d0, data@[k]));
                    let j = choose|j: int| 0 <= j < d0.len() && data@[k] == d0[j];
                    assert(d0[j].data@.len() == orig.in_dim());
                }
                assert(items_ok(data@, orig));
                assert(data@.skip(0) =~= data@);
            }
            let mut pos: usize = 0;
            while pos < data.len()
                invariant
                    orig.wf(),
                    bs >= 1,
                    layers.wf(),
                    same_shape(layers, orig),
                    layers.in_dim() == orig.in_dim(),
                    layers.out_dim() == orig.out_dim(),
                    items_ok(data@, orig),
                    0 <= pos <= data@.len(),
                    forall|fin: Layers|
                        epoch_rel::<A, C>(layers, data@.skip(pos as int), rate as int,
                            bs as int, fin)
                        ==> epoch_rel::<A, C>(l0, data@, rate as int, bs as int, fin),
                decreases data@.len() - pos,
            {
                let ghost pre = layers;
                proof {
                    assert(forall|fin: Layers|
                        epoch_rel::<A, C>(pre, data@.skip(pos as int), rate as int,
                            bs as int, fin)
                        ==> epoch_rel::<A, C>(l0, data@, rate as int, bs as int, fin));
                }
                let end = if data.len() - pos < bs { data.len() } else { pos + bs };
                let mut grads: Vec<Layers> = Vec::new();
                let mut outputs: Vec<Vec<i64>> = Vec::new();
                let mut k = pos;
                while k < end
                    invariant
                        orig.wf(),
                        layers.wf(),
                        same_shape(layers, orig),
                        layers.in_dim() == orig.in_dim(),
                        layers.out_dim() == orig.out_dim(),
                        items_ok(data@, orig),
                        pos <= k <= end,
                        end <= data@.len(),
                        pos < end,
                        forall|t: int| 0 <= t < grads@.len()
                            ==> (#[trigger] grads@[t]).wf() && same_shape(grads@[t], layers),
                        grads@.len() == k - pos,
                        forall|t: int| 0 <= t < grads@.len()
                            ==> is_gradient_of::<A, C>(layers, data@[pos + t], #[trigger] grads@[t]),
                    decreases end - k,
                {
                    let calc = layers.forward::<A>(&data[k].data);
                    let out = vec_copy(calc.out());
                    let gout = C::d(&data[k].label, &out);
                    obs.on_item(&layers, &cfg, &data[k], &out);
                    proof {
                        let x = sv(data@[k as int].data@);
                        assert(calc_av(calc) =~= trace_av::<A>(layers.layers@, x));
                        assert(sv(out@) == spec_infer::<A>(layers.layers@, x));
                        assert(sv(gout@) == C::spec_d(sv(data@[k as int].label@),
                            spec_infer::<A>(layers.layers@, x)));
                    }
                    let g = layers.backward::<A>(&data[k].data, gout, calc);
                    proof {
                        assert(is_gradient_of::<A, C>(layers, data@[k as int], g));
                    }
                    outputs.push(out);
                    grads.push(g);
                    k = k + 1;
                }
                layers.update(rate, &grads);
                proof {
                    crate::model::lemma_same_shape_trans(layers, pre, orig);
                    crate::model::lemma_stack_dims(layers, orig);
                    let chunk = data@.subrange(pos as int, end as int);
                    assert forall|kk: int| 0 <= kk < chunk.len()
                        implies is_gradient_of::<A, C>(pre, chunk[kk], #[trigger] grads@[kk]) by {
                        assert(chunk[kk] == data@[pos + kk]);
                    }
                    assert(chunk_upd::<A, C>(pre, chunk, rate as int, grads@, layers));
                    assert(chunk_rel::<A, C>(pre, chunk, rate as int, layers));
                    lemma_epoch_extend::<A, C>(l0, pre, layers, data@, pos as int, end as int,
                        rate as int, bs as int);
                }
                obs.on_chunk(&layers, &cfg, &outputs);
                pos = end;
            }
            proof {
                assert(data@.skip(data@.len() as int).len() == 0);
                lemma_epoch_rel_empty::<A, C>(layers, data@.skip(data@.len() as int),
                    rate as int, bs as int);
                assert(epoch_rel::<A, C>(l0, data@, rate as int, bs as int, layers));
            }
            obs.on_iter(it + 1, &layers, &cfg);
            if (it + 1) % 10000 == 0 {
                rate = fx_divn(rate, 2);
                cfg.learn_rate = rate;
            }
            proof {
                assert(rate as int == next_rate(rb as int, it as int + 1));
                assert(data@.to_multiset() == d0.to_multiset());
                lemma_run_extend::<A, C>(orig, odata, r0 as int, bs as int,
                    l0, d0, rb as int, it as int, iter_num as int, data@, layers, rate as int);
            }
            it = it + 1;
        }
        proof {
            lemma_run_rel_refl::<A, C>(layers, data@, rate as int, bs as int, it as int);
            assert(run_rel::<A, C>(orig, odata, r0 as int, bs as int,
                0, iter_num as int, layers));
        }
        Model::new(layers)
    }
}

/// A read-only borrowed view of a stack mid-training, exposing inference
/// only; handed to observers that want to probe the network.
pub struct TempModel<'a> {
    pub layers: &'a Layers,
}

impl<'a> TempModel<'a> {
    /// Borrow a stack as a read-only model.
    pub fn new(layers: &'a Layers) -> (m: TempModel<'a>)
        ensures m.layers == layers,
    {
        TempModel { layers }
    }

    /// Inference through the non-recording path.
    pub fn test<A: ActivitionFunc>(&self, item: &Vec<i64>) -> (r: Vec<i64>)
        requires
            self.layers.wf(),
            item@.len() == self.layers.in_dim(),
        ensures
            r@.len() == self.layers.out_dim(),
            sv(r@) == spec_infer::<A>(self.layers.layers@, sv(item@)),
    {
        self.layers.test::<A>(item)
    }
}

} // verus!
