//! A small feedforward-neural-network library over saturating fixed-point
//! scalars: chained dense layers, pluggable activation and loss
//! strategies, and a minibatch gradient-descent trainer. Every operation
//! is specified exactly over a mathematical integer model.

use vstd::prelude::*;

pub mod fixed;
pub mod func;
pub mod linalg;
pub mod model;
pub mod rng;
pub mod train;

use crate::func::{ActivitionFunc, LossFunc, Sigmoid, CrossEntroy};
use crate::model::Layers;
use crate::train::{Trainer, items_ok};

verus! {

/// The default learning rate, `0.005` in raw form.
pub const DEFAULT_LEARN_RATE: i64 = 5497558139;

/// The default minibatch size.
pub const DEFAULT_BATCH_SIZE: usize = 100;

/// The default iteration count.
pub const DEFAULT_ITER_NUM: usize = 10000;

/// One training example: an input vector of the network's input size and
/// a label vector of its output size, in raw fixed-point form.
pub struct Item {
    pub data: Vec<i64>,
    pub label: Vec<i64>,
}

/// The hyperparameter bundle: learning rate (raw fixed-point), batch
/// size, iteration count, and the two strategy instances.
pub struct Config<A, C> {
    pub learn_rate: i64,
    pub batch_size: usize,
    pub iter_num: usize,
    pub actvt_func: A,
    pub loss_func: C,
}

impl<A: ActivitionFunc, C: LossFunc> Config<A, C> {
    /// The default hyperparameters around the given strategies: learning
    /// rate 0.005, batch size 100, 10000 iterations.
    pub fn default_with_func(actvt_func: A, cost_func: C) -> (r: Config<A, C>)
        ensures
            r.learn_rate == DEFAULT_LEARN_RATE,
            r.batch_size == DEFAULT_BATCH_SIZE,
            r.iter_num == DEFAULT_ITER_NUM,
            r.actvt_func == actvt_func,
            r.loss_func == cost_func,
    {
        Config {
            learn_rate: DEFAULT_LEARN_RATE,
            batch_size: DEFAULT_BATCH_SIZE,
            iter_num: DEFAULT_ITER_NUM,
            actvt_func,
            loss_func: cost_func,
        }
    }
}

/// An untrained network: a layer stack paired with its configuration,
/// ready to be handed to the trainer.
pub struct Network<A, C> {
    pub layers: Layers,
    pub config: Config<A, C>,
}

impl<A: ActivitionFunc, C: LossFunc> Network<A, C> {
    /// Pair a stack with an explicit configuration.
    pub fn cfg(layers: Layers, config: Config<A, C>) -> (r: Network<A, C>)
        ensures
            r.layers == layers,
            r.config == config,
    {
        Network { layers, config }
    }

    /// Attach the training items and obtain the trainer; the network's
    /// stack moves into it.
    pub fn train(self, data: Vec<Item>) -> (t: Trainer<A, C>)
        requires
            self.layers.wf(),
            self.config.batch_size >= 1,
            items_ok(data@, self.layers),
        ensures
            t.layers == self.layers,
            t.config == self.config,
            t.data == data,
    {
        Trainer::new(self.layers, data, self.config)
    }
}

impl Network<Sigmoid, CrossEntroy> {
    /// A network with the default configuration: sigmoid activation and
    /// softmax cross-entropy loss.
    pub fn new(layers: Layers) -> (r: Network<Sigmoid, CrossEntroy>)
        ensures
            r.layers == layers,
            r.config.learn_rate == DEFAULT_LEARN_RATE,
            r.config.batch_size == DEFAULT_BATCH_SIZE,
            r.config.iter_num == DEFAULT_ITER_NUM,
    {
        Network::cfg(layers, Config::default_with_func(Sigmoid, CrossEntroy))
    }
}

} // verus!
