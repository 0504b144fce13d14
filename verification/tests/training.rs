use nn::{Config, Item, Network, DEFAULT_BATCH_SIZE, DEFAULT_ITER_NUM, DEFAULT_LEARN_RATE};
use nn::fixed::SCALE;
use nn::func::{Sigmoid, Tanh, CrossEntroy, DistanceFunc};
use nn::model::{Layer, Layers};
use nn::train::{Trainer, TrainObserver, TempModel};
use nn::rng::{rand_unit, rand_index};

fn to_raw(x: f64) -> i64 {
    (x * SCALE as f64).round() as i64
}

fn to_f(r: i64) -> f64 {
    r as f64 / SCALE as f64
}

fn raw_vec(v: &[f64]) -> Vec<i64> {
    v.iter().map(|&x| to_raw(x)).collect()
}

fn raw_mat(m: &[&[f64]]) -> Vec<Vec<i64>> {
    m.iter().map(|r| raw_vec(r)).collect()
}

fn xor_items() -> Vec<Item> {
    vec![
        Item { data: raw_vec(&[0.0, 0.0]), label: raw_vec(&[0.0]) },
        Item { data: raw_vec(&[0.0, 1.0]), label: raw_vec(&[1.0]) },
        Item { data: raw_vec(&[1.0, 0.0]), label: raw_vec(&[1.0]) },
        Item { data: raw_vec(&[1.0, 1.0]), label: raw_vec(&[0.0]) },
    ]
}

/// A fixed, asymmetric [2, 3, 1] initialization.
fn xor_stack() -> Layers {
    let l1 = Layer {
        w: raw_mat(&[&[0.8444, 0.758], &[0.4206, 0.2589], &[0.5113, 0.4049]]),
        b: raw_vec(&[0.7838, 0.3033, 0.4766]),
    };
    let l2 = Layer {
        w: raw_mat(&[&[0.5834, 0.9081, 0.5047]]),
        b: raw_vec(&[0.2818]),
    };
    Layers::from_layers(vec![l1, l2]).unwrap()
}

#[test]
fn config_defaults() {
    let c = Config::default_with_func(Sigmoid, CrossEntroy);
    assert_eq!(c.learn_rate, DEFAULT_LEARN_RATE);
    assert!((to_f(c.learn_rate) - 0.005).abs() < 1e-9);
    assert_eq!(c.batch_size, DEFAULT_BATCH_SIZE);
    assert_eq!(c.batch_size, 100);
    assert_eq!(c.iter_num, DEFAULT_ITER_NUM);
    assert_eq!(c.iter_num, 10000);
}

#[test]
fn network_default_uses_sigmoid_cross_entropy() {
    let n = Network::new(Layers::zero(&vec![2, 2]).unwrap());
    assert_eq!(n.config.learn_rate, DEFAULT_LEARN_RATE);
    assert_eq!(n.config.batch_size, 100);
    assert_eq!(n.config.iter_num, 10000);
}

#[test]
fn zero_iterations_leave_parameters_unchanged() {
    let stack = xor_stack();
    let snapshot: Vec<(Vec<Vec<i64>>, Vec<i64>)> =
        stack.layers.iter().map(|l| (l.w.clone(), l.b.clone())).collect();
    let mut config = Config::default_with_func(Tanh, DistanceFunc);
    config.iter_num = 0;
    let trainer = Trainer::new(stack, xor_items(), config);
    let model = trainer.build();
    for (l, (w, b)) in model.layers.layers.iter().zip(snapshot.iter()) {
        assert_eq!(&l.w, w);
        assert_eq!(&l.b, b);
    }
}

#[test]
fn xor_training_converges() {
    // the end-to-end scenario: [2, 3, 1], squared-distance loss, 5000
    // iterations, batch size 4, learning rate 0.1; the average squared
    // error over the four points must fall below 0.05
    let mut config = Config::default_with_func(Tanh, DistanceFunc);
    config.learn_rate = to_raw(0.1);
    config.batch_size = 4;
    config.iter_num = 5000;
    let net = Network::cfg(xor_stack(), config);
    let model = net.train(xor_items()).build();
    let mut err = 0.0;
    for item in xor_items() {
        let y = model.test::<Tanh>(&item.data);
        let d = to_f(y[0]) - to_f(item.label[0]);
        err += d * d;
    }
    err /= 4.0;
    assert!(err < 0.05, "average squared error = {}", err);
}

struct Counting {
    items: usize,
    chunks: usize,
    iters: usize,
    last_iter: usize,
}

impl TrainObserver<Sigmoid, DistanceFunc> for Counting {
    fn on_item(&mut self, _layers: &Layers, _config: &Config<Sigmoid, DistanceFunc>,
        _item: &Item, _output: &Vec<i64>) {
        self.items += 1;
    }

    fn on_chunk(&mut self, _layers: &Layers, _config: &Config<Sigmoid, DistanceFunc>,
        outputs: &Vec<Vec<i64>>) {
        assert!(outputs.len() >= 1);
        self.chunks += 1;
    }

    fn on_iter(&mut self, iter: usize, _layers: &Layers, _config: &Config<Sigmoid, DistanceFunc>) {
        self.iters += 1;
        self.last_iter = iter;
    }
}

#[test]
fn observer_hooks_fire_per_item_chunk_and_iteration() {
    // 4 items, batch size 3: two chunks per iteration (3 + 1), 5
    // iterations
    let mut config = Config::default_with_func(Sigmoid, DistanceFunc);
    config.batch_size = 3;
    config.iter_num = 5;
    let trainer = Trainer::new(xor_stack(), xor_items(), config);
    let mut obs = Counting { items: 0, chunks: 0, iters: 0, last_iter: 0 };
    let _ = trainer.build_with(&mut obs);
    assert_eq!(obs.items, 20);
    assert_eq!(obs.chunks, 10);
    assert_eq!(obs.iters, 5);
    assert_eq!(obs.last_iter, 5);
}

#[test]
fn training_shrinks_xor_error() {
    // a short run already improves on the starting parameters
    let start = xor_stack();
    let mut config = Config::default_with_func(Tanh, DistanceFunc);
    config.learn_rate = to_raw(0.1);
    config.batch_size = 4;
    config.iter_num = 500;
    let model = Trainer::new(xor_stack(), xor_items(), config).build();
    let err_of = |l: &Layers| -> f64 {
        let mut e = 0.0;
        for item in xor_items() {
            let y = l.test::<Tanh>(&item.data);
            let d = to_f(y[0]) - to_f(item.label[0]);
            e += d * d;
        }
        e / 4.0
    };
    assert!(err_of(&model.layers) < err_of(&start));
}

#[test]
fn temp_model_matches_stack_inference() {
    let stack = xor_stack();
    let x = raw_vec(&[1.0, 0.0]);
    let direct = stack.test::<Tanh>(&x);
    let tm = TempModel::new(&stack);
    assert_eq!(tm.test::<Tanh>(&x), direct);
}

#[test]
fn random_source_ranges() {
    for _ in 0..200 {
        let u = rand_unit();
        assert!(0 <= u && u < SCALE);
        let i = rand_index(7);
        assert!(i < 7);
    }
    // the random initializer actually varies: two fresh layers agreeing
    // everywhere is (astronomically) unlikely
    let a = Layers::random(&vec![4, 4]).unwrap();
    let b = Layers::random(&vec![4, 4]).unwrap();
    assert_ne!(a.layers[0].w, b.layers[0].w);
}

#[test]
fn shuffle_keeps_the_items() {
    // training touches every item each iteration: with batch size 1 and
    // one iteration, the per-item hook sees each input exactly once
    struct Collect {
        seen: Vec<Vec<i64>>,
    }
    impl TrainObserver<Tanh, DistanceFunc> for Collect {
        fn on_item(&mut self, _layers: &Layers, _config: &Config<Tanh, DistanceFunc>,
            item: &Item, _output: &Vec<i64>) {
            self.seen.push(item.data.clone());
        }
    }
    let mut config = Config::default_with_func(Tanh, DistanceFunc);
    config.batch_size = 1;
    config.iter_num = 1;
    let trainer = Trainer::new(xor_stack(), xor_items(), config);
    let mut obs = Collect { seen: vec![] };
    let _ = trainer.build_with(&mut obs);
    assert_eq!(obs.seen.len(), 4);
    let mut seen = obs.seen.clone();
    seen.sort();
    let mut expect: Vec<Vec<i64>> = xor_items().into_iter().map(|i| i.data).collect();
    expect.sort();
    assert_eq!(seen, expect);
}

#[test]
fn learning_rate_halves_every_ten_thousand_iterations() {
    // the hooks see the configured rate; the decay lands at the end of
    // iteration 10000, so iteration 10001 is the first to see half of it
    struct Rates {
        seen: Vec<(usize, i64)>,
    }
    impl TrainObserver<Tanh, DistanceFunc> for Rates {
        fn on_iter(&mut self, iter: usize, _layers: &Layers, config: &Config<Tanh, DistanceFunc>) {
            if iter == 10000 || iter == 10001 {
                self.seen.push((iter, config.learn_rate));
            }
        }
    }
    let mut config = Config::default_with_func(Tanh, DistanceFunc);
    let r0 = to_raw(0.1);
    config.learn_rate = r0;
    config.batch_size = 4;
    config.iter_num = 10001;
    let stack = Layers::zero(&vec![1, 1]).unwrap();
    let items = vec![Item { data: raw_vec(&[0.5]), label: raw_vec(&[0.25]) }];
    let trainer = Trainer::new(stack, items, config);
    let mut obs = Rates { seen: vec![] };
    let _ = trainer.build_with(&mut obs);
    assert_eq!(obs.seen, vec![(10000, r0), (10001, r0 / 2)]);
}
