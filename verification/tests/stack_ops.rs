use nn::fixed::SCALE;
use nn::func::{ActivitionFunc, LossFunc, Sigmoid, DistanceFunc};
use nn::model::{Layer, Layers, Model, NetError};

fn to_raw(x: f64) -> i64 {
    (x * SCALE as f64).round() as i64
}

fn to_f(r: i64) -> f64 {
    r as f64 / SCALE as f64
}

fn raw_vec(v: &[f64]) -> Vec<i64> {
    v.iter().map(|&x| to_raw(x)).collect()
}

fn raw_mat(m: &[&[f64]]) -> Vec<Vec<i64>> {
    m.iter().map(|r| raw_vec(r)).collect()
}

/// The [2, 3, 2] stack used by several tests.
fn small_stack() -> Layers {
    let l1 = Layer {
        w: raw_mat(&[&[0.15, -0.2], &[0.4, 0.35], &[-0.3, 0.25]]),
        b: raw_vec(&[0.1, -0.1, 0.05]),
    };
    let l2 = Layer {
        w: raw_mat(&[&[0.2, -0.45, 0.3], &[-0.25, 0.15, 0.4]]),
        b: raw_vec(&[0.05, -0.05]),
    };
    Layers::from_layers(vec![l1, l2]).unwrap()
}

#[test]
fn chain_invariant_accepts_matching_sizes() {
    let l1 = Layer::new(3, 2);
    let l2 = Layer::new(2, 3);
    assert!(Layers::from_layers(vec![l1, l2]).is_ok());
}

#[test]
fn chain_invariant_rejects_mismatch() {
    // the internal layer expects 4 inputs but the previous layer yields 3
    let l1 = Layer::new(3, 2);
    let bad = Layer::new(2, 4);
    assert!(matches!(Layers::from_layers(vec![l1, bad]), Err(NetError::DimMismatch)));
}

#[test]
fn chain_invariant_rejects_empty_and_ragged() {
    assert!(matches!(Layers::from_layers(vec![]), Err(NetError::EmptyStack)));
    let ragged = Layer {
        w: vec![vec![0, 0], vec![0]],
        b: vec![0, 0],
    };
    assert!(matches!(Layers::from_layers(vec![ragged]), Err(NetError::DimMismatch)));
}

#[test]
fn zero_constructor_validates_sizes() {
    let ok = Layers::zero(&vec![2, 3, 2]).unwrap();
    assert_eq!(ok.layers.len(), 2);
    assert_eq!(ok.layers[0].w.len(), 3);
    assert_eq!(ok.layers[0].w[0].len(), 2);
    assert_eq!(ok.layers[1].w.len(), 2);
    assert_eq!(ok.layers[1].w[0].len(), 3);
    assert!(ok.layers.iter().all(|l| l.w.iter().all(|r| r.iter().all(|&v| v == 0))));
    assert!(matches!(Layers::zero(&vec![5]), Err(NetError::EmptyStack)));
    assert!(matches!(Layers::zero(&vec![2, 0, 2]), Err(NetError::DimMismatch)));
}

#[test]
fn random_constructor_draws_unit_range() {
    let l = Layers::random(&vec![3, 4, 2]).unwrap();
    for layer in l.layers.iter() {
        for row in layer.w.iter() {
            for &v in row.iter() {
                assert!(0 <= v && v < SCALE);
            }
        }
        for &v in layer.b.iter() {
            assert!(0 <= v && v < SCALE);
        }
    }
    assert!(matches!(Layers::random(&vec![3]), Err(NetError::EmptyStack)));
    assert!(matches!(Layers::random(&vec![0, 1]), Err(NetError::DimMismatch)));
}

#[test]
fn inference_is_deterministic() {
    // bit-identical outputs for repeated calls on fixed parameters
    let l = Layers::random(&vec![3, 4, 2]).unwrap();
    let x = raw_vec(&[0.3, -0.9, 0.45]);
    let r1 = l.test::<Sigmoid>(&x);
    let r2 = l.test::<Sigmoid>(&x);
    assert_eq!(r1, r2);
    let m = Model::new(l);
    let r3 = m.test::<Sigmoid>(&x);
    let r4 = m.test::<Sigmoid>(&x);
    assert_eq!(r3, r4);
    assert_eq!(r1, r3);
}

#[test]
fn forward_trace_matches_inference() {
    let l = small_stack();
    let x = raw_vec(&[0.6, -0.35]);
    let calc = l.forward::<Sigmoid>(&x);
    assert_eq!(calc.z.len(), 2);
    assert_eq!(calc.a.len(), 2);
    let out = l.test::<Sigmoid>(&x);
    assert_eq!(calc.out(), &out);
}

#[test]
fn forward_first_layer_values() {
    // z1 = w * x + b for the first layer, then the sigmoid
    let l = small_stack();
    let x = raw_vec(&[0.6, -0.35]);
    let calc = l.forward::<Sigmoid>(&x);
    let z00: f64 = 0.15 * 0.6 + (-0.2) * (-0.35) + 0.1;
    assert!((to_f(calc.z[0][0]) - z00).abs() < 1e-9);
    let a00 = 1.0 / (1.0 + (-z00).exp());
    assert!((to_f(calc.a[0][0]) - a00).abs() < 1e-8);
}

#[test]
fn update_averages_and_subtracts() {
    // one gradient, learning rate 0.5: each parameter moves by
    // -0.5 * gradient, exactly
    let mut l = Layers::zero(&vec![2, 2]).unwrap();
    let g = Layers {
        layers: vec![Layer {
            w: raw_mat(&[&[0.5, -0.75], &[1.25, 0.0]]),
            b: raw_vec(&[0.25, -0.5]),
        }],
    };
    l.update(to_raw(0.5), &vec![g]);
    assert_eq!(l.layers[0].w[0][0], to_raw(-0.25));
    assert_eq!(l.layers[0].w[0][1], to_raw(0.375));
    assert_eq!(l.layers[0].w[1][0], to_raw(-0.625));
    assert_eq!(l.layers[0].w[1][1], 0);
    assert_eq!(l.layers[0].b[0], to_raw(-0.125));
    assert_eq!(l.layers[0].b[1], to_raw(0.25));
}

fn gradient_stack() -> Layers {
    Layers {
        layers: vec![
            Layer {
                w: raw_mat(&[&[0.03, -0.11], &[0.27, 0.05], &[-0.19, 0.08]]),
                b: raw_vec(&[0.02, -0.04, 0.06]),
            },
            Layer {
                w: raw_mat(&[&[0.12, -0.07, 0.3], &[-0.21, 0.17, 0.01]]),
                b: raw_vec(&[0.09, -0.13]),
            },
        ],
    }
}

#[test]
fn update_replication_invariance() {
    // update(rate, [g, g, g]) and update(rate, [g]) yield identical
    // parameters
    let mut l1 = small_stack();
    let mut l3 = small_stack();
    l1.update(to_raw(0.25), &vec![gradient_stack()]);
    l3.update(to_raw(0.25), &vec![gradient_stack(), gradient_stack(), gradient_stack()]);
    for (a, b) in l1.layers.iter().zip(l3.layers.iter()) {
        assert_eq!(a.w, b.w);
        assert_eq!(a.b, b.b);
    }
}

#[test]
fn backward_gradient_matches_finite_difference() {
    // central difference with step 1e-5 against the analytic backward
    // pass, within 1e-4 relative error
    let l = small_stack();
    let x = raw_vec(&[0.6, -0.35]);
    let label = raw_vec(&[0.3, 0.8]);
    let calc = l.forward::<Sigmoid>(&x);
    let out = calc.out().clone();
    let gout = <DistanceFunc as LossFunc>::d(&label, &out);
    let g = l.backward::<Sigmoid>(&x, gout, calc);

    let h = to_raw(1e-5);
    let cost = |stack: &Layers| -> f64 {
        let y = stack.test::<Sigmoid>(&x);
        to_f(<DistanceFunc as LossFunc>::f(&label, &y))
    };
    let mut checked = 0;
    for li in 0..2 {
        for i in 0..l.layers[li].w.len() {
            for j in 0..l.layers[li].w[i].len() {
                let mut up = small_stack();
                up.layers[li].w[i][j] += h;
                let mut dn = small_stack();
                dn.layers[li].w[i][j] -= h;
                let numeric = (cost(&up) - cost(&dn)) / (2.0 * 1e-5);
                let analytic = to_f(g.layers[li].w[i][j]);
                if numeric.abs() > 1e-3 {
                    let rel = (analytic - numeric).abs() / numeric.abs();
                    assert!(rel < 1e-4, "w[{}][{}][{}]: {} vs {}", li, i, j, analytic, numeric);
                    checked += 1;
                }
            }
        }
        for i in 0..l.layers[li].b.len() {
            let mut up = small_stack();
            up.layers[li].b[i] += h;
            let mut dn = small_stack();
            dn.layers[li].b[i] -= h;
            let numeric = (cost(&up) - cost(&dn)) / (2.0 * 1e-5);
            let analytic = to_f(g.layers[li].b[i]);
            if numeric.abs() > 1e-3 {
                let rel = (analytic - numeric).abs() / numeric.abs();
                assert!(rel < 1e-4, "b[{}][{}]: {} vs {}", li, i, analytic, numeric);
                checked += 1;
            }
        }
    }
    assert!(checked >= 8, "only {} parameters had usable gradients", checked);
}

#[test]
fn layer_calc_is_affine() {
    let l = Layer {
        w: raw_mat(&[&[1.0, 2.0], &[-0.5, 0.25]]),
        b: raw_vec(&[0.5, -1.0]),
    };
    let r = l.calc(&raw_vec(&[2.0, -1.0]));
    assert_eq!(r[0], to_raw(1.0 * 2.0 + 2.0 * -1.0 + 0.5));
    assert_eq!(r[1], to_raw(-0.5 * 2.0 + 0.25 * -1.0 - 1.0));
}
