use nn::fixed::{fx_add, fx_sub, fx_mul, fx_div, fx_divn, fx_neg, fx_exp, fx_log2, RAW_MAX, SCALE};
use nn::func::{softmax, softmax_with, fv, d_from_yv, ActivitionFunc, LossFunc, SoftMax, Sigmoid, Tanh, CrossEntroy, DistanceFunc};

fn to_raw(x: f64) -> i64 {
    (x * SCALE as f64).round() as i64
}

fn to_f(r: i64) -> f64 {
    r as f64 / SCALE as f64
}

#[test]
fn add_sub_exact() {
    assert_eq!(fx_add(to_raw(1.5), to_raw(2.25)), to_raw(3.75));
    assert_eq!(fx_sub(to_raw(1.0), to_raw(2.5)), to_raw(-1.5));
    assert_eq!(fx_neg(to_raw(0.125)), to_raw(-0.125));
}

#[test]
fn add_saturates() {
    assert_eq!(fx_add(RAW_MAX, RAW_MAX), RAW_MAX);
    assert_eq!(fx_sub(-RAW_MAX, RAW_MAX), -RAW_MAX);
    assert_eq!(fx_neg(i64::MIN), RAW_MAX);
}

#[test]
fn mul_exact_and_signed() {
    assert_eq!(fx_mul(to_raw(1.5), to_raw(2.0)), to_raw(3.0));
    assert_eq!(fx_mul(to_raw(-0.5), to_raw(0.5)), to_raw(-0.25));
    assert_eq!(fx_mul(to_raw(-4.0), to_raw(-0.25)), to_raw(1.0));
    assert_eq!(fx_mul(0, to_raw(7.0)), 0);
}

#[test]
fn div_exact_and_zero() {
    assert_eq!(fx_div(to_raw(3.0), to_raw(2.0)), to_raw(1.5));
    assert_eq!(fx_div(to_raw(-1.0), to_raw(4.0)), to_raw(-0.25));
    assert_eq!(fx_div(to_raw(1.0), 0), RAW_MAX);
    assert_eq!(fx_div(to_raw(-1.0), 0), -RAW_MAX);
    assert_eq!(fx_div(0, 0), 0);
}

#[test]
fn divn_truncates_toward_zero() {
    assert_eq!(fx_divn(7, 2), 3);
    assert_eq!(fx_divn(-7, 2), -3);
    assert_eq!(fx_divn(to_raw(1.0), 4), to_raw(0.25));
}

#[test]
fn exp_accuracy() {
    let e = to_f(fx_exp(to_raw(1.0)));
    assert!((e - std::f64::consts::E).abs() < 1e-8, "exp(1) = {}", e);
    assert_eq!(fx_exp(0), SCALE);
    let em2 = to_f(fx_exp(to_raw(-2.0)));
    assert!((em2 - (-2.0f64).exp()).abs() < 1e-8, "exp(-2) = {}", em2);
    let e5 = to_f(fx_exp(to_raw(5.0)));
    assert!((e5 - 5.0f64.exp()).abs() / 5.0f64.exp() < 1e-8, "exp(5) = {}", e5);
}

#[test]
fn exp_saturates_and_underflows() {
    assert_eq!(fx_exp(to_raw(50.0)), RAW_MAX);
    assert_eq!(fx_exp(to_raw(-40.0)), 0);
    assert!(fx_exp(-RAW_MAX) >= 0);
}

#[test]
fn log2_accuracy() {
    assert!((to_f(fx_log2(to_raw(8.0))) - 3.0).abs() < 1e-8);
    assert!((to_f(fx_log2(to_raw(0.5))) + 1.0).abs() < 1e-8);
    assert_eq!(fx_log2(SCALE), 0);
    let l = to_f(fx_log2(to_raw(0.66524096)));
    assert!((l - 0.66524096f64.log2()).abs() < 1e-8, "log2 = {}", l);
    assert_eq!(fx_log2(0), -RAW_MAX);
    assert_eq!(fx_log2(-5), -RAW_MAX);
}

#[test]
fn sigmoid_values() {
    assert!((to_f(<Sigmoid as ActivitionFunc>::f(0)) - 0.5).abs() < 1e-9);
    let s2 = to_f(<Sigmoid as ActivitionFunc>::f(to_raw(2.0)));
    assert!((s2 - 1.0 / (1.0 + (-2.0f64).exp())).abs() < 1e-8, "sigmoid(2) = {}", s2);
    let d = to_f(<Sigmoid as ActivitionFunc>::d_from_y(to_raw(0.25)));
    assert!((d - 0.25 * 0.75).abs() < 1e-9);
}

#[test]
fn tanh_values() {
    assert_eq!(<Tanh as ActivitionFunc>::f(0), 0);
    let t1 = to_f(<Tanh as ActivitionFunc>::f(to_raw(1.0)));
    assert!((t1 - 1.0f64.tanh()).abs() < 1e-8, "tanh(1) = {}", t1);
    let tm1 = to_f(<Tanh as ActivitionFunc>::f(to_raw(-1.0)));
    assert!((tm1 + 1.0f64.tanh()).abs() < 1e-8);
    let d = to_f(<Tanh as ActivitionFunc>::d_from_y(to_raw(0.5)));
    assert!((d - 0.75).abs() < 1e-9);
}

#[test]
fn softmax_known_values() {
    let x = vec![to_raw(1.0), to_raw(2.0), to_raw(3.0)];
    let p = softmax(&x);
    let expect = [0.09003057317038046, 0.24472847105479767, 0.6652409557748219];
    for i in 0..3 {
        assert!((to_f(p[i]) - expect[i]).abs() < 1e-7, "p[{}] = {}", i, to_f(p[i]));
    }
}

#[test]
fn softmax_nonneg_and_sums_to_one() {
    // the softmax law on a concrete vector: entries in [0, 1], sum within
    // 1e-9 of one
    let x = vec![to_raw(-1.5), to_raw(0.25), to_raw(2.0), to_raw(-3.0), to_raw(0.0)];
    let p = softmax(&x);
    let mut sum = 0.0;
    for &pi in p.iter() {
        assert!(pi >= 0);
        assert!(pi <= SCALE);
        sum += to_f(pi);
    }
    assert!((sum - 1.0).abs() < 1e-9, "sum = {}", sum);
}

#[test]
fn softmax_in_place_matches() {
    let x = vec![to_raw(0.5), to_raw(-0.75), to_raw(1.25)];
    let p = softmax(&x);
    let mut y = x.clone();
    softmax_with(&mut y);
    assert_eq!(p, y);
    let mut z = x.clone();
    z.softmax();
    assert_eq!(p, z);
}

#[test]
fn cross_entropy_cost_and_gradient() {
    let y = vec![to_raw(1.0), to_raw(2.0), to_raw(3.0)];
    let label = vec![0, 0, to_raw(1.0)];
    let cost = to_f(<CrossEntroy as LossFunc>::f(&label, &y));
    let expect = -(0.6652409557748219f64).log2();
    assert!((cost - expect).abs() < 1e-7, "cost = {} expect = {}", cost, expect);
    let g = <CrossEntroy as LossFunc>::d(&label, &y);
    let p = softmax(&y);
    assert_eq!(g[0], p[0]);
    assert_eq!(g[1], p[1]);
    assert_eq!(g[2], fx_sub(p[2], to_raw(1.0)));
}

#[test]
fn distance_cost_and_gradient() {
    let y = vec![to_raw(0.5), to_raw(-1.0)];
    let label = vec![to_raw(0.25), to_raw(0.5)];
    let cost = to_f(<DistanceFunc as LossFunc>::f(&label, &y));
    let expect = (0.25f64 * 0.25 + 1.5 * 1.5) / 2.0;
    assert!((cost - expect).abs() < 1e-9, "cost = {}", cost);
    let g = <DistanceFunc as LossFunc>::d(&label, &y);
    assert_eq!(g[0], to_raw(0.25));
    assert_eq!(g[1], to_raw(-1.5));
}

#[test]
fn vector_activation_helpers() {
    let v = vec![to_raw(-1.0), 0, to_raw(2.0)];
    let a = fv::<Tanh>(&v);
    for i in 0..3 {
        assert_eq!(a[i], <Tanh as ActivitionFunc>::f(v[i]));
    }
    let d = d_from_yv::<Sigmoid>(&a);
    for i in 0..3 {
        assert_eq!(d[i], <Sigmoid as ActivitionFunc>::d_from_y(a[i]));
    }
}
