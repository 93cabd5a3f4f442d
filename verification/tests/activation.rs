use mediapipe_wasinn_demo::fixed::{Fixed, SCALE};
use mediapipe_wasinn_demo::postprocess::ops::sigmoid::Sigmoid;
use mediapipe_wasinn_demo::postprocess::ops::softmax::Softmax;
use mediapipe_wasinn_demo::postprocess::ops::{activate, ActivationKind};

fn to_f64(bits: i64) -> f64 {
    bits as f64 / 4294967296.0
}

fn from_f64(v: f64) -> Fixed {
    Fixed { bits: (v * 4294967296.0).round() as i64 }
}

#[test]
fn sigmoid_preserves_length() {
    let mut v = vec![Fixed { bits: 0 }; 7];
    v.sigmoid_inplace();
    assert_eq!(v.len(), 7);
    let v2 = v.sigmoid();
    assert_eq!(v2.len(), 7);
}

#[test]
fn sigmoid_of_zero_is_half() {
    let mut v = vec![Fixed { bits: 0 }];
    v.sigmoid_inplace();
    assert_eq!(v[0].bits, SCALE / 2);
}

#[test]
fn sigmoid_matches_reference_values() {
    let inputs = [-6.0, -2.5, -1.0, -0.25, 0.25, 1.0, 2.5, 6.0];
    let mut v: Vec<Fixed> = inputs.iter().map(|&x| from_f64(x)).collect();
    v.sigmoid_inplace();
    for (i, &x) in inputs.iter().enumerate() {
        let expect = 1.0 / (1.0 + (-x as f64).exp());
        let got = to_f64(v[i].bits);
        assert!((got - expect).abs() < 1e-6, "sigmoid({}) = {} != {}", x, got, expect);
        assert!(got >= 0.0 && got <= 1.0);
    }
}

#[test]
fn sigmoid_saturates_extremes() {
    let mut v = vec![from_f64(50.0), from_f64(-50.0)];
    v.sigmoid_inplace();
    assert!(to_f64(v[0].bits) > 0.999999);
    assert!(to_f64(v[1].bits) < 1e-6);
}

#[test]
fn softmax_preserves_length_and_sums_to_one() {
    let mut v: Vec<Fixed> = [0.5, -1.25, 3.0, 0.0, 2.2]
        .iter()
        .map(|&x| from_f64(x))
        .collect();
    v.softmax_inplace();
    assert_eq!(v.len(), 5);
    let total: f64 = v.iter().map(|f| to_f64(f.bits)).sum();
    assert!((total - 1.0).abs() < 1e-5, "softmax sum {}", total);
}

#[test]
fn softmax_of_uniform_input_is_uniform() {
    let mut v = vec![Fixed { bits: 0 }; 4];
    v.softmax_inplace();
    for f in &v {
        assert!((to_f64(f.bits) - 0.25).abs() < 1e-6);
    }
    let w = vec![from_f64(1.0); 2].softmax();
    assert!((to_f64(w[0].bits) - 0.5).abs() < 1e-6);
}

#[test]
fn softmax_favors_larger_logits() {
    let mut v: Vec<Fixed> = [1.0f64, 2.0, 3.0].iter().map(|&x| from_f64(x)).collect();
    v.softmax_inplace();
    let e1 = 1.0f64.exp();
    let e2 = 2.0f64.exp();
    let e3 = 3.0f64.exp();
    let total = e1 + e2 + e3;
    assert!((to_f64(v[0].bits) - e1 / total).abs() < 1e-6);
    assert!((to_f64(v[1].bits) - e2 / total).abs() < 1e-6);
    assert!((to_f64(v[2].bits) - e3 / total).abs() < 1e-6);
}

#[test]
fn activate_dispatches_by_kind() {
    let mut v = vec![Fixed { bits: 0 }, Fixed { bits: 0 }];
    activate(ActivationKind::Sigmoid, &mut v);
    assert_eq!(v[0].bits, SCALE / 2);
    let mut w = vec![Fixed { bits: 0 }, Fixed { bits: 0 }];
    activate(ActivationKind::Softmax, &mut w);
    assert!((to_f64(w[0].bits) - 0.5).abs() < 1e-6);
}

#[test]
fn fixed_exp_and_sqrt_reference_values() {
    assert_eq!(Fixed { bits: 0 }.exp().bits, SCALE);
    let e = Fixed { bits: SCALE }.exp();
    assert!((to_f64(e.bits) - 1.0f64.exp()).abs() < 1e-6);
    let s = Fixed { bits: 4 * SCALE }.sqrt();
    assert_eq!(s.bits, 2 * SCALE);
    let r = Fixed { bits: 2 * SCALE }.sqrt();
    assert!((to_f64(r.bits) - 2.0f64.sqrt()).abs() < 1e-6);
}

#[test]
fn fixed_constructors() {
    assert_eq!(Fixed::zero().bits, 0);
    assert_eq!(Fixed::one().bits, SCALE);
    assert_eq!(Fixed::from_int(-3).bits, -3 * SCALE);
    assert_eq!(Fixed::from_int(2).sqrt().bits, Fixed { bits: 2 * SCALE }.sqrt().bits);
}

#[test]
fn fixed_arithmetic_saturates() {
    let max = Fixed { bits: i64::MAX };
    assert_eq!(max.add(Fixed { bits: 1 }).bits, i64::MAX);
    let min = Fixed { bits: i64::MIN };
    assert_eq!(min.sub(Fixed { bits: 1 }).bits, i64::MIN);
    // 2.0 * 3.0 == 6.0 exactly.
    let p = Fixed { bits: 2 * SCALE }.mul(Fixed { bits: 3 * SCALE });
    assert_eq!(p.bits, 6 * SCALE);
    // 1.0 / 4.0 == 0.25 exactly; division by zero yields zero.
    let q = Fixed { bits: SCALE }.div(Fixed { bits: 4 * SCALE });
    assert_eq!(q.bits, SCALE / 4);
    assert_eq!(Fixed { bits: SCALE }.div(Fixed { bits: 0 }).bits, 0);
}
