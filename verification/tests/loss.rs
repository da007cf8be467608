//! The loss on hardware floating point.

use orda::api::{forward_loss_f64, loss_only_f64, teacher_logits, validate, LossError};
use orda::arith::Arith;
use orda::config::{Backend, ConfigError, KernelConfig, Profile};
use orda::launch::kl_ce_on_logits_chunk;
use orda::mat::{add_assign, matmul_nn, matmul_nt, matmul_tn, scale_assign};
use orda::quant::{
    dequantize_grad_w, quantize_grad_w, quantize_rowwise_int8, quantize_rowwise_int8_stochastic,
    round_half_even, Rng,
};
use orda::reference::cross_entropy::{ce_fwdbwd_row, ce_loss_row};
use orda::reference::kl::{forward_kl_row, kl_chunk, kl_reference_chunk, softmax_logsoftmax};
use orda::{distillation_loss, is_available, ChunkPlan, ChunkSize, Reduction, TeacherMode};

type Mat = orda::Mat<f32>;
type Teacher = orda::Teacher<Ieee>;
type LossOptions = orda::LossOptions<Ieee>;

/// Hardware floating point.
#[derive(Clone, Copy, Debug)]
struct Ieee;

impl Arith for Ieee {
    type F = f32;
    type D = f64;
    fn fint(n: i128) -> f32 {
        n as f32
    }
    fn fsmall() -> f32 {
        1e-12
    }
    fn fadd(a: f32, b: f32) -> f32 {
        a + b
    }
    fn fsub(a: f32, b: f32) -> f32 {
        a - b
    }
    fn fmul(a: f32, b: f32) -> f32 {
        a * b
    }
    fn fdiv(a: f32, b: f32) -> f32 {
        a / b
    }
    fn fmax(a: f32, b: f32) -> f32 {
        a.max(b)
    }
    fn fabs(a: f32) -> f32 {
        a.abs()
    }
    fn ffloor(a: f32) -> f32 {
        a.floor()
    }
    fn flowest() -> f32 {
        -1.0e30
    }
    fn fexp(a: f32) -> f32 {
        a.exp()
    }
    fn fln(a: f32) -> f32 {
        a.ln()
    }
    fn flt(a: f32, b: f32) -> bool {
        a < b
    }
    fn fle(a: f32, b: f32) -> bool {
        a <= b
    }
    fn feq(a: f32, b: f32) -> bool {
        a == b
    }
    fn fto_i64(a: f32) -> i64 {
        a as i64
    }
    fn fto_i8(a: f32) -> i8 {
        a as i8
    }
    fn widen(a: f32) -> f64 {
        a as f64
    }
    fn narrow(a: f64) -> f32 {
        a as f32
    }
    fn dint(n: i128) -> f64 {
        n as f64
    }
    fn dlowest() -> f64 {
        f64::NEG_INFINITY
    }
    fn dadd(a: f64, b: f64) -> f64 {
        a + b
    }
    fn dsub(a: f64, b: f64) -> f64 {
        a - b
    }
    fn dmul(a: f64, b: f64) -> f64 {
        a * b
    }
    fn ddiv(a: f64, b: f64) -> f64 {
        a / b
    }
    fn dmax(a: f64, b: f64) -> f64 {
        a.max(b)
    }
    fn dexp(a: f64) -> f64 {
        a.exp()
    }
    fn dln(a: f64) -> f64 {
        a.ln()
    }
    fn dlt(a: f64, b: f64) -> bool {
        a < b
    }
    fn deq(a: f64, b: f64) -> bool {
        a == b
    }
}

#[test]
fn matmul_nt_basic() {
    // a = [[1,2,3]], b = [[1,0,0],[0,1,1]] -> a times the transpose of b = [[1, 5]]
    let a = Mat::from_vec(1, 3, vec![1.0, 2.0, 3.0]);
    let b = Mat::from_vec(2, 3, vec![1.0, 0.0, 0.0, 0.0, 1.0, 1.0]);
    let c = matmul_nt::<Ieee>(&a, &b);
    assert_eq!(c.shape(), (1, 2));
    assert_eq!(c.data, vec![1.0, 5.0]);
}

#[test]
fn matmul_nn_and_tn_consistent() {
    // (transpose of a, times b) should equal building it the obvious way.
    let a = Mat::from_vec(2, 2, vec![1.0, 2.0, 3.0, 4.0]); // [2,2]
    let b = Mat::from_vec(2, 3, vec![1.0, 0.0, 1.0, 0.0, 1.0, 0.0]); // [2,3]
    let c = matmul_tn::<Ieee>(&a, &b); // the transpose of a times b, shape [2,3]
    assert_eq!(c.shape(), (2, 3));
    // row 0 = column 0 of a times b = [1,3] times [[1,0,1],[0,1,0]] = [1,3,1]
    assert_eq!(c.row(0), &[1.0, 3.0, 1.0]);
    // row 1 = column 1 of a times b = [2,4] times [[1,0,1],[0,1,0]] = [2,4,2]
    assert_eq!(c.row(1), &[2.0, 4.0, 2.0]);

    let d = matmul_nn::<Ieee>(&a, &b); // [2,3]
    assert_eq!(d.row(0), &[1.0, 2.0, 1.0]);
    assert_eq!(d.row(1), &[3.0, 4.0, 3.0]);
}

#[test]
fn round_half_even_cases() {
    assert_eq!(round_half_even::<Ieee>(0.5), 0.0);
    assert_eq!(round_half_even::<Ieee>(1.5), 2.0);
    assert_eq!(round_half_even::<Ieee>(2.5), 2.0);
    assert_eq!(round_half_even::<Ieee>(-1.5), -2.0);
    assert_eq!(round_half_even::<Ieee>(2.4), 2.0);
    assert_eq!(round_half_even::<Ieee>(2.6), 3.0);
}

#[test]
fn deterministic_roundtrip_bounded_error() {
    // Quantization error per element <= 0.5 * scale.
    let m = Mat::from_vec(2, 4, vec![1.0, -2.0, 0.5, 3.0, -0.1, 0.2, -0.3, 0.05]);
    let q = quantize_rowwise_int8::<Ieee>(&m);
    let deq = q.dequantize::<Ieee>();
    for r in 0..m.rows {
        let s = q.scale[r];
        for c in 0..m.cols {
            let err = (m.get(r, c) - deq.get(r, c)).abs();
            assert!(err <= 0.5 * s + 1e-6, "err {err} > 0.5*scale {s}");
        }
    }
}

#[test]
fn stochastic_is_unbiased() {
    // Averaging many stochastic quantizations should approach the true value.
    let m = Mat::from_vec(1, 3, vec![0.37, -1.23, 2.71]);
    let mut acc = vec![0.0f64; 3];
    let n = 20_000;
    let mut rng = Rng::new(12345);
    for _ in 0..n {
        let q = quantize_rowwise_int8_stochastic::<Ieee>(&m, &mut rng);
        let deq = q.dequantize::<Ieee>();
        for c in 0..3 {
            acc[c] += deq.get(0, c) as f64;
        }
    }
    for c in 0..3 {
        let mean = (acc[c] / n as f64) as f32;
        assert!(
            (mean - m.get(0, c)).abs() < 1e-2,
            "col {c}: {mean} vs {}",
            m.get(0, c)
        );
    }
}

#[test]
fn grad_w_target_rows_are_exact() {
    let grad_w = Mat::from_vec(
        4,
        2,
        vec![10.0, -10.0, 0.123, 0.456, -7.0, 7.0, 0.01, -0.02],
    );
    let target = vec![0i64, 2, -100];
    let gq = quantize_grad_w::<Ieee>(&grad_w, &target, -100, None);
    assert_eq!(gq.unique_targets, vec![0, 2]);
    let deq = dequantize_grad_w::<Ieee>(&gq, 1.0);
    // Target rows (0 and 2) reconstructed exactly.
    assert_eq!(deq.row(0), grad_w.row(0));
    assert_eq!(deq.row(2), grad_w.row(2));
    // Non-target rows are approximate but close.
    for c in 0..2 {
        assert!((deq.get(1, c) - grad_w.get(1, c)).abs() < 0.02);
    }
}

fn softmax(x: &[f32]) -> Vec<f64> {
    let m = x.iter().cloned().fold(f32::NEG_INFINITY, f32::max) as f64;
    let d: f64 = x.iter().map(|&xi| (xi as f64 - m).exp()).sum();
    x.iter().map(|&xi| (xi as f64 - m).exp() / d).collect()
}

#[test]
fn nll_equals_negative_log_softmax_of_target() {
    let x = [1.0f32, 2.0, 0.5, -1.0];
    let y = 1i64;
    let nll = ce_loss_row::<Ieee>(&x, y, -100, 0.0);
    let p = softmax(&x);
    let expected = -p[y as usize].ln();
    assert!((nll as f64 - expected).abs() < 1e-6, "{nll} vs {expected}");
}

#[test]
fn grad_is_softmax_minus_onehot() {
    let x = [0.3f32, -0.7, 1.1, 0.0];
    let y = 2i64;
    let (_nll, grad) = ce_fwdbwd_row::<Ieee>(&x, y, -100, 0.0, 1.0);
    let p = softmax(&x);
    for j in 0..x.len() {
        let mut expected = p[j];
        if j == y as usize {
            expected -= 1.0;
        }
        assert!(
            (grad[j] as f64 - expected).abs() < 1e-6,
            "j={j}: {} vs {expected}",
            grad[j]
        );
    }
    // Gradient sums to ~0 (probabilities sum to 1, minus the single onehot).
    let s: f64 = grad.iter().map(|&g| g as f64).sum();
    assert!(s.abs() < 1e-5, "grad sum {s}");
}

#[test]
fn ignored_row_is_zero() {
    let x = [3.0f32, 1.0, -2.0];
    let (nll, grad) = ce_fwdbwd_row::<Ieee>(&x, -100, -100, 0.0, 1.0);
    assert_eq!(nll, 0.0);
    assert!(grad.iter().all(|&g| g == 0.0));
}

#[test]
fn scale_scales_gradient() {
    let x = [0.5f32, -0.5, 1.0];
    let (_n1, g1) = ce_fwdbwd_row::<Ieee>(&x, 0, -100, 0.0, 1.0);
    let (_n2, g2) = ce_fwdbwd_row::<Ieee>(&x, 0, -100, 0.0, 2.5);
    for j in 0..x.len() {
        assert!((g2[j] - 2.5 * g1[j]).abs() < 1e-6);
    }
}

#[test]
fn label_smoothing_grad_sums_to_zero() {
    let x = [0.2f32, 1.3, -0.4, 0.9, 0.0];
    let (_nll, grad) = ce_fwdbwd_row::<Ieee>(&x, 3, -100, 0.1, 1.0);
    // (sum of p - V*eps) - (1-alpha) = 1 - alpha - (1-alpha) = 0.
    let s: f64 = grad.iter().map(|&g| g as f64).sum();
    assert!(s.abs() < 1e-5, "smoothed grad sum {s}");
}

#[test]
fn identical_distributions_have_zero_kl() {
    let row = vec![0.3, 1.2, -0.7, 2.1, 0.0];
    let kl = forward_kl_row::<Ieee>(&row, &row, 1.5);
    assert!(kl.abs() < 1e-12, "KL(p||p) should be 0, got {kl}");
}

#[test]
fn kl_is_nonnegative() {
    let s = vec![0.1, 0.2, 0.3, -1.0, 2.0];
    let t = vec![1.0, -0.5, 0.0, 0.7, 0.2];
    for &temp in &[0.5, 1.0, 1.5, 4.0] {
        let kl = forward_kl_row::<Ieee>(&s, &t, temp);
        assert!(kl >= -1e-12, "KL must be >= 0, got {kl} at T={temp}");
    }
}

#[test]
fn kl_matches_closed_form_two_class() {
    // For 2 logits, softmax(x/T) reduces to a sigmoid; check against a direct
    // probability-space KL computation.
    let temperature = 2.0f64;
    let inv_t = 1.0 / temperature;
    let s = [0.7f32, -0.4];
    let t = [-0.2f32, 1.1];
    let sig = |a: f32, b: f32| {
        let za = a as f64 * inv_t;
        let zb = b as f64 * inv_t;
        let m = za.max(zb);
        let d = (za - m).exp() + (zb - m).exp();
        ((za - m).exp() / d, (zb - m).exp() / d)
    };
    let (ps0, ps1) = sig(s[0], s[1]);
    let (pt0, pt1) = sig(t[0], t[1]);
    let expected = pt0 * (pt0.ln() - ps0.ln()) + pt1 * (pt1.ln() - ps1.ln());
    let got = forward_kl_row::<Ieee>(&s, &t, temperature);
    assert!((got - expected).abs() < 1e-12, "{got} vs {expected}");
}

#[test]
fn ignored_rows_contribute_zero() {
    // A chunk with one student/teacher pair, target ignored -> kl 0, grad 0.
    let logits = Mat::from_vec(2, 3, vec![1.0, 2.0, 3.0, 0.5, -0.5, 0.0]);
    let (kl, grad) = kl_reference_chunk::<Ieee>(&logits, &[-100], 1, 0.4, 1.5, 1, -100, true);
    assert_eq!(kl, 0.0);
    let grad = grad.unwrap();
    assert!(grad.data.iter().all(|&g| g == 0.0));
}

#[test]
fn grad_matches_temperature_scaling() {
    // grad_scale = kl_weight * T / denom; grad = grad_scale*(p_s - p_t).
    let logits = Mat::from_vec(2, 3, vec![0.2, 0.5, -0.1, 1.0, -1.0, 0.3]);
    let (kw, temp) = (0.4f32, 1.5f32);
    let (_kl, grad) = kl_reference_chunk::<Ieee>(&logits, &[1], 1, kw, temp, 1, -100, true);
    let grad = grad.unwrap();
    let inv_t = 1.0 / temp as f64;
    let (ps, _) = softmax_logsoftmax::<Ieee>(logits.row(0), inv_t);
    let (pt, _) = softmax_logsoftmax::<Ieee>(logits.row(1), inv_t);
    let gs = kw * temp / 1.0;
    for j in 0..3 {
        let expected = gs * (ps[j] - pt[j]) as f32;
        assert!((grad.get(0, j) - expected).abs() < 1e-6);
    }
}

#[test]
fn default_weights() {
    let t = Teacher::Tied {
        hidden: Mat::zeros::<Ieee>(2, 3),
    };
    assert_eq!(t.mode(), TeacherMode::Tied);
    assert_eq!(t.default_teacher_ce_weight(), 1.0);

    let s = Teacher::Separate {
        hidden: Mat::zeros::<Ieee>(2, 3),
        weight: Mat::zeros::<Ieee>(5, 3),
    };
    assert_eq!(s.mode(), TeacherMode::Separate);
    assert_eq!(s.default_teacher_ce_weight(), 0.0);

    let p = Teacher::Precomputed {
        logits: Mat::zeros::<Ieee>(2, 5),
    };
    assert_eq!(p.mode(), TeacherMode::Precomputed);
    assert_eq!(p.default_teacher_ce_weight(), 0.0);
}

/// Deterministic pseudo-random fill in `[-scale, scale)` (LCG, no deps).
fn fill(n: usize, seed: u64, scale: f32) -> Vec<f32> {
    let mut s = seed
        .wrapping_mul(2862933555777941757)
        .wrapping_add(3037000493);
    (0..n)
        .map(|_| {
            s = s
                .wrapping_mul(6364136223846793005)
                .wrapping_add(1442695040888963407);
            let u = ((s >> 33) as f32) / ((1u64 << 31) as f32);
            (u * 2.0 - 1.0) * scale
        })
        .collect()
}

fn labels(bt: usize, v: usize, ignore_every: Option<usize>, ignore_index: i64) -> Vec<i64> {
    (0..bt)
        .map(|i| match ignore_every {
            Some(k) if i % k == 0 => ignore_index,
            _ => (i * 7 + 3) as i64 % v as i64,
        })
        .collect()
}

/// Generic gradient check: perturb every element of `param` and compare a central
/// finite difference of `loss_at` against the analytic `analytic` gradient.
///
/// The relative-error guard is only enforced on gradient elements with meaningful
/// magnitude (`> 1e-3`); tiny elements are covered by the absolute tolerance.
fn check_grad<Build>(
    param: &Mat,
    analytic: &Mat,
    eps: f64,
    atol: f64,
    rtol: f64,
    mut loss_at: Build,
) where
    Build: FnMut(&Mat) -> f64,
{
    assert_eq!(param.shape(), analytic.shape(), "grad shape mismatch");
    let mut work = param.clone();
    let mut max_rel = 0.0f64;
    for idx in 0..param.data.len() {
        let base = param.data[idx];
        work.data[idx] = base + eps as f32;
        let lp = loss_at(&work);
        work.data[idx] = base - eps as f32;
        let lm = loss_at(&work);
        work.data[idx] = base; // restore
        let num = (lp - lm) / (2.0 * eps);
        let ana = analytic.data[idx] as f64;

        assert!(
            (ana - num).abs() <= atol + rtol * ana.abs().max(num.abs()),
            "grad mismatch at {idx}: analytic={ana:.6e} numeric={num:.6e}"
        );
        if ana.abs().max(num.abs()) > 1e-3 {
            max_rel = max_rel.max((ana - num).abs() / ana.abs().max(num.abs()));
        }
    }
    assert!(
        max_rel < 0.05,
        "max relative grad error too high: {max_rel}"
    );
}

fn base_opts() -> LossOptions {
    LossOptions {
        student_ce_weight: 1.0,
        kd_weight: 0.5,
        temperature: 1.5,
        ..Default::default()
    }
}

#[test]
fn tied_teacher_gradients_match_finite_difference() {
    let (bt, h, v) = (6usize, 5usize, 7usize);
    let student = Mat::from_vec(bt, h, fill(bt * h, 1, 0.3));
    let weight = Mat::from_vec(v, h, fill(v * h, 2, 0.2));
    let t_hidden = Mat::from_vec(bt, h, fill(bt * h, 3, 0.3));
    let labs = labels(bt, v, Some(4), -100);
    let teacher = Teacher::Tied {
        hidden: t_hidden.clone(),
    };
    let opts = LossOptions {
        teacher_ce_weight: Some(1.0),
        label_smoothing: 0.1,
        ..base_opts()
    };

    let out = distillation_loss(&student, &weight, &labs, &teacher, &opts).unwrap();

    // The KL is teacher-detached: gradients correspond to the loss with the KL
    // teacher distribution held fixed. Compute it at the base parameters.
    let kt = teacher_logits(&teacher, &weight);

    // d/d student_hidden
    check_grad(&student, &out.grad_student_hidden, 1e-3, 1e-3, 1e-2, |s| {
        forward_loss_f64(s, &weight, &labs, &teacher, &opts, Some(&kt)).unwrap()
    });
    // d/d weight (KL teacher detached; teacher CE still flows through W)
    check_grad(&weight, &out.grad_weight, 1e-3, 1e-3, 1e-2, |w| {
        forward_loss_f64(&student, w, &labs, &teacher, &opts, Some(&kt)).unwrap()
    });
    // d/d teacher_hidden (tied: teacher CE active, KL detached)
    let gth = out
        .grad_teacher_hidden
        .as_ref()
        .expect("tied + teacher CE => teacher grad");
    check_grad(&t_hidden, gth, 1e-3, 1e-3, 1e-2, |th| {
        let teach = Teacher::Tied { hidden: th.clone() };
        forward_loss_f64(&student, &weight, &labs, &teach, &opts, Some(&kt)).unwrap()
    });
}

#[test]
fn separate_teacher_gradients_match_finite_difference() {
    let (bt, h, ht, v) = (6usize, 5usize, 4usize, 7usize);
    let student = Mat::from_vec(bt, h, fill(bt * h, 11, 0.3));
    let weight = Mat::from_vec(v, h, fill(v * h, 12, 0.2));
    let t_hidden = Mat::from_vec(bt, ht, fill(bt * ht, 13, 0.3));
    let t_weight = Mat::from_vec(v, ht, fill(v * ht, 14, 0.2));
    let labs = labels(bt, v, None, -100);
    let opts = LossOptions {
        teacher_ce_weight: Some(0.7),
        ..base_opts()
    };

    let teacher = Teacher::Separate {
        hidden: t_hidden.clone(),
        weight: t_weight.clone(),
    };
    let out = distillation_loss(&student, &weight, &labs, &teacher, &opts).unwrap();
    let kt = teacher_logits(&teacher, &weight); // detached KL teacher, at base params

    check_grad(&student, &out.grad_student_hidden, 1e-3, 1e-3, 1e-2, |s| {
        forward_loss_f64(s, &weight, &labs, &teacher, &opts, Some(&kt)).unwrap()
    });
    check_grad(&weight, &out.grad_weight, 1e-3, 1e-3, 1e-2, |w| {
        forward_loss_f64(&student, w, &labs, &teacher, &opts, Some(&kt)).unwrap()
    });
    let gth = out
        .grad_teacher_hidden
        .as_ref()
        .expect("teacher hidden grad");
    check_grad(&t_hidden, gth, 1e-3, 1e-3, 1e-2, |th| {
        let teach = Teacher::Separate {
            hidden: th.clone(),
            weight: t_weight.clone(),
        };
        forward_loss_f64(&student, &weight, &labs, &teach, &opts, Some(&kt)).unwrap()
    });
    let gtw = out
        .grad_teacher_weight
        .as_ref()
        .expect("teacher weight grad");
    check_grad(&t_weight, gtw, 1e-3, 1e-3, 1e-2, |tw| {
        let teach = Teacher::Separate {
            hidden: t_hidden.clone(),
            weight: tw.clone(),
        };
        forward_loss_f64(&student, &weight, &labs, &teach, &opts, Some(&kt)).unwrap()
    });
}

#[test]
fn precomputed_teacher_gradients_match_finite_difference() {
    let (bt, h, v) = (6usize, 5usize, 7usize);
    let student = Mat::from_vec(bt, h, fill(bt * h, 21, 0.3));
    let weight = Mat::from_vec(v, h, fill(v * h, 22, 0.2));
    let t_logits = Mat::from_vec(bt, v, fill(bt * v, 23, 0.5));
    let labs = labels(bt, v, Some(5), -100);
    let opts = base_opts();

    let teacher = Teacher::Precomputed {
        logits: t_logits.clone(),
    };
    let out = distillation_loss(&student, &weight, &labs, &teacher, &opts).unwrap();

    // Only student-side gradients exist (teacher logits are constants).
    assert!(out.grad_teacher_hidden.is_none());
    assert!(out.grad_teacher_weight.is_none());

    check_grad(&student, &out.grad_student_hidden, 1e-3, 1e-3, 1e-2, |s| {
        loss_only_f64(s, &weight, &labs, &teacher, &opts).unwrap()
    });
    check_grad(&weight, &out.grad_weight, 1e-3, 1e-3, 1e-2, |w| {
        loss_only_f64(&student, w, &labs, &teacher, &opts).unwrap()
    });
}

#[test]
fn pure_student_ce_no_teacher_term() {
    // kd=0, teacher CE weight 0 -> pure student CE; teacher unused.
    let (bt, h, v) = (8usize, 4usize, 6usize);
    let student = Mat::from_vec(bt, h, fill(bt * h, 31, 0.3));
    let weight = Mat::from_vec(v, h, fill(v * h, 32, 0.2));
    let labs = labels(bt, v, None, -100);
    let teacher = Teacher::Tied {
        hidden: Mat::zeros::<Ieee>(bt, h),
    };
    let opts = LossOptions {
        kd_weight: 0.0,
        teacher_ce_weight: Some(0.0),
        ..Default::default()
    };

    let out = distillation_loss(&student, &weight, &labs, &teacher, &opts).unwrap();
    assert_eq!(out.teacher_ce, 0.0);
    assert_eq!(out.kl, 0.0);
    check_grad(&student, &out.grad_student_hidden, 1e-3, 1e-3, 1e-2, |s| {
        loss_only_f64(s, &weight, &labs, &teacher, &opts).unwrap()
    });
}

#[test]
fn chunking_is_exact_invariant() {
    // The deferred-mean design makes the result independent of chunk size.
    let (bt, h, v) = (16usize, 5usize, 9usize);
    let student = Mat::from_vec(bt, h, fill(bt * h, 41, 0.3));
    let weight = Mat::from_vec(v, h, fill(v * h, 42, 0.2));
    let t_hidden = Mat::from_vec(bt, h, fill(bt * h, 43, 0.3));
    let labs = labels(bt, v, Some(3), -100);
    let teacher = Teacher::Tied { hidden: t_hidden };

    let mk = |cs: ChunkSize| {
        let opts = LossOptions {
            chunk_size: cs,
            teacher_ce_weight: Some(1.0),
            ..base_opts()
        };
        distillation_loss(&student, &weight, &labs, &teacher, &opts).unwrap()
    };
    let full = mk(ChunkSize::Fixed(bt));
    let by1 = mk(ChunkSize::Fixed(1));
    let by3 = mk(ChunkSize::Fixed(3));
    let auto = mk(ChunkSize::Auto);

    for other in [&by1, &by3, &auto] {
        assert!(
            (full.loss - other.loss).abs() < 1e-5,
            "loss differs across chunking"
        );
        for (a, b) in full
            .grad_weight
            .data
            .iter()
            .zip(other.grad_weight.data.iter())
        {
            assert!((a - b).abs() < 1e-5, "grad_weight differs across chunking");
        }
        for (a, b) in full
            .grad_student_hidden
            .data
            .iter()
            .zip(other.grad_student_hidden.data.iter())
        {
            assert!(
                (a - b).abs() < 1e-5,
                "grad_student_hidden differs across chunking"
            );
        }
    }
}

#[test]
fn loss_components_and_total_are_consistent() {
    let (bt, h, v) = (10usize, 4usize, 8usize);
    let student = Mat::from_vec(bt, h, fill(bt * h, 51, 0.3));
    let weight = Mat::from_vec(v, h, fill(v * h, 52, 0.2));
    let t_hidden = Mat::from_vec(bt, h, fill(bt * h, 53, 0.3));
    let labs = labels(bt, v, None, -100);
    let teacher = Teacher::Tied { hidden: t_hidden };

    let (w_s, w_t, kd) = (1.0f32, 0.8f32, 0.5f32);
    let opts = LossOptions {
        student_ce_weight: w_s,
        teacher_ce_weight: Some(w_t),
        kd_weight: kd,
        temperature: 2.0,
        ..Default::default()
    };
    let out = distillation_loss(&student, &weight, &labs, &teacher, &opts).unwrap();

    // total == w_s*student_ce + w_t*teacher_ce + kd*kl
    let recon = w_s * out.student_ce + w_t * out.teacher_ce + kd * out.kl;
    let total = out.loss;
    assert!((recon - total).abs() < 1e-4, "{recon} vs {total}");

    // forward-only oracle matches the reported total loss.
    let oracle = loss_only_f64(&student, &weight, &labs, &teacher, &opts).unwrap() as f32;
    assert!(
        (oracle - out.loss).abs() < 1e-3,
        "oracle {oracle} vs loss {}",
        out.loss
    );
}

#[test]
fn sum_reduction_is_mean_times_token_count() {
    let (bt, h, v) = (8usize, 4usize, 6usize);
    let student = Mat::from_vec(bt, h, fill(bt * h, 61, 0.3));
    let weight = Mat::from_vec(v, h, fill(v * h, 62, 0.2));
    let t_hidden = Mat::from_vec(bt, h, fill(bt * h, 63, 0.3));
    let labs = labels(bt, v, Some(4), -100); // some ignored
    let teacher = Teacher::Tied { hidden: t_hidden };
    let n_valid = labs.iter().filter(|&&t| t != -100).count() as f32;

    let mean = distillation_loss(
        &student,
        &weight,
        &labs,
        &teacher,
        &LossOptions {
            reduction: Reduction::Mean,
            teacher_ce_weight: Some(1.0),
            ..base_opts()
        },
    )
    .unwrap();
    let sum = distillation_loss(
        &student,
        &weight,
        &labs,
        &teacher,
        &LossOptions {
            reduction: Reduction::Sum,
            teacher_ce_weight: Some(1.0),
            ..base_opts()
        },
    )
    .unwrap();

    assert!((sum.loss - mean.loss * n_valid).abs() < 1e-3);
    // Mean gradients are the sum gradients divided by the valid-token count.
    for (a, b) in sum
        .grad_weight
        .data
        .iter()
        .zip(mean.grad_weight.data.iter())
    {
        assert!((a - b * n_valid).abs() < 1e-3);
    }
}

#[test]
fn int8_quant_grad_w_is_close_but_lossy() {
    // V must exceed the number of unique targets so some grad_W rows are actually
    // quantized (target rows are kept exact).
    let (bt, h, v) = (8usize, 4usize, 20usize);
    let student = Mat::from_vec(bt, h, fill(bt * h, 71, 0.3));
    let weight = Mat::from_vec(v, h, fill(v * h, 72, 0.2));
    let t_hidden = Mat::from_vec(bt, h, fill(bt * h, 73, 0.3));
    let labs = labels(bt, v, None, -100);
    let teacher = Teacher::Tied { hidden: t_hidden };

    let exact = distillation_loss(
        &student,
        &weight,
        &labs,
        &teacher,
        &LossOptions {
            teacher_ce_weight: Some(1.0),
            ..base_opts()
        },
    )
    .unwrap();

    let mut cfg = KernelConfig::default();
    cfg.quantize_grad_weight = true;
    let quant = distillation_loss(
        &student,
        &weight,
        &labs,
        &teacher,
        &LossOptions {
            config: cfg,
            teacher_ce_weight: Some(1.0),
            ..base_opts()
        },
    )
    .unwrap();

    // Loss is unaffected (only grad_W storage is quantized); grad_W close but not equal.
    assert!((exact.loss - quant.loss).abs() < 1e-6);
    let mut max_abs = 0.0f32;
    for (a, b) in exact
        .grad_weight
        .data
        .iter()
        .zip(quant.grad_weight.data.iter())
    {
        max_abs = max_abs.max((a - b).abs());
    }
    assert!(
        max_abs > 0.0,
        "quantization should change grad_W at least slightly"
    );
    assert!(
        max_abs < 0.05,
        "quantization error unexpectedly large: {max_abs}"
    );
}

/// A small valid problem: three rows, two hidden units, four classes, one row ignored.
fn small() -> (Mat, Mat, Vec<i64>, Teacher, LossOptions) {
    let student = Mat::from_vec(3, 2, vec![0.5, -0.25, 0.1, 0.3, -0.4, 0.2]);
    let weight = Mat::from_vec(4, 2, vec![0.2, 0.1, -0.3, 0.4, 0.05, -0.6, 0.7, 0.0]);
    let teacher = Teacher::Tied {
        hidden: Mat::from_vec(3, 2, vec![0.3, 0.3, -0.2, 0.5, 0.6, -0.1]),
    };
    (student, weight, vec![1, -100, 3], teacher, base_opts())
}

fn error_of(
    student: &Mat,
    weight: &Mat,
    labs: &[i64],
    teacher: &Teacher,
    opts: &LossOptions,
) -> LossError<f32> {
    distillation_loss(student, weight, labs, teacher, opts).err().unwrap()
}

#[test]
fn valid_inputs_report_their_sizes() {
    let (student, weight, labs, teacher, opts) = small();
    let sizes = validate::<Ieee>(&student, &weight, &labs, &teacher, &opts);
    assert_eq!(sizes, Ok((4, 2, 3)));
}

#[test]
fn bad_kernel_options_are_refused() {
    let (student, weight, labs, teacher, mut opts) = small();
    opts.config.max_fused_size = 100;
    let e = error_of(&student, &weight, &labs, &teacher, &opts);
    assert_eq!(e, LossError::Config(ConfigError::MaxFusedSize { got: 100 }));
    opts.config.max_fused_size = 64;
    opts.config.max_chunks = Some(0);
    let e = error_of(&student, &weight, &labs, &teacher, &opts);
    assert_eq!(e, LossError::Config(ConfigError::MaxChunks { got: 0 }));
}

#[test]
fn bad_shapes_are_refused() {
    let (student, weight, labs, teacher, opts) = small();
    let none = Mat::from_vec(0, 2, vec![]);
    assert_eq!(error_of(&none, &weight, &labs, &teacher, &opts), LossError::NoRows);
    let wide = Mat::zeros::<Ieee>(4, 3);
    assert_eq!(
        error_of(&student, &wide, &labs, &teacher, &opts),
        LossError::WeightShape { h: 2, got: (4, 3) }
    );
    assert_eq!(
        error_of(&student, &weight, &[1, 2], &teacher, &opts),
        LossError::LabelCount { bt: 3, got: 2 }
    );
}

#[test]
fn refusals_come_before_anything_is_read() {
    let (mut student, mut weight, labs, teacher, mut opts) = small();
    student.data.pop();
    weight.data.clear();
    opts.temperature = 0.0;
    let e = error_of(&student, &weight, &labs, &teacher, &opts);
    assert_eq!(e, LossError::Temperature { got: 0.0 });
    let e = loss_only_f64(&student, &weight, &labs, &teacher, &opts).err();
    assert_eq!(e, Some(LossError::Temperature { got: 0.0 }));
}

#[test]
fn rows_of_a_matrix_without_columns_are_empty() {
    let mut m = Mat::from_vec(2, 0, vec![]);
    assert!(m.row(1).is_empty() && m.row(7).is_empty());
    assert!(m.row_mut(9).is_empty());
    assert_eq!(m, Mat::from_vec(2, 0, vec![]));
}

#[test]
fn labels_out_of_range_are_refused() {
    let (student, weight, _labs, teacher, opts) = small();
    // The first one that is out of range is named.
    assert_eq!(
        error_of(&student, &weight, &[1, 4, -7], &teacher, &opts),
        LossError::LabelRange { label: 4, v: 4, ignore_index: -100 }
    );
    assert_eq!(
        error_of(&student, &weight, &[1, -1, 2], &teacher, &opts),
        LossError::LabelRange { label: -1, v: 4, ignore_index: -100 }
    );
}

#[test]
fn bad_scalars_are_refused() {
    let (student, weight, labs, teacher, opts) = small();
    for ls in [-0.1f32, 1.5] {
        let o = LossOptions { label_smoothing: ls, ..opts.clone() };
        assert_eq!(
            error_of(&student, &weight, &labs, &teacher, &o),
            LossError::LabelSmoothing { got: ls }
        );
    }
    let o = LossOptions { label_smoothing: f32::NAN, ..opts.clone() };
    assert!(matches!(
        error_of(&student, &weight, &labs, &teacher, &o),
        LossError::LabelSmoothing { .. }
    ));
    let o = LossOptions { kd_weight: -0.5, ..opts.clone() };
    assert_eq!(
        error_of(&student, &weight, &labs, &teacher, &o),
        LossError::KdWeight { got: -0.5 }
    );
    for t in [0.0f32, -2.0] {
        let o = LossOptions { temperature: t, ..opts.clone() };
        assert_eq!(
            error_of(&student, &weight, &labs, &teacher, &o),
            LossError::Temperature { got: t }
        );
    }
    let o = LossOptions { teacher_ce_weight: Some(-1.0), ..opts.clone() };
    assert_eq!(
        error_of(&student, &weight, &labs, &teacher, &o),
        LossError::TeacherWeight { got: -1.0 }
    );
    // The ends of the range of the label smoothing are in it.
    for ls in [0.0f32, 1.0] {
        let o = LossOptions { label_smoothing: ls, ..opts.clone() };
        assert!(distillation_loss(&student, &weight, &labs, &teacher, &o).is_ok());
    }
}

#[test]
fn bad_teachers_are_refused() {
    let (student, weight, labs, _teacher, opts) = small();
    let tied = Teacher::Tied { hidden: Mat::zeros::<Ieee>(3, 5) };
    assert_eq!(
        error_of(&student, &weight, &labs, &tied, &opts),
        LossError::TiedShape { want: (3, 2), got: (3, 5) }
    );
    let short = Teacher::Separate {
        hidden: Mat::zeros::<Ieee>(2, 5),
        weight: Mat::zeros::<Ieee>(4, 5),
    };
    assert_eq!(
        error_of(&student, &weight, &labs, &short, &opts),
        LossError::SeparateRows { bt: 3 }
    );
    let narrow = Teacher::Separate {
        hidden: Mat::zeros::<Ieee>(3, 5),
        weight: Mat::zeros::<Ieee>(4, 6),
    };
    assert_eq!(
        error_of(&student, &weight, &labs, &narrow, &opts),
        LossError::SeparateWeight { want: (4, 5), got: (4, 6) }
    );
    let logits = Teacher::Precomputed { logits: Mat::zeros::<Ieee>(3, 7) };
    assert_eq!(
        error_of(&student, &weight, &labs, &logits, &opts),
        LossError::PrecomputedShape { want: (3, 4), got: (3, 7) }
    );
}

#[test]
fn accelerator_is_refused_and_auto_is_cpu() {
    assert!(!is_available());
    let (student, weight, labs, teacher, opts) = small();
    let cuda = LossOptions { backend: Backend::Cuda, ..opts.clone() };
    assert_eq!(error_of(&student, &weight, &labs, &teacher, &cuda), LossError::NoAccelerator);
    let e = forward_loss_f64(&student, &weight, &labs, &teacher, &cuda, None).err().unwrap();
    assert_eq!(e, LossError::NoAccelerator);
    let e = loss_only_f64(&student, &weight, &[1, 2], &teacher, &opts).err().unwrap();
    assert_eq!(e, LossError::LabelCount { bt: 3, got: 2 });

    let cpu = LossOptions { backend: Backend::Cpu, ..opts.clone() };
    let a = distillation_loss(&student, &weight, &labs, &teacher, &opts).unwrap();
    let b = distillation_loss(&student, &weight, &labs, &teacher, &cpu).unwrap();
    assert_eq!(a.loss, b.loss);
    assert_eq!(a.grad_weight, b.grad_weight);
    assert_eq!(a.chunk_plan, b.chunk_plan);
}

#[test]
fn kernel_switches_change_nothing() {
    let (student, weight, labs, teacher, opts) = small();
    let mut tuned = opts.clone();
    tuned.config = KernelConfig::from_profile(Profile::Fast);
    tuned.config.online_softmax = true;
    tuned.config.fp32_grad_weight_accumulation = true;
    tuned.config.max_fused_size = 2;
    let a = distillation_loss(&student, &weight, &labs, &teacher, &opts).unwrap();
    let b = distillation_loss(&student, &weight, &labs, &teacher, &tuned).unwrap();
    assert_eq!(a.loss, b.loss);
    assert_eq!(a.kl, b.kl);
    assert_eq!(a.grad_student_hidden, b.grad_student_hidden);
    assert_eq!(a.grad_weight, b.grad_weight);
    assert_eq!(a.grad_teacher_hidden, b.grad_teacher_hidden);
}

#[test]
fn kl_does_not_reach_the_teacher() {
    let (student, weight, labs, _tied, opts) = small();
    let teacher = Teacher::Separate {
        hidden: Mat::from_vec(3, 1, vec![0.4, -0.3, 0.9]),
        weight: Mat::from_vec(4, 1, vec![0.1, 0.2, -0.5, 0.3]),
    };
    let strong = LossOptions { teacher_ce_weight: Some(0.5), ..opts.clone() };
    let weak = LossOptions { kd_weight: 0.0, temperature: 3.0, ..strong.clone() };
    let a = distillation_loss(&student, &weight, &labs, &teacher, &strong).unwrap();
    let b = distillation_loss(&student, &weight, &labs, &teacher, &weak).unwrap();
    assert_eq!(a.teacher_ce, b.teacher_ce);
    assert_eq!(a.student_ce, b.student_ce);
    assert!(a.grad_teacher_hidden.is_some());
    assert_eq!(a.grad_teacher_hidden, b.grad_teacher_hidden);
    assert!(a.grad_teacher_weight.is_some());
    assert_eq!(a.grad_teacher_weight, b.grad_teacher_weight);
    assert_ne!(a.grad_student_hidden, b.grad_student_hidden);
}

#[test]
fn without_teacher_terms_another_teacher_gives_the_same() {
    let (student, weight, labs, teacher, opts) = small();
    let alone = LossOptions { kd_weight: 0.0, teacher_ce_weight: Some(0.0), ..opts };
    let other = Teacher::Precomputed { logits: Mat::from_vec(3, 4, vec![2.0; 12]) };
    let a = distillation_loss(&student, &weight, &labs, &teacher, &alone).unwrap();
    let b = distillation_loss(&student, &weight, &labs, &other, &alone).unwrap();
    assert_eq!(a.loss, b.loss);
    assert_eq!(a.grad_weight, b.grad_weight);
    assert_eq!(a.kl, 0.0);
    assert_eq!(a.teacher_ce, 0.0);
    assert!(a.grad_teacher_hidden.is_none() && a.grad_teacher_weight.is_none());
}

#[test]
fn ignored_rows_leave_no_trace() {
    let (student, weight, labs, teacher, opts) = small();
    let mut other = student.clone();
    other.row_mut(1).copy_from_slice(&[9.0, -9.0]);
    let a = distillation_loss(&student, &weight, &labs, &teacher, &opts).unwrap();
    let b = distillation_loss(&other, &weight, &labs, &teacher, &opts).unwrap();
    assert_eq!(a.loss, b.loss);
    assert_eq!(a.grad_weight, b.grad_weight);
    assert_eq!(a.grad_student_hidden, b.grad_student_hidden);
    assert_eq!(a.grad_student_hidden.row(1), &[0.0, 0.0]);
    assert_eq!(a.grad_teacher_hidden.unwrap().row(1), &[0.0, 0.0]);
    // With nothing left to count the mean divides by one.
    let c = distillation_loss(&student, &weight, &[-100; 3], &teacher, &opts).unwrap();
    assert_eq!(c.loss, 0.0);
    assert!(c.grad_weight.data.iter().all(|&g| g == 0.0));
}

#[test]
fn precomputed_logits_can_be_held_fixed() {
    let (student, weight, labs, _tied, opts) = small();
    let logits = Mat::from_vec(3, 4, fill(12, 5, 0.7));
    let teacher = Teacher::Precomputed { logits: logits.clone() };
    let live = forward_loss_f64(&student, &weight, &labs, &teacher, &opts, None).unwrap();
    let held = forward_loss_f64(&student, &weight, &labs, &teacher, &opts, Some(&logits)).unwrap();
    assert_eq!(live, held);
    assert_eq!(live, loss_only_f64(&student, &weight, &labs, &teacher, &opts).unwrap());
    assert_eq!(teacher_logits(&teacher, &weight), logits);
    // Other logits give another KL.
    let zeros = Mat::zeros::<Ieee>(3, 4);
    let moved = forward_loss_f64(&student, &weight, &labs, &teacher, &opts, Some(&zeros)).unwrap();
    assert_ne!(live, moved);
}

#[test]
fn chunk_plan_is_reported() {
    let (student, weight, labs, teacher, opts) = small();
    let by2 = LossOptions { chunk_size: ChunkSize::Fixed(2), ..opts.clone() };
    let out = distillation_loss(&student, &weight, &labs, &teacher, &by2).unwrap();
    assert_eq!(out.chunk_plan, ChunkPlan { chunk_size: 2, num_chunks: 2 });
    let out = distillation_loss(&student, &weight, &labs, &teacher, &opts).unwrap();
    assert_eq!(out.chunk_plan, ChunkPlan { chunk_size: 3, num_chunks: 1 });
}

#[test]
fn default_options() {
    let o = LossOptions::default();
    assert_eq!(o.student_ce_weight, 1.0);
    assert!(o.teacher_ce_weight.is_none());
    assert_eq!(o.kd_weight, 0.0);
    assert_eq!(o.temperature, 1.0);
    assert_eq!(o.ignore_index, -100);
    assert_eq!(o.label_smoothing, 0.0);
    assert_eq!(o.reduction, Reduction::Mean);
    assert_eq!(o.chunk_size, ChunkSize::Auto);
    assert_eq!(o.backend, Backend::Auto);
    assert_eq!(o.config, KernelConfig::default());
}

#[test]
fn even_logits_give_closed_form_cross_entropy() {
    let (nll, grad) = ce_fwdbwd_row::<Ieee>(&[0.0, 0.0], 0, -100, 0.0, 2.0);
    assert_eq!(nll, std::f64::consts::LN_2 as f32);
    assert_eq!(grad, vec![-1.0, 1.0]);
    // A weight of zero leaves the loss and drops the gradient.
    let (nll, grad) = ce_fwdbwd_row::<Ieee>(&[0.0, 0.0], 1, -100, 0.0, 0.0);
    assert_eq!(nll, std::f64::consts::LN_2 as f32);
    assert_eq!(grad, vec![0.0, 0.0]);
    // Smoothed over two classes: each gets 0.25, the target keeps 0.5.
    let (_nll, grad) = ce_fwdbwd_row::<Ieee>(&[0.0, 0.0], 0, -100, 0.5, 1.0);
    assert_eq!(grad, vec![-0.25, 0.25]);
}

#[test]
fn kl_kernel_without_gradient() {
    let logits = Mat::from_vec(2, 2, vec![0.0, 0.0, 0.0, 0.0]);
    let (kl, grad) = kl_chunk::<Ieee>(&logits, &[0], 1, 0.4, 1.5, -100, 1.0, false);
    assert_eq!(kl, 0.0);
    assert!(grad.is_none());
    let (p, log_p) = softmax_logsoftmax::<Ieee>(&[3.0, 3.0], 1.0);
    assert_eq!(p, vec![0.5, 0.5]);
    assert_eq!(log_p, vec![-std::f64::consts::LN_2; 2]);
}

#[test]
fn matrices_add_and_scale_in_place() {
    let mut m = Mat::from_vec(2, 2, vec![1.0, 2.0, 3.0, 4.0]);
    add_assign::<Ieee>(&mut m, &Mat::from_vec(2, 2, vec![0.5, 0.5, -1.0, 1.0]));
    assert_eq!(m.data, vec![1.5, 2.5, 2.0, 5.0]);
    scale_assign::<Ieee>(&mut m, 2.0);
    assert_eq!(m.data, vec![3.0, 5.0, 4.0, 10.0]);
    m.row_mut(0)[1] = 7.0;
    assert_eq!(m.get(0, 1), 7.0);
    assert_eq!(m.row(1), &[4.0, 10.0]);
}

#[test]
fn generator_draws_known_numbers() {
    let mut rng = Rng::new(0);
    assert_eq!(rng.next_u64(), 0x6e78_9e6a_a1b9_65f4);
    assert_eq!(rng.next_u64(), 0x06c4_5d18_8009_454f);
    let mut rng = Rng::new(12345);
    let unit = 1.0 / 16_777_216.0f32;
    assert_eq!(rng.next_f32::<Ieee>(), 3_436_252.0 * unit);
    assert_eq!(rng.next_f32::<Ieee>(), 2_005_591.0 * unit);
    assert_eq!(rng.next_f32::<Ieee>(), 2_954_766.0 * unit);
}

#[test]
fn codes_of_a_row() {
    // The scale is one, so the entries are rounded as they are, halves to even.
    let m = Mat::from_vec(1, 5, vec![127.0, -126.5, 64.0, 0.5, 1.5]);
    let q = quantize_rowwise_int8::<Ieee>(&m);
    assert_eq!(q.scale, vec![1.0]);
    assert_eq!(q.q, vec![127, -126, 64, 0, 2]);
    assert_eq!(q.dequantize::<Ieee>().data, vec![127.0, -126.0, 64.0, 0.0, 2.0]);
    // A row of zeros has the least scale.
    let q = quantize_rowwise_int8::<Ieee>(&Mat::zeros::<Ieee>(1, 2));
    assert_eq!(q.scale, vec![1e-12f32 / 127.0]);
    assert_eq!(q.q, vec![0, 0]);
    // 0.5 lies above a draw of 3436252 / 2^24, 0.1 below one of 2005591 / 2^24.
    let m = Mat::from_vec(1, 3, vec![0.5, 0.1, 127.0]);
    let q = quantize_rowwise_int8_stochastic::<Ieee>(&m, &mut Rng::new(12345));
    assert_eq!(q.q, vec![1, 0, 127]);
}

#[test]
fn stochastic_compression_is_reproducible() {
    let (student, weight, labs, teacher, opts) = small();
    let mut config = KernelConfig::default();
    config.quantize_grad_weight = true;
    config.stochastic_rounding = true;
    let run = |seed: Option<u64>| {
        let mut c = config;
        c.stochastic_seed = seed;
        let o = LossOptions { config: c, ..opts.clone() };
        distillation_loss(&student, &weight, &labs, &teacher, &o).unwrap()
    };
    assert_eq!(run(Some(7)).grad_weight, run(Some(7)).grad_weight);
    assert_eq!(run(None).grad_weight, run(Some(0)).grad_weight);
    // The rows of the targets are the exact ones.
    let exact = distillation_loss(&student, &weight, &labs, &teacher, &opts).unwrap();
    assert_eq!(run(Some(7)).grad_weight.row(1), exact.grad_weight.row(1));
    assert_eq!(run(Some(7)).grad_weight.row(3), exact.grad_weight.row(3));
    assert_eq!(run(Some(7)).loss, exact.loss);
}

#[test]
fn compressed_gradient_is_scaled_on_the_way_back() {
    let grad_w = Mat::from_vec(2, 1, vec![3.0, 127.0]);
    let g = quantize_grad_w::<Ieee>(&grad_w, &[0, 0, 5, -1], -100, None);
    assert_eq!(g.unique_targets, vec![0]);
    assert_eq!(g.target_rows, vec![3.0]);
    assert_eq!(dequantize_grad_w::<Ieee>(&g, 2.0).data, vec![6.0, 254.0]);
}

#[test]
fn tile_kernels_agree_with_the_reference() {
    let (n, v) = (3usize, 8usize);
    let x = fill(2 * n * v, 9, 1.0);
    let chunk = Mat::from_vec(2 * n, v, x.clone());
    let targets = [2i32, -100, 7];
    let wide: Vec<i64> = targets.iter().map(|&t| t as i64).collect();
    let (kd, temp, w_s, w_t, ls) = (0.4f32, 1.5f32, 1.0f32, 0.7f32, 0.1f32);
    for block in [1, 2, 4, 8] {
        let out = kl_ce_on_logits_chunk::<Ieee>(
            &x, &targets, n, v, block, 1.0 / temp, kd * temp, temp * temp, w_s, w_t, ls, -100,
            false, true,
        );
        let (kl, grad) = kl_chunk::<Ieee>(&chunk, &wide, n, kd, temp, -100, 1.0, true);
        let total: f32 = out.kl_per_row.iter().sum();
        assert!((total - kl).abs() < 1e-5, "{total} vs {kl}");
        assert_eq!(out.kl_per_row[1], 0.0);
        for (a, b) in out.grad_kl_student.iter().zip(grad.unwrap().data.iter()) {
            assert!((a - b).abs() < 1e-6);
        }
        for r in 0..2 * n {
            let scale = if r < n { w_s } else { w_t };
            let (nll, g) = ce_fwdbwd_row::<Ieee>(chunk.row(r), wide[r % n], -100, ls, scale);
            assert!((out.ce_loss[r] - nll).abs() < 1e-5);
            for j in 0..v {
                assert!((out.grad_ce[r * v + j] - g[j]).abs() < 1e-6);
            }
        }
    }
}

#[test]
fn tile_kernels_can_leave_out_the_teacher_and_the_kl() {
    let x = fill(2 * 2 * 4, 3, 1.0);
    let out = kl_ce_on_logits_chunk::<Ieee>(
        &x, &[0, 3], 2, 4, 2, 1.0, 1.0, 1.0, 1.0, 1.0, 0.0, -100, true, false,
    );
    assert_eq!(out.ce_loss.len(), 2);
    assert_eq!(out.grad_ce.len(), 8);
    assert_eq!(out.kl_per_row, vec![0.0; 2]);
    assert_eq!(out.grad_kl_student, vec![0.0; 8]);
}

#[test]
fn chunks_change_no_bit() {
    let (bt, h, v) = (17usize, 5usize, 9usize);
    let student = Mat::from_vec(bt, h, fill(bt * h, 41, 0.3));
    let weight = Mat::from_vec(v, h, fill(v * h, 42, 0.2));
    let labs = labels(bt, v, Some(3), -100);
    let teachers = [
        Teacher::Tied { hidden: Mat::from_vec(bt, h, fill(bt * h, 43, 0.3)) },
        Teacher::Separate {
            hidden: Mat::from_vec(bt, 3, fill(bt * 3, 44, 0.3)),
            weight: Mat::from_vec(v, 3, fill(v * 3, 45, 0.2)),
        },
        Teacher::Precomputed { logits: Mat::from_vec(bt, v, fill(bt * v, 46, 0.5)) },
    ];
    for teacher in &teachers {
        let run = |chunk_size: ChunkSize, max_chunks: Option<usize>| {
            let mut config = KernelConfig::default();
            config.max_chunks = max_chunks;
            let opts = LossOptions {
                chunk_size,
                config,
                teacher_ce_weight: Some(0.7),
                ..base_opts()
            };
            distillation_loss(&student, &weight, &labs, teacher, &opts).unwrap()
        };
        let full = run(ChunkSize::Fixed(bt), None);
        for other in [
            run(ChunkSize::Fixed(1), None),
            run(ChunkSize::Fixed(2), None),
            run(ChunkSize::Fixed(5), None),
            run(ChunkSize::Auto, Some(4)),
        ] {
            assert_eq!(full.loss.to_bits(), other.loss.to_bits());
            assert_eq!(full.student_ce.to_bits(), other.student_ce.to_bits());
            assert_eq!(full.teacher_ce.to_bits(), other.teacher_ce.to_bits());
            assert_eq!(full.kl.to_bits(), other.kl.to_bits());
            assert_eq!(full.grad_student_hidden, other.grad_student_hidden);
            assert_eq!(full.grad_weight, other.grad_weight);
            assert_eq!(full.grad_teacher_hidden, other.grad_teacher_hidden);
            assert_eq!(full.grad_teacher_weight, other.grad_teacher_weight);
        }
    }
}

#[test]
fn ignored_rows_of_the_teacher_leave_no_trace() {
    let (student, weight, labs, _tied, opts) = small();
    let opts = LossOptions { teacher_ce_weight: Some(0.5), ..opts };
    let hidden = Mat::from_vec(3, 2, vec![0.3, 0.3, -0.2, 0.5, 0.6, -0.1]);
    let logits = Mat::from_vec(3, 4, fill(12, 5, 0.7));
    let mut other_hidden = hidden.clone();
    other_hidden.row_mut(1).copy_from_slice(&[8.0, -8.0]);
    let mut other_logits = logits.clone();
    other_logits.row_mut(1).copy_from_slice(&[5.0, 4.0, -3.0, 2.0]);
    let own = || Mat::from_vec(4, 2, fill(8, 6, 0.4));
    let pairs = [
        (Teacher::Tied { hidden: hidden.clone() }, Teacher::Tied { hidden: other_hidden.clone() }),
        (
            Teacher::Separate { hidden, weight: own() },
            Teacher::Separate { hidden: other_hidden, weight: own() },
        ),
        (Teacher::Precomputed { logits }, Teacher::Precomputed { logits: other_logits }),
    ];
    for (a, b) in &pairs {
        let x = distillation_loss(&student, &weight, &labs, a, &opts).unwrap();
        let y = distillation_loss(&student, &weight, &labs, b, &opts).unwrap();
        assert_eq!(x.loss, y.loss);
        assert_eq!(x.kl, y.kl);
        assert_eq!(x.teacher_ce, y.teacher_ce);
        assert_eq!(x.grad_weight, y.grad_weight);
        assert_eq!(x.grad_teacher_hidden, y.grad_teacher_hidden);
        assert_eq!(x.grad_teacher_weight, y.grad_teacher_weight);
    }
    // The ignored label may be a class.
    let zero = LossOptions { ignore_index: 1, ..opts };
    let a = distillation_loss(&student, &weight, &[0, 1, 3], &pairs[0].0, &zero).unwrap();
    let b = distillation_loss(&student, &weight, &[0, 1, 3], &pairs[0].1, &zero).unwrap();
    assert_eq!(a.loss, b.loss);
    assert_eq!(a.grad_weight, b.grad_weight);
}

#[test]
fn fixed_logits_replace_the_teacher_in_the_kl() {
    let (student, weight, labs, teacher, opts) = small();
    let opts = LossOptions { teacher_ce_weight: Some(0.0), ..opts };
    let fixed = Mat::from_vec(3, 4, fill(12, 5, 0.7));
    let other = Teacher::Separate {
        hidden: Mat::from_vec(3, 1, vec![0.4, -0.3, 0.9]),
        weight: Mat::from_vec(4, 1, vec![0.1, 0.2, -0.5, 0.3]),
    };
    let a = forward_loss_f64(&student, &weight, &labs, &teacher, &opts, Some(&fixed)).unwrap();
    let b = forward_loss_f64(&student, &weight, &labs, &other, &opts, Some(&fixed)).unwrap();
    assert_eq!(a, b);
    // Rows that are ignored are not read, so the logits may end before them.
    let short = Mat::from_vec(1, 4, fixed.row(0).to_vec());
    let labs = [1, -100, -100];
    let c = forward_loss_f64(&student, &weight, &labs, &teacher, &opts, Some(&fixed)).unwrap();
    let d = forward_loss_f64(&student, &weight, &labs, &teacher, &opts, Some(&short)).unwrap();
    assert_eq!(c, d);
}
