//! The loss in fixed point, where sums are exact.

use orda::arith::Arith;
use orda::fixed::{Fixed, ONE};
use orda::launch::kl_ce_on_logits_chunk;
use orda::quant::{quantize_rowwise_int8, quantize_rowwise_int8_stochastic, Rng};
use orda::reference::cross_entropy::{ce_fwdbwd_row, ce_loss_row};
use orda::reference::kl::{forward_kl_row, kl_chunk};
use orda::{
    distillation_loss, forward_loss_f64, loss_only_f64, teacher_logits, ChunkSize,
    DistillationLossOutput, KernelConfig, Reduction,
};

type Mat = orda::Mat<i64>;
type Teacher = orda::Teacher<Fixed>;
type LossOptions = orda::LossOptions<Fixed>;

/// Deterministic numbers between minus one half and one half.
fn fill(n: usize, seed: u64) -> Vec<i64> {
    let mut s = seed.wrapping_mul(2862933555777941757).wrapping_add(3037000493);
    (0..n)
        .map(|_| {
            s = s.wrapping_mul(6364136223846793005).wrapping_add(1442695040888963407);
            (s >> 32) as i64 - ONE / 2
        })
        .collect()
}

#[test]
fn products_and_quotients_round_towards_zero() {
    let half = ONE / 2;
    assert_eq!(Fixed::fmul(3 * ONE, half), 3 * half);
    assert_eq!(Fixed::fmul(-1, half), 0);
    assert_eq!(Fixed::fdiv(ONE, 3 * ONE), ONE / 3);
    assert_eq!(Fixed::fdiv(-ONE, 3 * ONE), -(ONE / 3));
    assert_eq!(Fixed::fdiv(ONE, 0), 0);
    assert_eq!(Fixed::fmul(i64::MAX, i64::MAX), i64::MAX);
    assert_eq!(Fixed::fmul(i64::MAX, i64::MIN), i64::MIN);
    assert_eq!(Fixed::fint(1 << 40), i64::MAX);
    assert_eq!(Fixed::fint(-7), -7 * ONE);
}

#[test]
fn numbers_are_floored_and_truncated() {
    let x = -5 * ONE / 2;
    assert_eq!(Fixed::ffloor(x), -3 * ONE);
    assert_eq!(Fixed::fto_i64(x), -2);
    assert_eq!(Fixed::fto_i8(300 * ONE), 127);
    assert_eq!(Fixed::fto_i8(-300 * ONE), -128);
    assert_eq!(Fixed::fabs(i64::MIN), i64::MAX);
    assert_eq!(Fixed::fabs(x), -x);
}

#[test]
fn exponentials_and_logarithms() {
    assert_eq!(Fixed::dexp(0), ONE);
    assert_eq!(Fixed::dexp(ONE), 12_392_656_038);
    assert_eq!(Fixed::dexp(-ONE), 1_672_143_467);
    assert_eq!(Fixed::dexp(100 * ONE), i64::MAX);
    assert_eq!(Fixed::dexp(-100 * ONE), 0);
    assert_eq!(Fixed::dln(ONE), 0);
    assert_eq!(Fixed::dln(2 * ONE), 2_977_044_472);
    assert_eq!(Fixed::dln(3 * ONE), 4_465_566_708);
    assert_eq!(Fixed::dln(ONE / 2), -2_977_044_472);
    assert_eq!(Fixed::dln(0), i64::MIN);
}

#[test]
fn sums_are_exact() {
    let (a, b, c) = (i64::MAX, 5, i64::MIN + 3);
    assert_eq!(Fixed::fadd(Fixed::fadd(a, b), c), Fixed::fadd(a, Fixed::fadd(b, c)));
    assert_eq!(Fixed::fsub(Fixed::fadd(a, b), b), a);
}

#[test]
fn chunks_change_nothing_at_all() {
    let (bt, h, v) = (16usize, 3usize, 9usize);
    let student = Mat::from_vec(bt, h, fill(bt * h, 41));
    let weight = Mat::from_vec(v, h, fill(v * h, 42));
    let labs: Vec<i64> =
        (0..bt).map(|i| if i % 3 == 0 { -100 } else { (i * 7 + 3) as i64 % v as i64 }).collect();
    let teachers = [
        Teacher::Tied { hidden: Mat::from_vec(bt, h, fill(bt * h, 43)) },
        Teacher::Separate {
            hidden: Mat::from_vec(bt, 2, fill(bt * 2, 44)),
            weight: Mat::from_vec(v, 2, fill(v * 2, 45)),
        },
    ];
    for teacher in &teachers {
        let run = |chunk_size: ChunkSize, max_chunks: Option<usize>| {
            let mut config = KernelConfig::default();
            config.max_chunks = max_chunks;
            let opts = LossOptions {
                chunk_size,
                config,
                teacher_ce_weight: Some(ONE),
                kd_weight: ONE / 2,
                temperature: 3 * ONE / 2,
                ..Default::default()
            };
            distillation_loss(&student, &weight, &labs, teacher, &opts).unwrap()
        };
        let full: DistillationLossOutput<i64> = run(ChunkSize::Fixed(bt), None);
        assert_ne!(full.loss, 0);
        assert_ne!(full.kl, 0);
        for other in [
            run(ChunkSize::Fixed(1), None),
            run(ChunkSize::Fixed(3), None),
            run(ChunkSize::Auto, Some(4)),
        ] {
            assert_eq!(full.loss, other.loss);
            assert_eq!(full.student_ce, other.student_ce);
            assert_eq!(full.teacher_ce, other.teacher_ce);
            assert_eq!(full.kl, other.kl);
            assert_eq!(full.grad_student_hidden, other.grad_student_hidden);
            assert_eq!(full.grad_weight, other.grad_weight);
            assert_eq!(full.grad_teacher_hidden, other.grad_teacher_hidden);
            assert_eq!(full.grad_teacher_weight, other.grad_teacher_weight);
        }
    }
}

#[test]
fn a_row_diverges_from_itself_by_nothing() {
    let row = fill(7, 8);
    assert_eq!(forward_kl_row::<Fixed>(&row, &row, 3 * ONE / 2), 0);
}

#[test]
fn tile_widths_change_nothing_at_all() {
    let (n, v) = (2usize, 12usize);
    let x = fill(2 * n * v, 6);
    let run = |block: usize| {
        kl_ce_on_logits_chunk::<Fixed>(
            &x,
            &[5, 0],
            n,
            v,
            block,
            2 * ONE / 3,
            ONE,
            9 * ONE / 4,
            ONE,
            ONE / 2,
            ONE / 10,
            -100,
            false,
            true,
        )
    };
    let whole = run(v);
    for block in [1, 2, 3, 4, 6] {
        let cut = run(block);
        assert_eq!(whole.kl_per_row, cut.kl_per_row);
        assert_eq!(whole.grad_kl_student, cut.grad_kl_student);
        assert_eq!(whole.ce_loss, cut.ce_loss);
        assert_eq!(whole.grad_ce, cut.grad_ce);
    }
}

#[test]
fn both_ways_give_the_same_sum() {
    let (bt, h, v) = (5usize, 3usize, 4usize);
    let student = Mat::from_vec(bt, h, fill(bt * h, 1));
    let weight = Mat::from_vec(v, h, fill(v * h, 2));
    let teacher = Teacher::Tied { hidden: Mat::from_vec(bt, h, fill(bt * h, 3)) };
    let labs = [2i64, -100, 0, 3, 1];
    let opts = LossOptions {
        kd_weight: ONE / 3,
        temperature: 2 * ONE,
        label_smoothing: ONE / 8,
        reduction: Reduction::Sum,
        chunk_size: ChunkSize::Fixed(2),
        ..Default::default()
    };
    let out = distillation_loss(&student, &weight, &labs, &teacher, &opts).unwrap();
    assert_ne!(out.loss, 0);
    assert_eq!(out.loss, loss_only_f64(&student, &weight, &labs, &teacher, &opts).unwrap());
    // The teacher's logits, held fixed at what they are, change nothing.
    let fixed = teacher_logits(&teacher, &weight);
    let held = forward_loss_f64(&student, &weight, &labs, &teacher, &opts, Some(&fixed)).unwrap();
    assert_eq!(out.loss, held);
}

#[test]
fn codes_are_off_by_half_a_step() {
    let m = Mat::from_vec(1, 40, fill(40, 7));
    let q = quantize_rowwise_int8::<Fixed>(&m);
    let s = q.scale[0];
    assert_eq!(s, m.data.iter().map(|x| x.abs()).max().unwrap() / 127);
    for (x, y) in m.data.iter().zip(q.dequantize::<Fixed>().data.iter()) {
        assert!(2 * (x - y).abs() <= s + s / (1 << 31) + 255);
    }
}

#[test]
fn fractions_above_the_draw_are_rounded_up() {
    // The step is one, and the draws are 3436252, 2005591 and 2954766 units of 2^-24.
    let row = vec![3_436_252 * 256, 2_005_591 * 256 + 1, -ONE + 2_954_766 * 256, 127 * ONE];
    let q = quantize_rowwise_int8_stochastic::<Fixed>(&Mat::from_vec(1, 4, row), &mut Rng::new(12345));
    assert_eq!(q.scale, vec![ONE]);
    assert_eq!(q.q, vec![0, 1, -1, 127]);
}

#[test]
fn gradients_scale_with_the_weight() {
    let x = fill(6, 9);
    let (n1, g1) = ce_fwdbwd_row::<Fixed>(&x, 4, -100, ONE / 10, ONE);
    for scale in [0, 5 * ONE / 2, -ONE / 3] {
        let (n, g) = ce_fwdbwd_row::<Fixed>(&x, 4, -100, ONE / 10, scale);
        assert_eq!(n, n1);
        for j in 0..x.len() {
            assert_eq!(g[j], Fixed::dmul(g1[j], scale));
        }
    }
}

#[test]
fn gradients_add_up_to_nothing() {
    let x = fill(50, 11);
    for alpha in [0, ONE / 10, ONE] {
        let (_n, g) = ce_fwdbwd_row::<Fixed>(&x, 17, -100, alpha, ONE);
        let sum: i64 = g.iter().sum();
        assert!(sum.abs() <= 50, "{sum}");
    }
}

#[test]
fn stochastic_codes_are_off_by_a_step() {
    let m = Mat::from_vec(1, 40, fill(40, 7));
    let mut rng = Rng::new(3);
    let q = quantize_rowwise_int8_stochastic::<Fixed>(&m, &mut rng);
    assert_eq!(q.scale, quantize_rowwise_int8::<Fixed>(&m).scale);
    let s = q.scale[0];
    for (i, (x, y)) in m.data.iter().zip(q.dequantize::<Fixed>().data.iter()).enumerate() {
        assert!((x - y).abs() <= s + s / ONE + 127);
        let floor = Fixed::fdiv(*x, s).div_euclid(ONE);
        let code = q.q[i] as i64;
        assert!(code == floor.clamp(-127, 127) || code == (floor + 1).clamp(-127, 127));
    }
    // Forty entries take forty draws.
    let mut other = Rng::new(3);
    for _ in 0..40 {
        other.next_u64();
    }
    assert_eq!(rng.next_u64(), other.next_u64());
}

#[test]
fn tiled_cross_entropy_is_that_of_the_reference() {
    let (n, v) = (1usize, 12usize);
    let x = fill(2 * n * v, 6);
    for alpha in [0, ONE / 10] {
        for block in [1, 3, 12] {
            let out = kl_ce_on_logits_chunk::<Fixed>(
                &x, &[5], n, v, block, ONE, ONE, ONE, ONE, ONE, alpha, -100, false, false,
            );
            assert_eq!(out.ce_loss[0], ce_loss_row::<Fixed>(&x[..v], 5, -100, alpha));
            assert_eq!(out.ce_loss[1], ce_loss_row::<Fixed>(&x[v..], 5, -100, alpha));
        }
    }
}

#[test]
fn sum_is_nearly_the_mean_times_the_tokens() {
    let (bt, h, v) = (7usize, 3usize, 6usize);
    let student = Mat::from_vec(bt, h, fill(bt * h, 21));
    let weight = Mat::from_vec(v, h, fill(v * h, 22));
    let teacher = Teacher::Separate {
        hidden: Mat::from_vec(bt, 2, fill(bt * 2, 23)),
        weight: Mat::from_vec(v, 2, fill(v * 2, 24)),
    };
    let labs = [0i64, 1, -100, 3, 4, 5, 2];
    let run = |reduction: Reduction| {
        let opts = LossOptions {
            reduction,
            teacher_ce_weight: Some(ONE),
            kd_weight: ONE / 2,
            temperature: 3 * ONE / 2,
            ..Default::default()
        };
        let out = distillation_loss(&student, &weight, &labs, &teacher, &opts).unwrap();
        (out, loss_only_f64(&student, &weight, &labs, &teacher, &opts).unwrap())
    };
    let ((mean, mean_value), (sum, sum_value)) = (run(Reduction::Mean), run(Reduction::Sum));
    let near = |s: i64, m: i64| (s - 6 * m).abs() <= 6 * (s.abs() / ONE + 2);
    assert!(near(sum.loss, mean.loss) && near(sum.kl, mean.kl));
    assert!(near(sum.student_ce, mean.student_ce) && near(sum.teacher_ce, mean.teacher_ce));
    let rows = |a: &Mat, b: &Mat| a.data.iter().zip(b.data.iter()).all(|(&s, &m)| near(s, m));
    assert!(rows(&sum.grad_student_hidden, &mean.grad_student_hidden));
    assert!(rows(&sum.grad_weight, &mean.grad_weight));
    assert!(rows(&sum.grad_teacher_hidden.unwrap(), &mean.grad_teacher_hidden.unwrap()));
    assert!(rows(&sum.grad_teacher_weight.unwrap(), &mean.grad_teacher_weight.unwrap()));
    // The value alone.
    assert_eq!(sum.loss, sum_value);
    assert!((mean.loss - mean_value).abs() <= sum.loss.abs() / ONE + 2);
}

#[test]
fn compressed_gradients_are_off_by_a_step() {
    let (bt, h, v) = (3usize, 4usize, 9usize);
    let student = Mat::from_vec(bt, h, fill(bt * h, 31));
    let weight = Mat::from_vec(v, h, fill(v * h, 32));
    let teacher = Teacher::Tied { hidden: Mat::from_vec(bt, h, fill(bt * h, 33)) };
    let labs = [0i64, 8, 4];
    let run = |quantize: bool, stochastic: bool| {
        let mut config = KernelConfig::default();
        config.quantize_grad_weight = quantize;
        config.stochastic_rounding = stochastic;
        let opts = LossOptions { config, ..Default::default() };
        distillation_loss(&student, &weight, &labs, &teacher, &opts).unwrap().grad_weight
    };
    let exact = run(false, false);
    for stochastic in [false, true] {
        let lossy = run(true, stochastic);
        for r in 0..v {
            let s = exact.row(r).iter().map(|x| x.abs()).max().unwrap() / 127;
            for c in 0..h {
                assert!((lossy.get(r, c) - exact.get(r, c)).abs() <= s + s / ONE + 127);
            }
        }
        for &t in &labs {
            assert_eq!(lossy.row(t as usize), exact.row(t as usize));
        }
    }
}

#[test]
fn tiled_kernels_are_near_the_reference() {
    let v = 12usize;
    let x: Vec<i64> = fill(2 * v, 31).iter().map(|&z| 6 * z).collect();
    let (student, teacher) = x.split_at(v);
    let (temperature, weight, alpha) = (3 * ONE / 2, 40 * ONE, ONE / 10);
    let inv_t = Fixed::fdiv(ONE, temperature);
    let t_sq = Fixed::fmul(temperature, temperature);
    let factor = Fixed::fdiv(Fixed::fmul(weight, temperature), ONE);
    let chunk = Mat::from_vec(2, v, x.clone());
    for y in [5i32, -100] {
        let (kl, grad_kl) =
            kl_chunk::<Fixed>(&chunk, &[y as i64], 1, weight, temperature, -100, ONE, true);
        let grad_kl = grad_kl.unwrap();
        let (_loss, grad_ce) = ce_fwdbwd_row::<Fixed>(student, y as i64, -100, alpha, weight);
        for block in [1, 4, 12] {
            let out = kl_ce_on_logits_chunk::<Fixed>(
                &x, &[y], 1, v, block, inv_t, factor, t_sq, weight, weight, alpha, -100, false, true,
            );
            // Logits over the temperature are at most two in magnitude.
            assert!((out.kl_per_row[0] - kl).abs() <= 12 * (4 + 30) * t_sq / ONE + 1);
            for j in 0..v {
                assert!((out.grad_ce[j] - grad_ce[j]).abs() <= 41);
                assert!((out.grad_kl_student[j] - grad_kl.data[j]).abs() <= 61);
            }
            if y == -100 {
                assert_eq!(out.kl_per_row[0], kl);
                assert_eq!(&out.grad_ce[..v], &grad_ce[..]);
                assert_eq!(out.grad_kl_student, grad_kl.data);
            } else {
                let row = forward_kl_row::<Fixed>(student, teacher, temperature);
                assert!(kl > 0 && kl == Fixed::fmul(row, t_sq));
                assert_ne!(&out.grad_ce[..v], &[0i64; 12][..]);
            }
        }
    }
}
